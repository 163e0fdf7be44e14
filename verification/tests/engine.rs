use p12crack::bruteforce::BruteforceCracker;
use p12crack::enumerate::{candidate_at, checked_space, enumerate_all, global_candidate};
use p12crack::hashing::{fnv1a, hash_batch, pack_batch};
use p12crack::partition::partition_space;
use p12crack::result_cell::CrackResult;

fn chars(s: &str) -> Vec<char> {
    s.chars().collect()
}

// Independent round-by-round FNV-1a reimplementation for cross-checking.
fn reference_fnv1a(data: &[u8]) -> u32 {
    let mut h: u32 = 2166136261;
    for &b in data {
        h ^= b as u32;
        h = h.wrapping_mul(16777619);
    }
    h
}

#[test]
fn enumeration_count_and_distinctness() {
    // |C| = 2, lengths 1..=3: exactly 2 + 4 + 8 = 14 candidates.
    let cs = chars("ab");
    let all = enumerate_all(&cs, 1, 3);
    assert_eq!(all.len(), 14);
    for i in 0..all.len() {
        for j in 0..i {
            assert_ne!(all[i], all[j], "duplicate candidate at {} and {}", i, j);
        }
    }
    let expected: Vec<Vec<char>> = ["a", "b", "aa", "ab", "ba", "bb"]
        .iter()
        .map(|s| chars(s))
        .collect();
    assert_eq!(&all[..6], &expected[..]);
}

#[test]
fn enumeration_has_no_omissions() {
    // Every string over {x, y, z} of length 1 or 2 appears.
    let cs = chars("xyz");
    let all = enumerate_all(&cs, 1, 2);
    assert_eq!(all.len(), 3 + 9);
    for a in ['x', 'y', 'z'] {
        assert!(all.contains(&vec![a]));
        for b in ['x', 'y', 'z'] {
            assert!(all.contains(&vec![a, b]));
        }
    }
}

#[test]
fn index_derivation_matches_materialized_order() {
    // Deriving the candidate at index i directly equals the i-th element of
    // the fully materialized ordered sequence, built here independently by
    // odometer counting.
    let cs = chars("abc");
    let all = enumerate_all(&cs, 1, 3);
    let mut odometer: Vec<Vec<char>> = Vec::new();
    for len in 1..=3usize {
        let mut digits = vec![0usize; len];
        loop {
            odometer.push(digits.iter().map(|&d| ['a', 'b', 'c'][d]).collect());
            let mut pos = len;
            loop {
                if pos == 0 {
                    break;
                }
                pos -= 1;
                digits[pos] += 1;
                if digits[pos] < 3 {
                    break;
                }
                digits[pos] = 0;
            }
            if digits.iter().all(|&d| d == 0) {
                break;
            }
        }
    }
    assert_eq!(all.len(), odometer.len());
    for (i, expect) in odometer.iter().enumerate() {
        assert_eq!(&all[i], expect, "mismatch at global index {}", i);
        assert_eq!(&global_candidate(&cs, 1, 3, i as u64), expect);
    }
}

#[test]
fn per_length_derivation_is_positional() {
    let cs = chars("ab");
    assert_eq!(candidate_at(&cs, 2, 0), chars("aa"));
    assert_eq!(candidate_at(&cs, 2, 1), chars("ab"));
    assert_eq!(candidate_at(&cs, 2, 2), chars("ba"));
    assert_eq!(candidate_at(&cs, 2, 3), chars("bb"));
    assert_eq!(candidate_at(&cs, 3, 5), chars("bab"));
}

#[test]
fn space_sizing_is_exact() {
    assert_eq!(checked_space(2, 1, 3), Some(14));
    assert_eq!(checked_space(26, 1, 1), Some(26));
    assert_eq!(checked_space(10, 2, 3), Some(1100));
    assert_eq!(checked_space(1, 1, 5), Some(5));
}

#[test]
fn space_sizing_reports_overflow() {
    // |C| = 62, lengths 1..=20 exceeds a 64-bit count and must be rejected,
    // not silently wrapped.
    assert_eq!(checked_space(62, 1, 20), None);
    assert_eq!(checked_space(2, 1, 64), None);
}

#[test]
fn partitions_are_disjoint_and_cover_the_space() {
    for (total, workers) in [(14u64, 4u64), (5, 8), (100, 7), (0, 3), (1, 1)] {
        let parts = partition_space(total, workers);
        assert_eq!(parts.len() as u64, workers);
        assert_eq!(parts[0].0, 0);
        assert_eq!(parts[parts.len() - 1].1, total);
        for k in 0..parts.len() {
            assert!(parts[k].0 <= parts[k].1);
            if k + 1 < parts.len() {
                assert_eq!(parts[k].1, parts[k + 1].0);
            }
            let size = parts[k].1 - parts[k].0;
            let base = total / workers;
            assert!(size == base || size == base + 1);
        }
    }
}

#[test]
fn partition_of_fourteen_into_four() {
    let parts = partition_space(14, 4);
    assert_eq!(parts, vec![(0, 4), (4, 8), (8, 11), (11, 14)]);
}

#[test]
fn result_cell_first_report_wins() {
    let mut cell = CrackResult::new();
    assert!(!cell.is_found());
    assert!(cell.try_report_success(chars("one")));
    assert!(cell.is_found());
    assert_eq!(cell.password, Some(chars("one")));
    assert!(!cell.try_report_success(chars("two")));
    assert!(cell.is_found());
    assert_eq!(cell.password, Some(chars("one")));
}

#[test]
fn result_cell_exactly_one_grant_among_many() {
    // K simultaneous callers, serialized by the cell's mutual exclusion:
    // exactly one is granted, and the cell retains the first password.
    let mut cell = CrackResult::new();
    let mut granted = 0;
    for k in 0..5 {
        if cell.try_report_success(chars(&format!("pw{}", k))) {
            granted += 1;
        }
    }
    assert_eq!(granted, 1);
    assert!(cell.is_found());
    assert_eq!(cell.password, Some(chars("pw0")));
}

#[test]
fn cracker_new_keeps_parameters() {
    let cracker = BruteforceCracker::new(1, 3, String::from("abc"));
    assert_eq!(cracker.min_len, 1);
    assert_eq!(cracker.max_len, 3);
    assert_eq!(cracker.charset, chars("abc"));
}

#[test]
fn fnv1a_known_digests() {
    assert_eq!(fnv1a(&Vec::new()), 2166136261);
    assert_eq!(fnv1a(&b"a".to_vec()), 0xe40c292c);

    for s in ["", "a", "ab", "hello world", "p12crack"] {
        assert_eq!(fnv1a(&s.as_bytes().to_vec()), reference_fnv1a(s.as_bytes()));
    }
}

#[test]
fn hash_batch_is_order_preserving() {
    let lines: Vec<Vec<u8>> = vec![b"one".to_vec(), b"two".to_vec(), b"".to_vec()];
    let hashes = hash_batch(&lines);
    assert_eq!(hashes.len(), 3);
    assert_eq!(hashes[0], fnv1a(&lines[0]));
    assert_eq!(hashes[1], fnv1a(&lines[1]));
    assert_eq!(hashes[2], 2166136261);
}

#[test]
fn pack_batch_flattens_with_offsets() {
    let lines: Vec<Vec<u8>> = vec![b"ab".to_vec(), b"c".to_vec(), b"".to_vec(), b"def".to_vec()];
    let (data, offsets, lengths) = pack_batch(&lines);
    assert_eq!(data, b"abcdef".to_vec());
    assert_eq!(offsets, vec![0, 2, 3, 3]);
    assert_eq!(lengths, vec![2, 1, 0, 3]);
}
