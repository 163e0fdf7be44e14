//! The demonstration hashing mode: the 32-bit FNV-1a digest of each string
//! in a batch, and the flat packing of a batch that a parallel accelerator
//! kernel consumes. The digest here is the cheap per-candidate proxy that an
//! accelerated prefilter screens with; it decides nothing about the search's
//! outcome.

use vstd::prelude::*;

verus! {

/// The FNV-1a offset basis.
pub const FNV_OFFSET: u32 = 2166136261;

/// The FNV-1a prime.
pub const FNV_PRIME: u32 = 16777619;

/// One FNV-1a round: fold one byte into the running hash.
pub open spec fn fnv1a_step(h: u32, byte: u8) -> u32 {
    (((h ^ byte as u32) as nat * FNV_PRIME as nat) % 0x100000000) as u32
}

/// The 32-bit FNV-1a digest of a byte string.
pub open spec fn fnv1a_spec(s: Seq<u8>) -> u32
    decreases s.len(),
{
    if s.len() == 0 {
        FNV_OFFSET
    } else {
        fnv1a_step(fnv1a_spec(s.drop_last()), s.last())
    }
}

/// Computes the 32-bit FNV-1a digest of one byte string.
pub fn fnv1a(data: &Vec<u8>) -> (r: u32)
    ensures
        r == fnv1a_spec(data@),
{
    let mut h: u32 = FNV_OFFSET;
    let mut i: usize = 0;
    while i < data.len()
        invariant
            i <= data@.len(),
            h == fnv1a_spec(data@.take(i as int)),
        decreases data@.len() - i,
    {
        h = h ^ data[i] as u32;
        h = h.wrapping_mul(FNV_PRIME);
        proof {
            let t = data@.take(i as int + 1);
            assert(t.drop_last() =~= data@.take(i as int));
            assert(t.last() == data@[i as int]);
        }
        i = i + 1;
    }
    proof {
        assert(data@.take(data@.len() as int) =~= data@);
    }
    h
}

/// Digests a whole batch, order-preserving, one digest per input string.
pub fn hash_batch(lines: &Vec<Vec<u8>>) -> (r: Vec<u32>)
    ensures
        r@.len() == lines@.len(),
        forall|k: int| 0 <= k < lines@.len() ==> r@[k] == fnv1a_spec(lines@[k]@),
{
    let mut out: Vec<u32> = Vec::new();
    let mut k: usize = 0;
    while k < lines.len()
        invariant
            k <= lines@.len(),
            out@.len() == k,
            forall|j: int| 0 <= j < k ==> out@[j] == fnv1a_spec(lines@[j]@),
        decreases lines@.len() - k,
    {
        let h = fnv1a(&lines[k]);
        out.push(h);
        k = k + 1;
    }
    out
}

/// Total number of bytes in the first `k` strings of a batch.
pub open spec fn flat_len(lines: Seq<Seq<u8>>, k: int) -> int
    decreases k,
{
    if k <= 0 {
        0
    } else {
        flat_len(lines, k - 1) + lines[k - 1].len()
    }
}

/// Earlier prefixes of a batch pack into no more bytes than later ones.
proof fn lemma_flat_len_monotone(lines: Seq<Seq<u8>>, a: int, b: int)
    requires
        0 <= a <= b,
    ensures
        flat_len(lines, a) <= flat_len(lines, b),
    decreases b - a,
{
    if a < b {
        lemma_flat_len_monotone(lines, a, b - 1);
    }
}

/// Flattens a batch for a parallel kernel: one contiguous byte buffer, plus
/// the offset and length of each string in it, order-preserving.
pub fn pack_batch(lines: &Vec<Vec<u8>>) -> (r: (Vec<u8>, Vec<usize>, Vec<usize>))
    ensures
        r.0@.len() == flat_len(lines@.map_values(|l: Vec<u8>| l@), lines@.len() as int),
        r.1@.len() == lines@.len(),
        r.2@.len() == lines@.len(),
        forall|k: int|
            0 <= k < lines@.len() ==> r.1@[k] == flat_len(
                lines@.map_values(|l: Vec<u8>| l@),
                k,
            ),
        forall|k: int| 0 <= k < lines@.len() ==> r.2@[k] == lines@[k]@.len(),
        forall|k: int, j: int|
            0 <= k < lines@.len() && 0 <= j < lines@[k]@.len() ==> r.0@[r.1@[k] + j]
                == lines@[k]@[j],
{
    let ghost views = lines@.map_values(|l: Vec<u8>| l@);
    let mut data: Vec<u8> = Vec::new();
    let mut offsets: Vec<usize> = Vec::new();
    let mut lengths: Vec<usize> = Vec::new();
    let mut k: usize = 0;
    while k < lines.len()
        invariant
            k <= lines@.len(),
            views == lines@.map_values(|l: Vec<u8>| l@),
            data@.len() == flat_len(views, k as int),
            offsets@.len() == k,
            lengths@.len() == k,
            forall|i: int| 0 <= i < k ==> offsets@[i] == flat_len(views, i),
            forall|i: int| 0 <= i < k ==> lengths@[i] == lines@[i]@.len(),
            forall|i: int, j: int|
                0 <= i < k && 0 <= j < lines@[i]@.len() ==> data@[offsets@[i] + j]
                    == lines@[i]@[j],
        decreases lines@.len() - k,
    {
        offsets.push(data.len());
        lengths.push(lines[k].len());
        let mut j: usize = 0;
        let ghost data0 = data@;
        while j < lines[k].len()
            invariant
                k < lines@.len(),
                j <= lines@[k as int]@.len(),
                data@ == data0 + lines@[k as int]@.take(j as int),
            decreases lines@[k as int]@.len() - j,
        {
            let b = lines[k][j];
            data.push(b);
            proof {
                assert(data0 + lines@[k as int]@.take(j as int + 1) =~= (data0 + lines@[
                    k as int
                ]@.take(j as int)).push(lines@[k as int]@[j as int]));
            }
            j = j + 1;
        }
        proof {
            assert(data@ =~= data0 + lines@[k as int]@);
            assert(views[k as int] == lines@[k as int]@);
            assert forall|i: int, j: int|
                0 <= i <= k && 0 <= j < lines@[i]@.len() implies data@[offsets@[i] + j]
                == lines@[i]@[j] by {
                assert(views[i] == lines@[i]@);
                if i < k {
                    lemma_flat_len_monotone(views, i + 1, k as int);
                    assert(flat_len(views, i + 1) == flat_len(views, i) + views[i].len());
                    assert(offsets@[i] + j < data0.len());
                    assert(data@[offsets@[i] + j] == data0[offsets@[i] + j]);
                } else {
                    assert(offsets@[i] == data0.len());
                }
            }
        }
        k = k + 1;
    }
    (data, offsets, lengths)
}

} // verus!
