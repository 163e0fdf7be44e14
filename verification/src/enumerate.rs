//! The alphabet/length enumerator: the ordered space of candidate passwords
//! over a character set and a length range, addressed by index.
//!
//! Candidates are ordered shorter lengths first; within one length they follow
//! the mixed-radix counting order over the charset, the first symbol acting as
//! digit zero. The candidate at a given index is a pure function of the index,
//! which is what lets the space be split into disjoint worker ranges without
//! materializing it.

use vstd::prelude::*;
use vstd::arithmetic::div_mod::{
    lemma_fundamental_div_mod, lemma_fundamental_div_mod_converse_div,
    lemma_fundamental_div_mod_converse_mod, lemma_multiply_divide_lt,
};
use vstd::arithmetic::mul::{
    lemma_mul_inequality, lemma_mul_is_associative, lemma_mul_is_commutative,
    lemma_mul_is_distributive_add_other_way, lemma_mul_strict_inequality,
};

verus! {

/// Number of candidates of length `len` over a charset of `b` symbols.
pub open spec fn pow_count(b: nat, len: nat) -> nat
    decreases len,
{
    if len == 0 {
        1
    } else {
        b * pow_count(b, (len - 1) as nat)
    }
}

/// Number of candidates whose length lies in `[lo, hi_ex)` over a charset of
/// `b` symbols: the sum of `b^len` for `len` in that half-open range.
pub open spec fn space_size(b: nat, lo: nat, hi_ex: nat) -> nat
    decreases hi_ex - lo,
{
    if lo >= hi_ex {
        0
    } else {
        pow_count(b, lo) + space_size(b, (lo + 1) as nat, hi_ex)
    }
}

/// No symbol occurs twice in the charset.
pub open spec fn distinct_symbols(cs: Seq<char>) -> bool {
    forall|i: int, j: int| 0 <= i < j < cs.len() ==> cs[i] != cs[j]
}

/// A usable charset: non-empty, duplicate-free, and without the NUL
/// character, which the decryption primitive cannot accept in a passphrase.
pub open spec fn valid_charset(cs: Seq<char>) -> bool {
    &&& cs.len() > 0
    &&& distinct_symbols(cs)
    &&& forall|i: int| 0 <= i < cs.len() ==> cs[i] != '\0'
}

/// Position of symbol `c` in the charset (its digit value).
pub open spec fn sym_index(cs: Seq<char>, c: char) -> nat
    decreases cs.len(),
{
    if cs.len() == 0 {
        0
    } else if cs[0] == c {
        0
    } else {
        1 + sym_index(cs.drop_first(), c)
    }
}

/// The candidate of length `len` at position `i` of the counting order:
/// the digits of `i` written in base `cs.len()`, most significant first,
/// each digit rendered as its charset symbol.
pub open spec fn cand_at(cs: Seq<char>, len: nat, i: nat) -> Seq<char>
    decreases len,
{
    if len == 0 {
        Seq::empty()
    } else {
        cand_at(cs, (len - 1) as nat, i / cs.len()).push(cs[(i % cs.len()) as int])
    }
}

/// The position of candidate `s` within the counting order of its own length
/// (the Horner evaluation of its digits).
pub open spec fn cand_index(cs: Seq<char>, s: Seq<char>) -> nat
    decreases s.len(),
{
    if s.len() == 0 {
        0
    } else {
        cand_index(cs, s.drop_last()) * cs.len() + sym_index(cs, s.last())
    }
}

/// The candidate at global index `g` of the space of lengths `[lo, hi_ex)`:
/// all candidates of length `lo` come first, then the longer ones.
pub open spec fn global_cand(cs: Seq<char>, lo: nat, hi_ex: nat, g: nat) -> Seq<char>
    decreases hi_ex - lo,
{
    if lo >= hi_ex {
        Seq::empty()
    } else if g < pow_count(cs.len(), lo) {
        cand_at(cs, lo, g)
    } else {
        global_cand(cs, (lo + 1) as nat, hi_ex, (g - pow_count(cs.len(), lo)) as nat)
    }
}

/// The global index of candidate `s` in the space of lengths starting at
/// `lo`: the sizes of all shorter lengths, plus its position within its own.
pub open spec fn global_index(cs: Seq<char>, lo: nat, s: Seq<char>) -> nat
    decreases s.len() - lo,
{
    if s.len() <= lo {
        cand_index(cs, s)
    } else {
        pow_count(cs.len(), lo) + global_index(cs, (lo + 1) as nat, s)
    }
}

/// Every symbol of `s` is drawn from the charset.
pub open spec fn drawn_from(cs: Seq<char>, s: Seq<char>) -> bool {
    forall|k: int| 0 <= k < s.len() ==> cs.contains(#[trigger] s[k])
}

/// A power of a positive base is positive.
pub proof fn lemma_pow_count_pos(b: nat, len: nat)
    requires
        b >= 1,
    ensures
        pow_count(b, len) >= 1,
    decreases len,
{
    if len > 0 {
        lemma_pow_count_pos(b, (len - 1) as nat);
        lemma_mul_inequality(1, pow_count(b, (len - 1) as nat) as int, b as int);
        lemma_mul_is_commutative(b as int, pow_count(b, (len - 1) as nat) as int);
    }
}

/// The space of `[lo, hi_ex)` splits at any `mid` between the bounds.
pub proof fn lemma_space_size_split(b: nat, lo: nat, mid: nat, hi_ex: nat)
    requires
        lo <= mid <= hi_ex,
    ensures
        space_size(b, lo, hi_ex) == space_size(b, lo, mid) + space_size(b, mid, hi_ex),
    decreases mid - lo,
{
    if lo < mid {
        lemma_space_size_split(b, (lo + 1) as nat, mid, hi_ex);
    }
}

/// Each per-length count is bounded by the size of any space containing it.
pub proof fn lemma_pow_le_space(b: nat, lo: nat, len: nat, hi_ex: nat)
    requires
        lo <= len < hi_ex,
    ensures
        pow_count(b, len) <= space_size(b, lo, hi_ex),
    decreases len - lo,
{
    if lo < len {
        lemma_pow_le_space(b, (lo + 1) as nat, len, hi_ex);
    }
}

/// A candidate of length `len` has length `len`.
pub proof fn lemma_cand_at_len(cs: Seq<char>, len: nat, i: nat)
    requires
        cs.len() >= 1,
    ensures
        cand_at(cs, len, i).len() == len,
    decreases len,
{
    if len > 0 {
        lemma_cand_at_len(cs, (len - 1) as nat, i / cs.len());
    }
}

/// A candidate's symbols are all drawn from the charset.
pub proof fn lemma_cand_at_drawn(cs: Seq<char>, len: nat, i: nat)
    requires
        cs.len() >= 1,
    ensures
        drawn_from(cs, cand_at(cs, len, i)),
    decreases len,
{
    if len > 0 {
        lemma_cand_at_drawn(cs, (len - 1) as nat, i / cs.len());
        let s = cand_at(cs, len, i);
        let p = cand_at(cs, (len - 1) as nat, i / cs.len());
        lemma_cand_at_len(cs, (len - 1) as nat, i / cs.len());
        assert(forall|k: int| 0 <= k < p.len() ==> s[k] == p[k]);
        assert(cs.contains(cs[(i % cs.len()) as int]));
    }
}

/// In a duplicate-free charset, the digit value of the `k`-th symbol is `k`.
pub proof fn lemma_sym_index_of_nth(cs: Seq<char>, k: int)
    requires
        distinct_symbols(cs),
        0 <= k < cs.len(),
    ensures
        sym_index(cs, cs[k]) == k,
    decreases cs.len(),
{
    if k > 0 {
        assert(cs[0] != cs[k]);
        let tail = cs.drop_first();
        assert(forall|i: int, j: int| 0 <= i < j < tail.len() ==> tail[i] != tail[j]);
        assert(tail[k - 1] == cs[k]);
        lemma_sym_index_of_nth(tail, k - 1);
    }
}

/// A symbol contained in the charset has a digit value inside the base, and
/// that digit maps back to the symbol.
pub proof fn lemma_sym_index_of_contained(cs: Seq<char>, c: char)
    requires
        cs.contains(c),
    ensures
        sym_index(cs, c) < cs.len(),
        cs[sym_index(cs, c) as int] == c,
    decreases cs.len(),
{
    if cs[0] != c {
        let tail = cs.drop_first();
        let k = choose|k: int| 0 <= k < cs.len() && cs[k] == c;
        assert(tail[k - 1] == c);
        assert(tail.contains(c));
        lemma_sym_index_of_contained(tail, c);
    }
}

/// Deriving the candidate at position `i` and reading its position back are
/// inverse: the per-length enumeration never repeats a candidate.
pub proof fn lemma_cand_index_of_cand_at(cs: Seq<char>, len: nat, i: nat)
    requires
        cs.len() >= 1,
        distinct_symbols(cs),
        i < pow_count(cs.len(), len),
    ensures
        cand_index(cs, cand_at(cs, len, i)) == i,
    decreases len,
{
    let b = cs.len();
    if len == 0 {
        assert(i == 0);
    } else {
        let q = i / b;
        let r = i % b;
        assert(0 <= r < b);
        lemma_multiply_divide_lt(i as int, b as int, pow_count(b, (len - 1) as nat) as int);
        lemma_cand_index_of_cand_at(cs, (len - 1) as nat, q);
        let p = cand_at(cs, (len - 1) as nat, q);
        let s = cand_at(cs, len, i);
        assert(s == p.push(cs[r as int]));
        assert(s.drop_last() =~= p);
        assert(s.last() == cs[r as int]);
        lemma_sym_index_of_nth(cs, r as int);
        assert(cand_index(cs, s) == q * b + r);
        lemma_fundamental_div_mod(i as int, b as int);
        lemma_mul_is_commutative(b as int, q as int);
    }
}

/// Every string drawn from the charset is the candidate at its own position:
/// the per-length enumeration omits nothing, and the position is in range.
pub proof fn lemma_cand_at_of_cand_index(cs: Seq<char>, s: Seq<char>)
    requires
        cs.len() >= 1,
        distinct_symbols(cs),
        drawn_from(cs, s),
    ensures
        cand_index(cs, s) < pow_count(cs.len(), s.len()),
        cand_at(cs, s.len(), cand_index(cs, s)) == s,
    decreases s.len(),
{
    let b = cs.len();
    if s.len() == 0 {
        assert(cand_at(cs, 0, 0) =~= s);
    } else {
        let front = s.drop_last();
        assert(forall|k: int| 0 <= k < front.len() ==> front[k] == s[k]);
        lemma_cand_at_of_cand_index(cs, front);
        let q = cand_index(cs, front);
        assert(s.contains(s.last())) by {
            assert(s[s.len() - 1] == s.last());
        }
        lemma_sym_index_of_contained(cs, s.last());
        let r = sym_index(cs, s.last());
        let i = cand_index(cs, s);
        assert(i == q * b + r);
        // i < pow(b, len): q <= pow(b, len - 1) - 1, so q * b + r < pow(b, len - 1) * b.
        let pprev = pow_count(b, (s.len() - 1) as nat);
        if q + 1 < pprev {
            lemma_mul_strict_inequality((q + 1) as int, pprev as int, b as int);
        }
        lemma_mul_is_distributive_add_other_way(b as int, q as int, 1);
        assert((q + 1) * b <= pprev * b) by {
            lemma_mul_inequality((q + 1) as int, pprev as int, b as int);
        }
        assert(i < pprev * b);
        lemma_mul_is_commutative(pprev as int, b as int);
        assert(i < pow_count(b, s.len()));
        // cand_at(len, i) rebuilds s.
        lemma_fundamental_div_mod_converse_div(i as int, b as int, q as int, r as int);
        lemma_fundamental_div_mod_converse_mod(i as int, b as int, q as int, r as int);
        assert(i / b == q && i % b == r);
        assert(cand_at(cs, s.len(), i) == cand_at(cs, front.len(), q).push(cs[r as int]));
        assert(cand_at(cs, s.len(), i) =~= s);
    }
}

/// Global round trip, index first: the candidate at global index `g` has a
/// length inside the range, is drawn from the charset, and its global index
/// is `g` again. With its converse below this makes index derivation a
/// bijection between `[0, space_size)` and the candidate strings, so the
/// enumeration has no duplicates and no omissions.
pub proof fn lemma_global_index_of_global_cand(cs: Seq<char>, lo: nat, hi_ex: nat, g: nat)
    requires
        cs.len() >= 1,
        distinct_symbols(cs),
        lo <= hi_ex,
        g < space_size(cs.len(), lo, hi_ex),
    ensures
        lo <= global_cand(cs, lo, hi_ex, g).len() < hi_ex,
        drawn_from(cs, global_cand(cs, lo, hi_ex, g)),
        global_index(cs, lo, global_cand(cs, lo, hi_ex, g)) == g,
    decreases hi_ex - lo,
{
    let b = cs.len();
    let s = global_cand(cs, lo, hi_ex, g);
    if g < pow_count(b, lo) {
        lemma_cand_at_len(cs, lo, g);
        lemma_cand_at_drawn(cs, lo, g);
        lemma_cand_index_of_cand_at(cs, lo, g);
        assert(s.len() == lo);
    } else {
        lemma_global_index_of_global_cand(
            cs,
            (lo + 1) as nat,
            hi_ex,
            (g - pow_count(b, lo)) as nat,
        );
        assert(s.len() > lo);
    }
}

/// Global round trip, candidate first: every string of an in-range length
/// drawn from the charset sits at exactly one global index of the space.
pub proof fn lemma_global_cand_of_global_index(cs: Seq<char>, lo: nat, hi_ex: nat, s: Seq<char>)
    requires
        cs.len() >= 1,
        distinct_symbols(cs),
        lo <= s.len() < hi_ex,
        drawn_from(cs, s),
    ensures
        global_index(cs, lo, s) < space_size(cs.len(), lo, hi_ex),
        global_cand(cs, lo, hi_ex, global_index(cs, lo, s)) == s,
    decreases s.len() - lo,
{
    let b = cs.len();
    let g = global_index(cs, lo, s);
    if s.len() <= lo {
        lemma_cand_at_of_cand_index(cs, s);
        lemma_pow_le_space(b, lo, lo, hi_ex);
        assert(g < pow_count(b, lo));
    } else {
        lemma_global_cand_of_global_index(cs, (lo + 1) as nat, hi_ex, s);
    }
}

/// Powers of a common base multiply when the exponents add.
pub proof fn lemma_pow_count_adds(b: nat, x: nat, y: nat)
    ensures
        pow_count(b, x + y) == pow_count(b, x) * pow_count(b, y),
    decreases x,
{
    if x == 0 {
        assert(pow_count(b, y) == 1 * pow_count(b, y));
    } else {
        lemma_pow_count_adds(b, (x - 1) as nat, y);
        assert((x - 1) as nat + y == (x + y - 1) as nat);
        lemma_mul_is_associative(
            b as int,
            pow_count(b, (x - 1) as nat) as int,
            pow_count(b, y) as int,
        );
    }
}

/// Powers of a positive base grow with the exponent.
pub proof fn lemma_pow_count_le(b: nat, e1: nat, e2: nat)
    requires
        b >= 1,
        e1 <= e2,
    ensures
        pow_count(b, e1) <= pow_count(b, e2),
{
    let d = (e2 - e1) as nat;
    lemma_pow_count_adds(b, e1, d);
    lemma_pow_count_pos(b, d);
    lemma_mul_inequality(1, pow_count(b, d) as int, pow_count(b, e1) as int);
    lemma_mul_is_commutative(pow_count(b, e1) as int, pow_count(b, d) as int);
}

/// Computes `b` to the power `len`, reporting overflow instead of wrapping.
pub fn checked_pow(b: u64, len: u8) -> (r: Option<u64>)
    requires
        b >= 1,
    ensures
        r matches Some(v) ==> v == pow_count(b as nat, len as nat),
        r is None ==> pow_count(b as nat, len as nat) > u64::MAX,
{
    let mut acc: u64 = 1;
    let mut k: u8 = 0;
    while k < len
        invariant
            b >= 1,
            k <= len,
            acc == pow_count(b as nat, k as nat),
        decreases len - k,
    {
        acc = match acc.checked_mul(b) {
            Some(v) => v,
            None => {
                proof {
                    lemma_mul_is_commutative(b as int, acc as int);
                    assert(pow_count(b as nat, (k + 1) as nat) == b * pow_count(b as nat, k as nat));
                    lemma_pow_count_le(b as nat, (k + 1) as nat, len as nat);
                }
                return None;
            },
        };
        proof {
            lemma_mul_is_commutative(b as int, pow_count(b as nat, k as nat) as int);
        }
        k = k + 1;
    }
    Some(acc)
}

/// Computes the total number of candidates with lengths in `[lo, hi]`,
/// reporting overflow instead of wrapping: the space can exceed a 64-bit
/// count for large alphabets and lengths, and the search must then be
/// rejected rather than run over a silently truncated space.
pub fn checked_space(b: u64, lo: u8, hi: u8) -> (r: Option<u64>)
    requires
        b >= 1,
        lo <= hi,
    ensures
        r matches Some(v) ==> v == space_size(b as nat, lo as nat, hi as nat + 1),
        r is None ==> space_size(b as nat, lo as nat, hi as nat + 1) > u64::MAX,
{
    let ghost bn = b as nat;
    let ghost end: nat = hi as nat + 1;
    let mut acc: u64 = 0;
    let mut l: u64 = lo as u64;
    while l <= hi as u64
        invariant
            b >= 1,
            lo as u64 <= l <= hi as u64 + 1,
            end == hi as nat + 1,
            bn == b as nat,
            acc == space_size(bn, lo as nat, l as nat),
        decreases hi as u64 + 1 - l,
    {
        let p = match checked_pow(b, l as u8) {
            Some(p) => p,
            None => {
                proof {
                    lemma_pow_le_space(bn, lo as nat, l as nat, end);
                }
                return None;
            },
        };
        acc = match acc.checked_add(p) {
            Some(v) => v,
            None => {
                proof {
                    lemma_space_size_split(bn, lo as nat, l as nat, end);
                    assert(space_size(bn, l as nat, end) >= pow_count(bn, l as nat)) by {
                        lemma_pow_le_space(bn, l as nat, l as nat, end);
                    }
                }
                return None;
            },
        };
        proof {
            lemma_space_size_split(bn, lo as nat, l as nat, (l + 1) as nat);
            assert(space_size(bn, l as nat, (l + 1) as nat) == pow_count(bn, l as nat)) by {
                reveal_with_fuel(space_size, 2);
            }
        }
        l = l + 1;
    }
    Some(acc)
}

/// Derives the candidate of length `len` at position `i` of the counting
/// order directly from `i`, by repeated division and remainder by the base:
/// no preceding candidate is ever generated.
pub fn candidate_at(cs: &Vec<char>, len: u8, i: u64) -> (r: Vec<char>)
    requires
        cs@.len() >= 1,
        i < pow_count(cs@.len(), len as nat),
    ensures
        r@ == cand_at(cs@, len as nat, i as nat),
    decreases len,
{
    if len == 0 {
        let r: Vec<char> = Vec::new();
        proof {
            assert(r@ =~= cand_at(cs@, 0, i as nat));
        }
        r
    } else {
        let b = cs.len() as u64;
        let q = i / b;
        let m = (i % b) as usize;
        proof {
            assert(pow_count(cs@.len(), len as nat) == cs@.len() * pow_count(
                cs@.len(),
                (len - 1) as nat,
            ));
            lemma_multiply_divide_lt(
                i as int,
                b as int,
                pow_count(cs@.len(), (len - 1) as nat) as int,
            );
        }
        let mut r = candidate_at(cs, len - 1, q);
        let c = cs[m];
        r.push(c);
        r
    }
}

/// Derives the candidate at global index `g` of the space of lengths
/// `[lo, hi]` directly from `g`: the index is located within the block of
/// its length, then decoded positionally.
pub fn global_candidate(cs: &Vec<char>, lo: u8, hi: u8, g: u64) -> (r: Vec<char>)
    requires
        cs@.len() >= 1,
        lo <= hi,
        g < space_size(cs@.len(), lo as nat, hi as nat + 1),
    ensures
        r@ == global_cand(cs@, lo as nat, hi as nat + 1, g as nat),
    decreases hi - lo,
{
    let ghost bn = cs@.len();
    match checked_pow(cs.len() as u64, lo) {
        None => {
            // The whole block of length `lo` exceeds a 64-bit count, so `g`
            // certainly falls inside it.
            candidate_at(cs, lo, g)
        },
        Some(p) => {
            if g < p {
                candidate_at(cs, lo, g)
            } else {
                proof {
                    assert(space_size(bn, lo as nat, hi as nat + 1) == pow_count(bn, lo as nat)
                        + space_size(bn, lo as nat + 1, hi as nat + 1));
                    assert(lo < hi);
                }
                global_candidate(cs, lo + 1, hi, g - p)
            }
        },
    }
}

/// Materializes the whole ordered candidate space. Meant for small spaces;
/// the search itself derives candidates from indices and never materializes
/// its space.
pub fn enumerate_all(cs: &Vec<char>, lo: u8, hi: u8) -> (r: Vec<Vec<char>>)
    requires
        cs@.len() >= 1,
        lo <= hi,
        space_size(cs@.len(), lo as nat, hi as nat + 1) <= usize::MAX,
    ensures
        r@.len() == space_size(cs@.len(), lo as nat, hi as nat + 1),
        forall|k: int|
            0 <= k < r@.len() ==> r@[k]@ == global_cand(cs@, lo as nat, hi as nat + 1, k as nat),
{
    let total = checked_space(cs.len() as u64, lo, hi).unwrap();
    let mut out: Vec<Vec<char>> = Vec::new();
    let mut g: u64 = 0;
    while g < total
        invariant
            cs@.len() >= 1,
            lo <= hi,
            total == space_size(cs@.len(), lo as nat, hi as nat + 1) <= usize::MAX,
            g <= total,
            out@.len() == g,
            forall|k: int|
                0 <= k < g ==> out@[k]@ == global_cand(cs@, lo as nat, hi as nat + 1, k as nat),
        decreases total - g,
    {
        let cand = global_candidate(cs, lo, hi, g);
        out.push(cand);
        g = g + 1;
    }
    out
}

/// Distinct global indices yield distinct candidates.
pub proof fn lemma_enumeration_injective(cs: Seq<char>, lo: nat, hi_ex: nat, g1: nat, g2: nat)
    requires
        cs.len() >= 1,
        distinct_symbols(cs),
        lo <= hi_ex,
        g1 < space_size(cs.len(), lo, hi_ex),
        g2 < space_size(cs.len(), lo, hi_ex),
        g1 != g2,
    ensures
        global_cand(cs, lo, hi_ex, g1) != global_cand(cs, lo, hi_ex, g2),
{
    lemma_global_index_of_global_cand(cs, lo, hi_ex, g1);
    lemma_global_index_of_global_cand(cs, lo, hi_ex, g2);
}

} // verus!
