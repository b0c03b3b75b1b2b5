//! Shared specification vocabulary for byte sequences: complements,
//! mismatch counts, window sums and Phred qualities.

use vstd::prelude::*;

verus! {

/// ASCII 'A'.
pub const BASE_A: u8 = 65;

/// ASCII 'C'.
pub const BASE_C: u8 = 67;

/// ASCII 'G'.
pub const BASE_G: u8 = 71;

/// ASCII 'T'.
pub const BASE_T: u8 = 84;

/// ASCII 'N', the unknown base.
pub const BASE_N: u8 = 78;

/// ASCII 'n', tolerated on input and counted as unknown.
pub const BASE_N_LOWER: u8 = 110;

/// ASCII line feed.
pub const BYTE_LF: u8 = 10;

/// ASCII carriage return.
pub const BYTE_CR: u8 = 13;

/// The smaller of two integers.
pub open spec fn imin(a: int, b: int) -> int {
    if a <= b {
        a
    } else {
        b
    }
}

/// The nucleotide alphabet the transforms keep to.
pub open spec fn is_base(b: u8) -> bool {
    b == BASE_A || b == BASE_C || b == BASE_G || b == BASE_T || b == BASE_N
}

/// Watson-Crick complement; anything outside A/C/G/T turns into N.
pub open spec fn comp(b: u8) -> u8 {
    if b == BASE_A {
        BASE_T
    } else if b == BASE_T {
        BASE_A
    } else if b == BASE_C {
        BASE_G
    } else if b == BASE_G {
        BASE_C
    } else {
        BASE_N
    }
}

/// Reverse complement of a whole sequence.
pub open spec fn revcomp(s: Seq<u8>) -> Seq<u8> {
    Seq::new(s.len(), |i: int| comp(s[s.len() - 1 - i]))
}

/// Hamming mismatches between `a[ai..ai+n]` and `b[bi..bi+n]`.
pub open spec fn mism_at(a: Seq<u8>, ai: int, b: Seq<u8>, bi: int, n: int) -> nat
    decreases n,
{
    if n <= 0 {
        0
    } else {
        mism_at(a, ai, b, bi, n - 1) + if a[ai + n - 1] == b[bi + n - 1] {
            0nat
        } else {
            1nat
        }
    }
}

/// Peeling a compared window from the front instead of the back.
pub proof fn lemma_mism_at_front(a: Seq<u8>, ai: int, b: Seq<u8>, bi: int, n: int)
    requires
        n >= 1,
    ensures
        mism_at(a, ai, b, bi, n) == mism_at(a, ai + 1, b, bi + 1, n - 1) + if a[ai] == b[bi] {
            0nat
        } else {
            1nat
        },
    decreases n,
{
    if n == 1 {
        assert(mism_at(a, ai, b, bi, 1) == mism_at(a, ai, b, bi, 0) + if a[ai] == b[bi] {
            0nat
        } else {
            1nat
        });
    } else {
        lemma_mism_at_front(a, ai, b, bi, n - 1);
        assert(mism_at(a, ai, b, bi, n) == mism_at(a, ai, b, bi, n - 1) + if a[ai + n - 1] == b[bi
            + n - 1] {
            0nat
        } else {
            1nat
        });
        assert(mism_at(a, ai + 1, b, bi + 1, n - 1) == mism_at(a, ai + 1, b, bi + 1, n - 2) + if a[
            ai + n - 1
        ] == b[bi + n - 1] {
            0nat
        } else {
            1nat
        });
    }
}

/// A window of `n` positions holds at most `n` mismatches.
pub proof fn lemma_mism_at_bounds(a: Seq<u8>, ai: int, b: Seq<u8>, bi: int, n: int)
    requires
        n >= 0,
    ensures
        mism_at(a, ai, b, bi, n) <= n,
    decreases n,
{
    if n > 0 {
        lemma_mism_at_bounds(a, ai, b, bi, n - 1);
    }
}

/// No mismatches means the two windows agree pointwise.
pub proof fn lemma_mism_at_zero(a: Seq<u8>, ai: int, b: Seq<u8>, bi: int, n: int)
    requires
        mism_at(a, ai, b, bi, n) == 0,
    ensures
        forall|i: int| 0 <= i < n ==> #[trigger] a[ai + i] == b[bi + i],
    decreases n,
{
    if n > 0 {
        lemma_mism_at_zero(a, ai, b, bi, n - 1);
    }
}

/// Sum of the `w` raw quality bytes starting at `s`.
pub open spec fn wsum(q: Seq<u8>, s: int, w: int) -> int
    decreases w,
{
    if w <= 0 {
        0
    } else {
        wsum(q, s, w - 1) + q[s + w - 1]
    }
}

/// Peeling a window sum from the front.
pub proof fn lemma_wsum_front(q: Seq<u8>, s: int, w: int)
    requires
        w >= 1,
    ensures
        wsum(q, s, w) == q[s] + wsum(q, s + 1, w - 1),
    decreases w,
{
    if w == 1 {
        assert(wsum(q, s, 1) == wsum(q, s, 0) + q[s]);
    } else {
        lemma_wsum_front(q, s, w - 1);
        assert(wsum(q, s, w) == wsum(q, s, w - 1) + q[s + w - 1]);
        assert(wsum(q, s + 1, w - 1) == wsum(q, s + 1, w - 2) + q[s + w - 1]);
    }
}

/// A window of bytes never sums above 255 per byte.
pub proof fn lemma_wsum_bounds(q: Seq<u8>, s: int, w: int)
    requires
        w >= 0,
    ensures
        0 <= wsum(q, s, w) <= 255 * w,
    decreases w,
{
    if w > 0 {
        lemma_wsum_bounds(q, s, w - 1);
    }
}

/// Effective Phred score of a raw quality byte: subtract 33, floored at 0.
pub open spec fn phred(b: u8) -> int {
    if b >= 33 {
        b - 33
    } else {
        0
    }
}

/// Sum of effective Phred scores over the first `n` bytes.
pub open spec fn phred_sum(q: Seq<u8>, n: int) -> int
    decreases n,
{
    if n <= 0 {
        0
    } else {
        phred_sum(q, n - 1) + phred(q[n - 1])
    }
}

pub proof fn lemma_phred_sum_bounds(q: Seq<u8>, n: int)
    requires
        n >= 0,
    ensures
        0 <= phred_sum(q, n) <= 255 * n,
    decreases n,
{
    if n > 0 {
        lemma_phred_sum_bounds(q, n - 1);
    }
}

/// How many of the first `n` bytes have an effective Phred score below `qmin`.
pub open spec fn count_low(q: Seq<u8>, n: int, qmin: int) -> nat
    decreases n,
{
    if n <= 0 {
        0
    } else {
        count_low(q, n - 1, qmin) + if phred(q[n - 1]) < qmin {
            1nat
        } else {
            0nat
        }
    }
}

pub proof fn lemma_count_low_bounds(q: Seq<u8>, n: int, qmin: int)
    requires
        n >= 0,
    ensures
        count_low(q, n, qmin) <= n,
    decreases n,
{
    if n > 0 {
        lemma_count_low_bounds(q, n - 1, qmin);
    }
}

/// How many of the first `n` bases are N, in either case.
pub open spec fn count_n(s: Seq<u8>, n: int) -> nat
    decreases n,
{
    if n <= 0 {
        0
    } else {
        count_n(s, n - 1) + if s[n - 1] == BASE_N || s[n - 1] == BASE_N_LOWER {
            1nat
        } else {
            0nat
        }
    }
}

} // verus!
