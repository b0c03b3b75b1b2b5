//! Sliding-window quality cutting: trim the 5' end up to the first good
//! window, or the 3' end from the first bad window (scanning forward) or
//! back to the last good window (scanning backward).

use vstd::prelude::*;
use vstd::slice::{slice_subrange, slice_to_vec};
use crate::bases::{lemma_wsum_bounds, lemma_wsum_front, wsum, BASE_N};
use crate::config::Cli;
use crate::record::{FastqRecord, RecV};

verus! {

/// The raw-byte threshold used when stepping over single bases: the mean
/// quality plus the Phred offset, saturated to a byte.
pub open spec fn byte_thresh(mq: int) -> u8 {
    if mq + 33 <= 255 {
        (mq + 33) as u8
    } else {
        255u8
    }
}

/// First window start `s` (from `s` upward) whose raw sum reaches `t` per
/// base.
pub open spec fn first_good_front(q: Seq<u8>, w: int, t: int, s: int) -> Option<int>
    decreases q.len() - s,
{
    if w <= 0 || s > q.len() - w {
        Option::None
    } else if wsum(q, s, w) >= t * w {
        Option::Some(s)
    } else {
        first_good_front(q, w, t, s + 1)
    }
}

/// First window start `s` (from `s` upward) whose raw sum falls below `t`
/// per base.
pub open spec fn first_bad(q: Seq<u8>, w: int, t: int, s: int) -> Option<int>
    decreases q.len() - s,
{
    if w <= 0 || s > q.len() - w {
        Option::None
    } else if wsum(q, s, w) < t * w {
        Option::Some(s)
    } else {
        first_bad(q, w, t, s + 1)
    }
}

/// First window end `tpos` (from `tpos` downward) whose raw sum reaches
/// `t` per base.
pub open spec fn first_good_back(q: Seq<u8>, w: int, t: int, tpos: int) -> Option<int>
    decreases tpos + 1,
{
    if w <= 0 || tpos < w - 1 {
        Option::None
    } else if wsum(q, tpos - w + 1, w) >= t * w {
        Option::Some(tpos)
    } else {
        first_good_back(q, w, t, tpos - 1)
    }
}

/// First position at or after `s` that is not an N, or the length.
pub open spec fn skip_n_fwd(seq: Seq<u8>, s: int) -> int
    decreases seq.len() - s,
{
    if s >= seq.len() {
        s
    } else if seq[s] == BASE_N {
        skip_n_fwd(seq, s + 1)
    } else {
        s
    }
}

/// First position at or before `t` that is not an N, stopping at zero.
pub open spec fn skip_n_back(seq: Seq<u8>, t: int) -> int
    decreases t,
{
    if t <= 0 {
        t
    } else if seq[t] == BASE_N {
        skip_n_back(seq, t - 1)
    } else {
        t
    }
}

/// First position at or after `s` whose raw quality falls below `bt`, or
/// the length.
pub open spec fn walk_good(q: Seq<u8>, bt: u8, s: int) -> int
    decreases q.len() - s,
{
    if s >= q.len() {
        s
    } else if q[s] >= bt {
        walk_good(q, bt, s + 1)
    } else {
        s
    }
}

/// Bases dropped from the 5' end by the front cutter: up to the last base
/// of the first good window when that window does not open the read, then
/// past any Ns; the whole read when no window qualifies or fits.
pub open spec fn front_cut(seq: Seq<u8>, qual: Seq<u8>, w: int, mq: int) -> int {
    let l = seq.len() as int;
    if l >= w {
        match first_good_front(qual, w, mq + 33, 0) {
            Option::None => l,
            Option::Some(s0) => {
                let s1 = if s0 > 0 {
                    s0 + w - 1
                } else {
                    0
                };
                skip_n_fwd(seq, s1)
            },
        }
    } else {
        l
    }
}

/// Bases dropped from the 3' end by the forward right cutter, computed on
/// the part of the read that survives the front cut.
pub open spec fn right_cut(qs: Seq<u8>, w: int, mq: int) -> int {
    let cl = qs.len() as int;
    if cl >= w {
        match first_bad(qs, w, mq + 33, 0) {
            Option::None => 0,
            Option::Some(bp) => cl - walk_good(qs, byte_thresh(mq), bp),
        }
    } else {
        cl
    }
}

/// Bases dropped from the 3' end by the backward tail cutter, computed on
/// the part of the read that survives the front cut.
pub open spec fn tail_cut(ss: Seq<u8>, qs: Seq<u8>, w: int, mq: int) -> int {
    let cl = qs.len() as int;
    if cl >= w {
        match first_good_back(qs, w, mq + 33, cl - 1) {
            Option::None => cl,
            Option::Some(t0) => {
                let t1 = if t0 < cl - 1 {
                    t0 + 1 - w
                } else {
                    t0
                };
                let t2 = skip_n_back(ss, t1);
                cl - (t2 + 1)
            },
        }
    } else {
        cl
    }
}

/// The whole pass: the record after all enabled cutters, the new
/// cumulative front trim, and whether the record survived non-empty.
pub open spec fn window_result(cfg: Cli, rv: RecV, front0: int) -> (RecV, int, bool) {
    let l = rv.seq.len() as int;
    let front = if cfg.cut_front {
        front_cut(rv.seq, rv.qual, cfg.cut_front_window_size as int, cfg.cut_front_mean_quality as int)
    } else {
        front0
    };
    let rcl = if cfg.cut_right {
        right_cut(rv.qual.skip(front), cfg.cut_right_window_size as int, cfg.cut_right_mean_quality as int)
    } else {
        0
    };
    let tail = if !cfg.cut_right && cfg.cut_tail {
        tail_cut(
            rv.seq.skip(front),
            rv.qual.skip(front),
            cfg.cut_tail_window_size as int,
            cfg.cut_tail_mean_quality as int,
        )
    } else {
        0
    };
    if front > 0 || tail > 0 || rcl > 0 {
        let tcr = if tail >= rcl {
            tail
        } else {
            rcl
        };
        let end = l - tcr;
        if front >= end {
            (RecV { name: rv.name, seq: Seq::empty(), plus: rv.plus, qual: Seq::empty() }, front0, false)
        } else {
            (
                RecV {
                    name: rv.name,
                    seq: rv.seq.subrange(front, end),
                    plus: rv.plus,
                    qual: rv.qual.subrange(front, end),
                },
                front0 + front,
                true,
            )
        }
    } else {
        (rv, front0, true)
    }
}

/// Raw sum of the `w` quality bytes starting at `s`.
fn window_sum(q: &[u8], s: usize, w: usize) -> (r: u128)
    requires
        s + w <= q@.len(),
    ensures
        r == wsum(q@, s as int, w as int),
{
    let l = q.len();
    let mut total: u128 = 0;
    let mut j: usize = 0;
    while j < w
        invariant
            j <= w,
            s + w <= l,
            l == q@.len(),
            total == wsum(q@, s as int, j as int),
            total <= 255 * j,
        decreases w - j,
    {
        total = total + (q[s + j] as u128);
        j = j + 1;
    }
    total
}

/// The per-window threshold: `t` raw units per base over `w` bases.
fn thresh_total(mq: u8, w: usize) -> (r: u128)
    ensures
        r == (mq as int + 33) * (w as int),
{
    assert((mq as u128 + 33) * (w as u128) <= 288 * (w as u128)) by (nonlinear_arith)
        requires
            mq as u128 <= 255,
    ;
    (mq as u128 + 33) * (w as u128)
}

/// Forward window scan: the first good window, or the first bad one when
/// `want_bad` is set.
fn scan_front(q: &[u8], w: usize, mq: u8, want_bad: bool) -> (r: Option<usize>)
    requires
        1 <= w <= q@.len(),
    ensures
        ({
            let spec_r = if want_bad {
                first_bad(q@, w as int, mq as int + 33, 0)
            } else {
                first_good_front(q@, w as int, mq as int + 33, 0)
            };
            match r {
                Option::None => spec_r is None,
                Option::Some(i) => spec_r == Option::Some(i as int) && i + w <= q@.len(),
            }
        }),
{
    let l = q.len();
    let thrw = thresh_total(mq, w);
    let mut i: usize = 0;
    while i <= l - w
        invariant
            i <= l - w + 1,
            1 <= w <= l,
            l == q@.len(),
            thrw == (mq as int + 33) * (w as int),
            want_bad ==> first_bad(q@, w as int, mq as int + 33, 0) == first_bad(
                q@,
                w as int,
                mq as int + 33,
                i as int,
            ),
            !want_bad ==> first_good_front(q@, w as int, mq as int + 33, 0) == first_good_front(
                q@,
                w as int,
                mq as int + 33,
                i as int,
            ),
        decreases l - i,
    {
        let tw = window_sum(q, i, w);
        if want_bad {
            if tw < thrw {
                return Option::Some(i);
            }
        } else {
            if tw >= thrw {
                return Option::Some(i);
            }
        }
        i = i + 1;
    }
    Option::None
}

/// Backward window scan: the first good window from the 3' end, named by
/// its last position.
fn scan_back(q: &[u8], w: usize, mq: u8) -> (r: Option<usize>)
    requires
        1 <= w <= q@.len(),
    ensures
        ({
            let spec_r = first_good_back(q@, w as int, mq as int + 33, q@.len() - 1);
            match r {
                Option::None => spec_r is None,
                Option::Some(t) => spec_r == Option::Some(t as int) && w - 1 <= t < q@.len(),
            }
        }),
{
    let l = q.len();
    let thrw = thresh_total(mq, w);
    let n = l - w + 1;
    let mut k: usize = 0;
    while k < n
        invariant
            k <= n,
            n == l - w + 1,
            1 <= w <= l,
            l == q@.len(),
            thrw == (mq as int + 33) * (w as int),
            first_good_back(q@, w as int, mq as int + 33, l - 1) == first_good_back(
                q@,
                w as int,
                mq as int + 33,
                l - 1 - k,
            ),
        decreases n - k,
    {
        let t = l - 1 - k;
        let tw = window_sum(q, t + 1 - w, w);
        if tw >= thrw {
            return Option::Some(t);
        }
        k = k + 1;
    }
    assert(first_good_back(q@, w as int, mq as int + 33, l - 1 - n) is None);
    Option::None
}

/// Step forward over Ns.
fn skip_n_forward(seq: &[u8], s: usize) -> (r: usize)
    requires
        s <= seq@.len(),
    ensures
        r as int == skip_n_fwd(seq@, s as int),
        s <= r <= seq@.len(),
{
    let l = seq.len();
    let mut i = s;
    while i < l && seq[i] == BASE_N
        invariant
            s <= i <= l,
            l == seq@.len(),
            skip_n_fwd(seq@, s as int) == skip_n_fwd(seq@, i as int),
        decreases l - i,
    {
        i = i + 1;
    }
    i
}

/// Step backward over Ns, stopping at position zero.
fn skip_n_backward(seq: &[u8], t: usize) -> (r: usize)
    requires
        t < seq@.len(),
    ensures
        r as int == skip_n_back(seq@, t as int),
        r <= t,
{
    let mut i = t;
    while i > 0 && seq[i] == BASE_N
        invariant
            i <= t < seq@.len(),
            skip_n_back(seq@, t as int) == skip_n_back(seq@, i as int),
        decreases i,
    {
        i = i - 1;
    }
    i
}

/// Step forward over bases whose raw quality stays at or above `bt`.
fn walk_quals(q: &[u8], bt: u8, s: usize) -> (r: usize)
    requires
        s <= q@.len(),
    ensures
        r as int == walk_good(q@, bt, s as int),
        s <= r <= q@.len(),
{
    let l = q.len();
    let mut i = s;
    while i < l && q[i] >= bt
        invariant
            s <= i <= l,
            l == q@.len(),
            walk_good(q@, bt, s as int) == walk_good(q@, bt, i as int),
        decreases l - i,
    {
        i = i + 1;
    }
    i
}

pub struct SlidingWindow;

impl SlidingWindow {
    /// Apply the enabled cutters to one record.  The forward right cutter
    /// suppresses the backward tail cutter.  Returns false exactly when
    /// the record came out empty, which also clears it.
    pub fn trim_and_cut(rec: &mut FastqRecord, config: &Cli, front_trimmed: &mut usize) -> (r: bool)
        requires
            old(rec).wf(),
            config.wf(),
            *old(front_trimmed) <= old(rec)@.seq.len(),
            *old(front_trimmed) + old(rec)@.seq.len() <= usize::MAX,
        ensures
            ({
                let (nrv, nft, rb) = window_result(*config, old(rec)@, *old(front_trimmed) as int);
                final(rec)@ == nrv && *final(front_trimmed) == nft && r == rb
            }),
            final(rec).wf(),
    {
        let ghost rv = rec@;
        let ghost front0 = *front_trimmed as int;
        let l = rec.seq.len();

        let mut front: usize = *front_trimmed;
        if config.cut_front {
            let w = config.cut_front_window_size;
            let mq = config.cut_front_mean_quality;
            if l >= w {
                match scan_front(rec.qual.as_slice(), w, mq, false) {
                    Option::Some(s0) => {
                        let s1: usize = if s0 > 0 {
                            s0 + w - 1
                        } else {
                            0
                        };
                        front = skip_n_forward(rec.seq.as_slice(), s1);
                    },
                    Option::None => {
                        front = l;
                    },
                }
            } else {
                front = l;
            }
            assert(front as int == front_cut(
                rv.seq,
                rv.qual,
                config.cut_front_window_size as int,
                config.cut_front_mean_quality as int,
            ));
        }
        assert(front <= l);

        let mut right_cut_len: usize = 0;
        if config.cut_right {
            let w = config.cut_right_window_size;
            let mq = config.cut_right_mean_quality;
            let current_l = l - front;
            let qs = slice_subrange(rec.qual.as_slice(), front, l);
            assert(qs@ =~= rv.qual.skip(front as int));
            if current_l >= w {
                match scan_front(qs, w, mq, true) {
                    Option::Some(bp) => {
                        let bt: u8 = if mq <= 222 {
                            mq + 33
                        } else {
                            255
                        };
                        assert(bt == byte_thresh(mq as int));
                        let check_pos = walk_quals(qs, bt, bp);
                        right_cut_len = current_l - check_pos;
                    },
                    Option::None => {},
                }
            } else {
                right_cut_len = current_l;
            }
            assert(right_cut_len as int == right_cut(
                rv.qual.skip(front as int),
                config.cut_right_window_size as int,
                config.cut_right_mean_quality as int,
            ));
        }

        let mut tail: usize = 0;
        if !config.cut_right && config.cut_tail {
            let w = config.cut_tail_window_size;
            let mq = config.cut_tail_mean_quality;
            let current_l = l - front;
            let qs = slice_subrange(rec.qual.as_slice(), front, l);
            let ss = slice_subrange(rec.seq.as_slice(), front, l);
            assert(qs@ =~= rv.qual.skip(front as int));
            assert(ss@ =~= rv.seq.skip(front as int));
            if current_l >= w {
                match scan_back(qs, w, mq) {
                    Option::Some(t0) => {
                        let t1: usize = if t0 < current_l - 1 {
                            t0 + 1 - w
                        } else {
                            t0
                        };
                        let t2 = skip_n_backward(ss, t1);
                        tail = current_l - (t2 + 1);
                    },
                    Option::None => {
                        tail = current_l;
                    },
                }
            } else {
                tail = current_l;
            }
            assert(tail as int == tail_cut(
                rv.seq.skip(front as int),
                rv.qual.skip(front as int),
                config.cut_tail_window_size as int,
                config.cut_tail_mean_quality as int,
            ));
        }

        if front > 0 || tail > 0 || right_cut_len > 0 {
            let total_cut_right: usize = if tail >= right_cut_len {
                tail
            } else {
                right_cut_len
            };
            let end = l - total_cut_right;
            if front >= end {
                rec.seq.clear();
                rec.qual.clear();
                return false;
            }
            let ns = slice_to_vec(slice_subrange(rec.seq.as_slice(), front, end));
            let nq = slice_to_vec(slice_subrange(rec.qual.as_slice(), front, end));
            rec.seq = ns;
            rec.qual = nq;
            *front_trimmed = *front_trimmed + front;
            true
        } else {
            true
        }
    }
}

} // verus!
