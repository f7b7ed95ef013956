//! Continuous arcs of a multipath series: arc boundaries, the moving-average window of
//! each epoch, and the uniform decimation of oversized files.
use vstd::prelude::*;
use crate::gnss::{ObservationType, Satellite, SignalCode};
use crate::slips::{law_slip_marks_own_satellite, marked, SlipEvent, SlipSummary};

verus! {

/// Minimum number of epochs of an arc that is kept.
pub const MIN_ARC_EPOCHS: usize = 10;

/// Whether the arc `[start, end)` has enough epochs to be kept.
pub fn arc_long_enough(start: usize, end: usize) -> (r: bool)
    requires
        start <= end,
    ensures
        r == (end - start >= MIN_ARC_EPOCHS),
{
    end - start >= MIN_ARC_EPOCHS
}

/// Whether a slip of the summary lists phase `p1` or `p2` of `sat` at `t`.
pub open spec fn slip_at(s: &SlipSummary, sat: Satellite, p1: SignalCode, p2: SignalCode, t: i64) -> bool {
    marked(s.events(), sat, p1, t) || marked(s.events(), sat, p2, t)
}

/// Whether one of the first `n` slips of `slips` belongs to `sat` and lists phase `code`
/// at `t`.
pub open spec fn marked_in_first(slips: Seq<SlipEvent>, n: int, sat: Satellite, code: SignalCode, t: i64) -> bool {
    &&& code.obs_type == ObservationType::Phase
    &&& exists|i: int, j: int|
        0 <= i < n && 0 <= j < slips[i].signals@.len() && (#[trigger] slips[i]).satellite == sat
            && slips[i].epoch_ms == t && #[trigger] slips[i].signals@[j] == code
}

/// Epochs at which a slip of `sat` lists phase `p1` or `p2` (with repetitions).
fn slip_epochs(summary: &SlipSummary, sat: &Satellite, p1: &SignalCode, p2: &SignalCode) -> (r: Vec<i64>)
    ensures
        forall|t: i64| #[trigger] r@.contains(t) <==> slip_at(summary, *sat, *p1, *p2, t),
{
    let slips = summary.slips();
    let ghost ev = slips@;
    let mut r: Vec<i64> = Vec::new();
    let mut i: usize = 0;
    while i < slips.len()
        invariant
            i <= slips.len(),
            ev == slips@,
            ev == summary.events(),
            forall|t: i64|
                #[trigger] r@.contains(t) <==> (marked_in_first(ev, i as int, *sat, *p1, t) || marked_in_first(
                    ev,
                    i as int,
                    *sat,
                    *p2,
                    t,
                )),
        decreases slips.len() - i,
    {
        let e = &slips[i];
        let ghost pre = r@;
        let mut hit = false;
        if e.satellite == *sat {
            let mut j: usize = 0;
            while j < e.signals.len()
                invariant
                    j <= e.signals.len(),
                    i < slips.len(),
                    e.signals@ == ev[i as int].signals@,
                    hit <==> exists|k: int|
                        0 <= k < j && ((e.signals@[k] == *p1 && p1.obs_type == ObservationType::Phase) || (
                        e.signals@[k] == *p2 && p2.obs_type == ObservationType::Phase)),
                decreases e.signals.len() - j,
            {
                if (e.signals[j] == *p1 && p1.is_phase()) || (e.signals[j] == *p2 && p2.is_phase()) {
                    hit = true;
                }
                j = j + 1;
            }
        }
        if hit {
            r.push(e.epoch_ms);
        }
        proof {
            assert forall|t: i64|
                #[trigger] r@.contains(t) <==> (marked_in_first(ev, i + 1, *sat, *p1, t) || marked_in_first(
                    ev,
                    i + 1,
                    *sat,
                    *p2,
                    t,
                )) by {
                if r@.contains(t) {
                    if pre.contains(t) {
                        if marked_in_first(ev, i as int, *sat, *p1, t) {
                            let (a, b) = choose|a: int, b: int|
                                0 <= a < i && 0 <= b < ev[a].signals@.len() && (#[trigger] ev[a]).satellite == *sat
                                    && ev[a].epoch_ms == t && #[trigger] ev[a].signals@[b] == *p1;
                            assert(ev[a].signals@[b] == *p1);
                        } else {
                            let (a, b) = choose|a: int, b: int|
                                0 <= a < i && 0 <= b < ev[a].signals@.len() && (#[trigger] ev[a]).satellite == *sat
                                    && ev[a].epoch_ms == t && #[trigger] ev[a].signals@[b] == *p2;
                            assert(ev[a].signals@[b] == *p2);
                        }
                    } else {
                        assert(hit && t == ev[i as int].epoch_ms) by {
                            if !hit {
                                assert(r@ == pre);
                            } else {
                                assert(r@ == pre.push(e.epoch_ms));
                                let k = choose|k: int| 0 <= k < r@.len() && r@[k] == t;
                                if k < pre.len() {
                                    assert(pre[k] == t);
                                }
                            }
                        }
                        let k = choose|k: int|
                            0 <= k < e.signals@.len() && ((e.signals@[k] == *p1 && p1.obs_type == ObservationType::Phase) || (
                            e.signals@[k] == *p2 && p2.obs_type == ObservationType::Phase));
                        assert(ev[i as int].signals@[k] == e.signals@[k]);
                    }
                } else {
                    if marked_in_first(ev, i + 1, *sat, *p1, t) || marked_in_first(ev, i + 1, *sat, *p2, t) {
                        let q = if marked_in_first(ev, i + 1, *sat, *p1, t) { *p1 } else { *p2 };
                        let (a, b) = choose|a: int, b: int|
                            0 <= a < i + 1 && 0 <= b < ev[a].signals@.len() && (#[trigger] ev[a]).satellite == *sat
                                && ev[a].epoch_ms == t && #[trigger] ev[a].signals@[b] == q;
                        if a < i {
                            assert(ev[a].signals@[b] == q);
                            assert(marked_in_first(ev, i as int, *sat, q, t));
                            assert(pre.contains(t));
                            let k = choose|k: int| 0 <= k < pre.len() && pre[k] == t;
                            assert(r@[k] == t);
                        } else {
                            assert(e.signals@[b] == q);
                            assert(hit);
                            assert(r@[r@.len() - 1] == t);
                        }
                    }
                }
            }
        }
        i = i + 1;
    }
    proof {
        assert forall|t: i64| #[trigger] r@.contains(t) <==> slip_at(summary, *sat, *p1, *p2, t) by {
            if marked_in_first(ev, ev.len() as int, *sat, *p1, t) {
                let (a, b) = choose|a: int, b: int|
                    0 <= a < ev.len() && 0 <= b < ev[a].signals@.len() && (#[trigger] ev[a]).satellite == *sat
                        && ev[a].epoch_ms == t && #[trigger] ev[a].signals@[b] == *p1;
                assert(ev[a].signals@[b] == *p1);
            }
            if marked_in_first(ev, ev.len() as int, *sat, *p2, t) {
                let (a, b) = choose|a: int, b: int|
                    0 <= a < ev.len() && 0 <= b < ev[a].signals@.len() && (#[trigger] ev[a]).satellite == *sat
                        && ev[a].epoch_ms == t && #[trigger] ev[a].signals@[b] == *p2;
                assert(ev[a].signals@[b] == *p2);
            }
            if marked(ev, *sat, *p1, t) {
                let (a, b) = choose|a: int, b: int|
                    0 <= a < ev.len() && 0 <= b < ev[a].signals@.len() && (#[trigger] ev[a]).satellite == *sat
                        && ev[a].epoch_ms == t && #[trigger] ev[a].signals@[b] == *p1;
                assert(ev[a].signals@[b] == *p1);
            }
            if marked(ev, *sat, *p2, t) {
                let (a, b) = choose|a: int, b: int|
                    0 <= a < ev.len() && 0 <= b < ev[a].signals@.len() && (#[trigger] ev[a]).satellite == *sat
                        && ev[a].epoch_ms == t && #[trigger] ev[a].signals@[b] == *p2;
                assert(ev[a].signals@[b] == *p2);
            }
        }
    }
    r
}

fn contains_epoch(v: &Vec<i64>, t: i64) -> (r: bool)
    ensures
        r == v@.contains(t),
{
    let mut i: usize = 0;
    while i < v.len()
        invariant
            i <= v.len(),
            forall|k: int| 0 <= k < i ==> v@[k] != t,
        decreases v.len() - i,
    {
        if v[i] == t {
            return true;
        }
        i = i + 1;
    }
    false
}

/// For each epoch of a series, whether a slip was detected on either phase of its pair.
pub fn slip_flags(
    t_ms: &Vec<i64>,
    summary: &SlipSummary,
    sat: &Satellite,
    p1: &SignalCode,
    p2: &SignalCode,
) -> (r: Vec<bool>)
    ensures
        r.len() == t_ms.len(),
        forall|i: int| 0 <= i < r.len() ==> #[trigger] r@[i] == slip_at(summary, *sat, *p1, *p2, t_ms@[i]),
        forall|i: int|
            0 <= i < r.len() ==> (#[trigger] r@[i] <==> exists|k: int|
                0 <= k < summary.events().len() && (#[trigger] summary.events()[k]).satellite == *sat
                    && summary.events()[k].epoch_ms == t_ms@[i] && ((p1.obs_type == ObservationType::Phase
                    && summary.events()[k].signals@.contains(*p1)) || (p2.obs_type == ObservationType::Phase
                    && summary.events()[k].signals@.contains(*p2)))),
{
    proof {
        assert forall|t: i64| #[trigger] slip_at(summary, *sat, *p1, *p2, t) <==> exists|k: int|
            0 <= k < summary.events().len() && (#[trigger] summary.events()[k]).satellite == *sat
                && summary.events()[k].epoch_ms == t && ((p1.obs_type == ObservationType::Phase
                && summary.events()[k].signals@.contains(*p1)) || (p2.obs_type == ObservationType::Phase
                && summary.events()[k].signals@.contains(*p2))) by {
            law_slip_marks_own_satellite(summary.events(), *sat, *p1, t);
            law_slip_marks_own_satellite(summary.events(), *sat, *p2, t);
        }
    }
    let hits = slip_epochs(summary, sat, p1, p2);
    let mut r: Vec<bool> = Vec::new();
    let mut i: usize = 0;
    while i < t_ms.len()
        invariant
            i <= t_ms.len(),
            r.len() == i,
            forall|t: i64| #[trigger] hits@.contains(t) <==> slip_at(summary, *sat, *p1, *p2, t),
            forall|k: int| 0 <= k < i ==> #[trigger] r@[k] == slip_at(summary, *sat, *p1, *p2, t_ms@[k]),
        decreases t_ms.len() - i,
    {
        let f = contains_epoch(&hits, t_ms[i]);
        r.push(f);
        i = i + 1;
    }
    r
}

/// Number of positions from `from` on that are set.
pub open spec fn count_set(flags: Seq<bool>, from: int) -> nat
    decreases flags.len(),
{
    if flags.len() == 0 || flags.len() <= from {
        0
    } else {
        count_set(flags.drop_last(), from) + if flags.last() {
            1nat
        } else {
            0nat
        }
    }
}

/// Number of arc breaks caused by slips: the epochs after the first that carry a slip.
pub fn count_breaks(flags: &Vec<bool>) -> (r: usize)
    ensures
        r == count_set(flags@, 1),
{
    let mut c: usize = 0;
    let mut i: usize = 0;
    while i < flags.len()
        invariant
            i <= flags.len(),
            c == count_set(flags@.subrange(0, i as int), 1),
            c <= i,
        decreases flags.len() - i,
    {
        proof {
            assert(flags@.subrange(0, i + 1).drop_last() =~= flags@.subrange(0, i as int));
        }
        if i >= 1 && flags[i] {
            c = c + 1;
        }
        i = i + 1;
    }
    assert(flags@.subrange(0, flags.len() as int) =~= flags@);
    c
}

/// `arcs` cuts `0..n` into consecutive non-empty half-open ranges that start exactly at
/// the set positions after the first (and at 0).
pub open spec fn is_arc_split(breaks: Seq<bool>, arcs: Seq<(usize, usize)>) -> bool {
    let n = breaks.len();
    &&& arcs.len() >= 1
    &&& arcs[0].0 == 0
    &&& arcs[arcs.len() - 1].1 == n
    &&& forall|k: int| 0 <= k < arcs.len() - 1 ==> (#[trigger] arcs[k]).1 == arcs[k + 1].0
    &&& forall|k: int| 0 <= k < arcs.len() ==> (#[trigger] arcs[k]).0 < arcs[k].1
    &&& forall|k: int| 0 < k < arcs.len() ==> breaks[(#[trigger] arcs[k]).0 as int]
    &&& forall|k: int, i: int|
        0 <= k < arcs.len() && (#[trigger] arcs[k]).0 < i < arcs[k].1 ==> !#[trigger] breaks[i]
}

/// Arc boundaries `[start, end)` of a series with `breaks.len()` epochs: a new arc starts
/// at every epoch after the first whose break flag is set.
#[verifier::rlimit(40)]
pub fn split_arcs(breaks: &Vec<bool>) -> (r: Vec<(usize, usize)>)
    requires
        breaks.len() >= 1,
    ensures
        is_arc_split(breaks@, r@),
        r.len() == count_set(breaks@, 1) + 1,
{
    let n = breaks.len();
    let mut arcs: Vec<(usize, usize)> = Vec::new();
    let mut start: usize = 0;
    let mut i: usize = 1;
    assert(breaks@.subrange(0, 1).drop_last() =~= breaks@.subrange(0, 0));
    while i < n
        invariant
            n == breaks.len(),
            1 <= i <= n,
            start < i,
            arcs.len() == count_set(breaks@.subrange(0, i as int), 1),
            arcs.len() == 0 ==> start == 0,
            arcs.len() > 0 ==> arcs@[0].0 == 0,
            arcs.len() > 0 ==> arcs@[arcs.len() - 1].1 == start,
            arcs.len() > 0 ==> breaks@[start as int],
            forall|k: int| 0 <= k < arcs.len() - 1 ==> (#[trigger] arcs@[k]).1 == arcs@[k + 1].0,
            forall|k: int| 0 <= k < arcs.len() ==> (#[trigger] arcs@[k]).0 < arcs@[k].1,
            forall|k: int| 0 < k < arcs.len() ==> breaks@[(#[trigger] arcs@[k]).0 as int],
            forall|k: int, j: int|
                0 <= k < arcs.len() && (#[trigger] arcs@[k]).0 < j < arcs@[k].1 ==> !#[trigger] breaks@[j],
            forall|j: int| start < j < i ==> !#[trigger] breaks@[j],
        decreases n - i,
    {
        proof {
            assert(breaks@.subrange(0, i + 1).drop_last() =~= breaks@.subrange(0, i as int));
        }
        if breaks[i] {
            arcs.push((start, i));
            start = i;
        }
        i = i + 1;
    }
    arcs.push((start, n));
    assert(breaks@.subrange(0, n as int) =~= breaks@);
    arcs
}

/// `(lo, hi)` is the window of epoch `i` of width `half` on each side: `[lo, hi)` holds
/// exactly the epochs within `half` of `t[i]`, and contains `i`.
pub open spec fn is_window(t: Seq<i64>, half: int, i: int, lo: int, hi: int) -> bool {
    &&& 0 <= lo <= i < hi <= t.len()
    &&& forall|j: int| 0 <= j < lo ==> (#[trigger] t[j]) < t[i] - half
    &&& forall|j: int| lo <= j < hi ==> t[i] - half <= (#[trigger] t[j]) <= t[i] + half
    &&& forall|j: int| hi <= j < t.len() ==> (#[trigger] t[j]) > t[i] + half
}

/// Whether times never decrease.
pub open spec fn nondecreasing(t: Seq<i64>) -> bool {
    forall|a: int, b: int| 0 <= a <= b < t.len() ==> t[a] <= t[b]
}

/// The first index from `k` on whose time is at least `bound`; the length when none is.
pub open spec fn first_not_below(t: Seq<i64>, bound: int, k: int) -> int
    decreases t.len() - k,
{
    if k >= t.len() || t[k] >= bound {
        k
    } else {
        first_not_below(t, bound, k + 1)
    }
}

/// The first index from `k` on whose time exceeds `bound`; the length when none does.
pub open spec fn first_above(t: Seq<i64>, bound: int, k: int) -> int
    decreases t.len() - k,
{
    if k >= t.len() || t[k] > bound {
        k
    } else {
        first_above(t, bound, k + 1)
    }
}

/// Start of the window of epoch `i`: the window starts of the epochs before it only move
/// forward, each to the first epoch not more than `half` before its own epoch.
pub open spec fn window_lo(t: Seq<i64>, half: int, i: nat) -> int
    decreases i,
{
    let prev = if i == 0 {
        0
    } else {
        window_lo(t, half, (i - 1) as nat)
    };
    first_not_below(t, t[i as int] - half, prev)
}

/// End of the window of epoch `i`: it never moves back, lies past `i`, and stops at the
/// first epoch more than `half` after epoch `i`.
pub open spec fn window_hi(t: Seq<i64>, half: int, i: nat) -> int
    decreases i,
{
    let prev = if i == 0 {
        0
    } else {
        window_hi(t, half, (i - 1) as nat)
    };
    let start = if prev < i + 1 {
        i + 1 as int
    } else {
        prev
    };
    first_above(t, t[i as int] + half, start)
}

/// Centered moving-average windows of an arc: for every epoch the index range of the
/// epochs within `half_ms` of it (two pointers, O(n)). Every window contains its epoch;
/// for non-decreasing times it holds exactly the epochs within `half_ms`, and for any
/// times it is the range given by `window_lo` and `window_hi`.
pub fn moving_windows(t_ms: &Vec<i64>, half_ms: i64) -> (r: Vec<(usize, usize)>)
    requires
        half_ms >= 0,
    ensures
        r.len() == t_ms.len(),
        forall|i: int|
            0 <= i < r.len() ==> (#[trigger] r@[i]).0 == window_lo(t_ms@, half_ms as int, i as nat)
                && r@[i].1 == window_hi(t_ms@, half_ms as int, i as nat),
        forall|i: int| 0 <= i < r.len() ==> (#[trigger] r@[i]).0 <= i < r@[i].1 <= t_ms.len(),
        nondecreasing(t_ms@) ==> forall|i: int|
            0 <= i < r.len() ==> is_window(t_ms@, half_ms as int, i, (#[trigger] r@[i]).0 as int, r@[i].1 as int),
{
    let ghost sorted = nondecreasing(t_ms@);
    let ghost hf = half_ms as int;
    let n = t_ms.len();
    let mut out: Vec<(usize, usize)> = Vec::new();
    let mut lo: usize = 0;
    let mut hi: usize = 0;
    let mut i: usize = 0;
    while i < n
        invariant
            n == t_ms.len(),
            i <= n,
            half_ms >= 0,
            hf == half_ms,
            out.len() == i,
            sorted == nondecreasing(t_ms@),
            forall|k: int| 0 <= k < i ==> (#[trigger] out@[k]).0 <= k < out@[k].1 <= n,
            forall|k: int|
                0 <= k < i ==> (#[trigger] out@[k]).0 == window_lo(t_ms@, hf, k as nat) && out@[k].1
                    == window_hi(t_ms@, hf, k as nat),
            i > 0 ==> lo == window_lo(t_ms@, hf, (i - 1) as nat) && hi == window_hi(t_ms@, hf, (i - 1) as nat),
            sorted ==> forall|k: int|
                0 <= k < i ==> is_window(t_ms@, half_ms as int, k, (#[trigger] out@[k]).0 as int, out@[k].1 as int),
            lo <= i,
            i > 0 ==> hi >= i,
            hi <= n,
            sorted && i > 0 ==> forall|j: int| 0 <= j < lo ==> (#[trigger] t_ms@[j]) < t_ms@[i - 1] - half_ms,
            sorted && i > 0 ==> forall|j: int| i - 1 < j < hi ==> (#[trigger] t_ms@[j]) <= t_ms@[i - 1] + half_ms,
            i == 0 ==> lo == 0 && hi == 0,
        decreases n - i,
    {
        let t = t_ms[i] as i128;
        let h = half_ms as i128;
        let ghost lo_target = first_not_below(t_ms@, t_ms@[i as int] - hf, lo as int);
        proof {
            assert(window_lo(t_ms@, hf, i as nat) == lo_target);
        }
        while lo < n && (t_ms[lo] as i128) < t - h
            invariant
                n == t_ms.len(),
                lo <= n,
                t == t_ms@[i as int],
                h == half_ms,
                hf == half_ms,
                h >= 0,
                i < n,
                lo <= i,
                first_not_below(t_ms@, t_ms@[i as int] - hf, lo as int) == lo_target,
                sorted == nondecreasing(t_ms@),
                sorted ==> forall|j: int| 0 <= j < lo ==> (#[trigger] t_ms@[j]) < t_ms@[i as int] - half_ms,
            decreases n - lo,
        {
            lo = lo + 1;
        }
        if hi < i + 1 {
            hi = i + 1;
        }
        let ghost hi_target = first_above(t_ms@, t_ms@[i as int] + hf, hi as int);
        proof {
            assert(window_hi(t_ms@, hf, i as nat) == hi_target);
        }
        while hi < n && (t_ms[hi] as i128) <= t + h
            invariant
                n == t_ms.len(),
                i < hi <= n,
                t == t_ms@[i as int],
                h == half_ms,
                hf == half_ms,
                first_above(t_ms@, t_ms@[i as int] + hf, hi as int) == hi_target,
                sorted == nondecreasing(t_ms@),
                sorted ==> forall|j: int| i < j < hi ==> (#[trigger] t_ms@[j]) <= t_ms@[i as int] + half_ms,
            decreases n - hi,
        {
            hi = hi + 1;
        }
        proof {
            if sorted {
                assert forall|j: int| lo <= j < hi implies t_ms@[i as int] - half_ms <= (#[trigger] t_ms@[j])
                    <= t_ms@[i as int] + half_ms by {
                    if j < i {
                        assert(t_ms@[j] <= t_ms@[i as int]);
                        if t_ms@[j] < t_ms@[i as int] - half_ms {
                            assert(t_ms@[lo as int] <= t_ms@[j]);
                        }
                    } else if j > i {
                        assert(t_ms@[i as int] <= t_ms@[j]);
                    }
                }
                assert forall|j: int| hi <= j < n implies (#[trigger] t_ms@[j]) > t_ms@[i as int] + half_ms by {
                    assert(t_ms@[hi as int] <= t_ms@[j]);
                }
            }
        }
        out.push((lo, hi));
        i = i + 1;
    }
    out
}

/// Epoch indices kept by uniform decimation: when `max_epochs` is `Some(m)` with
/// `0 < m < len`, every `stride`-th epoch from the first, stride = ⌈len / m⌉; otherwise all.
pub open spec fn decimation_stride(len: nat, max_epochs: Option<usize>) -> nat {
    match max_epochs {
        Some(m) => if m > 0 && len > m {
            ((len + m - 1) / (m as int)) as nat
        } else {
            1
        },
        None => 1,
    }
}

/// Indices of the epochs kept when decimating `len` epochs (see `decimation_stride`).
pub fn decimate(len: usize, max_epochs: Option<usize>) -> (r: Vec<usize>)
    ensures
        forall|k: int| 0 <= k < r.len() ==> (#[trigger] r@[k]) == k * decimation_stride(len as nat, max_epochs),
        r.len() * decimation_stride(len as nat, max_epochs) >= len,
        r.len() > 0 ==> (r.len() - 1) * decimation_stride(len as nat, max_epochs) < len,
        r.len() == 0 <==> len == 0,
{
    let stride: usize = match max_epochs {
        Some(m) => if m > 0 && len > m {
            let q = len / m;
            if len % m != 0 {
                assert(q < len) by (nonlinear_arith)
                    requires
                        m > 0,
                        q == len / m,
                        len % m != 0,
                ;
                assert(q >= 1) by (nonlinear_arith)
                    requires
                        m > 0,
                        len > m,
                        q == len / m,
                ;
                assert((q + 1) as int == (len + m - 1) / (m as int)) by (nonlinear_arith)
                    requires
                        m > 0,
                        q == len / m,
                        len % m != 0,
                ;
                q + 1
            } else {
                assert(q >= 1) by (nonlinear_arith)
                    requires
                        m > 0,
                        len > m,
                        q == len / m,
                ;
                assert(q as int == (len + m - 1) / (m as int)) by (nonlinear_arith)
                    requires
                        m > 0,
                        q == len / m,
                        len % m == 0,
                ;
                q
            }
        } else {
            1
        },
        None => 1,
    };
    assert(stride >= 1);
    assert(len % stride != 0 ==> len / stride < len) by (nonlinear_arith)
        requires
            stride >= 1,
    ;
    let count: usize = len / stride + if len % stride != 0 {
        1
    } else {
        0
    };
    assert(count * stride >= len && (count > 0 ==> (count - 1) * stride < len) && (count == 0 <==> len == 0)) by (nonlinear_arith)
        requires
            stride >= 1,
            count == len / stride + if len % stride != 0 { 1int } else { 0int },
    ;
    let mut r: Vec<usize> = Vec::new();
    let mut k: usize = 0;
    while k < count
        invariant
            stride >= 1,
            stride == decimation_stride(len as nat, max_epochs),
            k <= count,
            count > 0 ==> (count - 1) * stride < len,
            r.len() == k,
            forall|j: int| 0 <= j < k ==> (#[trigger] r@[j]) == j * stride,
        decreases count - k,
    {
        assert(k * stride < len) by (nonlinear_arith)
            requires
                k < count,
                (count - 1) * stride < len,
                stride >= 1,
        ;
        r.push(k * stride);
        k = k + 1;
    }
    r
}

/// Decimation keeps at most `m` epochs when it applies.
pub proof fn law_decimation_bound(len: nat, m: usize)
    requires
        0 < m < len,
    ensures
        decimation_stride(len, Some(m)) >= 1,
        (len + decimation_stride(len, Some(m)) - 1) / (decimation_stride(len, Some(m)) as int) <= m,
{
    let s = decimation_stride(len, Some(m)) as int;
    let mi = m as int;
    let li = len as int;
    assert(s == (li + mi - 1) / mi);
    assert(s * mi >= li) by (nonlinear_arith)
        requires
            mi > 0,
            s == (li + mi - 1) / mi,
    ;
    assert(s >= 1) by (nonlinear_arith)
        requires
            mi > 0,
            li > mi,
            s == (li + mi - 1) / mi,
    ;
    assert((li + s - 1) / s <= mi) by (nonlinear_arith)
        requires
            s >= 1,
            s * mi >= li,
    ;
}

} // verus!
