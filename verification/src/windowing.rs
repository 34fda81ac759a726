//! The schedule of the sliding windows of the temporal anomaly scan: windows
//! start every `step` epochs, are cut at the scan limit, and are kept when they
//! span enough epochs for a principal-component analysis.

use vstd::prelude::*;

verus! {

/// The fewest epochs a window must span to be analysed.
pub const MIN_WINDOW_EPOCHS: usize = 100;

/// How far a scan position is from the limit (0 past it).
pub open spec fn remaining(from: int, limit: int) -> nat {
    if from < limit {
        (limit - from) as nat
    } else {
        0
    }
}

/// The windows `[start, end)` whose starts are `from`, `from + step`, ... below
/// `limit`, each ending `size` epochs later or at `limit`, kept when they span
/// at least `MIN_WINDOW_EPOCHS` epochs.
pub open spec fn windows_from(from: int, limit: int, size: int, step: int) -> Seq<(usize, usize)>
    decreases remaining(from, limit),
    when step > 0
{
    if from >= limit {
        seq![]
    } else {
        let end = if from + size < limit {
            from + size
        } else {
            limit
        };
        let rest = windows_from(from + step, limit, size, step);
        if end - from >= MIN_WINDOW_EPOCHS {
            seq![(from as usize, end as usize)] + rest
        } else {
            rest
        }
    }
}

/// The windows of a scan of the epochs `0..limit` (see `windows_from`).
pub fn analysis_windows(limit: usize, size: usize, step: usize) -> (r: Vec<(usize, usize)>)
    requires
        step > 0,
        limit + size <= usize::MAX,
        limit + step <= usize::MAX,
    ensures
        r@ == windows_from(0, limit as int, size as int, step as int),
{
    let mut r: Vec<(usize, usize)> = Vec::new();
    let mut start: usize = 0;
    assert(r@ + windows_from(0, limit as int, size as int, step as int) == windows_from(
        0,
        limit as int,
        size as int,
        step as int,
    ));
    while start < limit
        invariant
            step > 0,
            limit + size <= usize::MAX,
            limit + step <= usize::MAX,
            r@ + windows_from(start as int, limit as int, size as int, step as int) == windows_from(
                0,
                limit as int,
                size as int,
                step as int,
            ),
        decreases remaining(start as int, limit as int),
    {
        let end = if start + size < limit {
            start + size
        } else {
            limit
        };
        let ghost before = r@;
        if end - start >= MIN_WINDOW_EPOCHS {
            r.push((start, end));
            assert(r@ + windows_from(start + step, limit as int, size as int, step as int) =~= before
                + windows_from(start as int, limit as int, size as int, step as int));
        }
        start = start + step;
    }
    assert(r@ + windows_from(start as int, limit as int, size as int, step as int) =~= r@);
    r
}

/// Every window of a scan lies within the scanned epochs and spans at least
/// `MIN_WINDOW_EPOCHS` and at most `size` epochs.
pub proof fn law_windows_within_limit(from: int, limit: int, size: int, step: int)
    requires
        step > 0,
        0 <= from,
        limit <= usize::MAX,
    ensures
        forall|i: int|
            0 <= i < windows_from(from, limit, size, step).len() ==> {
                let w = #[trigger] windows_from(from, limit, size, step)[i];
                &&& from <= w.0
                &&& w.0 < w.1 <= limit
                &&& w.1 - w.0 >= MIN_WINDOW_EPOCHS
                &&& w.1 - w.0 <= size
            },
    decreases remaining(from, limit),
{
    if from < limit {
        law_windows_within_limit(from + step, limit, size, step);
        let end = if from + size < limit {
            from + size
        } else {
            limit
        };
        let rest = windows_from(from + step, limit, size, step);
        if end - from >= MIN_WINDOW_EPOCHS {
            assert forall|i: int| 0 < i < windows_from(from, limit, size, step).len() implies #[trigger] windows_from(from, limit, size, step)[i] == rest[i - 1] by {}
        }
    }
}

/// The window that starts at `s`: `size` epochs long, cut at `limit`.
pub open spec fn window_at(s: int, limit: int, size: int) -> (int, int) {
    (s, if s + size < limit { s + size } else { limit })
}

/// Every start below the limit is examined, none skipped and none added: the
/// windows of a scan from `from` are, in increasing order of start, exactly the
/// windows starting at `from`, `from + step`, `from + 2 step`, ... below `limit`
/// (each `size` epochs long, cut at `limit`) that span at least
/// `MIN_WINDOW_EPOCHS` epochs.
pub proof fn law_windows_are_every_step(from: int, limit: int, size: int, step: int)
    requires
        step > 0,
        0 <= from,
        0 <= size,
        limit <= usize::MAX,
    ensures
        forall|i: int|
            0 <= i < windows_from(from, limit, size, step).len() ==> {
                let w = #[trigger] windows_from(from, limit, size, step)[i];
                &&& from <= w.0 < limit
                &&& (w.0 - from) % step == 0
                &&& (w.0 as int, w.1 as int) == window_at(w.0 as int, limit, size)
                &&& w.1 - w.0 >= MIN_WINDOW_EPOCHS
            },
        forall|s: int|
            from <= s < limit && (s - from) % step == 0 && #[trigger] window_at(s, limit, size).1 - s
                >= MIN_WINDOW_EPOCHS ==> exists|i: int|
                0 <= i < windows_from(from, limit, size, step).len() && {
                    let w = #[trigger] windows_from(from, limit, size, step)[i];
                    (w.0 as int, w.1 as int) == window_at(s, limit, size)
                },
        forall|i: int, j: int|
            0 <= i < j < windows_from(from, limit, size, step).len() ==> (#[trigger] windows_from(
                from,
                limit,
                size,
                step,
            )[i]).0 < (#[trigger] windows_from(from, limit, size, step)[j]).0,
    decreases remaining(from, limit),
{
    let ws = windows_from(from, limit, size, step);
    if from < limit {
        let nf = from + step;
        law_windows_are_every_step(nf, limit, size, step);
        law_windows_within_limit(nf, limit, size, step);
        let rest = windows_from(nf, limit, size, step);
        let end = window_at(from, limit, size).1;
        assert(from as usize as int == from && end as usize as int == end);
        let kept = end - from >= MIN_WINDOW_EPOCHS;
        assert(kept ==> ws == seq![(from as usize, end as usize)] + rest);
        assert(!kept ==> ws == rest);
        assert forall|i: int| 0 <= i < ws.len() implies {
            let w = #[trigger] ws[i];
            &&& from <= w.0 < limit
            &&& (w.0 - from) % step == 0
            &&& (w.0 as int, w.1 as int) == window_at(w.0 as int, limit, size)
            &&& w.1 - w.0 >= MIN_WINDOW_EPOCHS
        } by {
            if kept && i == 0 {
                assert(ws[0] == (from as usize, end as usize));
                vstd::arithmetic::div_mod::lemma_small_mod(0, step as nat);
            } else {
                let k = if kept { i - 1 } else { i };
                assert(ws[i] == rest[k]);
                let w = rest[k];
                assert((w.0 - nf) % step == 0);
                vstd::arithmetic::div_mod::lemma_mod_add_multiples_vanish(w.0 - nf, step);
                assert(step + (w.0 - nf) == w.0 - from);
            }
        }
        assert forall|s: int|
            from <= s < limit && (s - from) % step == 0 && #[trigger] window_at(s, limit, size).1 - s
                >= MIN_WINDOW_EPOCHS implies exists|i: int|
                0 <= i < ws.len() && {
                    let w = #[trigger] ws[i];
                    (w.0 as int, w.1 as int) == window_at(s, limit, size)
                } by {
            if s == from {
                assert(ws[0] == (from as usize, end as usize));
            } else {
                let x = s - from;
                if x < step {
                    vstd::arithmetic::div_mod::lemma_small_mod(x as nat, step as nat);
                }
                assert(x >= step);
                vstd::arithmetic::div_mod::lemma_mod_add_multiples_vanish(x - step, step);
                assert((s - nf) % step == 0);
                let i = choose|i: int|
                    0 <= i < rest.len() && {
                        let w = #[trigger] rest[i];
                        (w.0 as int, w.1 as int) == window_at(s, limit, size)
                    };
                if kept {
                    assert(ws[i + 1] == rest[i]);
                } else {
                    assert(ws[i] == rest[i]);
                }
            }
        }
        assert forall|i: int, j: int| 0 <= i < j < ws.len() implies (#[trigger] ws[i]).0 < (#[trigger] ws[j]).0 by {
            if kept {
                if i == 0 {
                    assert(ws[j] == rest[j - 1]);
                    assert(nf <= rest[j - 1].0);
                } else {
                    assert(ws[i] == rest[i - 1] && ws[j] == rest[j - 1]);
                }
            } else {
                assert(ws[i] == rest[i] && ws[j] == rest[j]);
            }
        }
    }
}

} // verus!
