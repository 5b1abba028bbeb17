//! Which frames of a window are compared at each lag.
use vstd::prelude::*;

verus! {

/// For a window of `window` frames, the pairs compared at lag `t + 1` (held
/// at position `t`): `(i, i + t + 1)` for every `i` that keeps both inside
/// the window. Lag zero never appears.
pub open spec fn lag_plan(window: int) -> Seq<Seq<(usize, usize)>> {
    Seq::new(
        (if window > 0 { window - 1 } else { 0 }) as nat,
        |t: int| Seq::new((window - (t + 1)) as nat, |i: int| (i as usize, (i + t + 1) as usize)),
    )
}

/// The frame pairs of a window of `window` frames, grouped by lag from 1 to
/// `window - 1`.
pub fn lag_pairs(window: usize) -> (r: Vec<Vec<(usize, usize)>>)
    ensures
        r@.len() == lag_plan(window as int).len(),
        forall|t: int| 0 <= t < r@.len() ==> (#[trigger] r@[t])@ == lag_plan(window as int)[t],
{
    let mut r: Vec<Vec<(usize, usize)>> = Vec::new();
    if window == 0 {
        return r;
    }
    let mut t: usize = 0;
    while t + 1 < window
        invariant
            window > 0,
            t + 1 <= window,
            r@.len() == t,
            forall|s: int| 0 <= s < t ==> (#[trigger] r@[s])@ == lag_plan(window as int)[s],
        decreases window - t,
    {
        let lag = t + 1;
        let mut pairs: Vec<(usize, usize)> = Vec::new();
        let mut i: usize = 0;
        while i + lag < window
            invariant
                lag == t + 1,
                i + lag <= window,
                pairs@.len() == i,
                forall|j: int| 0 <= j < i ==> #[trigger] pairs@[j] == (j as usize, (j + t + 1) as usize),
            decreases window - i,
        {
            pairs.push((i, i + lag));
            i = i + 1;
        }
        assert(pairs@ =~= lag_plan(window as int)[t as int]);
        r.push(pairs);
        t = t + 1;
    }
    r
}

} // verus!
