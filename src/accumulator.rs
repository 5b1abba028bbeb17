//! Running sums of the per-lag planes, one entry per tile size.
use std::collections::HashMap;
use vstd::prelude::*;

verus! {

broadcast use vstd::std_specs::hash::group_hash_axioms;

/// Per tile size, the running sum over start times of the per-lag planes;
/// every entry holds one plane per lag. The planes themselves are combined
/// by the caller's `combine`.
pub struct Accumulator<P> {
    lags: usize,
    entries: HashMap<usize, Vec<P>>,
}

impl<P> Accumulator<P> {
    /// The entries, keyed by tile size.
    pub closed spec fn entries_map(&self) -> Map<usize, Vec<P>> {
        self.entries@
    }

    /// The number of planes (lags) in every entry.
    pub closed spec fn lag_count(&self) -> nat {
        self.lags as nat
    }

    /// Every entry holds one plane per lag.
    pub open spec fn wf(&self) -> bool {
        forall|k: usize| #[trigger] self.entries_map().contains_key(k)
            ==> self.entries_map()[k]@.len() == self.lag_count()
    }

    /// The planes accumulated for `size`, if any window was added for it.
    pub open spec fn entry(&self, size: usize) -> Option<Seq<P>> {
        if self.entries_map().contains_key(size) {
            Some(self.entries_map()[size]@)
        } else {
            None
        }
    }

    /// An accumulator with no entries, for `lags` planes per entry.
    pub fn new(lags: usize) -> (r: Self)
        ensures
            r.wf(),
            r.lag_count() == lags,
            forall|size: usize| #[trigger] r.entry(size) is None,
    {
        Accumulator { lags, entries: HashMap::new() }
    }

    /// The number of planes in every entry.
    pub fn lags(&self) -> (r: usize)
        ensures
            r == self.lag_count(),
    {
        self.lags
    }

    /// Adds one window's planes for `size`: they become the entry when
    /// `size` has none yet, and are otherwise combined plane by plane with
    /// the entry by `combine`. Other sizes are left as they were.
    pub fn add<F: Fn(&P, P) -> P>(&mut self, size: usize, planes: Vec<P>, combine: F)
        requires
            old(self).wf(),
            planes@.len() == old(self).lag_count(),
            forall|a: &P, b: P| #[trigger] combine.requires((a, b)),
        ensures
            final(self).wf(),
            final(self).lag_count() == old(self).lag_count(),
            old(self).entry(size) is None ==> final(self).entry(size) == Some(planes@),
            old(self).entry(size) is Some ==> {
                let before = old(self).entry(size)->Some_0;
                &&& final(self).entry(size) is Some
                &&& final(self).entry(size)->Some_0.len() == before.len()
                &&& forall|t: int| 0 <= t < before.len() ==> combine.ensures(
                    (&before[t], planes@[t]),
                    #[trigger] final(self).entry(size)->Some_0[t],
                )
            },
            forall|other: usize| other != size ==> #[trigger] final(self).entry(other) == old(self).entry(other),
    {
        let ghost orig = planes@;
        match self.entries.remove(&size) {
            None => {
                self.entries.insert(size, planes);
            },
            Some(prev) => {
                let ghost prev_seq = prev@;
                let mut rest = planes;
                let mut sum: Vec<P> = Vec::new();
                let mut t: usize = 0;
                while t < prev.len()
                    invariant
                        prev@ == prev_seq,
                        prev_seq.len() == orig.len(),
                        t <= prev_seq.len(),
                        rest@ == orig.subrange(t as int, orig.len() as int),
                        sum@.len() == t,
                        forall|a: &P, b: P| #[trigger] combine.requires((a, b)),
                        forall|u: int| 0 <= u < t ==> combine.ensures((&prev_seq[u], orig[u]), #[trigger] sum@[u]),
                    decreases prev_seq.len() - t,
                {
                    let p = rest.remove(0);
                    let c = combine(&prev[t], p);
                    sum.push(c);
                    t = t + 1;
                    assert(rest@ =~= orig.subrange(t as int, orig.len() as int));
                }
                self.entries.insert(size, sum);
            },
        }
    }

    /// The planes accumulated for `size`, if any.
    pub fn get(&self, size: usize) -> (r: Option<&Vec<P>>)
        ensures
            r is Some <==> self.entry(size) is Some,
            r is Some ==> r->Some_0@ == self.entry(size)->Some_0,
    {
        self.entries.get(&size)
    }
}

} // verus!
