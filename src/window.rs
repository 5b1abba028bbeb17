//! The bounded window of the most recent frames.
use vstd::prelude::*;

verus! {

/// The last `capacity` elements of `history` (all of them when there are
/// fewer), in arrival order.
pub open spec fn latest<T>(history: Seq<T>, capacity: nat) -> Seq<T> {
    if history.len() <= capacity {
        history
    } else {
        history.subrange(history.len() - capacity, history.len() as int)
    }
}

/// After `capacity + k` frames have arrived, the latest `capacity` of them
/// are exactly those from position `k` on, in arrival order.
pub proof fn lemma_latest_after_overflow<T>(history: Seq<T>, capacity: nat, k: nat)
    requires
        history.len() == capacity + k,
    ensures
        latest(history, capacity).len() == capacity,
        latest(history, capacity) == history.subrange(k as int, history.len() as int),
{
}

/// Holds the most recent `capacity` frames in arrival order; pushing onto a
/// full buffer evicts the oldest frame.
pub struct SlidingWindowBuffer<T> {
    frames: Vec<T>,
    capacity: usize,
    history: Ghost<Seq<T>>,
}

impl<T> SlidingWindowBuffer<T> {
    /// The frames currently held, oldest first.
    pub closed spec fn contents(&self) -> Seq<T> {
        self.frames@
    }

    /// Every frame ever pushed, oldest first.
    pub closed spec fn pushed(&self) -> Seq<T> {
        self.history@
    }

    /// The number of frames the buffer holds once full.
    pub closed spec fn cap(&self) -> nat {
        self.capacity as nat
    }

    /// The buffer holds exactly the latest `cap()` of the frames pushed.
    pub closed spec fn wf(&self) -> bool {
        &&& self.capacity > 0
        &&& self.frames@ == latest(self.history@, self.capacity as nat)
    }

    /// An empty buffer for windows of `capacity` frames.
    pub fn new(capacity: usize) -> (r: Self)
        requires
            capacity > 0,
        ensures
            r.wf(),
            r.cap() == capacity,
            r.pushed() == Seq::<T>::empty(),
    {
        SlidingWindowBuffer { frames: Vec::new(), capacity, history: Ghost(Seq::empty()) }
    }

    /// Appends `frame`, evicting the oldest frame when the buffer is full.
    pub fn push(&mut self, frame: T)
        requires
            old(self).wf(),
        ensures
            final(self).wf(),
            final(self).cap() == old(self).cap(),
            final(self).pushed() == old(self).pushed().push(frame),
            final(self).contents() == latest(final(self).pushed(), final(self).cap()),
            final(self).contents() == (if old(self).contents().len() == old(self).cap() {
                old(self).contents().drop_first().push(frame)
            } else {
                old(self).contents().push(frame)
            }),
    {
        let ghost h = self.history@;
        let ghost c = self.capacity as nat;
        if self.frames.len() == self.capacity {
            self.frames.remove(0);
        }
        self.frames.push(frame);
        self.history = Ghost(h.push(frame));
        assert(self.frames@ =~= latest(h.push(frame), c));
    }

    /// True once `capacity` frames have been pushed.
    pub fn is_full(&self) -> (r: bool)
        requires
            self.wf(),
        ensures
            r == (self.pushed().len() >= self.cap()),
    {
        self.frames.len() == self.capacity
    }

    /// The frames currently held, oldest first.
    pub fn snapshot(&self) -> (r: &Vec<T>)
        ensures
            r@ == self.contents(),
    {
        &self.frames
    }

    /// The number of frames currently held.
    pub fn len(&self) -> (r: usize)
        ensures
            r == self.contents().len(),
    {
        self.frames.len()
    }

    /// The number of frames the buffer holds once full.
    pub fn capacity(&self) -> (r: usize)
        ensures
            r == self.cap(),
    {
        self.capacity
    }

    /// After any sequence of pushes the buffer holds the latest `cap()`
    /// frames in arrival order; once at least `cap()` frames were pushed it
    /// holds exactly `cap()` of them.
    pub proof fn lemma_holds_latest(&self)
        requires
            self.wf(),
        ensures
            self.contents() == latest(self.pushed(), self.cap()),
            self.pushed().len() >= self.cap() ==> self.contents().len() == self.cap(),
            self.contents().len() <= self.cap(),
            self.cap() > 0,
    {
    }
}

} // verus!
