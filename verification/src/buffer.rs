//! The bounded series buffer: an ordered run of samples that `append`
//! keeps within a fixed capacity by dropping the oldest one.

use vstd::prelude::*;
use crate::sample::{time_ordered, Sample};

verus! {

/// Capacity of a buffer made by [`SeriesBuffer::new`].
pub const DEFAULT_CAPACITY: usize = 100;

/// The last `n` elements of `s`, or all of `s` when it has fewer.
pub open spec fn latest(s: Seq<Sample>, n: nat) -> Seq<Sample> {
    if s.len() <= n {
        s
    } else {
        s.skip(s.len() - n)
    }
}

/// What `append` leaves in a buffer that held `s`, for capacity `cap`:
/// the new sample goes to the end, and a series that had already reached
/// the capacity does not grow, so that its oldest sample leaves.
pub open spec fn appended(s: Seq<Sample>, cap: nat, x: Sample) -> Seq<Sample> {
    latest(s.push(x), if s.len() >= cap { s.len() } else { cap })
}

/// The contents after appending every sample of `xs`, in order, to a buffer
/// that held `s`.
pub open spec fn appended_all(s: Seq<Sample>, cap: nat, xs: Seq<Sample>) -> Seq<Sample>
    decreases xs.len(),
{
    if xs.len() == 0 {
        s
    } else {
        appended(appended_all(s, cap, xs.drop_last()), cap, xs.last())
    }
}

/// An ordered series of samples, oldest first.
///
/// The view is the sequence of samples in insertion order.
pub struct SeriesBuffer {
    samples: Vec<Sample>,
    capacity: usize,
}

impl View for SeriesBuffer {
    type V = Seq<Sample>;

    closed spec fn view(&self) -> Seq<Sample> {
        self.samples@
    }
}

impl SeriesBuffer {
    /// The number of samples beyond which `append` evicts.
    pub closed spec fn limit(&self) -> nat {
        self.capacity as nat
    }

    /// An empty buffer with the default capacity.
    pub fn new() -> (b: SeriesBuffer)
        ensures
            b@ == Seq::<Sample>::empty(),
            b.limit() == DEFAULT_CAPACITY,
    {
        SeriesBuffer { samples: Vec::new(), capacity: DEFAULT_CAPACITY }
    }

    /// An empty buffer that `append` keeps to at most `capacity` samples.
    pub fn with_capacity(capacity: usize) -> (b: SeriesBuffer)
        ensures
            b@ == Seq::<Sample>::empty(),
            b.limit() == capacity,
    {
        SeriesBuffer { samples: Vec::new(), capacity }
    }

    /// The capacity this buffer was made with.
    pub fn capacity(&self) -> (c: usize)
        ensures
            c == self.limit(),
    {
        self.capacity
    }

    /// The number of samples held.
    pub fn len(&self) -> (n: usize)
        ensures
            n == self@.len(),
    {
        self.samples.len()
    }

    /// Whether no sample is held.
    pub fn is_empty(&self) -> (e: bool)
        ensures
            e == (self@.len() == 0),
    {
        self.samples.len() == 0
    }

    /// Adds `sample` at the end. A buffer that has reached its capacity
    /// first gives up its oldest sample, so that it does not grow; one that
    /// is within its capacity stays within it.
    pub fn append(&mut self, sample: Sample)
        ensures
            final(self)@ == appended(old(self)@, old(self).limit(), sample),
            final(self).limit() == old(self).limit(),
            old(self)@.len() < old(self).limit() ==> final(self)@ == old(self)@.push(sample),
            old(self)@.len() >= old(self).limit() && old(self)@.len() > 0 ==> final(self)@
                == old(self)@.drop_first().push(sample),
            old(self)@.len() >= old(self).limit() ==> final(self)@.len() == old(self)@.len(),
            old(self)@.len() <= old(self).limit() ==> final(self)@.len() <= old(self).limit(),
    {
        if self.samples.len() < self.capacity {
            self.samples.push(sample);
        } else if self.samples.len() > 0 {
            self.samples.remove(0);
            self.samples.push(sample);
        }
        assert(self.samples@ =~= appended(old(self)@, old(self).limit(), sample));
    }

    /// A copy of the whole series as it stands.
    pub fn snapshot(&self) -> (copy: Vec<Sample>)
        ensures
            copy@ == self@,
    {
        let mut copy: Vec<Sample> = Vec::new();
        let mut i: usize = 0;
        while i < self.samples.len()
            invariant
                i <= self.samples.len(),
                copy@ == self.samples@.take(i as int),
            decreases self.samples.len() - i,
        {
            copy.push(self.samples[i]);
            i += 1;
        }
        copy
    }

    /// Replaces the whole series by `samples`, of whatever length.
    pub fn replace_all(&mut self, samples: Vec<Sample>)
        ensures
            final(self)@ == samples@,
            final(self).limit() == old(self).limit(),
    {
        self.samples = samples;
    }

    /// Drops every sample.
    pub fn clear(&mut self)
        ensures
            final(self)@ == Seq::<Sample>::empty(),
            final(self).limit() == old(self).limit(),
    {
        self.samples.clear();
    }
}

/// Appending never lets a series that is within the capacity grow beyond it.
pub proof fn lemma_appended_all_bounded(s: Seq<Sample>, cap: nat, xs: Seq<Sample>)
    requires
        s.len() <= cap,
    ensures
        appended_all(s, cap, xs).len() <= cap,
    decreases xs.len(),
{
    if xs.len() > 0 {
        lemma_appended_all_bounded(s, cap, xs.drop_last());
    }
}

/// After any run of appends to an empty buffer, the buffer holds the most
/// recent `cap` of the appended samples, in the order in which they came:
/// what was evicted is always the oldest.
pub proof fn lemma_appended_all_keeps_latest(cap: nat, xs: Seq<Sample>)
    ensures
        appended_all(Seq::<Sample>::empty(), cap, xs) == latest(xs, cap),
    decreases xs.len(),
{
    if xs.len() == 0 {
        assert(latest(xs, cap) =~= Seq::<Sample>::empty());
    } else {
        let init = xs.drop_last();
        lemma_appended_all_keeps_latest(cap, init);
        let before = latest(init, cap);
        assert(appended(before, cap, xs.last()) =~= latest(xs, cap));
    }
}

/// Samples that come in the order of their times are held in that order:
/// appending a sample that is no earlier than the last one keeps a series
/// in which time never steps back that way.
pub proof fn lemma_append_keeps_time_order(s: Seq<Sample>, cap: nat, x: Sample)
    requires
        time_ordered(s),
        s.len() > 0 ==> s.last().time <= x.time,
    ensures
        time_ordered(appended(s, cap, x)),
{
    let grown = s.push(x);
    assert forall|i: int, j: int| 0 <= i <= j < grown.len() implies grown[i].time
        <= grown[j].time by {
        if j < s.len() {
            assert(s[i].time <= s[j].time);
        } else if i < s.len() {
            assert(s[i].time <= s[s.len() - 1].time);
        }
    }
    let kept = appended(s, cap, x);
    let gone = grown.len() - kept.len();
    assert forall|i: int, j: int| 0 <= i <= j < kept.len() implies kept[i].time
        <= kept[j].time by {
        assert(kept[i] == grown[i + gone]);
        assert(kept[j] == grown[j + gone]);
    }
}

} // verus!
