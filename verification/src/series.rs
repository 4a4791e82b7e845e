//! The samples of one metric, in the order in which they were captured.

use crate::sample::Sample;
use vstd::prelude::*;

verus! {

/// The samples of one metric in capture order. Samples are only ever added at
/// the end; the one removal is that of the first sample, which a cold start of
/// the inspection tool distorts.
#[derive(Debug)]
pub struct Series {
    samples: Vec<Sample>,
}

impl View for Series {
    type V = Seq<Sample>;

    closed spec fn view(&self) -> Seq<Sample> {
        self.samples@
    }
}

/// `samples` without the first of them; an empty sequence stays as it is.
pub open spec fn trimmed(samples: Seq<Sample>) -> Seq<Sample> {
    if samples.len() == 0 {
        samples
    } else {
        samples.drop_first()
    }
}

impl Series {
    /// A series without samples.
    pub fn new() -> (series: Series)
        ensures
            series@ == Seq::<Sample>::empty(),
    {
        Series { samples: Vec::new() }
    }

    /// The series of `samples`, in their order.
    pub fn from_samples(samples: Vec<Sample>) -> (series: Series)
        ensures
            series@ == samples@,
    {
        Series { samples }
    }

    /// How many samples the series holds.
    pub fn len(&self) -> (n: usize)
        ensures
            n == self@.len(),
    {
        self.samples.len()
    }

    /// Whether the series holds no sample.
    pub fn is_empty(&self) -> (empty: bool)
        ensures
            empty == (self@.len() == 0),
    {
        self.samples.len() == 0
    }

    /// The sample at `index`, counted from the first capture.
    pub fn get(&self, index: usize) -> (sample: Option<Sample>)
        ensures
            sample == if index < self@.len() {
                Some(self@[index as int])
            } else {
                None
            },
    {
        if index < self.samples.len() {
            Some(self.samples[index])
        } else {
            None
        }
    }

    /// The samples, in capture order.
    pub fn samples(&self) -> (samples: &Vec<Sample>)
        ensures
            samples@ == self@,
    {
        &self.samples
    }

    /// Adds `sample` as the latest capture.
    pub fn push(&mut self, sample: Sample)
        ensures
            final(self)@ == old(self)@.push(sample),
    {
        self.samples.push(sample);
    }

    /// Adds `samples` behind the captures so far, in their order.
    pub fn extend(&mut self, samples: &Vec<Sample>)
        ensures
            final(self)@ == old(self)@ + samples@,
    {
        let mut i: usize = 0;
        while i < samples.len()
            invariant
                i <= samples.len(),
                self@ == old(self)@ + samples@.take(i as int),
            decreases samples.len() - i,
        {
            self.samples.push(samples[i]);
            i += 1;
        }
        assert(samples@.take(samples.len() as int) == samples@);
    }

    /// Removes the first sample. A series without samples stays as it is.
    pub fn trim_first(&mut self)
        ensures
            final(self)@ == trimmed(old(self)@),
            old(self)@.len() >= 1 ==> final(self)@.len() == old(self)@.len() - 1,
            old(self)@.len() == 0 ==> final(self)@.len() == 0,
            forall|i: int| 0 <= i < final(self)@.len() ==> final(self)@[i] == old(self)@[i + 1],
    {
        if self.samples.len() > 0 {
            self.samples.remove(0);
        }
    }
}

} // verus!
