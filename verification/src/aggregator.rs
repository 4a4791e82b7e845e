//! Summary statistics of a finished series: sum, mean and peak.

use crate::metric::MetricKind;
use crate::sample::Sample;
use crate::series::Series;
use vstd::prelude::*;

verus! {

/// How many kilobytes make a megabyte.
pub const KILOBYTES_PER_MEGABYTE: u64 = 1024;

/// The statistics of one series.
#[derive(Clone, Copy, Debug, PartialEq, Eq, Structural)]
pub struct SummaryStats {
    /// The sum of the samples in millionths, in the unit in which they were
    /// captured.
    pub sum: u128,
    /// The mean of the samples, rounded down to a millionth; for memory, in
    /// megabytes.
    pub mean: Sample,
    /// The greatest sample; for memory, in megabytes, rounded down to a
    /// millionth.
    pub max: Sample,
}

/// The sum of `samples`, in millionths.
pub open spec fn total(samples: Seq<Sample>) -> nat
    decreases samples.len(),
{
    if samples.len() == 0 {
        0
    } else {
        total(samples.drop_last()) + samples.last().micros as nat
    }
}

/// The greatest of `samples`, in millionths; zero where there is none.
pub open spec fn peak(samples: Seq<Sample>) -> nat
    decreases samples.len(),
{
    if samples.len() == 0 {
        0
    } else if samples.last().micros > peak(samples.drop_last()) {
        samples.last().micros as nat
    } else {
        peak(samples.drop_last())
    }
}

/// A statistic in the unit in which `kind` is reported: processor use as it
/// is, memory in megabytes in place of kilobytes.
pub open spec fn reported(kind: MetricKind, micros: nat) -> nat {
    match kind {
        MetricKind::Cpu => micros,
        MetricKind::Memory => micros / 1024,
    }
}

/// The mean of `samples` in millionths, rounded down. Meant for a sequence
/// that is not empty.
pub open spec fn mean(samples: Seq<Sample>) -> nat {
    total(samples) / samples.len()
}

/// The statistics of `samples`, and none where there is no sample.
pub open spec fn summary(kind: MetricKind, samples: Seq<Sample>) -> Option<SummaryStats> {
    if samples.len() == 0 {
        None
    } else {
        Some(
            SummaryStats {
                sum: total(samples) as u128,
                mean: Sample { micros: reported(kind, mean(samples)) as u64 },
                max: Sample { micros: reported(kind, peak(samples)) as u64 },
            },
        )
    }
}

/// The sum of samples is at most as many times the greatest 64-bit number as
/// there are samples.
pub proof fn lemma_total_bound(samples: Seq<Sample>)
    ensures
        total(samples) <= samples.len() * u64::MAX,
    decreases samples.len(),
{
    if samples.len() > 0 {
        lemma_total_bound(samples.drop_last());
        assert((samples.len() - 1) * u64::MAX + u64::MAX == samples.len() * u64::MAX)
            by (nonlinear_arith);
    }
}

/// The peak of a sequence that is not empty is one of its samples, and no
/// sample is greater.
pub proof fn lemma_peak_is_greatest(samples: Seq<Sample>)
    requires
        samples.len() > 0,
    ensures
        exists|i: int| 0 <= i < samples.len() && #[trigger] samples[i].micros == peak(samples),
        forall|i: int| 0 <= i < samples.len() ==> #[trigger] samples[i].micros <= peak(samples),
    decreases samples.len(),
{
    let head = samples.drop_last();
    let last = samples.len() - 1;
    if head.len() == 0 {
        assert(peak(head) == 0);
        assert(samples[last].micros == peak(samples));
    } else {
        lemma_peak_is_greatest(head);
        let at = choose|i: int| 0 <= i < head.len() && #[trigger] head[i].micros == peak(head);
        assert(head[at] == samples[at]);
        if samples.last().micros > peak(head) {
            assert(samples[last].micros == peak(samples));
        } else {
            assert(samples[at].micros == peak(samples));
        }
        assert forall|i: int| 0 <= i < samples.len() implies #[trigger] samples[i].micros <= peak(
            samples,
        ) by {
            if i < last {
                assert(head[i] == samples[i]);
            }
        }
    }
}

/// The sum of samples is at most as many times their peak as there are
/// samples.
pub proof fn lemma_total_at_most_peaks(samples: Seq<Sample>)
    ensures
        total(samples) <= samples.len() * peak(samples),
    decreases samples.len(),
{
    if samples.len() > 0 {
        let head = samples.drop_last();
        lemma_total_at_most_peaks(head);
        assert(peak(head) <= peak(samples));
        assert(samples.last().micros <= peak(samples));
        assert(total(samples) <= samples.len() * peak(samples)) by (nonlinear_arith)
            requires
                total(samples) == total(head) + samples.last().micros,
                total(head) <= head.len() * peak(head),
                head.len() == samples.len() - 1,
                peak(head) <= peak(samples),
                samples.last().micros <= peak(samples),
                samples.len() >= 1,
        ;
    } else {
        assert(samples.len() * peak(samples) == 0) by (nonlinear_arith)
            requires
                samples.len() == 0,
        ;
    }
}

/// The peak of a series is at least its mean, in the reported unit too; they
/// are the same where the series holds one sample.
pub proof fn lemma_max_at_least_mean(kind: MetricKind, samples: Seq<Sample>)
    requires
        samples.len() > 0,
    ensures
        summary(kind, samples) is Some,
        summary(kind, samples)->0.max.micros >= summary(kind, samples)->0.mean.micros,
        samples.len() == 1 ==> summary(kind, samples)->0.max == summary(kind, samples)->0.mean,
        reported(kind, peak(samples)) <= u64::MAX,
        reported(kind, mean(samples)) <= reported(kind, peak(samples)),
{
    lemma_total_at_most_peaks(samples);
    lemma_peak_is_greatest(samples);
    let n = samples.len() as int;
    let t = total(samples) as int;
    let p = peak(samples) as int;
    assert(t / n <= p) by (nonlinear_arith)
        requires
            t <= n * p,
            n > 0,
            t >= 0,
    ;
    if samples.len() == 1 {
        assert(samples.drop_last().len() == 0);
        assert(total(samples.drop_last()) == 0);
        assert(peak(samples.drop_last()) == 0);
        assert(total(samples) == samples[0].micros);
        assert(peak(samples) == samples[0].micros);
    }
}

/// Summarising a series twice gives the same statistics: they depend on the
/// metric and the samples and on nothing else.
pub proof fn lemma_summary_repeatable(
    kind: MetricKind,
    samples: Seq<Sample>,
    first: Option<SummaryStats>,
    second: Option<SummaryStats>,
)
    requires
        first == summary(kind, samples),
        second == summary(kind, samples),
    ensures
        first == second,
{
}

/// The statistics of a finished series: its sum, its mean and its peak, the
/// latter two in megabytes for memory. A series without samples has none.
pub fn summarize(kind: MetricKind, series: &Series) -> (stats: Option<SummaryStats>)
    ensures
        stats == summary(kind, series@),
{
    let samples = series.samples();
    let n = samples.len();
    if n == 0 {
        return None;
    }
    let mut sum: u128 = 0;
    let mut max: u64 = 0;
    let mut i: usize = 0;
    while i < n
        invariant
            i <= n,
            n == samples.len(),
            sum == total(samples@.take(i as int)),
            max == peak(samples@.take(i as int)),
        decreases n - i,
    {
        let micros = samples[i].micros;
        proof {
            let next = samples@.take(i + 1);
            assert(next.drop_last() == samples@.take(i as int));
            assert(next.last() == samples@[i as int]);
            lemma_total_bound(next);
            assert(next.len() * u64::MAX <= usize::MAX * u64::MAX) by (nonlinear_arith)
                requires
                    next.len() <= usize::MAX,
            ;
            assert(usize::MAX * u64::MAX <= u64::MAX * u64::MAX) by (nonlinear_arith)
                requires
                    usize::MAX <= u64::MAX,
            ;
        }
        sum = sum + micros as u128;
        if micros > max {
            max = micros;
        }
        i += 1;
    }
    proof {
        assert(samples@.take(n as int) == samples@);
        lemma_max_at_least_mean(kind, samples@);
        lemma_peak_is_greatest(samples@);
        lemma_total_at_most_peaks(samples@);
        assert(total(samples@) / (n as nat) <= peak(samples@)) by (nonlinear_arith)
            requires
                total(samples@) <= n * peak(samples@),
                n > 0,
        ;
    }
    let mean: u64 = (sum / n as u128) as u64;
    let (mean, max) = match kind {
        MetricKind::Cpu => (mean, max),
        MetricKind::Memory => (mean / KILOBYTES_PER_MEGABYTE, max / KILOBYTES_PER_MEGABYTE),
    };
    Some(SummaryStats { sum, mean: Sample { micros: mean }, max: Sample { micros: max } })
}

} // verus!
