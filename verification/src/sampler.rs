//! The timed sampler of one metric. It decides; its caller does the work: the
//! caller reads the clock, runs the command that a poll hands out, gives the
//! captured output back, and sleeps for the pause that recording returns.

use crate::metric::MetricKind;
use crate::parser::{parse_output, samples_of};
use crate::sample::Sample;
use crate::series::Series;
use vstd::prelude::*;

verus! {

/// What a sampler is, as plain values.
pub struct SamplerState {
    /// The metric that is sampled.
    pub kind: MetricKind,
    /// The id of the device; empty for the one attached device.
    pub device: Seq<char>,
    /// The application that is measured.
    pub package: Seq<char>,
    /// The second, counted from the epoch, at which sampling ends.
    pub deadline: u64,
    /// The samples captured so far, oldest first.
    pub samples: Seq<Sample>,
    /// Whether a poll has found the deadline reached.
    pub finished: bool,
}

impl SamplerState {
    /// The state after a poll at the second `now`: finished once the deadline
    /// is reached, and finished for good.
    pub open spec fn polled(self, now: u64) -> SamplerState {
        if now >= self.deadline {
            SamplerState { finished: true, ..self }
        } else {
            self
        }
    }

    /// The state after the output of one capture was handed in: its samples
    /// stand behind the earlier ones. A finished sampler takes no more.
    pub open spec fn recorded(self, output: Seq<char>) -> SamplerState {
        if self.finished {
            self
        } else {
            SamplerState { samples: self.samples + samples_of(self.kind, output), ..self }
        }
    }

    /// The command that captures the metric.
    pub open spec fn command(self) -> Seq<char> {
        self.kind.command_text(self.device, self.package)
    }
}

/// What a poll asks of the caller.
#[derive(Debug)]
pub enum Step {
    /// Run this shell command, hand its output to `record`, sleep for the
    /// pause that `record` returns, and poll again.
    Run(String),
    /// The deadline is reached: stop.
    Stop,
}

/// The sampler of one metric over one run.
#[derive(Debug)]
pub struct Sampler {
    kind: MetricKind,
    device: String,
    package: String,
    deadline: u64,
    series: Series,
    finished: bool,
}

impl View for Sampler {
    type V = SamplerState;

    closed spec fn view(&self) -> SamplerState {
        SamplerState {
            kind: self.kind,
            device: self.device@,
            package: self.package@,
            deadline: self.deadline,
            samples: self.series@,
            finished: self.finished,
        }
    }
}

impl Sampler {
    /// A running sampler without samples. An empty `device` stands for the
    /// one attached device.
    pub fn new(kind: MetricKind, device: &str, package: &str, deadline: u64) -> (sampler: Sampler)
        ensures
            sampler@ == (SamplerState {
                kind,
                device: device@,
                package: package@,
                deadline,
                samples: Seq::empty(),
                finished: false,
            }),
    {
        Sampler {
            kind,
            device: device.to_owned(),
            package: package.to_owned(),
            deadline,
            series: Series::new(),
            finished: false,
        }
    }

    /// Checks the deadline against the clock's reading `now`. Before the
    /// deadline the sampler hands out the command to run; from the deadline on
    /// it is finished and says stop, whatever is asked of it later.
    pub fn poll(&mut self, now: u64) -> (step: Step)
        ensures
            final(self)@ == old(self)@.polled(now),
            match step {
                Step::Run(command) => !final(self)@.finished && command@ == old(self)@.command(),
                Step::Stop => final(self)@.finished,
            },
    {
        if now >= self.deadline {
            self.finished = true;
        }
        if self.finished {
            Step::Stop
        } else {
            Step::Run(self.kind.command(self.device.as_str(), self.package.as_str()))
        }
    }

    /// Takes the output of one capture, adds its samples to the series, and
    /// returns the seconds to sleep before the next poll. Output that holds no
    /// sample adds none; a finished sampler adds none.
    pub fn record(&mut self, output: &str) -> (pause: u64)
        ensures
            final(self)@ == old(self)@.recorded(output@),
            pause == old(self)@.kind.interval(),
    {
        if !self.finished {
            let samples = parse_output(self.kind, output);
            self.series.extend(&samples);
        }
        self.kind.poll_interval()
    }

    /// Whether a poll has found the deadline reached.
    pub fn is_finished(&self) -> (finished: bool)
        ensures
            finished == self@.finished,
    {
        self.finished
    }

    /// The metric that is sampled.
    pub fn kind(&self) -> (kind: MetricKind)
        ensures
            kind == self@.kind,
    {
        self.kind
    }

    /// The second at which sampling ends.
    pub fn deadline(&self) -> (deadline: u64)
        ensures
            deadline == self@.deadline,
    {
        self.deadline
    }

    /// The samples captured so far.
    pub fn series(&self) -> (series: &Series)
        ensures
            series@ == self@.samples,
    {
        &self.series
    }

    /// Gives up the sampler for its series.
    pub fn into_series(self) -> (series: Series)
        ensures
            series@ == self@.samples,
    {
        self.series
    }
}

/// The least number of intervals that cover `duration`: the quotient of the
/// two, rounded up.
pub open spec fn ceil_div(duration: int, interval: int) -> int {
    (duration + interval - 1) / interval
}

/// The state that `start` reaches through rounds at the clock readings
/// `times`: each round polls and then records the output of that round's
/// capture. Once a poll has stopped the sampler, recording changes nothing.
pub open spec fn after_rounds(
    start: SamplerState,
    times: Seq<u64>,
    outputs: Seq<Seq<char>>,
) -> SamplerState
    decreases times.len(),
{
    if times.len() == 0 {
        start
    } else {
        after_rounds(start, times.drop_last(), outputs.drop_last()).polled(times.last()).recorded(
            outputs.last(),
        )
    }
}

/// Whether the clock readings `times` are those of a sampler that starts no
/// earlier than `begin` and sleeps `interval` seconds after each capture: two
/// polls in a row are at least `interval` apart.
pub open spec fn paced(times: Seq<u64>, begin: int, interval: int) -> bool {
    &&& times.len() > 0 ==> times[0] >= begin
    &&& forall|i: int, j: int|
        0 <= i && j == i + 1 && j < times.len() ==> #[trigger] times[j] >= #[trigger] times[i]
            + interval
}

/// How many of the clock readings `times` lie before `deadline`.
pub open spec fn polls_before(times: Seq<u64>, deadline: u64) -> nat
    decreases times.len(),
{
    if times.len() == 0 {
        0
    } else {
        polls_before(times.drop_last(), deadline) + if times.last() < deadline {
            1nat
        } else {
            0nat
        }
    }
}

/// Whether every capture among `outputs` gives at most one sample of `kind`.
pub open spec fn single_samples(kind: MetricKind, outputs: Seq<Seq<char>>) -> bool {
    forall|i: int| 0 <= i < outputs.len() ==> (#[trigger] samples_of(kind, outputs[i])).len() <= 1
}

/// A capture of the process table gives at most one sample.
pub proof fn lemma_cpu_single_samples(outputs: Seq<Seq<char>>)
    ensures
        single_samples(MetricKind::Cpu, outputs),
{
}

/// No more readings lie before the deadline than there are readings.
pub proof fn lemma_polls_before_len(times: Seq<u64>, deadline: u64)
    ensures
        polls_before(times, deadline) <= times.len(),
    decreases times.len(),
{
    if times.len() > 0 {
        lemma_polls_before_len(times.drop_last(), deadline);
    }
}

/// The poll with index `i` of a paced schedule comes no earlier than `i`
/// intervals after the beginning.
pub proof fn lemma_paced_reading(times: Seq<u64>, begin: int, interval: int, i: int)
    requires
        paced(times, begin, interval),
        0 <= i < times.len(),
    ensures
        times[i] >= begin + i * interval,
    decreases i,
{
    if i > 0 {
        lemma_paced_reading(times, begin, interval, i - 1);
        assert(times[i] >= times[i - 1] + interval);
        assert((i - 1) * interval + interval == i * interval) by (nonlinear_arith);
    } else {
        assert(i * interval == 0) by (nonlinear_arith)
            requires
                i == 0,
        ;
    }
}

/// Of a paced schedule, at most `ceil_div(duration, interval)` polls come
/// before the deadline `begin + duration`.
pub proof fn lemma_polls_before_bound(
    times: Seq<u64>,
    begin: u64,
    duration: u64,
    interval: int,
)
    requires
        interval >= 1,
        begin + duration <= u64::MAX,
        paced(times, begin as int, interval),
    ensures
        polls_before(times, (begin + duration) as u64) <= ceil_div(duration as int, interval),
    decreases times.len(),
{
    let deadline = (begin + duration) as u64;
    let bound = ceil_div(duration as int, interval);
    lemma_polls_before_len(times, deadline);
    if times.len() > bound {
        let head = times.drop_last();
        assert(paced(head, begin as int, interval)) by {
            assert forall|i: int, j: int|
                0 <= i && j == i + 1 && j < head.len() implies #[trigger] head[j] >= #[trigger] head[i]
                + interval by {
                assert(head[i] == times[i] && head[j] == times[j]);
            }
            if head.len() > 0 {
                assert(head[0] == times[0]);
            }
        }
        lemma_polls_before_bound(head, begin, duration, interval);
        let last = times.len() - 1;
        lemma_paced_reading(times, begin as int, interval, last);
        assert(last * interval >= duration) by (nonlinear_arith)
            requires
                last >= (duration + interval - 1) / interval,
                interval >= 1,
                duration >= 0,
        ;
        assert(times.last() >= deadline);
    }
}

/// What rounds leave as it was, and what they may change: the sampler keeps
/// its target and its deadline; it is finished as soon as one reading has
/// reached the deadline; its earlier samples stay in front, and captures add
/// at most one sample for each poll before the deadline if each gives at most
/// one.
pub proof fn lemma_after_rounds(start: SamplerState, times: Seq<u64>, outputs: Seq<Seq<char>>)
    requires
        times.len() == outputs.len(),
    ensures
        after_rounds(start, times, outputs).kind == start.kind,
        after_rounds(start, times, outputs).device == start.device,
        after_rounds(start, times, outputs).package == start.package,
        after_rounds(start, times, outputs).deadline == start.deadline,
        after_rounds(start, times, outputs).finished == (start.finished || polls_before(
            times,
            start.deadline,
        ) < times.len()),
        start.samples.is_prefix_of(after_rounds(start, times, outputs).samples),
        single_samples(start.kind, outputs) ==> after_rounds(start, times, outputs).samples.len()
            <= start.samples.len() + polls_before(times, start.deadline),
    decreases times.len(),
{
    if times.len() > 0 {
        let before = after_rounds(start, times.drop_last(), outputs.drop_last());
        lemma_after_rounds(start, times.drop_last(), outputs.drop_last());
        lemma_polls_before_len(times.drop_last(), start.deadline);
        if single_samples(start.kind, outputs) {
            assert(single_samples(start.kind, outputs.drop_last())) by {
                assert forall|i: int| 0 <= i < outputs.drop_last().len() implies (
                #[trigger] samples_of(start.kind, outputs.drop_last()[i])).len() <= 1 by {
                    assert(outputs.drop_last()[i] == outputs[i]);
                }
            }
            assert(samples_of(start.kind, outputs[outputs.len() - 1]).len() <= 1);
        }
    }
}

/// Over a window of `duration` seconds, a sampler that sleeps its interval
/// after every capture takes at most `ceil_div(duration, interval)` captures.
/// Where each capture gives at most one sample, as every capture of the
/// process table does, it ends with at most that many samples.
pub proof fn lemma_samples_bounded(
    start: SamplerState,
    begin: u64,
    duration: u64,
    times: Seq<u64>,
    outputs: Seq<Seq<char>>,
)
    requires
        !start.finished,
        start.samples.len() == 0,
        duration >= 1,
        start.deadline == begin + duration,
        times.len() == outputs.len(),
        paced(times, begin as int, start.kind.interval() as int),
        start.kind == MetricKind::Memory ==> single_samples(start.kind, outputs),
    ensures
        after_rounds(start, times, outputs).samples.len() <= ceil_div(
            duration as int,
            start.kind.interval() as int,
        ),
        after_rounds(start, times, outputs).samples.len() <= ceil_div(
            duration as int,
            start.kind.interval() as int,
        ) + 1,
{
    if start.kind == MetricKind::Cpu {
        lemma_cpu_single_samples(outputs);
    }
    lemma_after_rounds(start, times, outputs);
    lemma_polls_before_bound(times, begin, duration, start.kind.interval() as int);
}

/// A sampler that sleeps its interval after every capture is finished once
/// it was polled more than `ceil_div(duration, interval)` times.
pub proof fn lemma_finished_after_bound(
    start: SamplerState,
    begin: u64,
    duration: u64,
    times: Seq<u64>,
    outputs: Seq<Seq<char>>,
)
    requires
        start.deadline == begin + duration,
        times.len() == outputs.len(),
        paced(times, begin as int, start.kind.interval() as int),
        times.len() > ceil_div(duration as int, start.kind.interval() as int),
    ensures
        after_rounds(start, times, outputs).finished,
{
    lemma_after_rounds(start, times, outputs);
    lemma_polls_before_bound(times, begin, duration, start.kind.interval() as int);
}

/// The poll that stops a sampler follows the deadline by less than one
/// interval, if it comes exactly one interval after a poll that did not stop
/// it: that is, if the capture in between took no time worth counting.
pub proof fn lemma_stops_within_interval(
    start: SamplerState,
    times: Seq<u64>,
    outputs: Seq<Seq<char>>,
    round: int,
)
    requires
        times.len() == outputs.len(),
        1 <= round < times.len(),
        !after_rounds(start, times.take(round), outputs.take(round)).finished,
        after_rounds(start, times.take(round + 1), outputs.take(round + 1)).finished,
        times[round] == times[round - 1] + start.kind.interval(),
    ensures
        start.deadline <= times[round] < start.deadline + start.kind.interval(),
{
    let upto = times.take(round);
    let outs = outputs.take(round);
    let next = times.take(round + 1);
    assert(next.drop_last() == upto);
    assert(outputs.take(round + 1).drop_last() == outs);
    assert(next.last() == times[round]);
    lemma_after_rounds(start, upto, outs);
    lemma_after_rounds(start, upto.drop_last(), outs.drop_last());
    assert(upto.last() == times[round - 1]);
    lemma_polls_before_len(upto.drop_last(), start.deadline);
}

} // verus!
