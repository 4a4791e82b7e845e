//! One run: what was asked for, the window that bounds both samplers, and the
//! series that the finished samplers hand over.

use crate::metric::MetricKind;
use crate::sample::Sample;
use crate::sampler::Sampler;
use crate::series::{trimmed, Series};
use vstd::prelude::*;

verus! {

/// The seconds that a run lasts where none are asked for.
pub const DEFAULT_DURATION: u64 = 60;

/// What a run was asked to do.
#[derive(Debug)]
pub struct RunConfig {
    /// The id of the device; empty for the one attached device.
    pub device: String,
    /// The application to measure.
    pub package: String,
    /// The seconds that the run lasts.
    pub duration: u64,
}

impl RunConfig {
    /// The configuration for the options given: without a device the one
    /// attached device is taken, without a time the run lasts
    /// `DEFAULT_DURATION` seconds.
    pub fn new(device: Option<String>, package: String, time: Option<u64>) -> (config: RunConfig)
        ensures
            config.device@ == match device {
                Some(id) => id@,
                None => Seq::<char>::empty(),
            },
            config.package@ == package@,
            config.duration == match time {
                Some(seconds) => seconds,
                None => DEFAULT_DURATION,
            },
    {
        let device = match device {
            Some(id) => id,
            None => String::new(),
        };
        let duration = match time {
            Some(seconds) => seconds,
            None => DEFAULT_DURATION,
        };
        RunConfig { device, package, duration }
    }
}

/// The time that a run covers, in seconds counted from the epoch. It is fixed
/// once, when the run starts, and both samplers stop at its deadline.
#[derive(Clone, Copy, Debug, PartialEq, Eq, Structural)]
pub struct RunWindow {
    /// The second at which the run started.
    pub start: u64,
    /// The second from which on no capture is started.
    pub deadline: u64,
}

impl RunWindow {
    /// The window of `duration` seconds that starts at `now`, unless its
    /// deadline is past the last second that 64 bits can count.
    pub fn open(now: u64, duration: u64) -> (window: Option<RunWindow>)
        ensures
            window == if now + duration <= u64::MAX {
                Some(RunWindow { start: now, deadline: (now + duration) as u64 })
            } else {
                None
            },
    {
        match now.checked_add(duration) {
            Some(deadline) => Some(RunWindow { start: now, deadline }),
            None => None,
        }
    }

    /// Whether the deadline is reached at the second `now`.
    pub fn is_over(&self, now: u64) -> (over: bool)
        ensures
            over == (now >= self.deadline),
    {
        now >= self.deadline
    }
}

/// A run that has started: its window and one sampler for each metric, both
/// bound to the window's deadline and each with a series of its own.
#[derive(Debug)]
pub struct Run {
    /// The time that the run covers.
    pub window: RunWindow,
    /// The sampler of processor use.
    pub cpu: Sampler,
    /// The sampler of memory use.
    pub memory: Sampler,
}

/// Starts a run at the second `now`: fixes the window, and sets up the two
/// samplers with its deadline. There is no run where the deadline cannot be
/// counted.
pub fn start_run(config: &RunConfig, now: u64) -> (run: Option<Run>)
    ensures
        now + config.duration > u64::MAX ==> run is None,
        now + config.duration <= u64::MAX ==> run is Some && {
            let started = run->0;
            &&& started.window == RunWindow {
                start: now,
                deadline: (now + config.duration) as u64,
            }
            &&& started.cpu@.kind == MetricKind::Cpu
            &&& started.memory@.kind == MetricKind::Memory
            &&& started.cpu@.deadline == now + config.duration
            &&& started.memory@.deadline == now + config.duration
            &&& started.cpu@.device == config.device@
            &&& started.memory@.device == config.device@
            &&& started.cpu@.package == config.package@
            &&& started.memory@.package == config.package@
            &&& started.cpu@.samples == Seq::<Sample>::empty()
            &&& started.memory@.samples == Seq::<Sample>::empty()
            &&& !started.cpu@.finished
            &&& !started.memory@.finished
        },
{
    match RunWindow::open(now, config.duration) {
        Some(window) => {
            let cpu = Sampler::new(
                MetricKind::Cpu,
                config.device.as_str(),
                config.package.as_str(),
                window.deadline,
            );
            let memory = Sampler::new(
                MetricKind::Memory,
                config.device.as_str(),
                config.package.as_str(),
                window.deadline,
            );
            Some(Run { window, cpu, memory })
        },
        None => None,
    }
}

/// The series of a run whose samplers have both stopped.
#[derive(Debug)]
pub struct RunResult {
    /// Processor use, without the first capture.
    pub cpu: Series,
    /// Memory use, without the first capture.
    pub memory: Series,
}

/// Takes over the series of the two samplers once both have stopped, and
/// removes the first sample of each: the first capture after a cold start of
/// the inspection tool is not to be trusted. A series without samples stays
/// empty. While a sampler still runs there is no result.
pub fn finish_run(cpu: Sampler, memory: Sampler) -> (result: Option<RunResult>)
    ensures
        result is Some == (cpu@.finished && memory@.finished),
        result matches Some(done) ==> done.cpu@ == trimmed(cpu@.samples) && done.memory@ == trimmed(
            memory@.samples,
        ),
{
    if !cpu.is_finished() || !memory.is_finished() {
        return None;
    }
    let mut cpu_series = cpu.into_series();
    let mut memory_series = memory.into_series();
    cpu_series.trim_first();
    memory_series.trim_first();
    Some(RunResult { cpu: cpu_series, memory: memory_series })
}

} // verus!
