//! The kinds of metric that a run samples, and what each kind fixes: how often
//! it is polled and which command captures it.

use vstd::prelude::*;
use vstd::string::*;

verus! {

/// What a sampler measures.
#[derive(Clone, Copy, Debug, PartialEq, Eq, Structural)]
pub enum MetricKind {
    /// Processor use of the application, in per cent.
    Cpu,
    /// Proportional set size of the application, in kilobytes.
    Memory,
}

/// How the debugging bridge is told which device to talk to: `-d`, the one
/// attached device, where `device` is empty, and `-s` with the device's id
/// where it is not.
pub open spec fn selector_text(device: Seq<char>) -> Seq<char> {
    if device.len() == 0 {
        "-d"@
    } else {
        "-s "@ + device
    }
}

impl MetricKind {
    /// The seconds that a sampler of this kind waits between two polls.
    pub open spec fn interval(self) -> nat {
        match self {
            MetricKind::Cpu => 1,
            MetricKind::Memory => 3,
        }
    }

    /// The shell command that captures this metric of `package` on `device`.
    pub open spec fn command_text(self, device: Seq<char>, package: Seq<char>) -> Seq<char> {
        match self {
            MetricKind::Cpu => "adb "@ + selector_text(device) + " shell top -b -n 1 | grep "@
                + package,
            MetricKind::Memory => "adb "@ + selector_text(device) + " shell dumpsys meminfo "@
                + package,
        }
    }

    /// The seconds that a sampler of this kind waits between two polls.
    pub fn poll_interval(self) -> (seconds: u64)
        ensures
            seconds == self.interval(),
    {
        match self {
            MetricKind::Cpu => 1,
            MetricKind::Memory => 3,
        }
    }

    /// The shell command that captures this metric of `package` on `device`;
    /// an empty `device` stands for the one attached device.
    pub fn command(self, device: &str, package: &str) -> (command: String)
        ensures
            command@ == self.command_text(device@, package@),
    {
        let mut command = "adb ".to_owned();
        if device.is_empty() {
            command.append("-d");
        } else {
            command.append("-s ");
            command.append(device);
        }
        match self {
            MetricKind::Cpu => command.append(" shell top -b -n 1 | grep "),
            MetricKind::Memory => command.append(" shell dumpsys meminfo "),
        }
        command.append(package);
        command
    }
}

/// How the debugging bridge is told which device to talk to.
pub fn device_selector(device: &str) -> (selector: String)
    ensures
        selector@ == selector_text(device@),
{
    if device.is_empty() {
        "-d".to_owned()
    } else {
        let mut selector = "-s ".to_owned();
        selector.append(device);
        selector
    }
}

} // verus!
