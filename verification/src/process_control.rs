//! Steam's processes: the operations the switcher needs on them, and how their names are
//! recognised.

use vstd::prelude::*;

use crate::app::{names_text, ServiceCall};
use crate::error::AppError;
use crate::text::{lower_text, same_text, to_ascii_lowercase};

verus! {

/// Finding, stopping and starting Steam's processes.
pub trait ProcessController {
    /// The calls made on this controller so far, each with its arguments and answer, oldest
    /// first. An implementation that Verus checks defines it; the default says nothing.
    closed spec fn history(&self) -> Seq<ServiceCall> {
        arbitrary()
    }

    /// Whether a process with one of the names runs.
    fn is_running(&mut self, process_names: &[&str]) -> (r: Result<bool, AppError>)
        ensures
            final(self).history() == old(self).history().push(
                ServiceCall::CheckRunning(names_text(process_names@), r),
            ),
    ;

    /// Asks Steam to shut down (`steam.exe -shutdown`).
    fn shutdown_steam(&mut self, steam_exe: &str) -> (r: Result<(), AppError>)
        ensures
            final(self).history() == old(self).history().push(
                ServiceCall::RequestShutdown(steam_exe@, r),
            ),
    ;

    /// Waits up to `timeout_secs` seconds for every process with one of the names to exit;
    /// tells whether they all did.
    fn wait_for_exit(&mut self, process_names: &[&str], timeout_secs: u64) -> (r: Result<
        bool,
        AppError,
    >)
        ensures
            final(self).history() == old(self).history().push(
                ServiceCall::WaitForExit(names_text(process_names@), timeout_secs, r),
            ),
    ;

    /// Kills every process with one of the names.
    fn force_kill(&mut self, process_names: &[&str]) -> (r: Result<(), AppError>)
        ensures
            final(self).history() == old(self).history().push(
                ServiceCall::ForceKill(names_text(process_names@), r),
            ),
    ;

    /// Starts Steam without arguments.
    fn launch_steam(&mut self, steam_exe: &str) -> (r: Result<(), AppError>)
        ensures
            final(self).history() == old(self).history().push(ServiceCall::Launch(steam_exe@, r)),
    ;
}

/// The names of Steam's processes.
pub fn steam_process_names() -> (r: [&'static str; 3])
    ensures
        r[0]@ == "steam.exe"@,
        r[1]@ == "steamservice.exe"@,
        r[2]@ == "steamwebhelper.exe"@,
{
    ["steam.exe", "steamservice.exe", "steamwebhelper.exe"]
}

/// Process names folded to ASCII lower case, in order.
pub fn lower_names(process_names: &[&str]) -> (r: Vec<String>)
    ensures
        r@.len() == process_names@.len(),
        forall|i: int| 0 <= i < r@.len() ==> #[trigger] r@[i]@ == lower_text(process_names@[i]@),
{
    let mut out: Vec<String> = Vec::new();
    let n = process_names.len();
    let mut i: usize = 0;
    while i < n
        invariant
            n == process_names@.len(),
            i <= n,
            out@.len() == i,
            forall|k: int| 0 <= k < i ==> #[trigger] out@[k]@ == lower_text(process_names@[k]@),
        decreases n - i,
    {
        let lowered = to_ascii_lowercase(process_names[i]);
        out.push(lowered);
        i = i + 1;
    }
    out
}

/// Whether a running process is one of the listed ones: its name, folded to ASCII lower
/// case, is one of `lowered_names`.
pub fn is_listed_process(lowered_names: &Vec<String>, process_name: &str) -> (r: bool)
    ensures
        r == exists|i: int|
            0 <= i < lowered_names@.len() && #[trigger] lowered_names@[i]@ == lower_text(
                process_name@,
            ),
{
    let name = to_ascii_lowercase(process_name);
    let n = lowered_names.len();
    let mut i: usize = 0;
    while i < n
        invariant
            n == lowered_names@.len(),
            i <= n,
            name@ == lower_text(process_name@),
            forall|k: int| 0 <= k < i ==> #[trigger] lowered_names@[k]@ != name@,
        decreases n - i,
    {
        if same_text(lowered_names[i].as_str(), name.as_str()) {
            return true;
        }
        i = i + 1;
    }
    false
}

/// What to do after looking at Steam's processes while waiting for them to exit.
#[derive(Clone, Copy, Debug, PartialEq, Eq, Structural)]
pub enum WaitStep {
    /// No listed process runs: they all exited.
    Exited,
    /// A listed process still runs and the deadline has not passed: sleep and look again.
    Sleep,
    /// A listed process still runs after the deadline: they did not all exit.
    GiveUp,
}

/// The next step of a wait for Steam to exit, from whether a listed process runs and whether
/// the deadline has not passed yet.
pub fn next_wait_step(running: bool, in_time: bool) -> (r: WaitStep)
    ensures
        !running ==> r == WaitStep::Exited,
        running && in_time ==> r == WaitStep::Sleep,
        running && !in_time ==> r == WaitStep::GiveUp,
{
    if !running {
        WaitStep::Exited
    } else if in_time {
        WaitStep::Sleep
    } else {
        WaitStep::GiveUp
    }
}

/// Whether a process must be killed again without a signal: sending the kill signal was
/// supported (`Some`) but failed (`false`).
pub fn needs_plain_kill(signal_sent: Option<bool>) -> (r: bool)
    ensures
        r <==> signal_sent == Some(false),
{
    match signal_sent {
        Some(sent) => !sent,
        None => false,
    }
}

} // verus!
