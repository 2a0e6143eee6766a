//! Start and stop sequences of the guest backends as state machines.
//!
//! Each machine is a step function from its state and the reply to the last
//! action to the next state and action. The caller performs the action (a
//! signal, a file removal, a probe, a sleep) and feeds back what came of it.
//! An answer of the wrong kind for the pending action leaves the state as it
//! is and asks again.

use vstd::prelude::*;
use crate::text::{chars_eq, chars_of, into_string, lines, lines_of, opt_chars, slice_chars};

verus! {

/// What came of the last action: it finished, it answered a yes/no
/// question, or it read a process id.
#[derive(Clone, Copy, Debug, PartialEq, Eq, Structural)]
pub enum Reply {
    Done,
    Answer(bool),
    Pid(Option<i32>),
}

// ---------------------------------------------------------------------------
// Stopping the VM
// ---------------------------------------------------------------------------

/// How many times a VM that was sent SIGTERM is checked (one second apart)
/// before it is killed.
pub const STOP_POLLS: u32 = 20;

/// How a stop ended.
#[derive(Clone, Copy, Debug, PartialEq, Eq, Structural)]
pub enum StopOutcome {
    /// No VM was running; only its helpers were cleaned up.
    NotRunning,
    /// The VM was running but its pid file held no pid.
    MissingPid,
    /// The VM exited after SIGTERM.
    Stopped,
    /// The VM outlived every check and got SIGKILL.
    Forced,
}

/// The next thing to do while stopping the VM.
#[derive(Clone, Copy, Debug, PartialEq, Eq, Structural)]
pub enum StopAction {
    /// Kill the seed HTTP server and drop its pid file.
    CleanupSeedServer,
    /// Ask whether the VM is running (`Reply::Answer`).
    CheckRunning,
    /// Kill the virtiofsd helpers and drop their pid files and sockets.
    CleanupVirtiofsd,
    /// Read the VM's pid file (`Reply::Pid`).
    ReadPid,
    /// Send SIGTERM to the VM.
    Terminate(i32),
    /// Ask whether the process is still alive (`Reply::Answer`).
    CheckAlive(i32),
    /// Sleep one second.
    Wait,
    /// Send SIGKILL to the VM.
    ForceKill(i32),
    /// Drop the pid and runtime files and clean up the virtiofsd helpers.
    Teardown,
    /// Nothing is left to do.
    Finish(StopOutcome),
}

/// Where a stop stands: each state names the reply it waits for.
#[derive(Clone, Copy, Debug, PartialEq, Eq, Structural)]
pub enum StopState {
    Start,
    SeedCleanup,
    Checking,
    Idle,
    AwaitingPid,
    /// SIGTERM was sent and `polls` checks found the process alive.
    Signalled { pid: i32, polls: u32 },
    /// The check after `polls` alive answers is pending.
    Polling { pid: i32, polls: u32 },
    Forcing,
    TearingDown { forced: bool },
    Finished(StopOutcome),
}

/// The step of the stop machine.
pub open spec fn stop_next(s: StopState, r: Reply) -> (StopState, StopAction) {
    match s {
        StopState::Start => (StopState::SeedCleanup, StopAction::CleanupSeedServer),
        StopState::SeedCleanup => (StopState::Checking, StopAction::CheckRunning),
        StopState::Checking => match r {
            Reply::Answer(false) => (StopState::Idle, StopAction::CleanupVirtiofsd),
            Reply::Answer(true) => (StopState::AwaitingPid, StopAction::ReadPid),
            _ => (StopState::Checking, StopAction::CheckRunning),
        },
        StopState::Idle => (
            StopState::Finished(StopOutcome::NotRunning),
            StopAction::Finish(StopOutcome::NotRunning),
        ),
        StopState::AwaitingPid => match r {
            Reply::Pid(Some(pid)) => (StopState::Signalled { pid, polls: 0 }, StopAction::Terminate(pid)),
            Reply::Pid(None) => (
                StopState::Finished(StopOutcome::MissingPid),
                StopAction::Finish(StopOutcome::MissingPid),
            ),
            _ => (StopState::AwaitingPid, StopAction::ReadPid),
        },
        StopState::Signalled { pid, polls } => if polls < STOP_POLLS {
            (StopState::Polling { pid, polls }, StopAction::CheckAlive(pid))
        } else {
            (StopState::Forcing, StopAction::ForceKill(pid))
        },
        StopState::Polling { pid, polls } => match r {
            Reply::Answer(false) => (StopState::TearingDown { forced: false }, StopAction::Teardown),
            Reply::Answer(true) => {
                let next = if polls < u32::MAX { (polls + 1) as u32 } else { polls };
                (StopState::Signalled { pid, polls: next }, StopAction::Wait)
            },
            _ => (StopState::Polling { pid, polls }, StopAction::CheckAlive(pid)),
        },
        StopState::Forcing => (StopState::TearingDown { forced: true }, StopAction::Teardown),
        StopState::TearingDown { forced } => {
            let o = if forced { StopOutcome::Forced } else { StopOutcome::Stopped };
            (StopState::Finished(o), StopAction::Finish(o))
        },
        StopState::Finished(o) => (StopState::Finished(o), StopAction::Finish(o)),
    }
}

/// Advances a stop by one step.
pub fn stop_step(s: StopState, r: Reply) -> (out: (StopState, StopAction))
    ensures
        out == stop_next(s, r),
{
    match s {
        StopState::Start => (StopState::SeedCleanup, StopAction::CleanupSeedServer),
        StopState::SeedCleanup => (StopState::Checking, StopAction::CheckRunning),
        StopState::Checking => match r {
            Reply::Answer(false) => (StopState::Idle, StopAction::CleanupVirtiofsd),
            Reply::Answer(true) => (StopState::AwaitingPid, StopAction::ReadPid),
            _ => (StopState::Checking, StopAction::CheckRunning),
        },
        StopState::Idle => (
            StopState::Finished(StopOutcome::NotRunning),
            StopAction::Finish(StopOutcome::NotRunning),
        ),
        StopState::AwaitingPid => match r {
            Reply::Pid(Some(pid)) => (StopState::Signalled { pid, polls: 0 }, StopAction::Terminate(pid)),
            Reply::Pid(None) => (
                StopState::Finished(StopOutcome::MissingPid),
                StopAction::Finish(StopOutcome::MissingPid),
            ),
            _ => (StopState::AwaitingPid, StopAction::ReadPid),
        },
        StopState::Signalled { pid, polls } => if polls < STOP_POLLS {
            (StopState::Polling { pid, polls }, StopAction::CheckAlive(pid))
        } else {
            (StopState::Forcing, StopAction::ForceKill(pid))
        },
        StopState::Polling { pid, polls } => match r {
            Reply::Answer(false) => (StopState::TearingDown { forced: false }, StopAction::Teardown),
            Reply::Answer(true) => {
                let next = if polls < u32::MAX { polls + 1 } else { polls };
                (StopState::Signalled { pid, polls: next }, StopAction::Wait)
            },
            _ => (StopState::Polling { pid, polls }, StopAction::CheckAlive(pid)),
        },
        StopState::Forcing => (StopState::TearingDown { forced: true }, StopAction::Teardown),
        StopState::TearingDown { forced } => {
            let o = if forced { StopOutcome::Forced } else { StopOutcome::Stopped };
            (StopState::Finished(o), StopAction::Finish(o))
        },
        StopState::Finished(o) => (StopState::Finished(o), StopAction::Finish(o)),
    }
}

/// What a stop's surroundings answer: to `CheckRunning` whether the VM runs,
/// to `ReadPid` what the pid file holds, and to the `k`-th `CheckAlive`
/// whether the process is still alive (`alive[k]`).
pub open spec fn stop_reply(running: bool, pid: Option<i32>, alive: Seq<bool>, s: StopState, a: StopAction) -> Reply {
    match a {
        StopAction::CheckRunning => Reply::Answer(running),
        StopAction::ReadPid => Reply::Pid(pid),
        StopAction::CheckAlive(_) => match s {
            StopState::Polling { polls, .. } => Reply::Answer(alive[polls as int]),
            _ => Reply::Done,
        },
        _ => Reply::Done,
    }
}

/// The first `n` actions of a stop that starts in `s` after the reply `r`,
/// in surroundings that answer as `stop_reply` says.
pub open spec fn stop_run(s: StopState, r: Reply, running: bool, pid: Option<i32>, alive: Seq<bool>, n: nat) -> Seq<StopAction>
    decreases n,
{
    if n == 0 {
        Seq::empty()
    } else {
        let (s2, a) = stop_next(s, r);
        seq![a] + stop_run(s2, stop_reply(running, pid, alive, s2, a), running, pid, alive, (n - 1) as nat)
    }
}

/// The actions after SIGTERM, from the `k`-th liveness check on: each check
/// that finds the process alive is followed by a one-second wait; the first
/// that finds it gone leads to the teardown; after `STOP_POLLS` alive
/// answers the process is killed.
pub open spec fn stop_polls(pid: i32, alive: Seq<bool>, k: nat) -> Seq<StopAction>
    decreases STOP_POLLS - k,
{
    if k >= STOP_POLLS {
        seq![StopAction::ForceKill(pid), StopAction::Teardown, StopAction::Finish(StopOutcome::Forced)]
    } else if alive[k as int] {
        seq![StopAction::CheckAlive(pid), StopAction::Wait] + stop_polls(pid, alive, k + 1)
    } else {
        seq![StopAction::CheckAlive(pid), StopAction::Teardown, StopAction::Finish(StopOutcome::Stopped)]
    }
}

/// Everything a stop does: clean up the seed server, then either clean up
/// the helpers of a VM that is not running, or read its pid, send SIGTERM
/// and poll it.
pub open spec fn stop_script(running: bool, pid: Option<i32>, alive: Seq<bool>) -> Seq<StopAction> {
    seq![StopAction::CleanupSeedServer, StopAction::CheckRunning] + if !running {
        seq![StopAction::CleanupVirtiofsd, StopAction::Finish(StopOutcome::NotRunning)]
    } else {
        seq![StopAction::ReadPid] + match pid {
            None => seq![StopAction::Finish(StopOutcome::MissingPid)],
            Some(p) => seq![StopAction::Terminate(p)] + stop_polls(p, alive, 0),
        }
    }
}

/// How a stop ends in given surroundings.
pub open spec fn stop_outcome(running: bool, pid: Option<i32>, alive: Seq<bool>) -> StopOutcome {
    if !running {
        StopOutcome::NotRunning
    } else if pid is None {
        StopOutcome::MissingPid
    } else if exists|i: int| 0 <= i < STOP_POLLS && !alive[i] {
        StopOutcome::Stopped
    } else {
        StopOutcome::Forced
    }
}

proof fn lemma_stop_polls(running: bool, pid: Option<i32>, alive: Seq<bool>, p: i32, k: nat)
    requires
        k <= STOP_POLLS,
    ensures
        stop_run(StopState::Signalled { pid: p, polls: k as u32 }, Reply::Done, running, pid, alive, stop_polls(p, alive, k).len())
            == stop_polls(p, alive, k),
        stop_polls(p, alive, k).last() == StopAction::Finish(
            if exists|i: int| k <= i < STOP_POLLS && !alive[i] { StopOutcome::Stopped } else { StopOutcome::Forced },
        ),
    decreases STOP_POLLS - k,
{
    let s0 = StopState::Signalled { pid: p, polls: k as u32 };
    if k >= STOP_POLLS {
        reveal_with_fuel(stop_run, 4);
        assert(stop_run(s0, Reply::Done, running, pid, alive, 3) =~= stop_polls(p, alive, k));
    } else if alive[k as int] {
        lemma_stop_polls(running, pid, alive, p, k + 1);
        let rest = stop_polls(p, alive, k + 1);
        let s1 = StopState::Polling { pid: p, polls: k as u32 };
        let s2 = StopState::Signalled { pid: p, polls: (k + 1) as u32 };
        assert(stop_next(s0, Reply::Done) == (s1, StopAction::CheckAlive(p)));
        assert(stop_reply(running, pid, alive, s1, StopAction::CheckAlive(p)) == Reply::Answer(true));
        assert(stop_next(s1, Reply::Answer(true)) == (s2, StopAction::Wait));
        assert(stop_run(s1, Reply::Answer(true), running, pid, alive, rest.len() + 1)
            =~= seq![StopAction::Wait] + stop_run(s2, Reply::Done, running, pid, alive, rest.len()));
        assert(stop_run(s0, Reply::Done, running, pid, alive, rest.len() + 2)
            =~= seq![StopAction::CheckAlive(p)] + stop_run(s1, Reply::Answer(true), running, pid, alive, rest.len() + 1));
        assert(stop_polls(p, alive, k) =~= seq![StopAction::CheckAlive(p), StopAction::Wait] + rest);
        if exists|i: int| k + 1 <= i < STOP_POLLS && !alive[i] {
            let i = choose|i: int| k + 1 <= i < STOP_POLLS && !alive[i];
            assert(k <= i < STOP_POLLS && !alive[i]);
        }
    } else {
        reveal_with_fuel(stop_run, 4);
        assert(stop_run(s0, Reply::Done, running, pid, alive, 3) =~= stop_polls(p, alive, k));
    }
}

/// A stop does exactly what `stop_script` lists, whatever the VM answers,
/// and ends as `stop_outcome` says: a VM that is not running only has its
/// helpers cleaned up, a running VM without a pid is an error, and a VM that
/// is still alive at every one of the `STOP_POLLS` checks after SIGTERM is
/// killed with SIGKILL.
pub proof fn law_stop_follows_script(running: bool, pid: Option<i32>, alive: Seq<bool>)
    ensures
        stop_run(StopState::Start, Reply::Done, running, pid, alive, stop_script(running, pid, alive).len())
            == stop_script(running, pid, alive),
        stop_script(running, pid, alive).last() == StopAction::Finish(stop_outcome(running, pid, alive)),
{
    let script = stop_script(running, pid, alive);
    if !running {
        reveal_with_fuel(stop_run, 5);
        assert(stop_run(StopState::Start, Reply::Done, running, pid, alive, 4) =~= script);
    } else {
        match pid {
            None => {
                reveal_with_fuel(stop_run, 5);
                assert(stop_run(StopState::Start, Reply::Done, running, pid, alive, 4) =~= script);
            },
            Some(p) => {
                lemma_stop_polls(running, pid, alive, p, 0);
                let rest = stop_polls(p, alive, 0);
                let s3 = StopState::Signalled { pid: p, polls: 0 };
                assert(stop_run(StopState::AwaitingPid, Reply::Pid(pid), running, pid, alive, rest.len() + 1)
                    =~= seq![StopAction::Terminate(p)] + stop_run(s3, Reply::Done, running, pid, alive, rest.len()));
                assert(stop_run(StopState::Checking, Reply::Answer(true), running, pid, alive, rest.len() + 2)
                    =~= seq![StopAction::ReadPid] + stop_run(StopState::AwaitingPid, Reply::Pid(pid), running, pid, alive, rest.len() + 1));
                assert(stop_run(StopState::SeedCleanup, Reply::Done, running, pid, alive, rest.len() + 3)
                    =~= seq![StopAction::CheckRunning] + stop_run(StopState::Checking, Reply::Answer(true), running, pid, alive, rest.len() + 2));
                assert(stop_run(StopState::Start, Reply::Done, running, pid, alive, rest.len() + 4)
                    =~= seq![StopAction::CleanupSeedServer] + stop_run(StopState::SeedCleanup, Reply::Done, running, pid, alive, rest.len() + 3));
                assert(script =~= seq![StopAction::CleanupSeedServer, StopAction::CheckRunning, StopAction::ReadPid, StopAction::Terminate(p)] + rest);
            },
        }
    }
}

// ---------------------------------------------------------------------------
// Waiting for SSH
// ---------------------------------------------------------------------------

/// How many SSH probes (300 ms apart) a booting VM gets.
pub const SSH_PROBES: u32 = 180;

/// The next thing to do while waiting for the VM's SSH server.
#[derive(Clone, Copy, Debug, PartialEq, Eq, Structural)]
pub enum SshWaitAction {
    /// Try an SSH connection (`Reply::Answer`); a verbose probe logs why
    /// it failed.
    Probe { verbose: bool },
    /// Log the last line of the serial console if it changed.
    ShowBootProgress,
    /// Sleep 300 ms.
    Sleep,
    /// SSH is reachable: stop the seed server and go on.
    Ready,
    /// Every probe failed: stop the seed server and fail.
    GiveUp,
}

/// Where the wait stands; the number is that of the current probe, from 1.
#[derive(Clone, Copy, Debug, PartialEq, Eq, Structural)]
pub enum SshWaitState {
    Start,
    Probing(u32),
    Showing(u32),
    Sleeping(u32),
    Reached,
    Exhausted,
}

/// The probe with number `i` is verbose on every 30th attempt.
pub open spec fn probe_is_verbose(i: nat) -> bool {
    i % 30 == 0
}

/// The serial console is looked at after every 5th failed probe.
pub open spec fn shows_progress(i: nat) -> bool {
    i % 5 == 0
}

/// The step of the SSH wait.
pub open spec fn ssh_wait_next(s: SshWaitState, r: Reply) -> (SshWaitState, SshWaitAction) {
    match s {
        SshWaitState::Start => (SshWaitState::Probing(1), SshWaitAction::Probe { verbose: probe_is_verbose(1) }),
        SshWaitState::Probing(i) => match r {
            Reply::Answer(true) => (SshWaitState::Reached, SshWaitAction::Ready),
            Reply::Answer(false) => if shows_progress(i as nat) {
                (SshWaitState::Showing(i), SshWaitAction::ShowBootProgress)
            } else {
                (SshWaitState::Sleeping(i), SshWaitAction::Sleep)
            },
            _ => (SshWaitState::Probing(i), SshWaitAction::Probe { verbose: probe_is_verbose(i as nat) }),
        },
        SshWaitState::Showing(i) => (SshWaitState::Sleeping(i), SshWaitAction::Sleep),
        SshWaitState::Sleeping(i) => if i < SSH_PROBES {
            (SshWaitState::Probing((i + 1) as u32), SshWaitAction::Probe { verbose: probe_is_verbose((i + 1) as nat) })
        } else {
            (SshWaitState::Exhausted, SshWaitAction::GiveUp)
        },
        SshWaitState::Reached => (SshWaitState::Reached, SshWaitAction::Ready),
        SshWaitState::Exhausted => (SshWaitState::Exhausted, SshWaitAction::GiveUp),
    }
}

/// Advances the SSH wait by one step.
pub fn ssh_wait_step(s: SshWaitState, r: Reply) -> (out: (SshWaitState, SshWaitAction))
    ensures
        out == ssh_wait_next(s, r),
{
    match s {
        SshWaitState::Start => (SshWaitState::Probing(1), SshWaitAction::Probe { verbose: false }),
        SshWaitState::Probing(i) => match r {
            Reply::Answer(true) => (SshWaitState::Reached, SshWaitAction::Ready),
            Reply::Answer(false) => if i % 5 == 0 {
                (SshWaitState::Showing(i), SshWaitAction::ShowBootProgress)
            } else {
                (SshWaitState::Sleeping(i), SshWaitAction::Sleep)
            },
            _ => (SshWaitState::Probing(i), SshWaitAction::Probe { verbose: i % 30 == 0 }),
        },
        SshWaitState::Showing(i) => (SshWaitState::Sleeping(i), SshWaitAction::Sleep),
        SshWaitState::Sleeping(i) => if i < SSH_PROBES {
            (SshWaitState::Probing(i + 1), SshWaitAction::Probe { verbose: (i + 1) % 30 == 0 })
        } else {
            (SshWaitState::Exhausted, SshWaitAction::GiveUp)
        },
        SshWaitState::Reached => (SshWaitState::Reached, SshWaitAction::Ready),
        SshWaitState::Exhausted => (SshWaitState::Exhausted, SshWaitAction::GiveUp),
    }
}

/// What the SSH server answers: probe number `i` succeeds iff `ok[i - 1]`.
pub open spec fn ssh_wait_reply(ok: Seq<bool>, s: SshWaitState, a: SshWaitAction) -> Reply {
    match (s, a) {
        (SshWaitState::Probing(i), SshWaitAction::Probe { .. }) => Reply::Answer(ok[i - 1]),
        _ => Reply::Done,
    }
}

/// The first `n` actions of an SSH wait that starts in `s` after `r`.
pub open spec fn ssh_wait_run(s: SshWaitState, r: Reply, ok: Seq<bool>, n: nat) -> Seq<SshWaitAction>
    decreases n,
{
    if n == 0 {
        Seq::empty()
    } else {
        let (s2, a) = ssh_wait_next(s, r);
        seq![a] + ssh_wait_run(s2, ssh_wait_reply(ok, s2, a), ok, (n - 1) as nat)
    }
}

/// The actions from the sleep after probe `i` on (`i == 0`: from the start):
/// probe `i + 1`; stop at the first probe that succeeds; after a failed one
/// show the boot progress where due, sleep, and give up after `SSH_PROBES`.
pub open spec fn ssh_wait_script_from(ok: Seq<bool>, i: nat) -> Seq<SshWaitAction>
    decreases SSH_PROBES - i,
{
    if i >= SSH_PROBES {
        seq![SshWaitAction::GiveUp]
    } else {
        let j = i + 1;
        seq![SshWaitAction::Probe { verbose: probe_is_verbose(j) }] + if ok[i as int] {
            seq![SshWaitAction::Ready]
        } else {
            (if shows_progress(j) { seq![SshWaitAction::ShowBootProgress] } else { Seq::empty() })
                + seq![SshWaitAction::Sleep] + ssh_wait_script_from(ok, j)
        }
    }
}

/// Everything an SSH wait does.
pub open spec fn ssh_wait_script(ok: Seq<bool>) -> Seq<SshWaitAction> {
    ssh_wait_script_from(ok, 0)
}

proof fn lemma_ssh_wait_from(ok: Seq<bool>, i: nat)
    requires
        i <= SSH_PROBES,
    ensures
        ssh_wait_run(SshWaitState::Sleeping(i as u32), Reply::Done, ok, ssh_wait_script_from(ok, i).len())
            == ssh_wait_script_from(ok, i),
        ssh_wait_script_from(ok, i).last() == if exists|k: int| i <= k < SSH_PROBES && ok[k] {
            SshWaitAction::Ready
        } else {
            SshWaitAction::GiveUp
        },
    decreases SSH_PROBES - i,
{
    let s0 = SshWaitState::Sleeping(i as u32);
    let script = ssh_wait_script_from(ok, i);
    if i >= SSH_PROBES {
        reveal_with_fuel(ssh_wait_run, 2);
        assert(ssh_wait_run(s0, Reply::Done, ok, 1) =~= script);
    } else {
        let j = i + 1;
        let s1 = SshWaitState::Probing(j as u32);
        let probe = SshWaitAction::Probe { verbose: probe_is_verbose(j) };
        assert(ssh_wait_next(s0, Reply::Done) == (s1, probe));
        assert(ssh_wait_reply(ok, s1, probe) == Reply::Answer(ok[i as int]));
        if ok[i as int] {
            reveal_with_fuel(ssh_wait_run, 3);
            assert(ssh_wait_run(s0, Reply::Done, ok, 2) =~= script);
        } else {
            lemma_ssh_wait_from(ok, j);
            let rest = ssh_wait_script_from(ok, j);
            let s3 = SshWaitState::Sleeping(j as u32);
            assert(ssh_wait_run(s3, Reply::Done, ok, rest.len()) == rest);
            if shows_progress(j) {
                let s2 = SshWaitState::Showing(j as u32);
                assert(ssh_wait_run(s2, Reply::Done, ok, rest.len() + 1)
                    =~= seq![SshWaitAction::Sleep] + ssh_wait_run(s3, Reply::Done, ok, rest.len()));
                assert(ssh_wait_run(s1, Reply::Answer(false), ok, rest.len() + 2)
                    =~= seq![SshWaitAction::ShowBootProgress] + ssh_wait_run(s2, Reply::Done, ok, rest.len() + 1));
                assert(ssh_wait_run(s0, Reply::Done, ok, rest.len() + 3)
                    =~= seq![probe] + ssh_wait_run(s1, Reply::Answer(false), ok, rest.len() + 2));
                assert(script =~= seq![probe, SshWaitAction::ShowBootProgress, SshWaitAction::Sleep] + rest);
            } else {
                assert(ssh_wait_run(s1, Reply::Answer(false), ok, rest.len() + 1)
                    =~= seq![SshWaitAction::Sleep] + ssh_wait_run(s3, Reply::Done, ok, rest.len()));
                assert(ssh_wait_run(s0, Reply::Done, ok, rest.len() + 2)
                    =~= seq![probe] + ssh_wait_run(s1, Reply::Answer(false), ok, rest.len() + 1));
                assert(script =~= seq![probe, SshWaitAction::Sleep] + rest);
            }
            if exists|k: int| j <= k < SSH_PROBES && ok[k] {
                let k = choose|k: int| j <= k < SSH_PROBES && ok[k];
                assert(i <= k < SSH_PROBES && ok[k]);
            }
            if exists|k: int| i <= k < SSH_PROBES && ok[k] {
                let k = choose|k: int| i <= k < SSH_PROBES && ok[k];
                assert(j <= k < SSH_PROBES && ok[k]);
            }
        }
    }
}

/// `s` without the `'\r'` characters at its end.
pub open spec fn trim_trailing_cr(s: Seq<char>) -> Seq<char>
    decreases s.len(),
{
    if s.len() > 0 && s.last() == '\r' {
        trim_trailing_cr(s.drop_last())
    } else {
        s
    }
}

/// The boot progress worth logging: the last line of the serial console
/// without trailing carriage returns, unless it is the line logged last.
pub open spec fn boot_progress_line(last_shown: Seq<char>, serial: Seq<char>) -> Option<Seq<char>> {
    let ls = lines(serial);
    if ls.len() == 0 {
        None
    } else {
        let l = trim_trailing_cr(ls.last());
        if l == last_shown {
            None
        } else {
            Some(l)
        }
    }
}

/// The line to log while a VM boots, given the serial console's text and
/// the line logged last (`None`: nothing new).
pub fn boot_progress(last_shown: &str, serial: &str) -> (r: Option<String>)
    ensures
        opt_chars(r) == boot_progress_line(last_shown@, serial@),
{
    let text = chars_of(serial);
    let ls = lines_of(text.as_slice());
    if ls.len() == 0 {
        return None;
    }
    let last = &ls[ls.len() - 1];
    let ghost l = lines(serial@).last();
    assert(last@ == l);
    let mut n: usize = last.len();
    proof {
        assert(last@.take(n as int) =~= last@);
    }
    while n > 0 && last[n - 1] == '\r'
        invariant
            n <= last.len(),
            trim_trailing_cr(last@.take(n as int)) == trim_trailing_cr(l),
            last@ == l,
        decreases n,
    {
        assert(last@.take(n as int).drop_last() =~= last@.take(n - 1));
        n = n - 1;
    }
    let trimmed = slice_chars(last.as_slice(), 0, n);
    assert(trimmed@ =~= last@.take(n as int));
    let shown = chars_of(last_shown);
    if chars_eq(trimmed.as_slice(), shown.as_slice()) {
        None
    } else {
        Some(into_string(trimmed))
    }
}

/// An SSH wait does exactly what `ssh_wait_script` lists, whatever the
/// probes answer, and reports the VM ready iff one of the first
/// `SSH_PROBES` probes succeeded.
pub proof fn law_ssh_wait_follows_script(ok: Seq<bool>)
    ensures
        ssh_wait_run(SshWaitState::Start, Reply::Done, ok, ssh_wait_script(ok).len()) == ssh_wait_script(ok),
        ssh_wait_script(ok).last() == if exists|k: int| 0 <= k < SSH_PROBES && ok[k] {
            SshWaitAction::Ready
        } else {
            SshWaitAction::GiveUp
        },
{
    lemma_ssh_wait_from(ok, 0);
    let script = ssh_wait_script(ok);
    let s1 = SshWaitState::Probing(1);
    let probe = SshWaitAction::Probe { verbose: probe_is_verbose(1) };
    assert(ssh_wait_next(SshWaitState::Start, Reply::Done) == ssh_wait_next(SshWaitState::Sleeping(0), Reply::Done));
    assert(ssh_wait_run(SshWaitState::Start, Reply::Done, ok, script.len())
        =~= seq![probe] + ssh_wait_run(s1, ssh_wait_reply(ok, s1, probe), ok, (script.len() - 1) as nat));
    assert(ssh_wait_run(SshWaitState::Sleeping(0), Reply::Done, ok, script.len())
        =~= seq![probe] + ssh_wait_run(s1, ssh_wait_reply(ok, s1, probe), ok, (script.len() - 1) as nat));
}

// ---------------------------------------------------------------------------
// Waiting for a container
// ---------------------------------------------------------------------------

/// How many readiness checks (500 ms apart) a starting container gets.
pub const READY_PROBES: u32 = 60;

/// The next thing to do while waiting for a started container.
#[derive(Clone, Copy, Debug, PartialEq, Eq, Structural)]
pub enum ReadyWaitAction {
    /// Ask whether the container runs (`Reply::Answer`).
    CheckRunning,
    /// Try `true` inside the container (`Reply::Answer`).
    ProbeExec,
    /// Sleep 500 ms.
    Sleep,
    /// The container accepts commands.
    Ready,
    /// It never did: fail.
    GiveUp,
}

/// Where the wait stands; the number is that of the current check, from 1.
#[derive(Clone, Copy, Debug, PartialEq, Eq, Structural)]
pub enum ReadyWaitState {
    Start,
    Checking(u32),
    Probing(u32),
    Sleeping(u32),
    Reached,
    Exhausted,
}

/// The step of the container wait.
pub open spec fn ready_wait_next(s: ReadyWaitState, r: Reply) -> (ReadyWaitState, ReadyWaitAction) {
    match s {
        ReadyWaitState::Start => (ReadyWaitState::Checking(1), ReadyWaitAction::CheckRunning),
        ReadyWaitState::Checking(i) => match r {
            Reply::Answer(true) => (ReadyWaitState::Probing(i), ReadyWaitAction::ProbeExec),
            Reply::Answer(false) => (ReadyWaitState::Sleeping(i), ReadyWaitAction::Sleep),
            _ => (ReadyWaitState::Checking(i), ReadyWaitAction::CheckRunning),
        },
        ReadyWaitState::Probing(i) => match r {
            Reply::Answer(true) => (ReadyWaitState::Reached, ReadyWaitAction::Ready),
            Reply::Answer(false) => (ReadyWaitState::Sleeping(i), ReadyWaitAction::Sleep),
            _ => (ReadyWaitState::Probing(i), ReadyWaitAction::ProbeExec),
        },
        ReadyWaitState::Sleeping(i) => if i < READY_PROBES {
            (ReadyWaitState::Checking((i + 1) as u32), ReadyWaitAction::CheckRunning)
        } else {
            (ReadyWaitState::Exhausted, ReadyWaitAction::GiveUp)
        },
        ReadyWaitState::Reached => (ReadyWaitState::Reached, ReadyWaitAction::Ready),
        ReadyWaitState::Exhausted => (ReadyWaitState::Exhausted, ReadyWaitAction::GiveUp),
    }
}

/// Advances the container wait by one step.
pub fn ready_wait_step(s: ReadyWaitState, r: Reply) -> (out: (ReadyWaitState, ReadyWaitAction))
    ensures
        out == ready_wait_next(s, r),
{
    match s {
        ReadyWaitState::Start => (ReadyWaitState::Checking(1), ReadyWaitAction::CheckRunning),
        ReadyWaitState::Checking(i) => match r {
            Reply::Answer(true) => (ReadyWaitState::Probing(i), ReadyWaitAction::ProbeExec),
            Reply::Answer(false) => (ReadyWaitState::Sleeping(i), ReadyWaitAction::Sleep),
            _ => (ReadyWaitState::Checking(i), ReadyWaitAction::CheckRunning),
        },
        ReadyWaitState::Probing(i) => match r {
            Reply::Answer(true) => (ReadyWaitState::Reached, ReadyWaitAction::Ready),
            Reply::Answer(false) => (ReadyWaitState::Sleeping(i), ReadyWaitAction::Sleep),
            _ => (ReadyWaitState::Probing(i), ReadyWaitAction::ProbeExec),
        },
        ReadyWaitState::Sleeping(i) => if i < READY_PROBES {
            (ReadyWaitState::Checking(i + 1), ReadyWaitAction::CheckRunning)
        } else {
            (ReadyWaitState::Exhausted, ReadyWaitAction::GiveUp)
        },
        ReadyWaitState::Reached => (ReadyWaitState::Reached, ReadyWaitAction::Ready),
        ReadyWaitState::Exhausted => (ReadyWaitState::Exhausted, ReadyWaitAction::GiveUp),
    }
}

/// What the container answers: at check number `i` it runs iff
/// `running[i - 1]`, and a command inside it succeeds iff `exec_ok[i - 1]`.
pub open spec fn ready_wait_reply(running: Seq<bool>, exec_ok: Seq<bool>, s: ReadyWaitState, a: ReadyWaitAction) -> Reply {
    match (s, a) {
        (ReadyWaitState::Checking(i), ReadyWaitAction::CheckRunning) => Reply::Answer(running[i - 1]),
        (ReadyWaitState::Probing(i), ReadyWaitAction::ProbeExec) => Reply::Answer(exec_ok[i - 1]),
        _ => Reply::Done,
    }
}

/// The first `n` actions of a container wait that starts in `s` after `r`.
pub open spec fn ready_wait_run(
    s: ReadyWaitState,
    r: Reply,
    running: Seq<bool>,
    exec_ok: Seq<bool>,
    n: nat,
) -> Seq<ReadyWaitAction>
    decreases n,
{
    if n == 0 {
        Seq::empty()
    } else {
        let (s2, a) = ready_wait_next(s, r);
        seq![a] + ready_wait_run(s2, ready_wait_reply(running, exec_ok, s2, a), running, exec_ok, (n - 1) as nat)
    }
}

/// The container answers check `k` (from 0) with a running container that
/// accepts a command.
pub open spec fn ready_at(running: Seq<bool>, exec_ok: Seq<bool>, k: int) -> bool {
    running[k] && exec_ok[k]
}

/// The actions from the sleep after check `i` on (`i == 0`: from the
/// start): check that the container runs, and if it does that it accepts a
/// command; stop at the first check that passes both; sleep after one that
/// does not, and give up after `READY_PROBES`.
pub open spec fn ready_wait_script_from(running: Seq<bool>, exec_ok: Seq<bool>, i: nat) -> Seq<ReadyWaitAction>
    decreases READY_PROBES - i,
{
    if i >= READY_PROBES {
        seq![ReadyWaitAction::GiveUp]
    } else {
        seq![ReadyWaitAction::CheckRunning] + if !running[i as int] {
            seq![ReadyWaitAction::Sleep] + ready_wait_script_from(running, exec_ok, i + 1)
        } else if exec_ok[i as int] {
            seq![ReadyWaitAction::ProbeExec, ReadyWaitAction::Ready]
        } else {
            seq![ReadyWaitAction::ProbeExec, ReadyWaitAction::Sleep] + ready_wait_script_from(running, exec_ok, i + 1)
        }
    }
}

/// Everything a container wait does.
pub open spec fn ready_wait_script(running: Seq<bool>, exec_ok: Seq<bool>) -> Seq<ReadyWaitAction> {
    ready_wait_script_from(running, exec_ok, 0)
}

proof fn lemma_ready_wait_from(running: Seq<bool>, exec_ok: Seq<bool>, i: nat)
    requires
        i <= READY_PROBES,
    ensures
        ready_wait_run(
            ReadyWaitState::Sleeping(i as u32),
            Reply::Done,
            running,
            exec_ok,
            ready_wait_script_from(running, exec_ok, i).len(),
        ) == ready_wait_script_from(running, exec_ok, i),
        ready_wait_script_from(running, exec_ok, i).last() == if exists|k: int|
            i <= k < READY_PROBES && #[trigger] ready_at(running, exec_ok, k) {
            ReadyWaitAction::Ready
        } else {
            ReadyWaitAction::GiveUp
        },
    decreases READY_PROBES - i,
{
    let s0 = ReadyWaitState::Sleeping(i as u32);
    let script = ready_wait_script_from(running, exec_ok, i);
    if i >= READY_PROBES {
        reveal_with_fuel(ready_wait_run, 2);
        assert(ready_wait_run(s0, Reply::Done, running, exec_ok, 1) =~= script);
    } else {
        let j = i + 1;
        let s1 = ReadyWaitState::Checking(j as u32);
        let s2 = ReadyWaitState::Probing(j as u32);
        let s3 = ReadyWaitState::Sleeping(j as u32);
        assert(ready_wait_next(s0, Reply::Done) == (s1, ReadyWaitAction::CheckRunning));
        assert(ready_wait_reply(running, exec_ok, s1, ReadyWaitAction::CheckRunning) == Reply::Answer(running[i as int]));
        assert(ready_wait_reply(running, exec_ok, s2, ReadyWaitAction::ProbeExec) == Reply::Answer(exec_ok[i as int]));
        if running[i as int] && exec_ok[i as int] {
            reveal_with_fuel(ready_wait_run, 4);
            assert(ready_wait_run(s0, Reply::Done, running, exec_ok, 3) =~= script);
            assert(ready_at(running, exec_ok, i as int));
        } else {
            lemma_ready_wait_from(running, exec_ok, j);
            let rest = ready_wait_script_from(running, exec_ok, j);
            assert(ready_wait_run(s3, Reply::Done, running, exec_ok, rest.len()) == rest);
            if running[i as int] {
                assert(ready_wait_run(s2, Reply::Answer(false), running, exec_ok, rest.len() + 1)
                    =~= seq![ReadyWaitAction::Sleep] + ready_wait_run(s3, Reply::Done, running, exec_ok, rest.len()));
                assert(ready_wait_run(s1, Reply::Answer(true), running, exec_ok, rest.len() + 2)
                    =~= seq![ReadyWaitAction::ProbeExec] + ready_wait_run(s2, Reply::Answer(false), running, exec_ok, rest.len() + 1));
                assert(ready_wait_run(s0, Reply::Done, running, exec_ok, rest.len() + 3)
                    =~= seq![ReadyWaitAction::CheckRunning] + ready_wait_run(s1, Reply::Answer(true), running, exec_ok, rest.len() + 2));
                assert(script =~= seq![ReadyWaitAction::CheckRunning, ReadyWaitAction::ProbeExec, ReadyWaitAction::Sleep] + rest);
            } else {
                assert(ready_wait_run(s1, Reply::Answer(false), running, exec_ok, rest.len() + 1)
                    =~= seq![ReadyWaitAction::Sleep] + ready_wait_run(s3, Reply::Done, running, exec_ok, rest.len()));
                assert(ready_wait_run(s0, Reply::Done, running, exec_ok, rest.len() + 2)
                    =~= seq![ReadyWaitAction::CheckRunning] + ready_wait_run(s1, Reply::Answer(false), running, exec_ok, rest.len() + 1));
                assert(script =~= seq![ReadyWaitAction::CheckRunning, ReadyWaitAction::Sleep] + rest);
            }
            assert(!ready_at(running, exec_ok, i as int));
            if exists|k: int| i <= k < READY_PROBES && #[trigger] ready_at(running, exec_ok, k) {
                let k = choose|k: int| i <= k < READY_PROBES && #[trigger] ready_at(running, exec_ok, k);
                assert(j <= k < READY_PROBES && ready_at(running, exec_ok, k));
            }
        }
    }
}

/// A container wait does exactly what `ready_wait_script` lists, whatever
/// the container answers, and reports it ready iff at one of the first
/// `READY_PROBES` checks it was running and accepted a command.
pub proof fn law_ready_wait_follows_script(running: Seq<bool>, exec_ok: Seq<bool>)
    ensures
        ready_wait_run(ReadyWaitState::Start, Reply::Done, running, exec_ok, ready_wait_script(running, exec_ok).len())
            == ready_wait_script(running, exec_ok),
        ready_wait_script(running, exec_ok).last() == if exists|k: int|
            0 <= k < READY_PROBES && #[trigger] ready_at(running, exec_ok, k) {
            ReadyWaitAction::Ready
        } else {
            ReadyWaitAction::GiveUp
        },
{
    lemma_ready_wait_from(running, exec_ok, 0);
    let script = ready_wait_script(running, exec_ok);
    let s1 = ReadyWaitState::Checking(1);
    let a = ReadyWaitAction::CheckRunning;
    assert(ready_wait_run(ReadyWaitState::Start, Reply::Done, running, exec_ok, script.len())
        =~= seq![a] + ready_wait_run(s1, ready_wait_reply(running, exec_ok, s1, a), running, exec_ok, (script.len() - 1) as nat));
    assert(ready_wait_run(ReadyWaitState::Sleeping(0), Reply::Done, running, exec_ok, script.len())
        =~= seq![a] + ready_wait_run(s1, ready_wait_reply(running, exec_ok, s1, a), running, exec_ok, (script.len() - 1) as nat));
}

// ---------------------------------------------------------------------------
// Bringing a guest up
// ---------------------------------------------------------------------------

/// The two kinds of guest: a QEMU VM reached over SSH, or an Apple
/// `container` reached with `container exec`.
#[derive(Clone, Copy, Debug, PartialEq, Eq, Structural)]
pub enum GuestKind {
    Vm,
    Container,
}

/// Whether bringing a guest up found it running or started it.
#[derive(Clone, Copy, Debug, PartialEq, Eq, Structural)]
pub enum UpOutcome {
    Reused,
    Booted,
}

/// The next thing to do while bringing a guest up.
#[derive(Clone, Copy, Debug, PartialEq, Eq, Structural)]
pub enum UpAction {
    /// Create the state, target and work directories.
    Prepare,
    /// Ask whether the guest runs (`Reply::Answer`).
    CheckRunning,
    /// Stop the running guest (a recreate was asked for).
    StopExisting,
    /// Drop the VM's `known_hosts` (a recreate was asked for).
    ForgetHostKeys,
    /// Check that a running guest mounts the directories asked for.
    CheckMountPaths,
    EnsureImage,
    EnsureKey,
    RenderCloudInit,
    CreateSeed,
    EnsureDisk,
    StartVm,
    /// Wait for SSH (the SSH wait machine).
    WaitForSsh,
    /// Mount `/app`, `/target` and `/work` inside the VM.
    EnsureGuestMounts,
    StartContainer,
    /// Wait until the container accepts commands (the container wait machine).
    WaitReady,
    /// Record the mounted directories in the runtime file.
    PersistRuntime,
    /// The guest is up.
    Finish(UpOutcome),
}

/// Where bringing a guest up stands.
#[derive(Clone, Copy, Debug, PartialEq, Eq, Structural)]
pub enum UpState {
    Start,
    Preparing,
    RecreateCheck,
    Stopping,
    Forgetting,
    MainCheck,
    /// Working through the steps of `up_tail(kind, reused)`; `idx` is the
    /// one in progress.
    Following { reused: bool, idx: u32 },
}

/// The steps after the guest was found running (`reused`) or not.
pub open spec fn up_tail(kind: GuestKind, reused: bool) -> Seq<UpAction> {
    match kind {
        GuestKind::Vm => if reused {
            seq![UpAction::CheckMountPaths, UpAction::WaitForSsh, UpAction::EnsureGuestMounts, UpAction::Finish(UpOutcome::Reused)]
        } else {
            seq![
                UpAction::EnsureImage,
                UpAction::EnsureKey,
                UpAction::RenderCloudInit,
                UpAction::CreateSeed,
                UpAction::EnsureDisk,
                UpAction::StartVm,
                UpAction::WaitForSsh,
                UpAction::EnsureGuestMounts,
                UpAction::Finish(UpOutcome::Booted),
            ]
        },
        GuestKind::Container => if reused {
            seq![UpAction::CheckMountPaths, UpAction::Finish(UpOutcome::Reused)]
        } else {
            seq![UpAction::StartContainer, UpAction::WaitReady, UpAction::PersistRuntime, UpAction::Finish(UpOutcome::Booted)]
        },
    }
}

/// The number of steps in `up_tail(kind, reused)`.
pub fn up_tail_len(kind: GuestKind, reused: bool) -> (n: u32)
    ensures
        n == up_tail(kind, reused).len(),
{
    match kind {
        GuestKind::Vm => if reused { 4 } else { 9 },
        GuestKind::Container => if reused { 2 } else { 4 },
    }
}

/// Step `idx` of `up_tail(kind, reused)`.
pub fn up_tail_at(kind: GuestKind, reused: bool, idx: u32) -> (a: UpAction)
    requires
        idx < up_tail(kind, reused).len(),
    ensures
        a == up_tail(kind, reused)[idx as int],
{
    match kind {
        GuestKind::Vm => if reused {
            if idx == 0 {
                UpAction::CheckMountPaths
            } else if idx == 1 {
                UpAction::WaitForSsh
            } else if idx == 2 {
                UpAction::EnsureGuestMounts
            } else {
                UpAction::Finish(UpOutcome::Reused)
            }
        } else {
            if idx == 0 {
                UpAction::EnsureImage
            } else if idx == 1 {
                UpAction::EnsureKey
            } else if idx == 2 {
                UpAction::RenderCloudInit
            } else if idx == 3 {
                UpAction::CreateSeed
            } else if idx == 4 {
                UpAction::EnsureDisk
            } else if idx == 5 {
                UpAction::StartVm
            } else if idx == 6 {
                UpAction::WaitForSsh
            } else if idx == 7 {
                UpAction::EnsureGuestMounts
            } else {
                UpAction::Finish(UpOutcome::Booted)
            }
        },
        GuestKind::Container => if reused {
            if idx == 0 {
                UpAction::CheckMountPaths
            } else {
                UpAction::Finish(UpOutcome::Reused)
            }
        } else {
            if idx == 0 {
                UpAction::StartContainer
            } else if idx == 1 {
                UpAction::WaitReady
            } else if idx == 2 {
                UpAction::PersistRuntime
            } else {
                UpAction::Finish(UpOutcome::Booted)
            }
        },
    }
}

/// What follows a stop asked for by a recreate (or a recreate that found
/// nothing to stop): a VM forgets its host keys, then the main check.
pub open spec fn after_recreate_stop(kind: GuestKind) -> (UpState, UpAction) {
    match kind {
        GuestKind::Vm => (UpState::Forgetting, UpAction::ForgetHostKeys),
        GuestKind::Container => (UpState::MainCheck, UpAction::CheckRunning),
    }
}

/// The step of bringing a guest up; `recreate` asks to stop a running guest
/// first.
pub open spec fn up_next(kind: GuestKind, recreate: bool, s: UpState, r: Reply) -> (UpState, UpAction) {
    match s {
        UpState::Start => (UpState::Preparing, UpAction::Prepare),
        UpState::Preparing => if recreate {
            (UpState::RecreateCheck, UpAction::CheckRunning)
        } else {
            (UpState::MainCheck, UpAction::CheckRunning)
        },
        UpState::RecreateCheck => match r {
            Reply::Answer(true) => (UpState::Stopping, UpAction::StopExisting),
            Reply::Answer(false) => after_recreate_stop(kind),
            _ => (UpState::RecreateCheck, UpAction::CheckRunning),
        },
        UpState::Stopping => after_recreate_stop(kind),
        UpState::Forgetting => (UpState::MainCheck, UpAction::CheckRunning),
        UpState::MainCheck => match r {
            Reply::Answer(b) => (UpState::Following { reused: b, idx: 0 }, up_tail(kind, b)[0]),
            _ => (UpState::MainCheck, UpAction::CheckRunning),
        },
        UpState::Following { reused, idx } => {
            let t = up_tail(kind, reused);
            if idx + 1 < t.len() {
                (UpState::Following { reused, idx: (idx + 1) as u32 }, t[idx + 1])
            } else {
                (UpState::Following { reused, idx: (t.len() - 1) as u32 }, t[t.len() - 1])
            }
        },
    }
}

/// Advances bringing a guest up by one step.
pub fn up_step(kind: GuestKind, recreate: bool, s: UpState, r: Reply) -> (out: (UpState, UpAction))
    ensures
        out == up_next(kind, recreate, s, r),
{
    match s {
        UpState::Start => (UpState::Preparing, UpAction::Prepare),
        UpState::Preparing => if recreate {
            (UpState::RecreateCheck, UpAction::CheckRunning)
        } else {
            (UpState::MainCheck, UpAction::CheckRunning)
        },
        UpState::RecreateCheck => match r {
            Reply::Answer(true) => (UpState::Stopping, UpAction::StopExisting),
            Reply::Answer(false) => after_stop(kind),
            _ => (UpState::RecreateCheck, UpAction::CheckRunning),
        },
        UpState::Stopping => after_stop(kind),
        UpState::Forgetting => (UpState::MainCheck, UpAction::CheckRunning),
        UpState::MainCheck => match r {
            Reply::Answer(b) => (UpState::Following { reused: b, idx: 0 }, up_tail_at(kind, b, 0)),
            _ => (UpState::MainCheck, UpAction::CheckRunning),
        },
        UpState::Following { reused, idx } => {
            let n = up_tail_len(kind, reused);
            if idx < n - 1 {
                (UpState::Following { reused, idx: idx + 1 }, up_tail_at(kind, reused, idx + 1))
            } else {
                (UpState::Following { reused, idx: n - 1 }, up_tail_at(kind, reused, n - 1))
            }
        },
    }
}

fn after_stop(kind: GuestKind) -> (out: (UpState, UpAction))
    ensures
        out == after_recreate_stop(kind),
{
    match kind {
        GuestKind::Vm => (UpState::Forgetting, UpAction::ForgetHostKeys),
        GuestKind::Container => (UpState::MainCheck, UpAction::CheckRunning),
    }
}

/// What the guest answers: to the check a recreate makes whether it runs
/// (`first`), and to the main check whether it runs then (`second`).
pub open spec fn up_reply(first: bool, second: bool, s: UpState, a: UpAction) -> Reply {
    match (s, a) {
        (UpState::RecreateCheck, UpAction::CheckRunning) => Reply::Answer(first),
        (UpState::MainCheck, UpAction::CheckRunning) => Reply::Answer(second),
        _ => Reply::Done,
    }
}

/// The first `n` actions of bringing a guest up from `s` after `r`.
pub open spec fn up_run(
    kind: GuestKind,
    recreate: bool,
    s: UpState,
    r: Reply,
    first: bool,
    second: bool,
    n: nat,
) -> Seq<UpAction>
    decreases n,
{
    if n == 0 {
        Seq::empty()
    } else {
        let (s2, a) = up_next(kind, recreate, s, r);
        seq![a] + up_run(kind, recreate, s2, up_reply(first, second, s2, a), first, second, (n - 1) as nat)
    }
}

/// Everything bringing a guest up does: prepare; on a recreate, stop the
/// guest if it runs and (a VM) forget its host keys; then reuse the guest if
/// it runs, or start it.
pub open spec fn up_script(kind: GuestKind, recreate: bool, first: bool, second: bool) -> Seq<UpAction> {
    seq![UpAction::Prepare] + (if recreate {
        seq![UpAction::CheckRunning] + (if first { seq![UpAction::StopExisting] } else { Seq::empty() })
            + (if kind == GuestKind::Vm { seq![UpAction::ForgetHostKeys] } else { Seq::empty() })
    } else {
        Seq::empty()
    }) + seq![UpAction::CheckRunning] + up_tail(kind, second)
}

proof fn lemma_up_tail(kind: GuestKind, recreate: bool, first: bool, second: bool, reused: bool, idx: int)
    requires
        0 <= idx < up_tail(kind, reused).len(),
    ensures
        up_run(kind, recreate, UpState::Following { reused, idx: idx as u32 }, Reply::Done, first, second,
            (up_tail(kind, reused).len() - 1 - idx) as nat)
            == up_tail(kind, reused).subrange(idx + 1, up_tail(kind, reused).len() as int),
    decreases up_tail(kind, reused).len() - idx,
{
    let t = up_tail(kind, reused);
    let s0 = UpState::Following { reused, idx: idx as u32 };
    if idx + 1 < t.len() {
        lemma_up_tail(kind, recreate, first, second, reused, idx + 1);
        let s1 = UpState::Following { reused, idx: (idx + 1) as u32 };
        assert(up_next(kind, recreate, s0, Reply::Done) == (s1, t[idx + 1]));
        assert(up_reply(first, second, s1, t[idx + 1]) == Reply::Done);
        assert(up_run(kind, recreate, s0, Reply::Done, first, second, (t.len() - 1 - idx) as nat)
            =~= seq![t[idx + 1]] + up_run(kind, recreate, s1, Reply::Done, first, second, (t.len() - 1 - (idx + 1)) as nat));
        assert(t.subrange(idx + 1, t.len() as int) =~= seq![t[idx + 1]] + t.subrange(idx + 2, t.len() as int));
    } else {
        assert(t.subrange(idx + 1, t.len() as int) =~= Seq::<UpAction>::empty());
    }
}

/// Bringing a guest up does exactly what `up_script` lists, whatever the
/// guest answers: a recreate stops a guest that runs before anything else
/// happens, and the guest is reused iff it runs at the main check.
pub proof fn law_up_follows_script(kind: GuestKind, recreate: bool, first: bool, second: bool)
    ensures
        up_run(kind, recreate, UpState::Start, Reply::Done, first, second, up_script(kind, recreate, first, second).len())
            == up_script(kind, recreate, first, second),
        up_script(kind, recreate, first, second).last() == UpAction::Finish(
            if second { UpOutcome::Reused } else { UpOutcome::Booted },
        ),
{
    let t = up_tail(kind, second);
    let script = up_script(kind, recreate, first, second);
    lemma_up_tail(kind, recreate, first, second, second, 0);
    let f0 = UpState::Following { reused: second, idx: 0 };
    let m = (t.len() - 1) as nat;
    assert(t.subrange(1, t.len() as int) =~= t.drop_first());
    assert(up_next(kind, recreate, UpState::MainCheck, Reply::Answer(second)) == (f0, t[0]));
    assert(up_reply(first, second, f0, t[0]) == Reply::Done);
    assert(up_run(kind, recreate, UpState::MainCheck, Reply::Answer(second), first, second, t.len())
        =~= seq![t[0]] + up_run(kind, recreate, f0, Reply::Done, first, second, m));
    assert(up_run(kind, recreate, UpState::MainCheck, Reply::Answer(second), first, second, t.len()) =~= t);
    let main = up_run(kind, recreate, UpState::MainCheck, Reply::Answer(second), first, second, t.len());
    // The checks before the tail, walked back from the main check.
    let n1 = t.len() + 1;
    if !recreate {
        assert(up_run(kind, recreate, UpState::Preparing, Reply::Done, first, second, n1) =~= seq![UpAction::CheckRunning] + main);
        assert(up_run(kind, recreate, UpState::Start, Reply::Done, first, second, n1 + 1)
            =~= seq![UpAction::Prepare] + up_run(kind, recreate, UpState::Preparing, Reply::Done, first, second, n1));
        assert(script =~= seq![UpAction::Prepare, UpAction::CheckRunning] + t);
    } else {
        // From the end of the recreate part to the main check.
        let tail_from_after: Seq<UpAction> = if kind == GuestKind::Vm {
            seq![UpAction::ForgetHostKeys, UpAction::CheckRunning] + t
        } else {
            seq![UpAction::CheckRunning] + t
        };
        if kind == GuestKind::Vm {
            assert(up_run(kind, recreate, UpState::Forgetting, Reply::Done, first, second, n1)
                =~= seq![UpAction::CheckRunning] + main);
        }
        let k = tail_from_after.len();
        // A stop and a recreate check that finds nothing running lead to the same step.
        assert(up_run(kind, recreate, UpState::Stopping, Reply::Done, first, second, k) =~= tail_from_after);
        if first {
            assert(up_run(kind, recreate, UpState::RecreateCheck, Reply::Answer(true), first, second, k + 1)
                =~= seq![UpAction::StopExisting] + up_run(kind, recreate, UpState::Stopping, Reply::Done, first, second, k));
        } else {
            assert(up_run(kind, recreate, UpState::RecreateCheck, Reply::Answer(false), first, second, k)
                =~= up_run(kind, recreate, UpState::Stopping, Reply::Done, first, second, k));
        }
        let pre: Seq<UpAction> = if first { seq![UpAction::StopExisting] } else { Seq::empty() };
        let k2 = (pre.len() + k) as nat;
        assert(up_run(kind, recreate, UpState::RecreateCheck, Reply::Answer(first), first, second, k2) =~= pre + tail_from_after);
        assert(up_run(kind, recreate, UpState::Preparing, Reply::Done, first, second, k2 + 1)
            =~= seq![UpAction::CheckRunning] + up_run(kind, recreate, UpState::RecreateCheck, Reply::Answer(first), first, second, k2));
        assert(up_run(kind, recreate, UpState::Start, Reply::Done, first, second, k2 + 2)
            =~= seq![UpAction::Prepare] + up_run(kind, recreate, UpState::Preparing, Reply::Done, first, second, k2 + 1));
        assert(script =~= seq![UpAction::Prepare, UpAction::CheckRunning] + pre + tail_from_after);
    }
}

// ---------------------------------------------------------------------------
// Building a binary for the guest
// ---------------------------------------------------------------------------

/// The next thing to do while building a binary for the guest from a list
/// of builds to try, in order.
#[derive(Clone, Copy, Debug, PartialEq, Eq, Structural)]
pub enum AttemptAction {
    /// Run build `i`; a failure is no error (`Reply::Answer`: whether it
    /// succeeded).
    Try(usize),
    /// Run build `i`, the last one; its failure is the error of the whole.
    RunLast(usize),
    /// The binary of build `i` is the one to use.
    Use(usize),
    /// The list holds no build.
    NothingToTry,
}

/// Where building stands.
#[derive(Clone, Copy, Debug, PartialEq, Eq, Structural)]
pub enum AttemptState {
    Start,
    Trying(usize),
    Last(usize),
    Used(usize),
    Empty,
}

/// The build after `i`.
pub open spec fn next_build(i: usize) -> usize {
    if i < usize::MAX { (i + 1) as usize } else { i }
}

/// The step of building from `n` builds to try.
pub open spec fn attempt_next(n: usize, s: AttemptState, r: Reply) -> (AttemptState, AttemptAction) {
    match s {
        AttemptState::Start => if n == 0 {
            (AttemptState::Empty, AttemptAction::NothingToTry)
        } else if n == 1 {
            (AttemptState::Last(0), AttemptAction::RunLast(0))
        } else {
            (AttemptState::Trying(0), AttemptAction::Try(0))
        },
        AttemptState::Trying(i) => match r {
            Reply::Answer(true) => (AttemptState::Used(i), AttemptAction::Use(i)),
            Reply::Answer(false) => if i + 2 >= n {
                (AttemptState::Last(next_build(i)), AttemptAction::RunLast(next_build(i)))
            } else {
                (AttemptState::Trying(next_build(i)), AttemptAction::Try(next_build(i)))
            },
            _ => (AttemptState::Trying(i), AttemptAction::Try(i)),
        },
        AttemptState::Last(i) => (AttemptState::Used(i), AttemptAction::Use(i)),
        AttemptState::Used(i) => (AttemptState::Used(i), AttemptAction::Use(i)),
        AttemptState::Empty => (AttemptState::Empty, AttemptAction::NothingToTry),
    }
}

/// Advances building by one step.
pub fn attempt_step(n: usize, s: AttemptState, r: Reply) -> (out: (AttemptState, AttemptAction))
    ensures
        out == attempt_next(n, s, r),
{
    match s {
        AttemptState::Start => if n == 0 {
            (AttemptState::Empty, AttemptAction::NothingToTry)
        } else if n == 1 {
            (AttemptState::Last(0), AttemptAction::RunLast(0))
        } else {
            (AttemptState::Trying(0), AttemptAction::Try(0))
        },
        AttemptState::Trying(i) => match r {
            Reply::Answer(true) => (AttemptState::Used(i), AttemptAction::Use(i)),
            Reply::Answer(false) => {
                let next = if i < usize::MAX { i + 1 } else { i };
                if n < 2 || i >= n - 2 {
                    (AttemptState::Last(next), AttemptAction::RunLast(next))
                } else {
                    (AttemptState::Trying(next), AttemptAction::Try(next))
                }
            },
            _ => (AttemptState::Trying(i), AttemptAction::Try(i)),
        },
        AttemptState::Last(i) => (AttemptState::Used(i), AttemptAction::Use(i)),
        AttemptState::Used(i) => (AttemptState::Used(i), AttemptAction::Use(i)),
        AttemptState::Empty => (AttemptState::Empty, AttemptAction::NothingToTry),
    }
}

/// What the builds answer: build `i`, tried, succeeds iff `ok[i]`.
pub open spec fn attempt_reply(ok: Seq<bool>, s: AttemptState, a: AttemptAction) -> Reply {
    match (s, a) {
        (AttemptState::Trying(i), AttemptAction::Try(_)) => Reply::Answer(ok[i as int]),
        _ => Reply::Done,
    }
}

/// The first `k` actions of building from `n` builds, starting in `s`
/// after `r`.
pub open spec fn attempt_run(n: usize, s: AttemptState, r: Reply, ok: Seq<bool>, k: nat) -> Seq<AttemptAction>
    decreases k,
{
    if k == 0 {
        Seq::empty()
    } else {
        let (s2, a) = attempt_next(n, s, r);
        seq![a] + attempt_run(n, s2, attempt_reply(ok, s2, a), ok, (k - 1) as nat)
    }
}

/// The actions from build `i` on: each build but the last is tried and the
/// first that succeeds is used; the last is run, and its failure is the
/// error.
pub open spec fn attempt_script_from(n: nat, ok: Seq<bool>, i: nat) -> Seq<AttemptAction>
    decreases n - i,
{
    if i + 1 >= n {
        seq![AttemptAction::RunLast(i as usize), AttemptAction::Use(i as usize)]
    } else if ok[i as int] {
        seq![AttemptAction::Try(i as usize), AttemptAction::Use(i as usize)]
    } else {
        seq![AttemptAction::Try(i as usize)] + attempt_script_from(n, ok, i + 1)
    }
}

/// Everything building from `n` builds does.
pub open spec fn attempt_script(n: nat, ok: Seq<bool>) -> Seq<AttemptAction> {
    if n == 0 {
        seq![AttemptAction::NothingToTry]
    } else {
        attempt_script_from(n, ok, 0)
    }
}

proof fn lemma_attempts_from(n: usize, ok: Seq<bool>, i: nat)
    requires
        1 <= i < n,
    ensures
        attempt_run(n, AttemptState::Trying((i - 1) as usize), Reply::Answer(false), ok, attempt_script_from(n as nat, ok, i).len())
            == attempt_script_from(n as nat, ok, i),
    decreases n - i,
{
    let s0 = AttemptState::Trying((i - 1) as usize);
    let script = attempt_script_from(n as nat, ok, i);
    assert(next_build((i - 1) as usize) == i as usize);
    if i + 1 >= n {
        reveal_with_fuel(attempt_run, 3);
        assert(attempt_run(n, s0, Reply::Answer(false), ok, 2) =~= script);
    } else {
        let s1 = AttemptState::Trying(i as usize);
        assert(attempt_next(n, s0, Reply::Answer(false)) == (s1, AttemptAction::Try(i as usize)));
        assert(attempt_reply(ok, s1, AttemptAction::Try(i as usize)) == Reply::Answer(ok[i as int]));
        if ok[i as int] {
            reveal_with_fuel(attempt_run, 3);
            assert(attempt_run(n, s0, Reply::Answer(false), ok, 2) =~= script);
        } else {
            lemma_attempts_from(n, ok, i + 1);
            let rest = attempt_script_from(n as nat, ok, i + 1);
            assert(attempt_run(n, s0, Reply::Answer(false), ok, rest.len() + 1)
                =~= seq![AttemptAction::Try(i as usize)] + attempt_run(n, s1, Reply::Answer(false), ok, rest.len()));
            assert(script =~= seq![AttemptAction::Try(i as usize)] + rest);
        }
    }
}

/// The position of the build whose binary is used: the first build but the
/// last that succeeds, else the last.
pub open spec fn used_build(n: nat, ok: Seq<bool>) -> int {
    used_build_from(n, ok, 0)
}

/// `used_build`, looking from build `i` on.
pub open spec fn used_build_from(n: nat, ok: Seq<bool>, i: nat) -> int
    decreases n - i,
{
    if i + 1 >= n {
        i as int
    } else if ok[i as int] {
        i as int
    } else {
        used_build_from(n, ok, i + 1)
    }
}

proof fn lemma_used_from(n: nat, ok: Seq<bool>, i: nat)
    requires
        i < n,
    ensures
        attempt_script_from(n, ok, i).last() == AttemptAction::Use(used_build_from(n, ok, i) as usize),
    decreases n - i,
{
    if i + 1 < n && !ok[i as int] {
        lemma_used_from(n, ok, i + 1);
    }
}

/// Building does exactly what `attempt_script` lists, whatever the builds
/// answer: every build but the last is tried until one succeeds, the last is
/// run only when all before it failed, and the binary used is that of
/// `used_build`.
pub proof fn law_attempts_follow_script(n: usize, ok: Seq<bool>)
    ensures
        attempt_run(n, AttemptState::Start, Reply::Done, ok, attempt_script(n as nat, ok).len())
            == attempt_script(n as nat, ok),
        n > 0 ==> attempt_script(n as nat, ok).last() == AttemptAction::Use(used_build(n as nat, ok) as usize),
{
    let script = attempt_script(n as nat, ok);
    if n == 0 {
        reveal_with_fuel(attempt_run, 2);
        assert(attempt_run(n, AttemptState::Start, Reply::Done, ok, 1) =~= script);
    } else if n == 1 {
        reveal_with_fuel(attempt_run, 3);
        assert(attempt_run(n, AttemptState::Start, Reply::Done, ok, 2) =~= script);
        lemma_used_from(n as nat, ok, 0);
    } else {
        lemma_used_from(n as nat, ok, 0);
        let s1 = AttemptState::Trying(0);
        assert(attempt_reply(ok, s1, AttemptAction::Try(0)) == Reply::Answer(ok[0]));
        if ok[0] {
            reveal_with_fuel(attempt_run, 3);
            assert(attempt_run(n, AttemptState::Start, Reply::Done, ok, 2) =~= script);
        } else {
            lemma_attempts_from(n, ok, 1);
            let rest = attempt_script_from(n as nat, ok, 1);
            assert(attempt_run(n, AttemptState::Start, Reply::Done, ok, rest.len() + 1)
                =~= seq![AttemptAction::Try(0)] + attempt_run(n, s1, Reply::Answer(false), ok, rest.len()));
            assert(script =~= seq![AttemptAction::Try(0)] + rest);
        }
    }
}

} // verus!
