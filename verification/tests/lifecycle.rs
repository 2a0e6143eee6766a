use patchbay::lifecycle::{
    attempt_step, AttemptAction, AttemptState,
    boot_progress, ready_wait_step, ssh_wait_step, stop_step, up_step, GuestKind, ReadyWaitAction, ReadyWaitState,
    Reply, SshWaitAction, SshWaitState, StopAction, StopOutcome, StopState, UpAction, UpOutcome, UpState,
    READY_PROBES, SSH_PROBES, STOP_POLLS,
};

/// Runs a stop against a VM that runs or not, has `pid` in its pid file,
/// and dies at the `dies_at`-th liveness check (never if `None`).
fn run_stop(running: bool, pid: Option<i32>, dies_at: Option<u32>) -> Vec<StopAction> {
    let mut state = StopState::Start;
    let mut reply = Reply::Done;
    let mut checks = 0u32;
    let mut out = Vec::new();
    loop {
        let (next, action) = stop_step(state, reply);
        state = next;
        out.push(action);
        reply = match action {
            StopAction::CheckRunning => Reply::Answer(running),
            StopAction::ReadPid => Reply::Pid(pid),
            StopAction::CheckAlive(_) => {
                checks += 1;
                Reply::Answer(dies_at != Some(checks))
            }
            StopAction::Finish(_) => return out,
            _ => Reply::Done,
        };
        assert!(out.len() < 1000);
    }
}

#[test]
fn stop_without_running_vm_only_cleans_helpers() {
    assert_eq!(
        run_stop(false, Some(7), None),
        vec![
            StopAction::CleanupSeedServer,
            StopAction::CheckRunning,
            StopAction::CleanupVirtiofsd,
            StopAction::Finish(StopOutcome::NotRunning),
        ]
    );
}

#[test]
fn stop_without_pid_fails() {
    assert_eq!(
        run_stop(true, None, None),
        vec![
            StopAction::CleanupSeedServer,
            StopAction::CheckRunning,
            StopAction::ReadPid,
            StopAction::Finish(StopOutcome::MissingPid),
        ]
    );
}

#[test]
fn stop_waits_until_the_vm_exits() {
    assert_eq!(
        run_stop(true, Some(42), Some(3)),
        vec![
            StopAction::CleanupSeedServer,
            StopAction::CheckRunning,
            StopAction::ReadPid,
            StopAction::Terminate(42),
            StopAction::CheckAlive(42),
            StopAction::Wait,
            StopAction::CheckAlive(42),
            StopAction::Wait,
            StopAction::CheckAlive(42),
            StopAction::Teardown,
            StopAction::Finish(StopOutcome::Stopped),
        ]
    );
}

#[test]
fn stop_kills_a_vm_that_outlives_every_check() {
    let actions = run_stop(true, Some(9), None);
    let checks = actions.iter().filter(|a| **a == StopAction::CheckAlive(9)).count();
    let waits = actions.iter().filter(|a| **a == StopAction::Wait).count();
    assert_eq!(checks, STOP_POLLS as usize);
    assert_eq!(waits, STOP_POLLS as usize);
    assert_eq!(
        actions[actions.len() - 3..].to_vec(),
        vec![StopAction::ForceKill(9), StopAction::Teardown, StopAction::Finish(StopOutcome::Forced)]
    );
}

#[test]
fn stop_asks_again_after_a_reply_of_the_wrong_kind() {
    let (s, a) = stop_step(StopState::Checking, Reply::Done);
    assert_eq!((s, a), (StopState::Checking, StopAction::CheckRunning));
    let (s, a) = stop_step(StopState::AwaitingPid, Reply::Answer(true));
    assert_eq!((s, a), (StopState::AwaitingPid, StopAction::ReadPid));
}

fn run_ssh_wait(reachable_at: Option<u32>) -> Vec<SshWaitAction> {
    let mut state = SshWaitState::Start;
    let mut reply = Reply::Done;
    let mut probes = 0u32;
    let mut out = Vec::new();
    loop {
        let (next, action) = ssh_wait_step(state, reply);
        state = next;
        out.push(action);
        reply = match action {
            SshWaitAction::Probe { .. } => {
                probes += 1;
                Reply::Answer(reachable_at == Some(probes))
            }
            SshWaitAction::Ready | SshWaitAction::GiveUp => return out,
            _ => Reply::Done,
        };
        assert!(out.len() < 10000);
    }
}

#[test]
fn ssh_wait_stops_at_the_first_successful_probe() {
    let actions = run_ssh_wait(Some(6));
    let mut expected = Vec::new();
    for i in 1..=5u32 {
        expected.push(SshWaitAction::Probe { verbose: false });
        if i == 5 {
            expected.push(SshWaitAction::ShowBootProgress);
        }
        expected.push(SshWaitAction::Sleep);
    }
    expected.push(SshWaitAction::Probe { verbose: false });
    expected.push(SshWaitAction::Ready);
    assert_eq!(actions, expected);
}

#[test]
fn ssh_wait_gives_up_after_every_probe_failed() {
    let actions = run_ssh_wait(None);
    let probes: Vec<bool> = actions
        .iter()
        .filter_map(|a| match a {
            SshWaitAction::Probe { verbose } => Some(*verbose),
            _ => None,
        })
        .collect();
    assert_eq!(probes.len(), SSH_PROBES as usize);
    assert_eq!(probes.iter().filter(|v| **v).count(), 6);
    assert!(probes[29] && probes[59] && !probes[30]);
    let shown = actions.iter().filter(|a| **a == SshWaitAction::ShowBootProgress).count();
    assert_eq!(shown, 36);
    assert_eq!(actions[actions.len() - 2..].to_vec(), vec![SshWaitAction::Sleep, SshWaitAction::GiveUp]);
}

fn run_ready_wait(running_from: u32, exec_from: u32) -> Vec<ReadyWaitAction> {
    let mut state = ReadyWaitState::Start;
    let mut reply = Reply::Done;
    let mut checks = 0u32;
    let mut out = Vec::new();
    loop {
        let (next, action) = ready_wait_step(state, reply);
        state = next;
        out.push(action);
        reply = match action {
            ReadyWaitAction::CheckRunning => {
                checks += 1;
                Reply::Answer(checks >= running_from)
            }
            ReadyWaitAction::ProbeExec => Reply::Answer(checks >= exec_from),
            ReadyWaitAction::Ready | ReadyWaitAction::GiveUp => return out,
            _ => Reply::Done,
        };
        assert!(out.len() < 10000);
    }
}

#[test]
fn container_wait_needs_a_running_container_that_accepts_commands() {
    assert_eq!(
        run_ready_wait(2, 3),
        vec![
            ReadyWaitAction::CheckRunning,
            ReadyWaitAction::Sleep,
            ReadyWaitAction::CheckRunning,
            ReadyWaitAction::ProbeExec,
            ReadyWaitAction::Sleep,
            ReadyWaitAction::CheckRunning,
            ReadyWaitAction::ProbeExec,
            ReadyWaitAction::Ready,
        ]
    );
}

#[test]
fn container_wait_gives_up_after_its_checks() {
    let actions = run_ready_wait(1, 1000);
    let checks = actions.iter().filter(|a| **a == ReadyWaitAction::CheckRunning).count();
    assert_eq!(checks, READY_PROBES as usize);
    assert_eq!(actions.last(), Some(&ReadyWaitAction::GiveUp));
}

fn run_up(kind: GuestKind, recreate: bool, first: bool, second: bool) -> Vec<UpAction> {
    let mut state = UpState::Start;
    let mut reply = Reply::Done;
    let mut checks = 0u32;
    let mut out = Vec::new();
    loop {
        let (next, action) = up_step(kind, recreate, state, reply);
        state = next;
        out.push(action);
        reply = match action {
            UpAction::CheckRunning => {
                checks += 1;
                let answer = if recreate && checks == 1 { first } else { second };
                Reply::Answer(answer)
            }
            UpAction::Finish(_) => return out,
            _ => Reply::Done,
        };
        assert!(out.len() < 100);
    }
}

#[test]
fn vm_recreate_stops_forgets_keys_and_boots() {
    assert_eq!(
        run_up(GuestKind::Vm, true, true, false),
        vec![
            UpAction::Prepare,
            UpAction::CheckRunning,
            UpAction::StopExisting,
            UpAction::ForgetHostKeys,
            UpAction::CheckRunning,
            UpAction::EnsureImage,
            UpAction::EnsureKey,
            UpAction::RenderCloudInit,
            UpAction::CreateSeed,
            UpAction::EnsureDisk,
            UpAction::StartVm,
            UpAction::WaitForSsh,
            UpAction::EnsureGuestMounts,
            UpAction::Finish(UpOutcome::Booted),
        ]
    );
}

#[test]
fn running_vm_is_reused() {
    assert_eq!(
        run_up(GuestKind::Vm, false, false, true),
        vec![
            UpAction::Prepare,
            UpAction::CheckRunning,
            UpAction::CheckMountPaths,
            UpAction::WaitForSsh,
            UpAction::EnsureGuestMounts,
            UpAction::Finish(UpOutcome::Reused),
        ]
    );
}

#[test]
fn container_recreate_without_running_container_starts_one() {
    assert_eq!(
        run_up(GuestKind::Container, true, false, false),
        vec![
            UpAction::Prepare,
            UpAction::CheckRunning,
            UpAction::CheckRunning,
            UpAction::StartContainer,
            UpAction::WaitReady,
            UpAction::PersistRuntime,
            UpAction::Finish(UpOutcome::Booted),
        ]
    );
    assert_eq!(
        run_up(GuestKind::Container, false, false, true),
        vec![UpAction::Prepare, UpAction::CheckRunning, UpAction::CheckMountPaths, UpAction::Finish(UpOutcome::Reused)]
    );
}

#[test]
fn boot_progress_shows_new_last_lines_only() {
    assert_eq!(boot_progress("", "starting\r\nlogin: \r\n"), Some("login: ".to_string()));
    assert_eq!(boot_progress("login: ", "starting\r\nlogin: \r\n"), None);
    assert_eq!(boot_progress("", "a\nb\r\r"), Some("b".to_string()));
    assert_eq!(boot_progress("x", ""), None);
    assert_eq!(boot_progress("x", "\r"), Some(String::new()));
}

fn run_attempts(n: usize, ok: &[bool]) -> Vec<AttemptAction> {
    let mut state = AttemptState::Start;
    let mut reply = Reply::Done;
    let mut out = Vec::new();
    loop {
        let (next, action) = attempt_step(n, state, reply);
        state = next;
        out.push(action);
        reply = match action {
            AttemptAction::Try(i) => Reply::Answer(ok[i]),
            AttemptAction::Use(_) | AttemptAction::NothingToTry => return out,
            _ => Reply::Done,
        };
        assert!(out.len() < 100);
    }
}

#[test]
fn builds_are_tried_in_order_and_the_last_must_succeed() {
    assert_eq!(run_attempts(0, &[]), vec![AttemptAction::NothingToTry]);
    assert_eq!(run_attempts(1, &[false]), vec![AttemptAction::RunLast(0), AttemptAction::Use(0)]);
    assert_eq!(
        run_attempts(3, &[false, true, false]),
        vec![AttemptAction::Try(0), AttemptAction::Try(1), AttemptAction::Use(1)]
    );
    assert_eq!(
        run_attempts(3, &[false, false, false]),
        vec![AttemptAction::Try(0), AttemptAction::Try(1), AttemptAction::RunLast(2), AttemptAction::Use(2)]
    );
}
