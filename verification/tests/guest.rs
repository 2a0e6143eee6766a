use patchbay::guest::{
    check_running_mount_paths, guest_run_parts, guest_sim_path, read_runtime_dirs,
    require_test_binaries, test_env_pairs, test_run_args, tests_outcome,
};

fn strs(xs: &[&str]) -> Vec<String> {
    xs.iter().map(|x| x.to_string()).collect()
}

const RUNTIME: &str = "pid=12\nworkspace=/old\nworkspace=/ws\ntarget_dir=/ws/target\nwork_dir=/ws/.patchbay/work\n";

#[test]
fn runtime_dirs_take_the_last_line() {
    let (w, t, k) = read_runtime_dirs(RUNTIME);
    assert_eq!(w.as_deref(), Some("/ws"));
    assert_eq!(t.as_deref(), Some("/ws/target"));
    assert_eq!(k.as_deref(), Some("/ws/.patchbay/work"));
    assert_eq!(read_runtime_dirs(""), (None, None, None));
}

#[test]
fn mount_paths_must_match() {
    assert!(check_running_mount_paths("VM", RUNTIME, "/ws", "/ws/target", "/ws/.patchbay/work").is_ok());
    assert_eq!(
        check_running_mount_paths("VM", RUNTIME, "/other", "/ws/target", "/ws/.patchbay/work"),
        Err("VM already running with workspace '/ws', requested '/other' (use --recreate)".to_string())
    );
    assert_eq!(
        check_running_mount_paths("container", "", "/ws", "/t", "/w"),
        Err("container already running with workspace '', requested '/ws' (use --recreate)".to_string())
    );
    assert_eq!(
        check_running_mount_paths("VM", RUNTIME, "/ws", "/ws/target", "/elsewhere"),
        Err("VM already running with work dir '/ws/.patchbay/work', requested '/elsewhere' (use --recreate)".to_string())
    );
}

#[test]
fn runner_command_line() {
    let cmd = guest_run_parts(
        true,
        "/work/.patchbay-bin/patchbay",
        &None,
        &Some("debug".to_string()),
        &strs(&["a:path:/target/x"]),
        &strs(&["b:path:/work/b"]),
        true,
        &strs(&["/app/sims/x.toml"]),
    );
    assert_eq!(
        cmd,
        strs(&[
            "sudo", "env", "NETSIM_IN_VM=1", "NETSIM_TARGET_DIR=/target", "RUST_LOG=debug",
            "/work/.patchbay-bin/patchbay", "run", "--work-dir", "/work", "--binary",
            "a:path:/target/x", "--binary", "b:path:/work/b", "-v", "/app/sims/x.toml"
        ])
    );
    assert_eq!(guest_sim_path("sims/x.toml"), "/app/sims/x.toml");
}

#[test]
fn test_commands() {
    let env = test_env_pairs(&vec![("RUST_LOG".to_string(), Some("info".to_string())), ("X".to_string(), None)]);
    assert_eq!(env, strs(&["RUST_LOG=info", "PATH=/usr/local/sbin:/usr/local/bin:/usr/sbin:/usr/bin:/sbin:/bin"]));
    let args = test_run_args(&env, "/target/t/debug/deps/a-1", &Some("my_test".to_string()));
    assert_eq!(args[0], "env");
    assert_eq!(args[3], "/target/t/debug/deps/a-1");
    assert_eq!(args[4], "my_test");
    assert_eq!(test_run_args(&Vec::new(), "/bin/t", &None), strs(&["/bin/t"]));
}

#[test]
fn outcomes() {
    assert!(tests_outcome("VM", 0).is_ok());
    assert_eq!(tests_outcome("VM", 2), Err("2 test binaries failed in VM".to_string()));
    assert!(require_test_binaries(1, "t").is_ok());
    assert_eq!(
        require_test_binaries(0, "x86_64-unknown-linux-musl"),
        Err("no test binaries were built for target x86_64-unknown-linux-musl".to_string())
    );
}
