use patchbay::container::{
    container_run_args, exec_args, exec_cmd_cli, is_running_output, runtime_env, ContainerConfig,
    ContainerSettings,
};

fn strs(xs: &[&str]) -> Vec<String> {
    xs.iter().map(|x| x.to_string()).collect()
}

fn config() -> ContainerConfig {
    let env = ContainerSettings { name: None, image: None, mem_mb: Some("4096".to_string()), cpus: None };
    ContainerConfig::from_settings(&env, "8", "/ws", "/ws/target", "/ws/.patchbay/work", "/ws/.container-vm", false)
}

#[test]
fn settings_and_defaults() {
    let c = config();
    assert_eq!(c.name, "patchbay");
    assert_eq!(c.image, "debian:trixie-slim");
    assert_eq!(c.mem_mb, "4096");
    assert_eq!(c.cpus, "8");
    assert_eq!(c.state_dir(), "/ws/.container-vm/patchbay");
    assert_eq!(c.runtime_file(), "/ws/.container-vm/patchbay/runtime.env");
}

#[test]
fn run_and_exec_arguments() {
    let c = config();
    assert_eq!(
        container_run_args(&c),
        strs(&[
            "run", "-d", "--name", "patchbay", "--cpus", "8", "--memory", "4096M", "--mount",
            "type=bind,source=/ws,target=/app,readonly", "--mount",
            "type=bind,source=/ws/target,target=/target,readonly", "--mount",
            "type=bind,source=/ws/.patchbay/work,target=/work", "debian:trixie-slim", "sleep", "infinity"
        ])
    );
    assert_eq!(exec_args(&c, &strs(&["uname", "-a"])), strs(&["exec", "patchbay", "uname", "-a"]));
    assert_eq!(exec_cmd_cli(&c, &Vec::new()), Err("exec: missing command".to_string()));
    assert_eq!(exec_cmd_cli(&c, &strs(&["ls"])), Ok(strs(&["exec", "patchbay", "ls"])));
}

#[test]
fn inspect_and_runtime_file() {
    assert!(is_running_output("{\"status\":\"running\"}"));
    assert!(is_running_output("Running"));
    assert!(!is_running_output("stopped"));
    assert_eq!(
        runtime_env(&config()),
        "backend=container\nworkspace=/ws\ntarget_dir=/ws/target\nwork_dir=/ws/.patchbay/work\n"
    );
}
