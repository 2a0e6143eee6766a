//! The Apple `container` backend: a lightweight Linux VM run with
//! `container run`, entered with `container exec`.

use vstd::prelude::*;
use crate::qemu::{env_or, value_or};
use crate::text::{
    chars_of, contains, has_substring, into_string, join_path, opt_chars, path_join, push_lit,
    push_str, push_string, strings_view, append_strings,
};

verus! {

/// The default memory of a container, in MiB.
pub const CONTAINER_MEM_MB: &'static str = "8192";

/// The values of the `CONTAINER_VM_*` environment variables, where set.
#[derive(Debug)]
pub struct ContainerSettings {
    pub name: Option<String>,
    pub image: Option<String>,
    pub mem_mb: Option<String>,
    pub cpus: Option<String>,
}

/// The configuration of the local container VM. Paths are held as text.
#[derive(Debug)]
pub struct ContainerConfig {
    pub name: String,
    pub image: String,
    pub mem_mb: String,
    pub cpus: String,
    pub workspace: String,
    pub target_dir: String,
    pub work_dir: String,
    pub state_root: String,
    pub recreate: bool,
}

impl ContainerConfig {
    /// The configuration from the environment `env`, with `cpus` logical CPUs
    /// by default, for the given directories.
    pub fn from_settings(
        env: &ContainerSettings,
        cpus: &str,
        workspace: &str,
        target_dir: &str,
        work_dir: &str,
        state_root: &str,
        recreate: bool,
    ) -> (c: ContainerConfig)
        ensures
            c.name@ == value_or(opt_chars(env.name), "patchbay"@),
            c.image@ == value_or(opt_chars(env.image), "debian:trixie-slim"@),
            c.mem_mb@ == value_or(opt_chars(env.mem_mb), "8192"@),
            c.cpus@ == value_or(opt_chars(env.cpus), cpus@),
            c.workspace@ == workspace@,
            c.target_dir@ == target_dir@,
            c.work_dir@ == work_dir@,
            c.state_root@ == state_root@,
            c.recreate == recreate,
    {
        ContainerConfig {
            name: env_or(&env.name, "patchbay"),
            image: env_or(&env.image, "debian:trixie-slim"),
            mem_mb: env_or(&env.mem_mb, CONTAINER_MEM_MB),
            cpus: env_or(&env.cpus, cpus),
            workspace: workspace.to_owned(),
            target_dir: target_dir.to_owned(),
            work_dir: work_dir.to_owned(),
            state_root: state_root.to_owned(),
            recreate,
        }
    }

    /// The directory of this container's state.
    pub fn state_dir(&self) -> (r: String)
        ensures
            r@ == join_path(self.state_root@, self.name@),
    {
        path_join(self.state_root.as_str(), self.name.as_str())
    }

    /// The file that records what the running container shares.
    pub fn runtime_file(&self) -> (r: String)
        ensures
            r@ == join_path(join_path(self.state_root@, self.name@), "runtime.env"@),
    {
        let d = self.state_dir();
        path_join(d.as_str(), "runtime.env")
    }
}

/// The `container` arguments that start the container: detached, named, with
/// its CPUs and memory, the workspace and target dir bound read-only at `/app`
/// and `/target`, the work dir at `/work`, and a command that keeps it alive.
pub open spec fn run_command(c: ContainerConfig) -> Seq<Seq<char>> {
    seq![
        "run"@,
        "-d"@,
        "--name"@,
        c.name@,
        "--cpus"@,
        c.cpus@,
        "--memory"@,
        c.mem_mb@ + "M"@,
        "--mount"@,
        "type=bind,source="@ + c.workspace@ + ",target=/app,readonly"@,
        "--mount"@,
        "type=bind,source="@ + c.target_dir@ + ",target=/target,readonly"@,
        "--mount"@,
        "type=bind,source="@ + c.work_dir@ + ",target=/work"@,
        c.image@,
        "sleep"@,
        "infinity"@,
    ]
}

fn concat3(a: &str, b: &str, c: &str) -> (r: String)
    ensures
        r@ == a@ + b@ + c@,
{
    let mut v: Vec<char> = Vec::new();
    push_str(&mut v, a);
    push_str(&mut v, b);
    push_str(&mut v, c);
    into_string(v)
}

/// The `container` arguments that start the container of `c`.
pub fn container_run_args(c: &ContainerConfig) -> (r: Vec<String>)
    ensures
        strings_view(r@) == run_command(*c),
{
    let mut out: Vec<String> = Vec::new();
    push_lit(&mut out, "run");
    push_lit(&mut out, "-d");
    push_lit(&mut out, "--name");
    push_string(&mut out, &c.name);
    push_lit(&mut out, "--cpus");
    push_string(&mut out, &c.cpus);
    push_lit(&mut out, "--memory");
    let mem = concat3("", c.mem_mb.as_str(), "M");
    push_string(&mut out, &mem);
    push_lit(&mut out, "--mount");
    let a = concat3("type=bind,source=", c.workspace.as_str(), ",target=/app,readonly");
    push_string(&mut out, &a);
    push_lit(&mut out, "--mount");
    let b = concat3("type=bind,source=", c.target_dir.as_str(), ",target=/target,readonly");
    push_string(&mut out, &b);
    push_lit(&mut out, "--mount");
    let w = concat3("type=bind,source=", c.work_dir.as_str(), ",target=/work");
    push_string(&mut out, &w);
    push_string(&mut out, &c.image);
    push_lit(&mut out, "sleep");
    push_lit(&mut out, "infinity");
    proof {
        reveal_strlit("");
        assert(strings_view(out@) =~= run_command(*c));
    }
    out
}

/// The `container` arguments that run `cmd` in the container `name`.
pub open spec fn exec_command(name: Seq<char>, cmd: Seq<Seq<char>>) -> Seq<Seq<char>> {
    seq!["exec"@, name] + cmd
}

/// The `container` arguments that run `cmd` in the container of `c`.
pub fn exec_args(c: &ContainerConfig, cmd: &Vec<String>) -> (r: Vec<String>)
    ensures
        strings_view(r@) == exec_command(c.name@, strings_view(cmd@)),
{
    let mut out: Vec<String> = Vec::new();
    push_lit(&mut out, "exec");
    push_string(&mut out, &c.name);
    append_strings(&mut out, cmd);
    proof {
        assert(strings_view(out@) =~= exec_command(c.name@, strings_view(cmd@)));
    }
    out
}

/// The `container` arguments that run the user's command `cmd` in the
/// container; an empty command is an error.
pub fn exec_cmd_cli(c: &ContainerConfig, cmd: &Vec<String>) -> (r: Result<Vec<String>, String>)
    ensures
        cmd@.len() == 0 ==> (r matches Err(m) && m@ == "exec: missing command"@),
        cmd@.len() > 0 ==> (r matches Ok(a) && strings_view(a@) == exec_command(c.name@, strings_view(cmd@))),
{
    if cmd.len() == 0 {
        return Err("exec: missing command".to_owned());
    }
    Ok(exec_args(c, cmd))
}

/// What `container inspect` printed says that the container runs.
pub open spec fn inspect_says_running(out: Seq<char>) -> bool {
    contains(out, "running"@) || contains(out, "Running"@)
}

/// Whether the output of a successful `container inspect` shows the container
/// running.
pub fn is_running_output(out: &str) -> (b: bool)
    ensures
        b == inspect_says_running(out@),
{
    let cs = chars_of(out);
    has_substring(&cs, "running") || has_substring(&cs, "Running")
}

/// What the runtime file of a started container records.
pub open spec fn runtime_text(c: ContainerConfig) -> Seq<char> {
    "backend=container\nworkspace="@ + c.workspace@ + "\ntarget_dir="@ + c.target_dir@ + "\nwork_dir="@
        + c.work_dir@ + "\n"@
}

/// The content of the runtime file of a started container.
pub fn runtime_env(c: &ContainerConfig) -> (r: String)
    ensures
        r@ == runtime_text(*c),
{
    let mut v: Vec<char> = Vec::new();
    push_str(&mut v, "backend=container\nworkspace=");
    push_str(&mut v, c.workspace.as_str());
    push_str(&mut v, "\ntarget_dir=");
    push_str(&mut v, c.target_dir.as_str());
    push_str(&mut v, "\nwork_dir=");
    push_str(&mut v, c.work_dir.as_str());
    push_str(&mut v, "\n");
    into_string(v)
}

} // verus!
