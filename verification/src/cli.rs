//! The decisions of the command-line front end: which VM backend runs, how
//! a test run is dispatched, where a compare takes its results from, and the
//! arguments handed to the VM backends.

use vstd::prelude::*;
use crate::text::{
    chars_of, clone_strings, eq_str, into_string, join_path, opt_chars, path_join, push_decimal,
    push_str, strings_view,
};
use crate::testargs::TestArgs;
use crate::vm::{RunVmArgs, TestVmArgs};

verus! {

/// VM backend selection.
#[derive(Clone, Copy, Debug, PartialEq, Eq, Structural)]
pub enum Backend {
    /// Auto-detect: the `container` backend on macOS Apple Silicon where the
    /// `container` CLI exists, QEMU otherwise.
    Auto,
    /// QEMU with a full Debian cloud image and SSH access.
    Qemu,
    /// Apple `container` CLI (macOS 26 and Apple Silicon only).
    Container,
}

/// The concrete backend that `b` stands for on a host with `os` and `arch`,
/// where the `container` CLI exists or not.
pub open spec fn resolved_backend(b: Backend, os: Seq<char>, arch: Seq<char>, has_container: bool) -> Backend {
    match b {
        Backend::Auto => if os == "macos"@ && arch == "aarch64"@ && has_container {
            Backend::Container
        } else {
            Backend::Qemu
        },
        other => other,
    }
}

/// Resolves `Backend::Auto` into a concrete backend for the host `os`/`arch`,
/// given whether the `container` CLI was found.
pub fn resolve_backend(b: Backend, os: &str, arch: &str, has_container: bool) -> (r: Backend)
    ensures
        r == resolved_backend(b, os@, arch@, has_container),
{
    match b {
        Backend::Auto => {
            let o = chars_of(os);
            let a = chars_of(arch);
            if eq_str(&o, "macos") && eq_str(&a, "aarch64") && has_container {
                Backend::Container
            } else {
                Backend::Qemu
            }
        },
        other => other,
    }
}

/// The musl target of the test binaries on a host of architecture `arch`.
pub fn default_test_target(arch: &str) -> (r: String)
    ensures
        r@ == crate::vm::musl_target(arch@),
{
    crate::vm::default_musl_target(arch).to_owned()
}

/// Shared arguments of `patchbay run` and `patchbay vm run`.
#[derive(Debug)]
pub struct VmRunArgs {
    /// Sim files, or directories holding `*.toml`.
    pub sims: Vec<String>,
    /// Work directory for logs, binaries and results.
    pub work_dir: String,
    /// Binary overrides in `<name>:<mode>:<value>` form.
    pub binary_overrides: Vec<String>,
    /// Stream live output with node prefixes.
    pub verbose: bool,
    /// Start the embedded UI server and open a browser.
    pub open: bool,
    /// Bind address of the UI server.
    pub bind: String,
}

/// The arguments of a sim run in the VM for `args`.
pub fn run_vm_args(args: VmRunArgs, recreate: bool, patchbay_version: String) -> (r: RunVmArgs)
    ensures
        r.sim_inputs@ == args.sims@,
        r.work_dir@ == args.work_dir@,
        r.binary_overrides@ == args.binary_overrides@,
        r.verbose == args.verbose,
        r.recreate == recreate,
        r.patchbay_version@ == patchbay_version@,
{
    RunVmArgs {
        sim_inputs: args.sims,
        work_dir: args.work_dir,
        binary_overrides: args.binary_overrides,
        verbose: args.verbose,
        recreate,
        patchbay_version,
    }
}

/// The arguments of a sim run in the VM from the top-level `run` command:
/// no VM rebuild, and the latest released runner.
pub fn run_sims_vm(args: VmRunArgs) -> (r: RunVmArgs)
    ensures
        r.sim_inputs@ == args.sims@,
        r.work_dir@ == args.work_dir@,
        r.binary_overrides@ == args.binary_overrides@,
        r.verbose == args.verbose,
        !r.recreate,
        r.patchbay_version@ == "latest"@,
{
    run_vm_args(args, false, "latest".to_owned())
}

/// The subcommands of `patchbay vm`.
#[derive(Debug)]
#[allow(inconsistent_fields)]
pub enum VmCommand {
    /// Boot or reuse the VM and ensure its mounts.
    Up { recreate: bool },
    /// Stop the VM and its helper processes.
    Down,
    /// Show whether the VM runs.
    Status,
    /// Best-effort cleanup of VM helper files and processes.
    Cleanup,
    /// Run a command in the guest.
    Ssh { cmd: Vec<String> },
    /// Run sims in the VM with the guest runner.
    Run { args: VmRunArgs, recreate: bool, patchbay_version: String },
    /// Serve the UI and the work directory over HTTP.
    Serve { work_dir: String, testdir: bool, bind: String, open: bool },
    /// Build and run tests in the VM.
    Test { args: TestArgs, target: String, recreate: bool },
}

/// The directory that `vm serve` serves: the test output directory under the
/// work dir when `testdir`, else the work dir.
pub open spec fn serve_dir_text(work_dir: Seq<char>, testdir: bool) -> Seq<char> {
    if testdir {
        join_path(join_path(join_path(work_dir, "binaries"@), "tests"@), "testdir-current"@)
    } else {
        work_dir
    }
}

/// The directory that `vm serve` serves.
pub fn serve_dir(work_dir: &str, testdir: bool) -> (r: String)
    ensures
        r@ == serve_dir_text(work_dir@, testdir),
{
    if testdir {
        let a = path_join(work_dir, "binaries");
        let b = path_join(a.as_str(), "tests");
        path_join(b.as_str(), "testdir-current")
    } else {
        work_dir.to_owned()
    }
}

/// How `patchbay test` runs.
#[derive(Debug, PartialEq, Eq, Structural)]
pub enum TestMode {
    /// Natively, on Linux.
    Native,
    /// In a VM with the backend (still to be resolved when `Auto`).
    Vm(Backend),
}

/// The dispatch of `patchbay test` for the `--vm` option `vm` on a Linux host
/// or not: a named backend forces the VM, an unknown name is an error, and
/// without the option Linux runs natively and other hosts use the VM.
pub open spec fn test_mode(vm: Option<Seq<char>>, linux: bool) -> Result<TestMode, Seq<char>> {
    match vm {
        Some(v) => if v == "auto"@ {
            Ok(TestMode::Vm(Backend::Auto))
        } else if v == "qemu"@ {
            Ok(TestMode::Vm(Backend::Qemu))
        } else if v == "container"@ {
            Ok(TestMode::Vm(Backend::Container))
        } else {
            Err("unknown VM backend: "@ + v)
        },
        None => if linux {
            Ok(TestMode::Native)
        } else {
            Ok(TestMode::Vm(Backend::Auto))
        },
    }
}

/// Decides how `patchbay test` runs.
pub fn dispatch_test(vm: &Option<String>, linux: bool) -> (r: Result<TestMode, String>)
    ensures
        match r {
            Ok(m) => test_mode(opt_chars(*vm), linux) == Ok::<TestMode, Seq<char>>(m),
            Err(e) => test_mode(opt_chars(*vm), linux) == Err::<TestMode, Seq<char>>(e@),
        },
{
    match vm {
        Some(v) => {
            let c = chars_of(v.as_str());
            if eq_str(&c, "auto") {
                Ok(TestMode::Vm(Backend::Auto))
            } else if eq_str(&c, "qemu") {
                Ok(TestMode::Vm(Backend::Qemu))
            } else if eq_str(&c, "container") {
                Ok(TestMode::Vm(Backend::Container))
            } else {
                let mut m: Vec<char> = Vec::new();
                push_str(&mut m, "unknown VM backend: ");
                push_str(&mut m, v.as_str());
                Err(into_string(m))
            }
        },
        None => if linux {
            Ok(TestMode::Native)
        } else {
            Ok(TestMode::Vm(Backend::Auto))
        },
    }
}

/// The arguments of a test run in the VM with `backend`, as `patchbay test`
/// hands them over: the default target of the host, no VM rebuild.
pub fn run_vm(args: TestArgs, arch: &str) -> (r: TestVmArgs)
    ensures
        r.target@ == crate::vm::musl_target(arch@),
        !r.recreate,
        r.filter is None,
        strings_view(r.packages@) == strings_view(args.packages@),
        strings_view(r.tests@) == strings_view(args.tests@),
        strings_view(r.cargo_args@) == crate::testargs::vm_cargo_args(args),
{
    let target = default_test_target(arch);
    args.into_vm_args(target, false)
}

/// Where a compare side takes its results from.
#[derive(Debug, PartialEq, Eq, Structural)]
pub enum RefSource {
    /// The persisted run of the ref's commit.
    Cached,
    /// A fresh test run in a worktree of the ref.
    Build,
}

/// The first `n` characters of `s`, or all of it.
pub open spec fn prefix_text(s: Seq<char>, n: nat) -> Seq<char> {
    if s.len() <= n {
        s
    } else {
        s.take(n as int)
    }
}

/// The error when a ref has no persisted run and may not be built.
pub open spec fn no_cached_run_text(label: Seq<char>, sha: Seq<char>) -> Seq<char> {
    "no cached run for "@ + label + " ("@ + prefix_text(sha, 8) + "); run `patchbay test --persist` on that ref first, or remove --no-ref-build"@
}

/// Where a compare side takes its results from: the cached run unless a
/// build is forced or there is none; without a cached run and with builds
/// refused, an error.
pub open spec fn ref_source_of(force_build: bool, cached: bool, no_ref_build: bool, label: Seq<char>, sha: Seq<char>) -> Result<RefSource, Seq<char>> {
    if !force_build && cached {
        Ok(RefSource::Cached)
    } else if no_ref_build {
        Err(no_cached_run_text(label, sha))
    } else {
        Ok(RefSource::Build)
    }
}

/// Decides where a compare side (`label`, at commit `sha`) takes its results from.
pub fn ref_source(force_build: bool, cached: bool, no_ref_build: bool, label: &str, sha: &str) -> (r: Result<RefSource, String>)
    ensures
        match r {
            Ok(s) => ref_source_of(force_build, cached, no_ref_build, label@, sha@) == Ok::<RefSource, Seq<char>>(s),
            Err(e) => ref_source_of(force_build, cached, no_ref_build, label@, sha@) == Err::<RefSource, Seq<char>>(e@),
        },
{
    if !force_build && cached {
        return Ok(RefSource::Cached);
    }
    if no_ref_build {
        let s = chars_of(sha);
        let n: usize = if s.len() <= 8 { s.len() } else { 8 };
        let p = crate::text::slice_chars(&s, 0, n);
        let mut m: Vec<char> = Vec::new();
        push_str(&mut m, "no cached run for ");
        push_str(&mut m, label);
        push_str(&mut m, " (");
        crate::text::push_chars(&mut m, &p);
        push_str(&mut m, "); run `patchbay test --persist` on that ref first, or remove --no-ref-build");
        proof {
            assert(p@ =~= prefix_text(sha@, 8));
        }
        return Err(into_string(m));
    }
    Ok(RefSource::Build)
}

/// The outcome of a compare with `regressions` regressions.
pub fn compare_outcome(regressions: u64) -> (r: Result<(), String>)
    ensures
        regressions == 0 ==> r is Ok,
        regressions > 0 ==> (r matches Err(m) && m@ == crate::text::decimal(regressions as nat) + " regressions detected"@),
{
    if regressions > 0 {
        let mut m: Vec<char> = Vec::new();
        push_decimal(&mut m, regressions);
        push_str(&mut m, " regressions detected");
        Err(into_string(m))
    } else {
        Ok(())
    }
}

/// The label of the right side of a compare: its ref, or the worktree.
pub fn right_label(right_ref: &Option<String>) -> (r: String)
    ensures
        r@ == match opt_chars(*right_ref) {
            Some(s) => s,
            None => "worktree"@,
        },
{
    match right_ref {
        Some(s) => s.clone(),
        None => "worktree".to_owned(),
    }
}

/// The project configuration files that name the simulations, in order.
pub open spec fn sim_config_files(root: Seq<char>) -> Seq<Seq<char>> {
    seq![join_path(root, "patchbay.toml"@), join_path(root, ".patchbay.toml"@)]
}

/// Where to look for a project configuration naming the simulations when no
/// sim is given.
pub fn sim_config_candidates(project_root: &str) -> (r: Vec<String>)
    ensures
        strings_view(r@) == sim_config_files(project_root@),
{
    let mut out: Vec<String> = Vec::new();
    let a = path_join(project_root, "patchbay.toml");
    let b = path_join(project_root, ".patchbay.toml");
    crate::text::push_string(&mut out, &a);
    crate::text::push_string(&mut out, &b);
    proof {
        assert(strings_view(out@) =~= sim_config_files(project_root@));
    }
    out
}

/// The sims to run: the ones given, or, when none is, the simulations
/// directory of the first configuration file found (`found`: its directory
/// as configured under the project root); without one, an error naming the
/// project root.
pub open spec fn sims_to_run(sims: Seq<Seq<char>>, root: Seq<char>, configured: Option<Seq<char>>) -> Result<Seq<Seq<char>>, Seq<char>> {
    if sims.len() > 0 {
        Ok(sims)
    } else {
        match configured {
            Some(dir) => Ok(seq![join_path(root, dir)]),
            None => Err("no sim files specified and no patchbay.toml found in "@ + root),
        }
    }
}

/// Resolves the sims to run from the command line `sims`, the project root,
/// and the `simulations` entry of the first configuration file found, if any.
pub fn resolve_sim_args(sims: &Vec<String>, project_root: &str, configured: &Option<String>) -> (r: Result<Vec<String>, String>)
    ensures
        match r {
            Ok(v) => sims_to_run(strings_view(sims@), project_root@, opt_chars(*configured)) == Ok::<Seq<Seq<char>>, Seq<char>>(strings_view(v@)),
            Err(e) => sims_to_run(strings_view(sims@), project_root@, opt_chars(*configured)) == Err::<Seq<Seq<char>>, Seq<char>>(e@),
        },
{
    if sims.len() > 0 {
        return Ok(clone_strings(sims));
    }
    match configured {
        Some(dir) => {
            let d = path_join(project_root, dir.as_str());
            let mut out: Vec<String> = Vec::new();
            crate::text::push_string(&mut out, &d);
            proof {
                assert(strings_view(out@) =~= seq![join_path(project_root@, dir@)]);
            }
            Ok(out)
        },
        None => {
            let mut m: Vec<char> = Vec::new();
            push_str(&mut m, "no sim files specified and no patchbay.toml found in ");
            push_str(&mut m, project_root);
            Err(into_string(m))
        },
    }
}

} // verus!
