//! What both VM backends say to the guest: the runner's command line, the
//! per-binary test commands, and the check that a running guest shares the
//! requested directories.

use vstd::prelude::*;
use crate::text::{
    chars_of, into_string, lines, lines_of, opt_chars, push_str,
    starts_with, strings_view, strip_prefix, string_from, append_strings,
};

verus! {

/// The text after `prefix` on the last of `ls` that starts with it.
pub open spec fn last_prefixed(ls: Seq<Seq<char>>, prefix: Seq<char>) -> Option<Seq<char>>
    decreases ls.len(),
{
    if ls.len() == 0 {
        None
    } else if starts_with(ls.last(), prefix) {
        Some(ls.last().skip(prefix.len() as int))
    } else {
        last_prefixed(ls.drop_last(), prefix)
    }
}

/// The directories recorded in a runtime file: workspace, target dir, work dir.
pub open spec fn runtime_dirs(text: Seq<char>) -> (
    Option<Seq<char>>,
    Option<Seq<char>>,
    Option<Seq<char>>,
) {
    (
        last_prefixed(lines(text), "workspace="@),
        last_prefixed(lines(text), "target_dir="@),
        last_prefixed(lines(text), "work_dir="@),
    )
}

/// The directories recorded in the runtime file `text`: the last `workspace=`,
/// `target_dir=` and `work_dir=` line of each.
pub fn read_runtime_dirs(text: &str) -> (r: (Option<String>, Option<String>, Option<String>))
    ensures
        (opt_chars(r.0), opt_chars(r.1), opt_chars(r.2)) == runtime_dirs(text@),
{
    let cs = chars_of(text);
    let ls = lines_of(&cs);
    let ghost all = lines(text@);
    let mut ws: Option<String> = None;
    let mut td: Option<String> = None;
    let mut wk: Option<String> = None;
    let mut i: usize = 0;
    proof {
        assert(ls@.len() == all.len());
    }
    while i < ls.len()
        invariant
            i <= ls.len(),
            all == lines(text@),
            ls@.len() == all.len(),
            forall|j: int| 0 <= j < ls@.len() ==> #[trigger] ls@[j]@ == all[j],
            opt_chars(ws) == last_prefixed(all.take(i as int), "workspace="@),
            opt_chars(td) == last_prefixed(all.take(i as int), "target_dir="@),
            opt_chars(wk) == last_prefixed(all.take(i as int), "work_dir="@),
        decreases ls.len() - i,
    {
        proof {
            assert(all.take(i + 1).drop_last() =~= all.take(i as int));
            assert(all.take(i + 1).last() == ls@[i as int]@);
        }
        match strip_prefix(ls[i].as_slice(), "workspace=") {
            Some(v) => {
                ws = Some(string_from(v.as_slice()));
            },
            None => {},
        }
        match strip_prefix(ls[i].as_slice(), "target_dir=") {
            Some(v) => {
                td = Some(string_from(v.as_slice()));
            },
            None => {},
        }
        match strip_prefix(ls[i].as_slice(), "work_dir=") {
            Some(v) => {
                wk = Some(string_from(v.as_slice()));
            },
            None => {},
        }
        i = i + 1;
    }
    proof {
        assert(all.take(ls.len() as int) =~= all);
    }
    (ws, td, wk)
}

/// The characters of an optional text, or nothing.
pub open spec fn or_empty(s: Option<Seq<char>>) -> Seq<char> {
    match s {
        Some(s) => s,
        None => Seq::empty(),
    }
}

/// The error for a guest that runs with another `what` than the requested one.
pub open spec fn mismatch_text(who: Seq<char>, what: Seq<char>, running: Option<Seq<char>>, requested: Seq<char>) -> Seq<char> {
    who + " already running with "@ + what + " '"@ + or_empty(running) + "', requested '"@ + requested
        + "' (use --recreate)"@
}

/// Whether a running guest, whose runtime file holds `text`, shares the
/// requested directories: the first that differs is an error.
pub open spec fn mount_check(
    who: Seq<char>,
    text: Seq<char>,
    workspace: Seq<char>,
    target: Seq<char>,
    work: Seq<char>,
) -> Result<(), Seq<char>> {
    let (rw, rt, rk) = runtime_dirs(text);
    if rw != Some(workspace) {
        Err(mismatch_text(who, "workspace"@, rw, workspace))
    } else if rt != Some(target) {
        Err(mismatch_text(who, "target dir"@, rt, target))
    } else if rk != Some(work) {
        Err(mismatch_text(who, "work dir"@, rk, work))
    } else {
        Ok(())
    }
}

fn opt_eq(a: &Option<String>, b: &str) -> (r: bool)
    ensures
        r == (opt_chars(*a) == Some(b@)),
{
    match a {
        Some(x) => {
            let bs = b.to_owned();
            *x == bs
        },
        None => false,
    }
}

fn mismatch(who: &str, what: &str, running: &Option<String>, requested: &str) -> (m: String)
    ensures
        m@ == mismatch_text(who@, what@, opt_chars(*running), requested@),
{
    let mut v: Vec<char> = Vec::new();
    push_str(&mut v, who);
    push_str(&mut v, " already running with ");
    push_str(&mut v, what);
    push_str(&mut v, " '");
    match running {
        Some(r) => push_str(&mut v, r.as_str()),
        None => {},
    }
    push_str(&mut v, "', requested '");
    push_str(&mut v, requested);
    push_str(&mut v, "' (use --recreate)");
    proof {
        assert(v@ =~= mismatch_text(who@, what@, opt_chars(*running), requested@));
    }
    into_string(v)
}

/// Checks that a running `who` ("VM" or "container"), whose runtime file
/// holds `text`, shares the requested workspace, target and work directories.
pub fn check_running_mount_paths(
    who: &str,
    text: &str,
    workspace: &str,
    target: &str,
    work: &str,
) -> (r: Result<(), String>)
    ensures
        match r {
            Ok(()) => mount_check(who@, text@, workspace@, target@, work@) is Ok,
            Err(m) => mount_check(who@, text@, workspace@, target@, work@) == Err::<(), Seq<char>>(m@),
        },
{
    let (rw, rt, rk) = read_runtime_dirs(text);
    if !opt_eq(&rw, workspace) {
        return Err(mismatch(who, "workspace", &rw, workspace));
    }
    if !opt_eq(&rt, target) {
        return Err(mismatch(who, "target dir", &rt, target));
    }
    if !opt_eq(&rk, work) {
        return Err(mismatch(who, "work dir", &rk, work));
    }
    Ok(())
}

/// `flag` before each of `vals`.
pub open spec fn flagged(flag: Seq<char>, vals: Seq<Seq<char>>) -> Seq<Seq<char>>
    decreases vals.len(),
{
    if vals.len() == 0 {
        Seq::empty()
    } else {
        flagged(flag, vals.drop_last()) + seq![flag, vals.last()]
    }
}

/// An optional environment assignment `name=value`.
pub open spec fn env_assign(name: Seq<char>, value: Option<Seq<char>>) -> Seq<Seq<char>> {
    match value {
        Some(v) => seq![name + "="@ + v],
        None => Seq::empty(),
    }
}

/// The command that runs the simulations in the guest: the environment, the
/// runner with its work dir, the `--binary` overrides (built ones first), `-v`
/// when verbose, and the simulations' guest paths. `sudo` leads it where the
/// guest is entered as a user.
pub open spec fn guest_run_command(
    sudo: bool,
    guest_exe: Seq<char>,
    netsim_rust_log: Option<Seq<char>>,
    rust_log: Option<Seq<char>>,
    built: Seq<Seq<char>>,
    staged: Seq<Seq<char>>,
    verbose: bool,
    sims: Seq<Seq<char>>,
) -> Seq<Seq<char>> {
    (if sudo { seq!["sudo"@] } else { Seq::empty() }) + seq![
        "env"@,
        "NETSIM_IN_VM=1"@,
        "NETSIM_TARGET_DIR=/target"@,
    ] + env_assign("NETSIM_RUST_LOG"@, netsim_rust_log) + env_assign("RUST_LOG"@, rust_log) + seq![
        guest_exe,
        "run"@,
        "--work-dir"@,
        "/work"@,
    ] + flagged("--binary"@, built) + flagged("--binary"@, staged) + (if verbose {
        seq!["-v"@]
    } else {
        Seq::empty()
    }) + sims
}

fn lit(s: &str) -> (r: String)
    ensures
        r@ == s@,
{
    s.to_owned()
}

fn push_flagged(out: &mut Vec<String>, flag: &str, vals: &Vec<String>)
    ensures
        strings_view(final(out)@) == strings_view(old(out)@) + flagged(flag@, strings_view(vals@)),
{
    let ghost start = strings_view(out@);
    let mut i: usize = 0;
    while i < vals.len()
        invariant
            i <= vals.len(),
            strings_view(out@) == start + flagged(flag@, strings_view(vals@.take(i as int))),
        decreases vals.len() - i,
    {
        let ghost prev = out@;
        out.push(flag.to_owned());
        out.push(vals[i].clone());
        proof {
            assert(strings_view(out@) =~= strings_view(prev).push(flag@).push(vals@[i as int]@));
            assert(vals@.take(i + 1) =~= vals@.take(i as int).push(vals@[i as int]));
            assert(strings_view(vals@.take(i + 1)).drop_last() =~= strings_view(vals@.take(i as int)));
            assert(strings_view(out@) =~= start + flagged(flag@, strings_view(vals@.take(i + 1))));
        }
        i = i + 1;
    }
    proof {
        assert(vals@.take(vals.len() as int) =~= vals@);
    }
}

fn push_env(out: &mut Vec<String>, name: &str, value: &Option<String>)
    ensures
        strings_view(final(out)@) == strings_view(old(out)@) + env_assign(name@, opt_chars(*value)),
{
    let ghost prev = out@;
    match value {
        Some(v) => {
            let mut cs: Vec<char> = Vec::new();
            push_str(&mut cs, name);
            push_str(&mut cs, "=");
            push_str(&mut cs, v.as_str());
            out.push(into_string(cs));
            proof {
                assert(strings_view(out@) =~= strings_view(prev) + env_assign(name@, opt_chars(*value)));
            }
        },
        None => {
            proof {
                assert(strings_view(out@) =~= strings_view(prev) + env_assign(name@, opt_chars(*value)));
            }
        },
    }
}

/// The command that runs the simulations `sims` (as guest paths) in the guest.
pub fn guest_run_parts(
    sudo: bool,
    guest_exe: &str,
    netsim_rust_log: &Option<String>,
    rust_log: &Option<String>,
    built: &Vec<String>,
    staged: &Vec<String>,
    verbose: bool,
    sims: &Vec<String>,
) -> (r: Vec<String>)
    ensures
        strings_view(r@) == guest_run_command(
            sudo,
            guest_exe@,
            opt_chars(*netsim_rust_log),
            opt_chars(*rust_log),
            strings_view(built@),
            strings_view(staged@),
            verbose,
            strings_view(sims@),
        ),
{
    let mut out: Vec<String> = Vec::new();
    if sudo {
        out.push(lit("sudo"));
    }
    out.push(lit("env"));
    out.push(lit("NETSIM_IN_VM=1"));
    out.push(lit("NETSIM_TARGET_DIR=/target"));
    proof {
        assert(strings_view(out@) =~= (if sudo { seq!["sudo"@] } else { Seq::empty() }) + seq![
            "env"@,
            "NETSIM_IN_VM=1"@,
            "NETSIM_TARGET_DIR=/target"@,
        ]);
    }
    push_env(&mut out, "NETSIM_RUST_LOG", netsim_rust_log);
    push_env(&mut out, "RUST_LOG", rust_log);
    let ghost mid = strings_view(out@);
    out.push(guest_exe.to_owned());
    out.push(lit("run"));
    out.push(lit("--work-dir"));
    out.push(lit("/work"));
    proof {
        assert(strings_view(out@) =~= mid + seq![guest_exe@, "run"@, "--work-dir"@, "/work"@]);
    }
    push_flagged(&mut out, "--binary", built);
    push_flagged(&mut out, "--binary", staged);
    let ghost before_v = strings_view(out@);
    if verbose {
        out.push(lit("-v"));
    }
    proof {
        assert(strings_view(out@) =~= before_v + (if verbose { seq!["-v"@] } else { Seq::empty() }));
    }
    append_strings(&mut out, sims);
    out
}

/// The guest path of a simulation at `rel` under the workspace.
pub open spec fn guest_sim_text(rel: Seq<char>) -> Seq<char> {
    "/app/"@ + rel
}

/// The guest path of a simulation file at `rel` inside the workspace, which
/// the guest mounts at `/app`.
pub fn guest_sim_path(rel: &str) -> (r: String)
    ensures
        r@ == guest_sim_text(rel@),
{
    let mut v: Vec<char> = Vec::new();
    push_str(&mut v, "/app/");
    push_str(&mut v, rel);
    into_string(v)
}

/// The environment passed to each test binary: `name=value` for each forwarded
/// variable that is set, in order, and then the guest's `PATH`.
pub open spec fn test_env(vars: Seq<(Seq<char>, Option<Seq<char>>)>) -> Seq<Seq<char>>
    decreases vars.len(),
{
    if vars.len() == 0 {
        seq!["PATH=/usr/local/sbin:/usr/local/bin:/usr/sbin:/usr/bin:/sbin:/bin"@]
    } else {
        let rest = test_env(vars.drop_last());
        rest.take(rest.len() - 1) + env_assign(vars.last().0, vars.last().1) + seq![rest.last()]
    }
}

/// The forwarded variables, by name and value where set.
pub open spec fn vars_view(vars: Seq<(String, Option<String>)>) -> Seq<(Seq<char>, Option<Seq<char>>)> {
    vars.map_values(|p: (String, Option<String>)| (p.0@, opt_chars(p.1)))
}

/// The environment assignments for the test binaries, from the forwarded
/// variables `vars` (name and value where set).
pub fn test_env_pairs(vars: &Vec<(String, Option<String>)>) -> (r: Vec<String>)
    ensures
        strings_view(r@) == test_env(vars_view(vars@)),
{
    let mut out: Vec<String> = Vec::new();
    let mut i: usize = 0;
    while i < vars.len()
        invariant
            i <= vars.len(),
            strings_view(out@) + seq!["PATH=/usr/local/sbin:/usr/local/bin:/usr/sbin:/usr/bin:/sbin:/bin"@]
                == test_env(vars_view(vars@.take(i as int))),
        decreases vars.len() - i,
    {
        let ghost prev = strings_view(out@);
        push_env(&mut out, vars[i].0.as_str(), &vars[i].1);
        proof {
            assert(vars_view(vars@.take(i + 1)).drop_last() =~= vars_view(vars@.take(i as int)));
            let rest = test_env(vars_view(vars@.take(i as int)));
            assert(rest.take(rest.len() - 1) =~= prev);
            assert(strings_view(out@) + seq!["PATH=/usr/local/sbin:/usr/local/bin:/usr/sbin:/usr/bin:/sbin:/bin"@]
                =~= test_env(vars_view(vars@.take(i + 1))));
        }
        i = i + 1;
    }
    out.push(lit("PATH=/usr/local/sbin:/usr/local/bin:/usr/sbin:/usr/bin:/sbin:/bin"));
    proof {
        assert(vars@.take(vars.len() as int) =~= vars@);
    }
    out
}

/// The guest command that runs one test binary: `env` and the assignments when
/// there are any, the binary, and the filter when one is given.
pub open spec fn test_run_command(env: Seq<Seq<char>>, guest_bin: Seq<char>, filter: Option<Seq<char>>) -> Seq<
    Seq<char>,
> {
    (if env.len() > 0 { seq!["env"@] + env } else { Seq::empty() }) + seq![guest_bin] + match filter {
        Some(f) => seq![f],
        None => Seq::empty(),
    }
}

/// The guest command that runs the test binary `guest_bin`.
pub fn test_run_args(env: &Vec<String>, guest_bin: &str, filter: &Option<String>) -> (r: Vec<String>)
    ensures
        strings_view(r@) == test_run_command(strings_view(env@), guest_bin@, opt_chars(*filter)),
{
    let mut out: Vec<String> = Vec::new();
    if env.len() > 0 {
        out.push(lit("env"));
        append_strings(&mut out, env);
    }
    proof {
        assert(strings_view(out@) =~= (if env.len() > 0 { seq!["env"@] + strings_view(env@) } else { Seq::empty() }));
    }
    let ghost mid = strings_view(out@);
    out.push(guest_bin.to_owned());
    match filter {
        Some(f) => {
            out.push(f.clone());
        },
        None => {},
    }
    proof {
        assert(strings_view(out@) =~= mid + seq![guest_bin@] + match opt_chars(*filter) {
            Some(f) => seq![f],
            None => Seq::<Seq<char>>::empty(),
        });
    }
    out
}

/// The result of a test run in `place` ("VM" or "container") where `failed`
/// binaries failed.
pub open spec fn tests_result(place: Seq<char>, failed: nat) -> Result<(), Seq<char>> {
    if failed > 0 {
        Err(crate::text::decimal(failed) + " test binaries failed in "@ + place)
    } else {
        Ok(())
    }
}

/// Fails when any test binary failed, naming how many.
pub fn tests_outcome(place: &str, failed: u64) -> (r: Result<(), String>)
    ensures
        match r {
            Ok(()) => tests_result(place@, failed as nat) is Ok,
            Err(m) => tests_result(place@, failed as nat) == Err::<(), Seq<char>>(m@),
        },
{
    if failed > 0 {
        let mut v: Vec<char> = Vec::new();
        crate::text::push_decimal(&mut v, failed);
        push_str(&mut v, " test binaries failed in ");
        push_str(&mut v, place);
        Err(into_string(v))
    } else {
        Ok(())
    }
}

/// The error when no test binary was built for `target`.
pub open spec fn no_tests_text(target: Seq<char>) -> Seq<char> {
    "no test binaries were built for target "@ + target
}

/// Fails when no test binary was built.
pub fn require_test_binaries(count: usize, target: &str) -> (r: Result<(), String>)
    ensures
        count > 0 ==> r is Ok,
        count == 0 ==> (r matches Err(m) && m@ == no_tests_text(target@)),
{
    if count > 0 {
        Ok(())
    } else {
        let mut v: Vec<char> = Vec::new();
        push_str(&mut v, "no test binaries were built for target ");
        push_str(&mut v, target);
        Err(into_string(v))
    }
}

} // verus!
