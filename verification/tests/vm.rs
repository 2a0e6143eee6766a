use patchbay::vm::{
    collect_build_jobs, compiler_diagnostics, default_musl_target, fnv1a64, guest_override,
    is_arm64_host, join_strings, need_cmd, normalize_release_tag, push_flag_pairs,
    release_musl_asset, same_request, sanitize_filename, shell_escape, shell_join,
    test_build_cmd_args, test_executables, vm_build_attempts, BuildCandidate, VmBuildRequest,
};

fn strs(xs: &[&str]) -> Vec<String> {
    xs.iter().map(|x| x.to_string()).collect()
}

fn req(dir: &str, example: Option<&str>, bin: Option<&str>, features: &[&str], all: bool) -> VmBuildRequest {
    VmBuildRequest {
        source_dir: dir.to_string(),
        example: example.map(String::from),
        bin: bin.map(String::from),
        features: strs(features),
        all_features: all,
    }
}

#[test]
fn host_targets() {
    assert!(is_arm64_host("aarch64"));
    assert!(!is_arm64_host("x86_64"));
    assert_eq!(default_musl_target("aarch64"), "aarch64-unknown-linux-musl");
    assert_eq!(default_musl_target("x86_64"), "x86_64-unknown-linux-musl");
    assert_eq!(release_musl_asset("aarch64"), "patchbay-aarch64-unknown-linux-musl.tar.gz");
    assert_eq!(release_musl_asset("riscv64"), "patchbay-x86_64-unknown-linux-musl.tar.gz");
}

#[test]
fn missing_command() {
    assert!(need_cmd("qemu-img", true).is_ok());
    assert_eq!(need_cmd("qemu-img", false), Err("missing required command: qemu-img".to_string()));
}

#[test]
fn shell_quoting() {
    assert_eq!(shell_escape("abc/def:1.2_x-y"), "abc/def:1.2_x-y");
    assert_eq!(shell_escape(""), "''");
    assert_eq!(shell_escape("a b"), "'a b'");
    assert_eq!(shell_escape("it's"), "'it'\"'\"'s'");
    assert_eq!(shell_join(&strs(&["echo", "a b", ""])), "echo 'a b' ''");
    assert_eq!(shell_join(&[]), "");
}

#[test]
fn tags_and_file_names() {
    assert_eq!(normalize_release_tag("1.2.3"), "v1.2.3");
    assert_eq!(normalize_release_tag("v1.2.3"), "v1.2.3");
    assert_eq!(sanitize_filename("a/b c?.img"), "a_b_c_.img");
    assert_eq!(sanitize_filename(""), "base-image");
}

#[test]
fn fnv_known_values() {
    assert_eq!(fnv1a64(b""), 0xcbf29ce484222325);
    assert_eq!(fnv1a64(b"a"), 0xaf63dc4c8601ec8c);
}

#[test]
fn joining() {
    assert_eq!(join_strings(&strs(&["a", "b", "c"]), ","), "a,b,c");
    assert_eq!(join_strings(&strs(&["a"]), ","), "a");
    let mut out = strs(&["x"]);
    push_flag_pairs(&mut out, "-p", &strs(&["a", "b"]));
    assert_eq!(out, strs(&["x", "-p", "a", "-p", "b"]));
}

#[test]
fn build_attempts_for_a_bare_name() {
    let r = req("/src", None, None, &["f1", "f2"], false);
    let a = vm_build_attempts("x86_64-unknown-linux-musl", "tool", &r);
    assert_eq!(a.len(), 2);
    assert_eq!(
        a[0].args,
        strs(&[
            "build", "--release", "--target", "x86_64-unknown-linux-musl", "--features", "f1,f2",
            "--example", "tool"
        ])
    );
    assert_eq!(a[0].guest_path, "/target/x86_64-unknown-linux-musl/release/examples/tool");
    assert_eq!(a[1].args[a[1].args.len() - 2], "--bin");
    assert_eq!(a[1].guest_path, "/target/x86_64-unknown-linux-musl/release/tool");

    let e = req("/src", Some("ex"), None, &[], true);
    let a = vm_build_attempts("t", "tool", &e);
    assert_eq!(a.len(), 1);
    assert_eq!(a[0].args, strs(&["build", "--release", "--target", "t", "--all-features", "--example", "ex"]));
    assert_eq!(a[0].guest_path, "/target/t/release/examples/ex");
}

#[test]
fn build_jobs_are_deduplicated() {
    let c = |name: &str, sim: &str, repo: bool, r: VmBuildRequest| BuildCandidate {
        name: name.to_string(),
        sim_path: sim.to_string(),
        repo_based: repo,
        request: r,
    };
    let cands = vec![
        c("b", "one.toml", false, req("/s", None, None, &[], false)),
        c("a", "one.toml", false, req("/s", None, None, &[], false)),
        c("b", "two.toml", false, req("/s", None, None, &[], false)),
        c("skip", "two.toml", true, req("/s", None, None, &[], false)),
    ];
    let jobs = collect_build_jobs(&cands, &strs(&["skip"])).unwrap();
    assert_eq!(jobs.len(), 2);
    assert_eq!(jobs[0].name, "a");
    assert_eq!(jobs[1].name, "b");
    assert_eq!(jobs[1].first_seen, "one.toml");

    let clash = vec![
        c("b", "one.toml", false, req("/s", None, None, &[], false)),
        c("b", "two.toml", false, req("/s", None, None, &["x"], false)),
    ];
    assert_eq!(
        collect_build_jobs(&clash, &Vec::new()).unwrap_err(),
        "duplicate build spec 'b' differs across sims: one.toml vs two.toml"
    );
    let repo = vec![c("r", "one.toml", true, req("/s", None, None, &[], false))];
    assert_eq!(
        collect_build_jobs(&repo, &Vec::new()).unwrap_err(),
        "VM auto-override does not support repo-based build spec 'r' in one.toml"
    );
}

#[test]
fn requests_compare_by_content() {
    let a = req("/s", None, Some("b"), &["x"], false);
    let b = req("/s", None, Some("b"), &["x"], false);
    let c = req("/s", None, Some("b"), &["y"], false);
    assert!(same_request(&a, &b));
    assert!(!same_request(&a, &c));
    // Source directories compare as paths, component by component.
    let d = req("crates/x", None, None, &[], false);
    let e = req("crates/x/", None, None, &[], false);
    let f = req("crates//x", None, None, &[], false);
    let g = req("crates/y", None, None, &[], false);
    assert!(same_request(&d, &e));
    assert!(same_request(&d, &f));
    assert!(!same_request(&d, &g));
    let cand = |sim: &str, r: VmBuildRequest| BuildCandidate {
        name: "x".to_string(),
        sim_path: sim.to_string(),
        repo_based: false,
        request: r,
    };
    let twice = vec![cand("one.toml", req("crates/x", None, None, &[], false)), cand("two.toml", req("crates/x/", None, None, &[], false))];
    assert_eq!(collect_build_jobs(&twice, &Vec::new()).unwrap().len(), 1);
}

#[test]
fn overrides_and_test_builds() {
    assert_eq!(guest_override("tool", "/target/t/release/tool"), "tool:path:/target/t/release/tool");
    let args = test_build_cmd_args("t", &strs(&["p1"]), &strs(&["it"]), &strs(&["--locked"]));
    assert_eq!(
        args,
        strs(&["test", "--no-run", "--target", "t", "--message-format", "json", "-p", "p1", "--test", "it", "--locked"])
    );
}

#[test]
fn cargo_json_lines() {
    let lines = strs(&[
        r#"{"reason":"compiler-artifact","profile":{"test":true},"executable":"/t/deps/a-123"}"#,
        r#"{"reason":"compiler-artifact","profile":{"test":false},"executable":"/t/deps/lib"}"#,
        r#"{"reason":"compiler-message","message":{"rendered":"warning: unused"}}"#,
        "not json",
    ]);
    assert_eq!(test_executables(&lines), strs(&["/t/deps/a-123"]));
    assert_eq!(compiler_diagnostics(&lines), strs(&["warning: unused"]));
}

use patchbay::vm::{runner_source, RunnerSource};

#[test]
fn runner_sources() {
    assert!(matches!(runner_source("linux", "path:/tmp/patchbay"), Ok(RunnerSource::HostPath(p)) if p == "/tmp/patchbay"));
    assert!(matches!(runner_source("macos", "git:main"), Ok(RunnerSource::GitRef(g)) if g == "main"));
    assert!(matches!(runner_source("linux", "latest"), Ok(RunnerSource::Release(v)) if v == "latest"));
    assert!(matches!(runner_source("windows", "latest"), Err(m) if m == "run-vm is not supported on host OS 'windows'"));
}

use patchbay::vm::release_runner_plan;

#[test]
fn release_download_plan() {
    let (url, archive, unpack) = release_runner_plan("latest", "x86_64");
    assert_eq!(url, "https://github.com/n0-computer/patchbay/releases/latest/download/patchbay-x86_64-unknown-linux-musl.tar.gz");
    assert_eq!(archive, "latest-patchbay-x86_64-unknown-linux-musl.tar.gz");
    assert_eq!(unpack, "release-latest-x86_64-unknown-linux-musl");
    let (url, archive, unpack) = release_runner_plan("1.2/3", "aarch64");
    assert_eq!(url, "https://github.com/n0-computer/patchbay/releases/download/v1.2/3/patchbay-aarch64-unknown-linux-musl.tar.gz");
    assert_eq!(archive, "v1.2_3-patchbay-aarch64-unknown-linux-musl.tar.gz");
    assert_eq!(unpack, "release-v1.2_3-aarch64-unknown-linux-musl");
}

#[test]
fn later_specs_replace_earlier_ones_of_their_name() {
    let names: Vec<String> = ["a", "b", "a", "c", "b"].iter().map(|s| s.to_string()).collect();
    assert_eq!(patchbay::vm::last_of_each_name(&names), vec![2, 3, 4]);
    assert_eq!(patchbay::vm::last_of_each_name(&Vec::new()), Vec::<usize>::new());
}

#[test]
fn override_names_are_read_before_the_first_colon() {
    assert_eq!(patchbay::vm::override_name("relay:build:../relay"), Ok("relay".to_string()));
    assert_eq!(
        patchbay::vm::override_name("relay"),
        Err("invalid --binary override 'relay' (expected <name>:<mode>:<value>)".to_string())
    );
}
