use patchbay::cli::{
    compare_outcome, default_test_target, dispatch_test, ref_source, resolve_backend,
    resolve_sim_args, right_label, run_sims_vm, run_vm, serve_dir, sim_config_candidates,
    Backend, RefSource, TestMode, VmRunArgs,
};
use patchbay::testargs::TestArgs;

fn strs(xs: &[&str]) -> Vec<String> {
    xs.iter().map(|x| x.to_string()).collect()
}

#[test]
fn backend_selection() {
    assert_eq!(resolve_backend(Backend::Auto, "macos", "aarch64", true), Backend::Container);
    assert_eq!(resolve_backend(Backend::Auto, "macos", "aarch64", false), Backend::Qemu);
    assert_eq!(resolve_backend(Backend::Auto, "linux", "aarch64", true), Backend::Qemu);
    assert_eq!(resolve_backend(Backend::Container, "linux", "x86_64", false), Backend::Container);
    assert_eq!(default_test_target("x86_64"), "x86_64-unknown-linux-musl");
}

#[test]
fn test_dispatch() {
    assert_eq!(dispatch_test(&None, true), Ok(TestMode::Native));
    assert_eq!(dispatch_test(&None, false), Ok(TestMode::Vm(Backend::Auto)));
    assert_eq!(dispatch_test(&Some("qemu".to_string()), true), Ok(TestMode::Vm(Backend::Qemu)));
    assert_eq!(dispatch_test(&Some("container".to_string()), true), Ok(TestMode::Vm(Backend::Container)));
    assert_eq!(dispatch_test(&Some("kvm".to_string()), true), Err("unknown VM backend: kvm".to_string()));
}

#[test]
fn vm_run_arguments() {
    let a = VmRunArgs {
        sims: strs(&["sims/a.toml"]),
        work_dir: ".patchbay/work".to_string(),
        binary_overrides: strs(&["x:path:/bin/x"]),
        verbose: true,
        open: false,
        bind: "127.0.0.1:7421".to_string(),
    };
    let r = run_sims_vm(a);
    assert_eq!(r.sim_inputs, strs(&["sims/a.toml"]));
    assert_eq!(r.work_dir, ".patchbay/work");
    assert!(r.verbose);
    assert!(!r.recreate);
    assert_eq!(r.patchbay_version, "latest");
    let t = TestArgs {
        include_ignored: false,
        ignored: false,
        packages: strs(&["p"]),
        tests: Vec::new(),
        jobs: None,
        features: Vec::new(),
        release: false,
        lib: true,
        no_fail_fast: false,
        extra_args: Vec::new(),
    };
    let v = run_vm(t, "aarch64");
    assert_eq!(v.target, "aarch64-unknown-linux-musl");
    assert_eq!(v.cargo_args, strs(&["--lib"]));
    assert!(!v.recreate);
}

#[test]
fn serve_directory() {
    assert_eq!(serve_dir("/w", false), "/w");
    assert_eq!(serve_dir("/w", true), "/w/binaries/tests/testdir-current");
}

#[test]
fn compare_sources() {
    assert_eq!(ref_source(false, true, true, "main", "abc"), Ok(RefSource::Cached));
    assert_eq!(ref_source(true, true, false, "main", "abc"), Ok(RefSource::Build));
    assert_eq!(ref_source(false, false, false, "main", "abc"), Ok(RefSource::Build));
    assert_eq!(
        ref_source(false, false, true, "main", "0123456789abcdef"),
        Err("no cached run for main (01234567); run `patchbay test --persist` on that ref first, or remove --no-ref-build".to_string())
    );
    assert!(compare_outcome(0).is_ok());
    assert_eq!(compare_outcome(3), Err("3 regressions detected".to_string()));
    assert_eq!(right_label(&None), "worktree");
    assert_eq!(right_label(&Some("v2".to_string())), "v2");
}

#[test]
fn sim_arguments() {
    assert_eq!(sim_config_candidates("/proj"), strs(&["/proj/patchbay.toml", "/proj/.patchbay.toml"]));
    assert_eq!(resolve_sim_args(&strs(&["a.toml"]), "/proj", &None), Ok(strs(&["a.toml"])));
    assert_eq!(resolve_sim_args(&Vec::new(), "/proj", &Some("sims".to_string())), Ok(strs(&["/proj/sims"])));
    assert_eq!(
        resolve_sim_args(&Vec::new(), "/proj", &None),
        Err("no sim files specified and no patchbay.toml found in /proj".to_string())
    );
}
