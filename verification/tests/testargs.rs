use patchbay::testargs::{patchbay_rustflags, TestArgs};

fn strs(xs: &[&str]) -> Vec<String> {
    xs.iter().map(|x| x.to_string()).collect()
}

fn args() -> TestArgs {
    TestArgs {
        include_ignored: false,
        ignored: false,
        packages: strs(&["core"]),
        tests: strs(&["it"]),
        jobs: Some(4),
        features: strs(&["a"]),
        release: true,
        lib: false,
        no_fail_fast: true,
        extra_args: Vec::new(),
    }
}

#[test]
fn shared_cargo_flags() {
    assert_eq!(
        args().cargo_flag_args(),
        strs(&["-p", "core", "--test", "it", "-j", "4", "-F", "a", "--release", "--no-fail-fast"])
    );
}

#[test]
fn nextest_command_line() {
    let mut a = args();
    a.include_ignored = true;
    a.extra_args = strs(&["--nocapture"]);
    let v = a.nextest_args();
    assert_eq!(&v[..4], &strs(&["nextest", "run", "--message-format", "libtest-json"])[..]);
    assert_eq!(&v[v.len() - 3..], &strs(&["--run-ignored", "all", "--nocapture"])[..]);
    let mut b = args();
    b.ignored = true;
    let v = b.nextest_args();
    assert_eq!(&v[v.len() - 2..], &strs(&["--run-ignored", "ignored-only"])[..]);
}

#[test]
fn cargo_test_command_line() {
    let plain = TestArgs {
        include_ignored: false,
        ignored: false,
        packages: Vec::new(),
        tests: Vec::new(),
        jobs: None,
        features: Vec::new(),
        release: false,
        lib: false,
        no_fail_fast: false,
        extra_args: Vec::new(),
    };
    assert_eq!(plain.cargo_test_args(), strs(&["test"]));
    let mut a = args();
    a.ignored = true;
    a.extra_args = strs(&["x"]);
    let v = a.cargo_test_args();
    assert_eq!(&v[v.len() - 3..], &strs(&["--", "--ignored", "x"])[..]);
}

#[test]
fn vm_args() {
    let mut a = args();
    a.extra_args = strs(&["--locked"]);
    let vm = a.into_vm_args("x86_64-unknown-linux-musl".to_string(), true);
    assert_eq!(vm.filter, None);
    assert_eq!(vm.target, "x86_64-unknown-linux-musl");
    assert_eq!(vm.packages, strs(&["core"]));
    assert_eq!(vm.tests, strs(&["it"]));
    assert!(vm.recreate);
    assert_eq!(vm.cargo_args, strs(&["--jobs", "4", "--features", "a", "--release", "--no-fail-fast", "--locked"]));
}

#[test]
fn rustflags() {
    assert_eq!(patchbay_rustflags(&None), "--cfg patchbay_tests");
    assert_eq!(patchbay_rustflags(&Some(String::new())), "--cfg patchbay_tests");
    assert_eq!(patchbay_rustflags(&Some("-C x".to_string())), "-C x --cfg patchbay_tests");
}
