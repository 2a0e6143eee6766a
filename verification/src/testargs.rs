//! The arguments of a test run, and the cargo command lines made from them.

use vstd::prelude::*;
use crate::text::{
    append_strings, chars_of, decimal, into_string, opt_chars, push_lit,
    push_str, strings_view, u64_to_string,
};
use crate::vm::{flag_pairs, push_flag_pairs, TestVmArgs};

verus! {

/// Test arguments shared by `patchbay test` and `patchbay compare test`.
#[derive(Debug)]
pub struct TestArgs {
    /// Include ignored tests (like `cargo test -- --include-ignored`).
    pub include_ignored: bool,
    /// Run only ignored tests (like `cargo test -- --ignored`).
    pub ignored: bool,
    /// Packages to test.
    pub packages: Vec<String>,
    /// Test target names.
    pub tests: Vec<String>,
    /// Number of build jobs.
    pub jobs: Option<u32>,
    /// Features to enable.
    pub features: Vec<String>,
    /// Build in release mode.
    pub release: bool,
    /// Test only the library.
    pub lib: bool,
    /// Don't stop on the first failure.
    pub no_fail_fast: bool,
    /// Extra arguments passed after `--` to cargo or the test binaries.
    pub extra_args: Vec<String>,
}

/// `word` when `on`, else nothing.
pub open spec fn flag_if(on: bool, word: Seq<char>) -> Seq<Seq<char>> {
    if on {
        seq![word]
    } else {
        Seq::empty()
    }
}

/// The cargo flags shared by every test command: packages, test targets, jobs,
/// features, release, lib and no-fail-fast.
pub open spec fn cargo_flags(a: TestArgs) -> Seq<Seq<char>> {
    flag_pairs("-p"@, strings_view(a.packages@)) + flag_pairs("--test"@, strings_view(a.tests@)) + (match a.jobs {
        Some(j) => seq!["-j"@, decimal(j as nat)],
        None => Seq::empty(),
    }) + flag_pairs("-F"@, strings_view(a.features@)) + flag_if(a.release, "--release"@) + flag_if(
        a.lib,
        "--lib"@,
    ) + flag_if(a.no_fail_fast, "--no-fail-fast"@)
}

/// The arguments of `cargo nextest run` with libtest JSON output.
pub open spec fn nextest_command(a: TestArgs) -> Seq<Seq<char>> {
    seq!["nextest"@, "run"@, "--message-format"@, "libtest-json"@] + cargo_flags(a) + (if a.include_ignored {
        seq!["--run-ignored"@, "all"@]
    } else if a.ignored {
        seq!["--run-ignored"@, "ignored-only"@]
    } else {
        Seq::empty()
    }) + strings_view(a.extra_args@)
}

/// The arguments of `cargo test`, with the test binaries' arguments after `--`
/// when there are any.
pub open spec fn cargo_test_command(a: TestArgs) -> Seq<Seq<char>> {
    seq!["test"@] + cargo_flags(a) + if a.include_ignored || a.ignored || a.extra_args@.len() > 0 {
        seq!["--"@] + (if a.ignored {
            seq!["--ignored"@]
        } else if a.include_ignored {
            seq!["--include-ignored"@]
        } else {
            Seq::empty()
        }) + strings_view(a.extra_args@)
    } else {
        Seq::empty()
    }
}

/// The extra cargo arguments of a test run in the VM.
pub open spec fn vm_cargo_args(a: TestArgs) -> Seq<Seq<char>> {
    (match a.jobs {
        Some(j) => seq!["--jobs"@, decimal(j as nat)],
        None => Seq::empty(),
    }) + flag_pairs("--features"@, strings_view(a.features@)) + flag_if(a.release, "--release"@)
        + flag_if(a.lib, "--lib"@) + flag_if(a.no_fail_fast, "--no-fail-fast"@) + strings_view(
        a.extra_args@,
    )
}

fn push_if(out: &mut Vec<String>, on: bool, word: &str)
    ensures
        strings_view(final(out)@) == strings_view(old(out)@) + flag_if(on, word@),
{
    let ghost prev = strings_view(out@);
    if on {
        push_lit(out, word);
    }
    proof {
        assert(strings_view(out@) =~= prev + flag_if(on, word@));
    }
}

fn push_jobs(out: &mut Vec<String>, flag: &str, jobs: Option<u32>)
    ensures
        strings_view(final(out)@) == strings_view(old(out)@) + match jobs {
            Some(j) => seq![flag@, decimal(j as nat)],
            None => Seq::empty(),
        },
{
    let ghost prev = strings_view(out@);
    match jobs {
        Some(j) => {
            push_lit(out, flag);
            let s = u64_to_string(j as u64);
            crate::text::push_string(out, &s);
        },
        None => {},
    }
    proof {
        assert(strings_view(out@) =~= prev + match jobs {
            Some(j) => seq![flag@, decimal(j as nat)],
            None => Seq::<Seq<char>>::empty(),
        });
    }
}

/// The value of `RUSTFLAGS` for test builds: the existing flags, if any, with
/// `--cfg patchbay_tests` appended.
pub open spec fn rustflags_text(existing: Option<Seq<char>>) -> Seq<char> {
    match existing {
        Some(e) => if e.len() == 0 {
            "--cfg patchbay_tests"@
        } else {
            e + " --cfg patchbay_tests"@
        },
        None => "--cfg patchbay_tests"@,
    }
}

/// `RUSTFLAGS` for test builds, given the value already set (if any).
pub fn patchbay_rustflags(existing: &Option<String>) -> (r: String)
    ensures
        r@ == rustflags_text(opt_chars(*existing)),
{
    match existing {
        Some(e) => {
            let mut v = chars_of(e.as_str());
            if v.len() == 0 {
                "--cfg patchbay_tests".to_owned()
            } else {
                push_str(&mut v, " --cfg patchbay_tests");
                into_string(v)
            }
        },
        None => "--cfg patchbay_tests".to_owned(),
    }
}

impl TestArgs {
    /// The cargo flags shared by every test command.
    pub fn cargo_flag_args(&self) -> (r: Vec<String>)
        ensures
            strings_view(r@) == cargo_flags(*self),
    {
        let mut out: Vec<String> = Vec::new();
        push_flag_pairs(&mut out, "-p", &self.packages);
        push_flag_pairs(&mut out, "--test", &self.tests);
        push_jobs(&mut out, "-j", self.jobs);
        push_flag_pairs(&mut out, "-F", &self.features);
        push_if(&mut out, self.release, "--release");
        push_if(&mut out, self.lib, "--lib");
        push_if(&mut out, self.no_fail_fast, "--no-fail-fast");
        proof {
            assert(strings_view(out@) =~= cargo_flags(*self));
        }
        out
    }

    /// The arguments of `cargo` for a `nextest run` with libtest JSON output.
    pub fn nextest_args(&self) -> (r: Vec<String>)
        ensures
            strings_view(r@) == nextest_command(*self),
    {
        let mut out: Vec<String> = Vec::new();
        push_lit(&mut out, "nextest");
        push_lit(&mut out, "run");
        push_lit(&mut out, "--message-format");
        push_lit(&mut out, "libtest-json");
        let flags = self.cargo_flag_args();
        append_strings(&mut out, &flags);
        let ghost mid = strings_view(out@);
        if self.include_ignored {
            push_lit(&mut out, "--run-ignored");
            push_lit(&mut out, "all");
        } else if self.ignored {
            push_lit(&mut out, "--run-ignored");
            push_lit(&mut out, "ignored-only");
        }
        proof {
            assert(strings_view(out@) =~= mid + (if self.include_ignored {
                seq!["--run-ignored"@, "all"@]
            } else if self.ignored {
                seq!["--run-ignored"@, "ignored-only"@]
            } else {
                Seq::<Seq<char>>::empty()
            }));
        }
        append_strings(&mut out, &self.extra_args);
        proof {
            assert(strings_view(out@) =~= nextest_command(*self));
        }
        out
    }

    /// The arguments of `cargo` for a plain `test` run.
    pub fn cargo_test_args(&self) -> (r: Vec<String>)
        ensures
            strings_view(r@) == cargo_test_command(*self),
    {
        let mut out: Vec<String> = Vec::new();
        push_lit(&mut out, "test");
        let flags = self.cargo_flag_args();
        append_strings(&mut out, &flags);
        let ghost mid = strings_view(out@);
        if self.include_ignored || self.ignored || self.extra_args.len() > 0 {
            push_lit(&mut out, "--");
            if self.ignored {
                push_lit(&mut out, "--ignored");
            } else if self.include_ignored {
                push_lit(&mut out, "--include-ignored");
            }
            append_strings(&mut out, &self.extra_args);
        }
        proof {
            assert(strings_view(out@) =~= cargo_test_command(*self));
        }
        out
    }

    /// The arguments of a test run in the VM for `target`.
    pub fn into_vm_args(self, target: String, recreate: bool) -> (r: TestVmArgs)
        ensures
            r.filter is None,
            r.target@ == target@,
            strings_view(r.packages@) == strings_view(self.packages@),
            strings_view(r.tests@) == strings_view(self.tests@),
            r.recreate == recreate,
            strings_view(r.cargo_args@) == vm_cargo_args(self),
    {
        let mut cargo_args: Vec<String> = Vec::new();
        push_jobs(&mut cargo_args, "--jobs", self.jobs);
        push_flag_pairs(&mut cargo_args, "--features", &self.features);
        push_if(&mut cargo_args, self.release, "--release");
        push_if(&mut cargo_args, self.lib, "--lib");
        push_if(&mut cargo_args, self.no_fail_fast, "--no-fail-fast");
        append_strings(&mut cargo_args, &self.extra_args);
        proof {
            assert(strings_view(cargo_args@) =~= vm_cargo_args(self));
        }
        TestVmArgs {
            filter: None,
            target,
            packages: self.packages,
            tests: self.tests,
            recreate,
            cargo_args,
        }
    }
}

/// The ignored-test switches map to the runners' own flags. After the cargo
/// flags, `cargo test` gets `--` and `--ignored` when only ignored tests are
/// to run, `--` and `--include-ignored` when they are to run with the
/// others, and otherwise `--` only ahead of extra arguments; the extra
/// arguments come last, unchanged. `cargo nextest run` gets `--run-ignored
/// all` and `--run-ignored ignored-only` for the same two cases.
pub proof fn law_ignored_flags(a: TestArgs)
    ensures
        a.ignored ==> cargo_test_command(a).skip(1 + cargo_flags(a).len() as int) == seq!["--"@, "--ignored"@]
            + strings_view(a.extra_args@),
        !a.ignored && a.include_ignored ==> cargo_test_command(a).skip(1 + cargo_flags(a).len() as int) == seq![
            "--"@,
            "--include-ignored"@,
        ] + strings_view(a.extra_args@),
        !a.ignored && !a.include_ignored ==> cargo_test_command(a).skip(1 + cargo_flags(a).len() as int) == if a.extra_args@.len() > 0 {
            seq!["--"@] + strings_view(a.extra_args@)
        } else {
            Seq::empty()
        },
        a.include_ignored ==> nextest_command(a).skip(4 + cargo_flags(a).len() as int) == seq!["--run-ignored"@, "all"@]
            + strings_view(a.extra_args@),
        !a.include_ignored && a.ignored ==> nextest_command(a).skip(4 + cargo_flags(a).len() as int) == seq![
            "--run-ignored"@,
            "ignored-only"@,
        ] + strings_view(a.extra_args@),
        "--ignored"@ != "--include-ignored"@,
        "all"@ != "ignored-only"@,
{
    reveal_strlit("--ignored");
    reveal_strlit("--include-ignored");
    reveal_strlit("all");
    reveal_strlit("ignored-only");
    assert("--ignored"@.len() != "--include-ignored"@.len());
    assert("all"@.len() != "ignored-only"@.len());
    let f = cargo_flags(a);
    let x = strings_view(a.extra_args@);
    assert(x.len() == a.extra_args@.len());
    let c = cargo_test_command(a);
    let n = nextest_command(a);
    let cr = c.skip(1 + f.len() as int);
    let nr = n.skip(4 + f.len() as int);
    if a.ignored {
        assert(cr =~= seq!["--"@, "--ignored"@] + x);
    } else if a.include_ignored {
        assert(cr =~= seq!["--"@, "--include-ignored"@] + x);
    } else if a.extra_args@.len() > 0 {
        assert(cr =~= seq!["--"@] + x);
    } else {
        assert(cr =~= Seq::<Seq<char>>::empty());
    }
    if a.include_ignored {
        assert(nr =~= seq!["--run-ignored"@, "all"@] + x);
    } else if a.ignored {
        assert(nr =~= seq!["--run-ignored"@, "ignored-only"@] + x);
    }
}

} // verus!
