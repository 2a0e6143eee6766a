//! Run manifests and the parsing of test-runner output into per-test results.

use vstd::prelude::*;

use crate::text::{
    chars_eq, chars_of, ends_with, eq_str, find_char, find_char_idx, into_string,
    lemma_find_char_range, lines, lines_of, rfind, rfind_idx, rsplit_once, slice_chars,
    starts_with, strip_prefix, strip_suffix, trim, trim_chars,
};
use crate::time::{parse_decimal_secs, parse_secs_nanos, Duration, Timestamp};
use crate::text::{clone_opt_string, opt_chars, string_from, strings_view, strip_cr, trim_end, trim_start, is_ws, lemma_find_char_first, lemma_find_char_absent};

verus! {

/// What produced a run.
#[derive(Clone, Copy, Debug, PartialEq, Eq, Structural)]
pub enum RunKind {
    Test,
    Sim,
}

impl Default for RunKind {
    fn default() -> (k: Self)
        ensures
            k == RunKind::Sim,
    {
        RunKind::Sim
    }
}

/// Per-test pass/fail/ignored status.
#[derive(Clone, Copy, Debug, PartialEq, Eq, Structural)]
pub enum TestStatus {
    Pass,
    Fail,
    Ignored,
}

/// A single test result with name, status, and optional duration.
#[derive(Debug)]
pub struct TestResult {
    pub name: String,
    pub status: TestStatus,
    /// Test duration.
    pub duration: Option<Duration>,
    /// Relative directory path for this test's output.
    pub dir: Option<String>,
}

/// The abstract content of a [`TestResult`]: the name, the status, the
/// duration in nanoseconds and the output directory.
pub struct TestEntry {
    pub name: Seq<char>,
    pub status: TestStatus,
    pub duration: Option<nat>,
    pub dir: Option<Seq<char>>,
}

/// The nanoseconds of an optional duration.
pub open spec fn opt_nanos(d: Option<Duration>) -> Option<nat> {
    match d {
        Some(d) => Some(d.spec_nanos()),
        None => None,
    }
}

impl View for TestResult {
    type V = TestEntry;

    open spec fn view(&self) -> TestEntry {
        TestEntry {
            name: self.name@,
            status: self.status,
            duration: opt_nanos(self.duration),
            dir: opt_chars(self.dir),
        }
    }
}

impl Clone for TestResult {
    fn clone(&self) -> (r: Self)
        ensures
            r@ == self@,
    {
        TestResult {
            name: self.name.clone(),
            status: self.status,
            duration: self.duration,
            dir: clone_opt_string(&self.dir),
        }
    }
}

/// The abstract content of a list of results.
pub open spec fn entries(v: Seq<TestResult>) -> Seq<TestEntry> {
    v.map_values(|r: TestResult| r@)
}

// ── Line grammar ────────────────────────────────────────────────────

/// The status word that ends a `cargo test` line.
pub open spec fn cargo_status(word: Seq<char>) -> Option<TestStatus> {
    if word == "ok"@ {
        Some(TestStatus::Pass)
    } else if word == "FAILED"@ {
        Some(TestStatus::Fail)
    } else if word == "ignored"@ {
        Some(TestStatus::Ignored)
    } else {
        None
    }
}

/// The rest of `line` after the status word `p` of a nextest line, where the
/// word is followed by a space or `'['`.
pub open spec fn after_word(line: Seq<char>, p: Seq<char>) -> Option<Seq<char>> {
    if starts_with(line, p) && line.len() > p.len() && (line[p.len() as int] == ' ' || line[p.len() as int] == '[') {
        Some(line.skip(p.len() as int))
    } else {
        None
    }
}

/// A nextest status line (`PASS`, `FAIL`, `IGNORE`, `TIMEOUT`): the status and
/// the trimmed rest of the line.
pub open spec fn nextest_line(line: Seq<char>) -> Option<(TestStatus, Seq<char>)> {
    if let Some(rest) = after_word(line, "PASS"@) {
        Some((TestStatus::Pass, trim(rest)))
    } else if let Some(rest) = after_word(line, "FAIL"@) {
        Some((TestStatus::Fail, trim(rest)))
    } else if let Some(rest) = after_word(line, "IGNORE"@) {
        Some((TestStatus::Ignored, trim(rest)))
    } else if let Some(rest) = after_word(line, "TIMEOUT"@) {
        Some((TestStatus::Fail, trim(rest)))
    } else {
        None
    }
}

/// The duration in a nextest line's `"[   1.234s] name"` part, in nanoseconds.
pub open spec fn nextest_duration(s: Seq<char>) -> Option<nat> {
    if s.len() > 0 && s[0] == '[' {
        let t = s.drop_first();
        match find_char(t, ']') {
            Some(e) => {
                let inner = trim(t.take(e));
                if ends_with(inner, "s"@) {
                    parse_secs_nanos(inner.take(inner.len() - "s"@.len()))
                } else {
                    None
                }
            },
            None => None,
        }
    } else {
        None
    }
}

/// The test name in a nextest line's rest: what follows the first `']'`, trimmed.
pub open spec fn nextest_name(rest: Seq<char>) -> Seq<char> {
    match find_char(rest, ']') {
        Some(i) => trim(rest.skip(i + 1)),
        None => trim(rest),
    }
}

/// The result that one output line announces, if any.
pub open spec fn line_entry(line: Seq<char>) -> Option<(Seq<char>, TestStatus, Option<nat>)> {
    let t = trim(line);
    if starts_with(t, "test "@) {
        match rsplit_once(t.skip("test "@.len() as int), " ... "@) {
            Some((name, st)) => match cargo_status(trim(st)) {
                Some(status) => Some((trim(name), status, None)),
                None => None,
            },
            None => None,
        }
    } else {
        match nextest_line(t) {
            Some((status, rest)) => {
                let name = nextest_name(rest);
                if name.len() > 0 {
                    Some((name, status, nextest_duration(rest)))
                } else {
                    None
                }
            },
            None => None,
        }
    }
}

/// Some entry of `es` has the name `name`.
pub open spec fn has_name(es: Seq<TestEntry>, name: Seq<char>) -> bool {
    exists|i: int| 0 <= i < es.len() && es[i].name == name
}

/// The results announced by `ls`, in order, each name kept at its first
/// occurrence only.
pub open spec fn results_of_lines(ls: Seq<Seq<char>>) -> Seq<TestEntry>
    decreases ls.len(),
{
    if ls.len() == 0 {
        Seq::empty()
    } else {
        let prev = results_of_lines(ls.drop_last());
        match line_entry(ls.last()) {
            Some((name, status, duration)) => if has_name(prev, name) {
                prev
            } else {
                prev.push(TestEntry { name, status, duration, dir: None })
            },
            None => prev,
        }
    }
}

/// The results that `cargo test` or `cargo nextest` output announces.
pub open spec fn test_output_results(output: Seq<char>) -> Seq<TestEntry> {
    results_of_lines(lines(output))
}

// ── Executable parsing ──────────────────────────────────────────────

fn status_word(word: &[char]) -> (r: Option<TestStatus>)
    ensures
        r == cargo_status(word@),
{
    if eq_str(word, "ok") {
        Some(TestStatus::Pass)
    } else if eq_str(word, "FAILED") {
        Some(TestStatus::Fail)
    } else if eq_str(word, "ignored") {
        Some(TestStatus::Ignored)
    } else {
        None
    }
}

fn word_rest(line: &[char], p: &str) -> (r: Option<Vec<char>>)
    ensures
        match after_word(line@, p@) {
            Some(rest) => r matches Some(v) && v@ == rest,
            None => r is None,
        },
{
    match strip_prefix(line, p) {
        Some(rest) => {
            if rest.len() > 0 && (rest[0] == ' ' || rest[0] == '[') {
                Some(rest)
            } else {
                None
            }
        },
        None => None,
    }
}

fn nextest_line_chars(line: &[char]) -> (r: Option<(TestStatus, Vec<char>)>)
    ensures
        match nextest_line(line@) {
            Some((st, rest)) => r matches Some((s, v)) && s == st && v@ == rest,
            None => r is None,
        },
{
    if let Some(rest) = word_rest(line, "PASS") {
        Some((TestStatus::Pass, trim_chars(&rest)))
    } else if let Some(rest) = word_rest(line, "FAIL") {
        Some((TestStatus::Fail, trim_chars(&rest)))
    } else if let Some(rest) = word_rest(line, "IGNORE") {
        Some((TestStatus::Ignored, trim_chars(&rest)))
    } else if let Some(rest) = word_rest(line, "TIMEOUT") {
        Some((TestStatus::Fail, trim_chars(&rest)))
    } else {
        None
    }
}

/// Recognises a nextest status line (`PASS`, `FAIL`, `IGNORE`, `TIMEOUT`
/// followed by a space or `'['`) and returns its status and trimmed rest.
pub fn parse_nextest_line(line: &str) -> (r: Option<(TestStatus, String)>)
    ensures
        match nextest_line(line@) {
            Some((st, rest)) => r matches Some((s, v)) && s == st && v@ == rest,
            None => r is None,
        },
{
    let cs = chars_of(line);
    match nextest_line_chars(&cs) {
        Some((st, rest)) => Some((st, into_string(rest))),
        None => None,
    }
}

fn nextest_duration_chars(s: &[char]) -> (r: Option<Duration>)
    ensures
        opt_nanos(r) == nextest_duration(s@),
{
    if s.len() == 0 || s[0] != '[' {
        return None;
    }
    let t = slice_chars(s, 1, s.len());
    proof {
        assert(t@ =~= s@.drop_first());
        lemma_find_char_range(t@, ']');
    }
    let e = match find_char_idx(&t, ']') {
        Some(e) => e,
        None => return None,
    };
    let head = slice_chars(&t, 0, e);
    let inner = trim_chars(&head);
    proof {
        assert(head@ =~= t@.take(e as int));
    }
    match strip_suffix(&inner, "s") {
        Some(num) => parse_decimal_secs(&num),
        None => None,
    }
}

/// Reads the duration of a nextest line's `"[   1.234s] name"` part.
pub fn parse_nextest_duration(s: &str) -> (r: Option<Duration>)
    ensures
        opt_nanos(r) == nextest_duration(s@),
{
    let cs = chars_of(s);
    nextest_duration_chars(&cs)
}

fn nextest_name_chars(rest: &[char]) -> (r: Vec<char>)
    ensures
        r@ == nextest_name(rest@),
{
    proof {
        lemma_find_char_range(rest@, ']');
    }
    match find_char_idx(rest, ']') {
        Some(i) => {
            let n = rest.len();
            let after = slice_chars(rest, i + 1, n);
            trim_chars(&after)
        },
        None => trim_chars(rest),
    }
}

fn line_entry_chars(line: &[char]) -> (r: Option<(Vec<char>, TestStatus, Option<Duration>)>)
    ensures
        match line_entry(line@) {
            Some((n, st, d)) => r matches Some((rn, rs, rd)) && rn@ == n && rs == st && opt_nanos(
                rd,
            ) == d,
            None => r is None,
        },
{
    let t = trim_chars(line);
    if let Some(rest) = strip_prefix(&t, "test ") {
        let sep = chars_of(" ... ");
        let found = rfind_idx(&rest, &sep);
        match found {
            Some(i) => {
                let sl = sep.len();
                let rl = rest.len();
                proof {
                    assert(i + sl <= rl);
                }
                let name = slice_chars(&rest, 0, i);
                let st = slice_chars(&rest, i + sl, rl);
                proof {
                    assert(name@ =~= rest@.take(i as int));
                    assert(st@ =~= rest@.skip(i + sep@.len()));
                }
                let word = trim_chars(&st);
                match status_word(&word) {
                    Some(status) => Some((trim_chars(&name), status, None)),
                    None => None,
                }
            },
            None => None,
        }
    } else {
        match nextest_line_chars(&t) {
            Some((status, rest)) => {
                let name = nextest_name_chars(&rest);
                if name.len() > 0 {
                    let d = nextest_duration_chars(&rest);
                    Some((name, status, d))
                } else {
                    None
                }
            },
            None => None,
        }
    }
}

fn has_name_exec(results: &Vec<TestResult>, name: &[char]) -> (b: bool)
    ensures
        b == has_name(entries(results@), name@),
{
    let mut i: usize = 0;
    while i < results.len()
        invariant
            i <= results.len(),
            forall|j: int| 0 <= j < i ==> (#[trigger] results@[j]).name@ != name@,
        decreases results.len() - i,
    {
        let cs = chars_of(results[i].name.as_str());
        if chars_eq(&cs, name) {
            proof {
                assert(entries(results@)[i as int].name == name@);
            }
            return true;
        }
        i = i + 1;
    }
    proof {
        if has_name(entries(results@), name@) {
            let k = choose|k: int| 0 <= k < entries(results@).len() && entries(results@)[k].name == name@;
            assert(results@[k].name@ == name@);
        }
    }
    false
}

/// Parses `cargo test` and `cargo nextest` stdout into per-test results.
///
/// Recognises `test some::path ... ok|FAILED|ignored` and nextest lines such
/// as `PASS [   1.234s] crate::module::test_name`; a name is kept at its first
/// occurrence only.
pub fn parse_test_output(output: &str) -> (results: Vec<TestResult>)
    ensures
        entries(results@) == test_output_results(output@),
{
    let cs = chars_of(output);
    let ls = lines_of(&cs);
    let ghost all = lines(output@);
    let mut results: Vec<TestResult> = Vec::new();
    let mut i: usize = 0;
    while i < ls.len()
        invariant
            i <= ls.len(),
            ls@.len() == all.len(),
            all == lines(output@),
            forall|k: int| 0 <= k < ls@.len() ==> #[trigger] ls@[k]@ == all[k],
            entries(results@) == results_of_lines(all.take(i as int)),
        decreases ls.len() - i,
    {
        proof {
            assert(all.take(i + 1).drop_last() =~= all.take(i as int));
            assert(all.take(i + 1).last() == ls@[i as int]@);
        }
        let ghost prev = results@;
        match line_entry_chars(&ls[i]) {
            Some((name, status, duration)) => {
                if !has_name_exec(&results, &name) {
                    let r = TestResult { name: into_string(name), status, duration, dir: None };
                    results.push(r);
                    proof {
                        assert(entries(results@) =~= entries(prev).push(r@));
                    }
                }
            },
            None => {},
        }
        i = i + 1;
    }
    proof {
        assert(all.take(ls.len() as int) =~= all);
    }
    results
}


// ── libtest JSON ────────────────────────────────────────────────────

/// The fields of one libtest-json line that the results are read from:
/// `type`, `event` and `name` where they are strings, and `exec_time` in the
/// decimal text of its number.
pub struct LibtestFields {
    pub kind: Option<String>,
    pub event: Option<String>,
    pub name: Option<String>,
    pub exec_time: Option<String>,
}

/// The characters of the fields of a libtest line.
pub open spec fn fields_view(f: LibtestFields) -> (
    Option<Seq<char>>,
    Option<Seq<char>>,
    Option<Seq<char>>,
    Option<Seq<char>>,
) {
    (opt_chars(f.kind), opt_chars(f.event), opt_chars(f.name), opt_chars(f.exec_time))
}

/// The fields that a JSON decoder reads from the line `line`: `None` where the
/// line is not a JSON value.
pub uninterp spec fn libtest_json_fields(line: Seq<char>) -> Option<
    (Option<Seq<char>>, Option<Seq<char>>, Option<Seq<char>>, Option<Seq<char>>),
>;

/// Decodes `line` as JSON with `serde_json::from_str` and picks the fields of
/// a libtest event. The contract claims only that the result is a function of
/// the line (`libtest_json_fields`); what JSON means is serde_json's.
#[verifier::external_body]
fn libtest_fields(line: &str) -> (r: Option<LibtestFields>)
    ensures
        match r {
            Some(f) => libtest_json_fields(line@) == Some(fields_view(f)),
            None => libtest_json_fields(line@) is None,
        },
{
    let v: serde_json::Value = serde_json::from_str(line).ok()?;
    Some(LibtestFields {
        kind: v.get("type").and_then(serde_json::Value::as_str).map(String::from),
        event: v.get("event").and_then(serde_json::Value::as_str).map(String::from),
        name: v.get("name").and_then(serde_json::Value::as_str).map(String::from),
        exec_time: v.get("exec_time").and_then(serde_json::Value::as_number).map(
            serde_json::Number::to_string,
        ),
    })
}

/// The status of a libtest test event.
pub open spec fn libtest_status(event: Seq<char>) -> Option<TestStatus> {
    if event == "ok"@ {
        Some(TestStatus::Pass)
    } else if event == "failed"@ {
        Some(TestStatus::Fail)
    } else if event == "ignored"@ {
        Some(TestStatus::Ignored)
    } else {
        None
    }
}

/// The characters of an optional text, or the empty sequence.
pub open spec fn or_empty(s: Option<Seq<char>>) -> Seq<char> {
    match s {
        Some(s) => s,
        None => Seq::empty(),
    }
}

/// The result that a libtest event with the fields `f` announces: test events
/// that finished (`ok`, `failed`, `ignored`), with the execution time read as
/// decimal seconds.
pub open spec fn libtest_entry(
    f: (Option<Seq<char>>, Option<Seq<char>>, Option<Seq<char>>, Option<Seq<char>>),
) -> Option<TestEntry> {
    let (kind, event, name, exec_time) = f;
    if kind != Some("test"@) {
        None
    } else {
        match libtest_status(or_empty(event)) {
            Some(status) => Some(
                TestEntry {
                    name: or_empty(name),
                    status,
                    duration: match exec_time {
                        Some(t) => parse_secs_nanos(t),
                        None => None,
                    },
                    dir: None,
                },
            ),
            None => None,
        }
    }
}

fn opt_string_chars(s: &Option<String>) -> (r: Vec<char>)
    ensures
        r@ == or_empty(opt_chars(*s)),
{
    match s {
        Some(t) => chars_of(t.as_str()),
        None => Vec::new(),
    }
}

/// The result that a libtest event with the fields `f` announces.
pub fn libtest_result(f: &LibtestFields) -> (r: Option<TestResult>)
    ensures
        match libtest_entry(fields_view(*f)) {
            Some(e) => r matches Some(t) && t@ == e,
            None => r is None,
        },
{
    let kind = opt_string_chars(&f.kind);
    if !(f.kind.is_some() && eq_str(&kind, "test")) {
        return None;
    }
    let event = opt_string_chars(&f.event);
    let status = if eq_str(&event, "ok") {
        TestStatus::Pass
    } else if eq_str(&event, "failed") {
        TestStatus::Fail
    } else if eq_str(&event, "ignored") {
        TestStatus::Ignored
    } else {
        return None;
    };
    let name = opt_string_chars(&f.name);
    let duration = match &f.exec_time {
        Some(t) => {
            let tc = chars_of(t.as_str());
            parse_decimal_secs(&tc)
        },
        None => None,
    };
    Some(TestResult { name: into_string(name), status, duration, dir: None })
}

/// The results that libtest-json output announces, line by line.
pub open spec fn libtest_results(ls: Seq<Seq<char>>) -> Seq<TestEntry>
    decreases ls.len(),
{
    if ls.len() == 0 {
        Seq::empty()
    } else {
        let prev = libtest_results(ls.drop_last());
        match libtest_json_fields(ls.last()) {
            Some(f) => match libtest_entry(f) {
                Some(e) => prev.push(e),
                None => prev,
            },
            None => prev,
        }
    }
}

/// Parses nextest libtest-json output into test results.
///
/// Expects JSONL lines like
/// `{"type":"test","event":"ok","name":"...","exec_time":1.23}`; lines that
/// are not JSON, not test events, or `started` events are skipped.
pub fn parse_nextest_json(output: &str) -> (results: Vec<TestResult>)
    ensures
        entries(results@) == libtest_results(lines(output@)),
{
    let cs = chars_of(output);
    let ls = lines_of(&cs);
    let ghost all = lines(output@);
    let mut results: Vec<TestResult> = Vec::new();
    let mut i: usize = 0;
    while i < ls.len()
        invariant
            i <= ls.len(),
            ls@.len() == all.len(),
            all == lines(output@),
            forall|k: int| 0 <= k < ls@.len() ==> #[trigger] ls@[k]@ == all[k],
            entries(results@) == libtest_results(all.take(i as int)),
        decreases ls.len() - i,
    {
        proof {
            assert(all.take(i + 1).drop_last() =~= all.take(i as int));
            assert(all.take(i + 1).last() == ls@[i as int]@);
        }
        let ghost prev = results@;
        let line = string_from(&ls[i]);
        match libtest_fields(line.as_str()) {
            Some(f) => match libtest_result(&f) {
                Some(r) => {
                    results.push(r);
                    proof {
                        assert(entries(results@) =~= entries(prev).push(r@));
                    }
                },
                None => {},
            },
            None => {},
        }
        i = i + 1;
    }
    proof {
        assert(all.take(ls.len() as int) =~= all);
    }
    results
}


// ── Run manifest ────────────────────────────────────────────────────

/// Unified manifest written as `run.json` alongside every run.
#[derive(Debug)]
pub struct RunManifest {
    pub kind: RunKind,
    pub project: Option<String>,
    pub commit: Option<String>,
    pub branch: Option<String>,
    pub dirty: bool,
    pub pr: Option<u64>,
    pub pr_url: Option<String>,
    pub title: Option<String>,
    pub started_at: Option<Timestamp>,
    pub ended_at: Option<Timestamp>,
    /// Total runtime.
    pub runtime: Option<Duration>,
    /// "pass" or "fail".
    pub outcome: Option<String>,
    pub pass: Option<u32>,
    pub fail: Option<u32>,
    pub total: Option<u32>,
    /// Per-test results (kind == Test only).
    pub tests: Vec<TestResult>,
    pub os: Option<String>,
    pub arch: Option<String>,
    pub patchbay_version: Option<String>,
}

/// The part of `s` after the last `c`, or all of `s` where there is none.
pub open spec fn last_segment(s: Seq<char>, c: char) -> Seq<char> {
    match rfind(s, seq![c]) {
        Some(i) => s.skip(i + 1),
        None => s,
    }
}

fn last_segment_chars(s: &[char], c: char) -> (r: Vec<char>)
    ensures
        r@ == last_segment(s@, c),
{
    let pat = vec![c];
    proof {
        assert(pat@ =~= seq![c]);
    }
    match rfind_idx(s, &pat) {
        Some(i) => {
            let n = s.len();
            slice_chars(s, i + 1, n)
        },
        None => slice_chars(s, 0, s.len()),
    }
}

/// The test function name of a directory: its last path segment.
pub open spec fn dir_fn_name(d: Seq<char>) -> Seq<char> {
    last_segment(d, '/')
}

/// The test function name of a test: the last space-separated token of its
/// name (nextest writes `"binary name"`).
pub open spec fn test_fn_name(n: Seq<char>) -> Seq<char> {
    last_segment(n, ' ')
}

/// The last of `dirs` whose function name is `f`.
pub open spec fn dir_for_fn(dirs: Seq<Seq<char>>, f: Seq<char>) -> Option<Seq<char>>
    decreases dirs.len(),
{
    if dirs.len() == 0 {
        None
    } else if dir_fn_name(dirs.last()) == f {
        Some(dirs.last())
    } else {
        dir_for_fn(dirs.drop_last(), f)
    }
}

/// A test entry with its directory resolved against `dirs`.
pub open spec fn with_dir(e: TestEntry, dirs: Seq<Seq<char>>) -> TestEntry {
    match dir_for_fn(dirs, test_fn_name(e.name)) {
        Some(d) => TestEntry { dir: Some(d), ..e },
        None => e,
    }
}

fn dir_for_fn_exec(dirs: &[String], f: &[char]) -> (r: Option<String>)
    ensures
        opt_chars(r) == dir_for_fn(strings_view(dirs@), f@),
{
    let mut k: usize = dirs.len();
    proof {
        assert(dirs@.take(k as int) =~= dirs@);
    }
    while k > 0
        invariant
            k <= dirs.len(),
            dir_for_fn(strings_view(dirs@), f@) == dir_for_fn(strings_view(dirs@.take(k as int)), f@),
        decreases k,
    {
        let d = chars_of(dirs[k - 1].as_str());
        let name = last_segment_chars(&d, '/');
        proof {
            assert(strings_view(dirs@.take(k as int)).drop_last() =~= strings_view(dirs@.take(k - 1)));
            assert(strings_view(dirs@.take(k as int)).last() == dirs@[k - 1]@);
        }
        if chars_eq(&name, f) {
            return Some(dirs[k - 1].clone());
        }
        k = k - 1;
    }
    None
}

impl RunManifest {
    /// Populates the `dir` fields of the test results from the test output
    /// directories `test_dirs` (paths relative to the run directory): a test
    /// gets the last directory whose final path segment equals the last
    /// space-separated token of the test's name.
    pub fn resolve_test_dirs(&mut self, test_dirs: &[String])
        ensures
            final(self).tests@.len() == old(self).tests@.len(),
            forall|i: int|
                0 <= i < final(self).tests@.len() ==> #[trigger] final(self).tests@[i]@ == with_dir(
                    old(self).tests@[i]@,
                    strings_view(test_dirs@),
                ),
            final(self).kind == old(self).kind,
            final(self).commit == old(self).commit,
            final(self).dirty == old(self).dirty,
            final(self).outcome == old(self).outcome,
    {
        let mut i: usize = 0;
        while i < self.tests.len()
            invariant
                i <= self.tests.len(),
                self.tests@.len() == old(self).tests@.len(),
                forall|j: int| 0 <= j < i ==> #[trigger] self.tests@[j]@ == with_dir(
                    old(self).tests@[j]@,
                    strings_view(test_dirs@),
                ),
                forall|j: int| i <= j < self.tests@.len() ==> #[trigger] self.tests@[j] == old(
                    self,
                ).tests@[j],
                self.kind == old(self).kind,
                self.commit == old(self).commit,
                self.dirty == old(self).dirty,
                self.outcome == old(self).outcome,
            decreases self.tests.len() - i,
        {
            let name = chars_of(self.tests[i].name.as_str());
            let f = last_segment_chars(&name, ' ');
            match dir_for_fn_exec(test_dirs, &f) {
                Some(d) => {
                    let mut t = self.tests[i].clone();
                    t.dir = Some(d);
                    self.tests.set(i, t);
                },
                None => {},
            }
            i = i + 1;
        }
    }
}

/// `m` is a clean run of kind `kind` at commit `commit`.
pub open spec fn run_matches_spec(m: &RunManifest, commit: Seq<char>, kind: RunKind) -> bool {
    m.kind == kind && opt_chars(m.commit) == Some(commit) && !m.dirty
}

/// The manifest records a clean (not dirty) run of `kind` at `commit`.
pub fn run_matches(m: &RunManifest, commit: &str, kind: RunKind) -> (b: bool)
    ensures
        b == run_matches_spec(m, commit@, kind),
{
    if m.kind != kind || m.dirty {
        return false;
    }
    match &m.commit {
        Some(c) => {
            let a = chars_of(c.as_str());
            eq_str(&a, commit)
        },
        None => false,
    }
}

// ── Git context ─────────────────────────────────────────────────────

/// Snapshot of git repository state.
pub struct GitContext {
    pub commit: Option<String>,
    pub branch: Option<String>,
    pub dirty: bool,
}

/// The trimmed output of a successful git query.
pub open spec fn trimmed(out: Option<Seq<char>>) -> Option<Seq<char>> {
    match out {
        Some(s) => Some(trim(s)),
        None => None,
    }
}

/// Builds the git context from what the git queries gave: the stdout of
/// `git rev-parse HEAD` and of `git rev-parse --abbrev-ref HEAD` where they
/// succeeded, and whether `git diff --quiet` and `git diff --cached --quiet`
/// exited successfully (`None` where they could not be run). A detached head
/// (branch `HEAD`) has no branch; the tree is dirty where either diff reported
/// changes.
pub fn git_context_from(
    commit_out: Option<String>,
    branch_out: Option<String>,
    unstaged_clean: Option<bool>,
    staged_clean: Option<bool>,
) -> (g: GitContext)
    ensures
        opt_chars(g.commit) == trimmed(opt_chars(commit_out)),
        opt_chars(g.branch) == (match trimmed(opt_chars(branch_out)) {
            Some(b) => if b == "HEAD"@ {
                None
            } else {
                Some(b)
            },
            None => None,
        }),
        g.dirty == (unstaged_clean == Some(false) || staged_clean == Some(false)),
{
    let commit = match commit_out {
        Some(s) => {
            let cs = chars_of(s.as_str());
            Some(into_string(trim_chars(&cs)))
        },
        None => None,
    };
    let branch = match branch_out {
        Some(s) => {
            let cs = chars_of(s.as_str());
            let t = trim_chars(&cs);
            if eq_str(&t, "HEAD") {
                None
            } else {
                Some(into_string(t))
            }
        },
        None => None,
    };
    let unstaged = match unstaged_clean {
        Some(ok) => !ok,
        None => false,
    };
    let staged = match staged_clean {
        Some(ok) => !ok,
        None => false,
    };
    GitContext { commit, branch, dirty: unstaged || staged }
}

// ── Native test runs ────────────────────────────────────────────────

/// The number of results with status `st`.
pub open spec fn count_with(es: Seq<TestEntry>, st: TestStatus) -> nat
    decreases es.len(),
{
    if es.len() == 0 {
        0
    } else {
        count_with(es.drop_last(), st) + if es.last().status == st { 1nat } else { 0nat }
    }
}

/// The results of a native test run: nextest's libtest JSON on stdout, or,
/// from `cargo test`, the text of stdout and stderr joined by a newline.
pub open spec fn native_results(use_nextest: bool, stdout: Seq<char>, stderr: Seq<char>) -> Seq<TestEntry> {
    if use_nextest {
        libtest_results(lines(stdout))
    } else {
        test_output_results(stdout + "\n"@ + stderr)
    }
}

fn count_status_exec(v: &Vec<TestResult>, st: TestStatus) -> (n: usize)
    ensures
        n == count_with(entries(v@), st),
{
    let mut n: usize = 0;
    let mut i: usize = 0;
    while i < v.len()
        invariant
            i <= v.len(),
            n <= i,
            n == count_with(entries(v@.take(i as int)), st),
        decreases v.len() - i,
    {
        proof {
            assert(entries(v@.take(i + 1)).drop_last() =~= entries(v@.take(i as int)));
        }
        if v[i].status == st {
            n = n + 1;
        }
        i = i + 1;
    }
    proof {
        assert(v@.take(v.len() as int) =~= v@);
    }
    n
}

/// The manifest of a native test run: its results parsed from the runner's
/// output, their counts (as `u32`), the outcome of the run, and the git,
/// time and host facts gathered around it.
pub fn test_run_manifest(
    use_nextest: bool,
    success: bool,
    stdout: &str,
    stderr: &str,
    git: GitContext,
    started_at: Timestamp,
    ended_at: Timestamp,
    runtime: Option<Duration>,
    os: String,
    arch: String,
    patchbay_version: Option<String>,
) -> (m: RunManifest)
    ensures
        entries(m.tests@) == native_results(use_nextest, stdout@, stderr@),
        m.pass == Some((count_with(native_results(use_nextest, stdout@, stderr@), TestStatus::Pass)) as u32),
        m.fail == Some((count_with(native_results(use_nextest, stdout@, stderr@), TestStatus::Fail)) as u32),
        m.total == Some((native_results(use_nextest, stdout@, stderr@).len()) as u32),
        opt_chars(m.outcome) == Some(if success { "pass"@ } else { "fail"@ }),
        m.kind == RunKind::Test,
        m.project is None,
        m.commit == git.commit,
        m.branch == git.branch,
        m.dirty == git.dirty,
        m.pr is None,
        m.pr_url is None,
        m.title is None,
        m.started_at == Some(started_at),
        m.ended_at == Some(ended_at),
        m.runtime == runtime,
        m.os == Some(os),
        m.arch == Some(arch),
        m.patchbay_version == patchbay_version,
{
    let results = if use_nextest {
        parse_nextest_json(stdout)
    } else {
        let mut v: Vec<char> = Vec::new();
        crate::text::push_str(&mut v, stdout);
        crate::text::push_str(&mut v, "\n");
        crate::text::push_str(&mut v, stderr);
        let combined = into_string(v);
        parse_test_output(combined.as_str())
    };
    let pass = count_status_exec(&results, TestStatus::Pass);
    let fail = count_status_exec(&results, TestStatus::Fail);
    let total = results.len();
    let outcome = if success { "pass".to_owned() } else { "fail".to_owned() };
    RunManifest {
        kind: RunKind::Test,
        project: None,
        commit: git.commit,
        branch: git.branch,
        dirty: git.dirty,
        pr: None,
        pr_url: None,
        title: None,
        started_at: Some(started_at),
        ended_at: Some(ended_at),
        runtime,
        outcome: Some(outcome),
        pass: Some(#[verifier::truncate] (pass as u32)),
        fail: Some(#[verifier::truncate] (fail as u32)),
        total: Some(#[verifier::truncate] (total as u32)),
        tests: results,
        os: Some(os),
        arch: Some(arch),
        patchbay_version,
    }
}

proof fn lemma_cargo_outcome(name: Seq<char>, w: Seq<char>)
    requires
        w.len() > 0,
        !is_ws(w[0]),
        !is_ws(w.last()),
        w[0] != '.',
        forall|k: int| 0 <= k < w.len() ==> w[k] != ' ',
    ensures
        line_entry("test "@ + name + " ... "@ + w) == match cargo_status(w) {
            Some(st) => Some((trim(name), st, None::<nat>)),
            None => None::<(Seq<char>, TestStatus, Option<nat>)>,
        },
{
    reveal_strlit("test ");
    let line = "test "@ + name + " ... "@ + w;
    assert(line[0] == 't');
    assert(line.last() == w.last());
    crate::text::lemma_trim_unchanged(line);
    crate::text::lemma_trim_unchanged(w);
    assert(line.take(5) =~= "test "@);
    assert(line.skip(5) =~= name + " ... "@ + w);
    crate::text::lemma_rsplit_dots_last(name, w);
}

/// The outcome word of a `cargo test` line decides its status: for every test
/// name, `test <name> ... ok` announces a pass, `test <name> ... FAILED` a
/// failure and `test <name> ... ignored` an ignored test, each under the
/// trimmed name and without a duration.
pub proof fn law_cargo_outcome_words(name: Seq<char>)
    ensures
        line_entry("test "@ + name + " ... ok"@) == Some((trim(name), TestStatus::Pass, None::<nat>)),
        line_entry("test "@ + name + " ... FAILED"@) == Some((trim(name), TestStatus::Fail, None::<nat>)),
        line_entry("test "@ + name + " ... ignored"@) == Some((trim(name), TestStatus::Ignored, None::<nat>)),
{
    reveal_strlit(" ... ok");
    reveal_strlit(" ... FAILED");
    reveal_strlit(" ... ignored");
    reveal_strlit(" ... ");
    reveal_strlit("ok");
    reveal_strlit("FAILED");
    reveal_strlit("ignored");
    assert("test "@ + name + " ... ok"@ =~= "test "@ + name + " ... "@ + "ok"@);
    assert("test "@ + name + " ... FAILED"@ =~= "test "@ + name + " ... "@ + "FAILED"@);
    assert("test "@ + name + " ... ignored"@ =~= "test "@ + name + " ... "@ + "ignored"@);
    lemma_cargo_outcome(name, "ok"@);
    lemma_cargo_outcome(name, "FAILED"@);
    lemma_cargo_outcome(name, "ignored"@);
}

/// The status word of a nextest line decides its status: `PASS` is a pass,
/// `FAIL` and `TIMEOUT` are failures and `IGNORE` is an ignored test, for
/// every rest of the line that starts with a space or `'['`.
pub proof fn law_nextest_status_words(rest: Seq<char>)
    requires
        rest.len() > 0,
        rest[0] == ' ' || rest[0] == '[',
    ensures
        nextest_line("PASS"@ + rest) == Some((TestStatus::Pass, trim(rest))),
        nextest_line("FAIL"@ + rest) == Some((TestStatus::Fail, trim(rest))),
        nextest_line("IGNORE"@ + rest) == Some((TestStatus::Ignored, trim(rest))),
        nextest_line("TIMEOUT"@ + rest) == Some((TestStatus::Fail, trim(rest))),
{
    reveal_strlit("PASS");
    reveal_strlit("FAIL");
    reveal_strlit("IGNORE");
    reveal_strlit("TIMEOUT");
    let p = "PASS"@ + rest;
    let f = "FAIL"@ + rest;
    let i = "IGNORE"@ + rest;
    let t = "TIMEOUT"@ + rest;
    assert(p.take(4) =~= "PASS"@);
    assert(p.skip(4) =~= rest);
    assert(p[4] == rest[0]);
    assert(f.take(4) =~= "FAIL"@);
    assert(f.skip(4) =~= rest);
    assert(f[4] == rest[0]);
    assert(f.take(4) != "PASS"@) by { assert(f.take(4)[0] != "PASS"@[0]); }
    assert(i.take(6) =~= "IGNORE"@);
    assert(i.skip(6) =~= rest);
    assert(i[6] == rest[0]);
    assert(i.take(4) != "PASS"@) by { assert(i.take(4)[0] != "PASS"@[0]); }
    assert(i.take(4) != "FAIL"@) by { assert(i.take(4)[0] != "FAIL"@[0]); }
    assert(t.take(7) =~= "TIMEOUT"@);
    assert(t.skip(7) =~= rest);
    assert(t[7] == rest[0]);
    assert(t.take(4) != "PASS"@) by { assert(t.take(4)[0] != "PASS"@[0]); }
    assert(t.take(4) != "FAIL"@) by { assert(t.take(4)[0] != "FAIL"@[0]); }
    assert(t.take(6) != "IGNORE"@) by { assert(t.take(6)[0] != "IGNORE"@[0]); }
}

// ── Laws of output parsing ──────────────────────────────────────────

/// Every line of `ls` that announces a result names a test that `es` has.
pub open spec fn names_covered(ls: Seq<Seq<char>>, es: Seq<TestEntry>) -> bool {
    forall|i: int| 0 <= i < ls.len() ==> match #[trigger] line_entry(ls[i]) {
        Some((name, _, _)) => has_name(es, name),
        None => true,
    }
}

proof fn lemma_covered_lines_add_nothing(a: Seq<Seq<char>>, b: Seq<Seq<char>>)
    requires
        names_covered(b, results_of_lines(a)),
    ensures
        results_of_lines(a + b) == results_of_lines(a),
    decreases b.len(),
{
    if b.len() > 0 {
        assert((a + b).drop_last() =~= a + b.drop_last());
        assert((a + b).last() == b.last());
        assert forall|i: int| 0 <= i < b.drop_last().len() implies match #[trigger] line_entry(b.drop_last()[i]) {
            Some((name, _, _)) => has_name(results_of_lines(a), name),
            None => true,
        } by {
            assert(b.drop_last()[i] == b[i]);
        }
        lemma_covered_lines_add_nothing(a, b.drop_last());
        let _ = line_entry(b[b.len() - 1]);
    } else {
        assert(a + b =~= a);
    }
}

proof fn lemma_results_keep_names(ls: Seq<Seq<char>>, j: int, name: Seq<char>)
    requires
        0 <= j <= ls.len(),
        has_name(results_of_lines(ls.take(j)), name),
    ensures
        has_name(results_of_lines(ls), name),
    decreases ls.len() - j,
{
    if j < ls.len() {
        let prev = results_of_lines(ls.take(j));
        assert(ls.take(j + 1).drop_last() =~= ls.take(j));
        let k = choose|k: int| 0 <= k < prev.len() && prev[k].name == name;
        let next = results_of_lines(ls.take(j + 1));
        assert(next[k].name == name);
        lemma_results_keep_names(ls, j + 1, name);
    } else {
        assert(ls.take(j) =~= ls);
    }
}

proof fn lemma_lines_cover_their_results(ls: Seq<Seq<char>>)
    ensures
        names_covered(ls, results_of_lines(ls)),
{
    assert forall|i: int| 0 <= i < ls.len() implies match #[trigger] line_entry(ls[i]) {
        Some((name, _, _)) => has_name(results_of_lines(ls), name),
        None => true,
    } by {
        if let Some((name, status, duration)) = line_entry(ls[i]) {
            assert(ls.take(i + 1).drop_last() =~= ls.take(i));
            assert(ls.take(i + 1).last() == ls[i]);
            let prev = results_of_lines(ls.take(i));
            let next = results_of_lines(ls.take(i + 1));
            if !has_name(prev, name) {
                assert(next[next.len() - 1].name == name);
            } else {
                let k = choose|k: int| 0 <= k < prev.len() && prev[k].name == name;
                assert(next[k].name == name);
            }
            lemma_results_keep_names(ls, i + 1, name);
        }
    }
}

/// Repeating lines adds no result: the results of `ls` followed by `ls`
/// again are those of `ls` alone.
pub proof fn law_repeated_lines_add_nothing(ls: Seq<Seq<char>>)
    ensures
        results_of_lines(ls + ls) == results_of_lines(ls),
{
    lemma_lines_cover_their_results(ls);
    lemma_covered_lines_add_nothing(ls, ls);
}

proof fn lemma_find_char_prefix(x: Seq<char>, y: Seq<char>, c: char)
    requires
        find_char(x, c) is Some,
    ensures
        find_char(x + y, c) == find_char(x, c),
    decreases x.len(),
{
    if x[0] != c {
        assert((x + y).drop_first() =~= x.drop_first() + y);
        lemma_find_char_prefix(x.drop_first(), y, c);
    }
}

/// `s` is empty or ends a line.
pub open spec fn line_complete(s: Seq<char>) -> bool {
    s.len() == 0 || s.last() == '\n'
}

proof fn lemma_lines_concat(x: Seq<char>, y: Seq<char>)
    requires
        line_complete(x),
    ensures
        lines(x + y) == lines(x) + lines(y),
    decreases x.len(),
{
    if x.len() == 0 {
        assert(x + y =~= y);
        assert(lines(x) =~= Seq::<Seq<char>>::empty());
        assert(lines(x) + lines(y) =~= lines(y));
    } else {
        lemma_find_char_first_some(x, '\n');
        lemma_find_char_prefix(x, y, '\n');
        lemma_find_char_range(x, '\n');
        let i = find_char(x, '\n').unwrap();
        assert((x + y).take(i) =~= x.take(i));
        assert((x + y).skip(i + 1) =~= x.skip(i + 1) + y);
        lemma_lines_concat(x.skip(i + 1), y);
        assert(lines(x + y) =~= seq![strip_cr(x.take(i))] + (lines(x.skip(i + 1)) + lines(y)));
    }
}

proof fn lemma_find_char_first_some(x: Seq<char>, c: char)
    requires
        x.len() > 0,
        x.last() == c,
    ensures
        find_char(x, c) is Some,
    decreases x.len(),
{
    if x[0] != c {
        assert(x.drop_first().last() == c);
        lemma_find_char_first_some(x.drop_first(), c);
    }
}

/// The index just past the last `'\n'` of `s` (0 where it has none).
pub open spec fn after_last_newline(s: Seq<char>) -> int
    decreases s.len(),
{
    if s.len() == 0 {
        0
    } else if s.last() == '\n' {
        s.len() as int
    } else {
        after_last_newline(s.drop_last())
    }
}

proof fn lemma_after_last_newline(s: Seq<char>)
    ensures
        0 <= after_last_newline(s) <= s.len(),
        line_complete(s.take(after_last_newline(s))),
        forall|j: int| after_last_newline(s) <= j < s.len() ==> s[j] != '\n',
    decreases s.len(),
{
    if s.len() > 0 && s.last() != '\n' {
        lemma_after_last_newline(s.drop_last());
        let k = after_last_newline(s.drop_last());
        assert(s.take(k) =~= s.drop_last().take(k));
        assert forall|j: int| k <= j < s.len() implies s[j] != '\n' by {
            if j < s.len() - 1 {
                assert(s[j] == s.drop_last()[j]);
            }
        }
    } else if s.len() > 0 {
        assert(s.take(s.len() as int) =~= s);
    }
}

proof fn lemma_trim_start_push(s: Seq<char>, c: char)
    ensures
        trim_start(s.push(c)) == if trim_start(s).len() == 0 && is_ws(c) {
            Seq::<char>::empty()
        } else {
            trim_start(s).push(c)
        },
    decreases s.len(),
{
    if s.len() > 0 {
        assert(s.push(c)[0] == s[0]);
        assert(s.push(c).drop_first() =~= s.drop_first().push(c));
        lemma_trim_start_push(s.drop_first(), c);
    } else {
        assert(s.push(c) =~= seq![c]);
        assert(seq![c].drop_first() =~= Seq::<char>::empty());
        assert(trim_start(Seq::<char>::empty()) =~= Seq::<char>::empty());
        assert(Seq::<char>::empty().push(c) =~= seq![c]);
    }
}

proof fn lemma_strip_cr_same_entry(t: Seq<char>)
    ensures
        line_entry(strip_cr(t)) == line_entry(t),
{
    if t.len() > 0 && t.last() == '\r' {
        let s = t.drop_last();
        assert(s.push('\r') =~= t);
        lemma_trim_start_push(s, '\r');
        let ts = trim_start(s);
        if !(ts.len() == 0) {
            assert(ts.push('\r').drop_last() =~= ts);
        }
        assert(trim(t) == trim(s));
    }
}

proof fn lemma_empty_line_announces_nothing()
    ensures
        line_entry(Seq::<char>::empty()) is None,
{
    reveal_strlit("test ");
    reveal_strlit("PASS");
    reveal_strlit("FAIL");
    reveal_strlit("IGNORE");
    reveal_strlit("TIMEOUT");
    let e = Seq::<char>::empty();
    assert(trim_start(e) =~= e);
    assert(trim_end(e) =~= e);
    assert(trim(e) =~= e);
}

proof fn lemma_lines_of_tail(t: Seq<char>)
    requires
        forall|j: int| 0 <= j < t.len() ==> t[j] != '\n',
    ensures
        lines(t) == if t.len() == 0 { Seq::<Seq<char>>::empty() } else { seq![t] },
        lines(t.push('\n')) == seq![strip_cr(t)],
{
    lemma_find_char_absent(t, '\n');
    lemma_find_char_first(t.push('\n'), '\n', t.len() as int);
    assert(t.push('\n').take(t.len() as int) =~= t);
    assert(t.push('\n').skip(t.len() as int + 1) =~= Seq::<char>::empty());
    assert(lines(Seq::<char>::empty()) =~= Seq::<Seq<char>>::empty());
}

/// A test output followed by a line break and the same output again
/// announces the same results as the output once, in the same order.
pub proof fn law_repeated_output_adds_nothing(o: Seq<char>)
    ensures
        test_output_results(o + "\n"@ + o) == test_output_results(o),
{
    reveal_strlit("\n");
    let k = after_last_newline(o);
    lemma_after_last_newline(o);
    let p = o.take(k);
    let t = o.skip(k);
    assert(o =~= p + t);
    assert forall|j: int| 0 <= j < t.len() implies t[j] != '\n' by {
        assert(t[j] == o[k + j]);
    }
    lemma_lines_of_tail(t);
    lemma_lines_concat(p, t);
    // The first copy with its line break.
    let first = o + "\n"@;
    assert(first =~= p + t.push('\n'));
    lemma_lines_concat(p, t.push('\n'));
    assert(line_complete(first));
    lemma_lines_concat(first, o);
    assert(o + "\n"@ + o =~= first + o);
    // The first copy announces what `o` announces.
    let lo = lines(o);
    let lf = lines(first);
    lemma_strip_cr_same_entry(t);
    lemma_empty_line_announces_nothing();
    if t.len() == 0 {
        assert(t =~= Seq::<char>::empty());
        assert(strip_cr(t) =~= t);
        assert(lf =~= lines(p) + seq![Seq::<char>::empty()]);
        assert(lo =~= lines(p));
        assert(lf.drop_last() =~= lo);
        assert(results_of_lines(lf) == results_of_lines(lo));
    } else {
        assert(lf.drop_last() =~= lines(p));
        assert(lo.drop_last() =~= lines(p));
        assert(results_of_lines(lf) == results_of_lines(lo));
    }
    lemma_lines_cover_their_results(lo);
    lemma_covered_lines_add_nothing(lf, lo);
}

} // verus!
