//! Compare mode: the results of two test runs side by side.

use vstd::prelude::*;

use crate::text::{insert_sorted_unique, lemma_sorted_no_dup, strictly_sorted};
use crate::text::{
    chars_eq, chars_of, decimal, eq_str, into_string, push_decimal, push_str, lines, lines_of, rfind_idx,
    rsplit_once, slice_chars, starts_with, strip_prefix, trim, trim_chars, is_ws, occurs_at, rfind,
    rfind_before, lemma_trim_unchanged, lemma_rfind_before_at, lemma_rsplit_dots_last,
};
use crate::time::Duration;

verus! {

/// Per-test pass/fail/ignored status.
#[derive(Clone, Copy, Debug, PartialEq, Eq, Structural)]
pub enum TestStatus {
    Pass,
    Fail,
    Ignored,
}

/// One test's result in a compared run.
#[derive(Debug)]
pub struct TestResult {
    pub name: String,
    pub status: TestStatus,
    pub duration_ms: Option<u64>,
}

impl Clone for TestResult {
    fn clone(&self) -> (r: Self)
        ensures
            r.name@ == self.name@,
            r.status == self.status,
            r.duration_ms == self.duration_ms,
    {
        TestResult { name: self.name.clone(), status: self.status, duration_ms: self.duration_ms }
    }
}

/// Pass/fail counts and total time of one side.
#[derive(Debug, Clone, Copy)]
pub struct RunStats {
    pub pass: usize,
    pub fail: usize,
    pub total: usize,
    pub time: Duration,
}

/// The outcome of a comparison.
#[derive(Debug, Clone, Copy)]
pub struct CompareSummary {
    pub left: RunStats,
    pub right: RunStats,
    pub fixes: usize,
    pub regressions: usize,
    pub score: i32,
}

/// Everything a comparison writes out.
#[derive(Debug)]
pub struct CompareManifest {
    pub left_ref: String,
    pub right_ref: String,
    pub timestamp: String,
    /// Project name (for CI upload scoping).
    pub project: Option<String>,
    pub left_results: Vec<TestResult>,
    pub right_results: Vec<TestResult>,
    pub summary: CompareSummary,
}

// ── Parsing ─────────────────────────────────────────────────────────

/// The status word that ends a `cargo test` line.
pub open spec fn status_of_word(word: Seq<char>) -> Option<TestStatus> {
    if word == "ok"@ {
        Some(TestStatus::Pass)
    } else if word == "FAILED"@ {
        Some(TestStatus::Fail)
    } else if word == "ignored"@ {
        Some(TestStatus::Ignored)
    } else {
        None
    }
}

/// The name and status that a `cargo test` line announces.
pub open spec fn cargo_line(line: Seq<char>) -> Option<(Seq<char>, TestStatus)> {
    let t = trim(line);
    if starts_with(t, "test "@) {
        match rsplit_once(t.skip("test "@.len() as int), " ... "@) {
            Some((name, outcome)) => match status_of_word(trim(outcome)) {
                Some(st) => Some((trim(name), st)),
                None => None,
            },
            None => None,
        }
    } else {
        None
    }
}

/// The results announced by the lines `ls`, in order (repeats kept).
pub open spec fn cargo_results(ls: Seq<Seq<char>>) -> Seq<(Seq<char>, TestStatus)>
    decreases ls.len(),
{
    if ls.len() == 0 {
        Seq::empty()
    } else {
        let prev = cargo_results(ls.drop_last());
        match cargo_line(ls.last()) {
            Some(e) => prev.push(e),
            None => prev,
        }
    }
}

/// The name and status of each result.
pub open spec fn name_status(v: Seq<TestResult>) -> Seq<(Seq<char>, TestStatus)> {
    v.map_values(|r: TestResult| (r.name@, r.status))
}

fn cargo_line_chars(line: &[char]) -> (r: Option<(Vec<char>, TestStatus)>)
    ensures
        match cargo_line(line@) {
            Some((n, st)) => r matches Some((rn, rs)) && rn@ == n && rs == st,
            None => r is None,
        },
{
    let t = trim_chars(line);
    match strip_prefix(&t, "test ") {
        Some(rest) => {
            let sep = chars_of(" ... ");
            match rfind_idx(&rest, &sep) {
                Some(i) => {
                    let sl = sep.len();
                    let rl = rest.len();
                    let name = slice_chars(&rest, 0, i);
                    let outcome = slice_chars(&rest, i + sl, rl);
                    proof {
                        assert(name@ =~= rest@.take(i as int));
                        assert(outcome@ =~= rest@.skip(i + sep@.len()));
                    }
                    let word = trim_chars(&outcome);
                    let st = if eq_str(&word, "ok") {
                        TestStatus::Pass
                    } else if eq_str(&word, "FAILED") {
                        TestStatus::Fail
                    } else if eq_str(&word, "ignored") {
                        TestStatus::Ignored
                    } else {
                        return None;
                    };
                    Some((trim_chars(&name), st))
                },
                None => None,
            }
        },
        None => None,
    }
}

/// Parses `cargo test` output into results: every line
/// `test path::to::test ... ok|FAILED|ignored`, in order, without durations.
pub fn parse_test_output(output: &str) -> (results: Vec<TestResult>)
    ensures
        name_status(results@) == cargo_results(lines(output@)),
        forall|i: int| 0 <= i < results@.len() ==> (#[trigger] results@[i]).duration_ms is None,
{
    let cs = chars_of(output);
    let ls = lines_of(&cs);
    let ghost all = lines(output@);
    let mut results: Vec<TestResult> = Vec::new();
    let mut i: usize = 0;
    while i < ls.len()
        invariant
            i <= ls.len(),
            ls@.len() == all.len(),
            all == lines(output@),
            forall|k: int| 0 <= k < ls@.len() ==> #[trigger] ls@[k]@ == all[k],
            name_status(results@) == cargo_results(all.take(i as int)),
            forall|k: int| 0 <= k < results@.len() ==> (#[trigger] results@[k]).duration_ms is None,
        decreases ls.len() - i,
    {
        proof {
            assert(all.take(i + 1).drop_last() =~= all.take(i as int));
            assert(all.take(i + 1).last() == ls@[i as int]@);
        }
        let ghost prev = results@;
        match cargo_line_chars(&ls[i]) {
            Some((name, status)) => {
                let r = TestResult { name: into_string(name), status, duration_ms: None };
                results.push(r);
                proof {
                    assert(name_status(results@) =~= name_status(prev).push((r.name@, r.status)));
                }
            },
            None => {},
        }
        i = i + 1;
    }
    proof {
        assert(all.take(ls.len() as int) =~= all);
    }
    results
}

/// `r` with `'/'` and `'\\'` replaced by `'_'`.
pub open spec fn sanitized_ref(r: Seq<char>) -> Seq<char> {
    r.map_values(|c: char| if c == '/' || c == '\\' { '_' } else { c })
}

/// A git ref made safe for use as a directory name.
pub fn sanitize_ref(r: &str) -> (s: String)
    ensures
        s@ == sanitized_ref(r@),
{
    let cs = chars_of(r);
    let mut out: Vec<char> = Vec::new();
    let mut i: usize = 0;
    while i < cs.len()
        invariant
            i <= cs.len(),
            out@ == sanitized_ref(cs@.take(i as int)),
        decreases cs.len() - i,
    {
        let c = cs[i];
        out.push(if c == '/' || c == '\\' { '_' } else { c });
        proof {
            assert(sanitized_ref(cs@.take(i + 1)) =~= sanitized_ref(cs@.take(i as int)).push(
                if c == '/' || c == '\\' { '_' } else { c },
            ));
        }
        i = i + 1;
    }
    proof {
        assert(cs@.take(cs.len() as int) =~= cs@);
    }
    into_string(out)
}

// ── Comparison ──────────────────────────────────────────────────────

/// The names that occur in `v`.
pub open spec fn names(v: Seq<TestResult>) -> Set<Seq<char>> {
    Set::new(|n: Seq<char>| exists|i: int| 0 <= i < v.len() && (#[trigger] v[i]).name@ == n)
}

/// The status of the last result named `n` in `v`.
pub open spec fn last_status(v: Seq<TestResult>, n: Seq<char>) -> Option<TestStatus>
    decreases v.len(),
{
    if v.len() == 0 {
        None
    } else if v.last().name@ == n {
        Some(v.last().status)
    } else {
        last_status(v.drop_last(), n)
    }
}

/// `n` failed on the left and passes on the right.
pub open spec fn is_fix(l: Seq<TestResult>, r: Seq<TestResult>, n: Seq<char>) -> bool {
    last_status(l, n) == Some(TestStatus::Fail) && last_status(r, n) == Some(TestStatus::Pass)
}

/// `n` passed on the left and fails on the right.
pub open spec fn is_regression(l: Seq<TestResult>, r: Seq<TestResult>, n: Seq<char>) -> bool {
    last_status(l, n) == Some(TestStatus::Pass) && last_status(r, n) == Some(TestStatus::Fail)
}

/// The names of the tests fixed from `l` to `r`.
pub open spec fn fixed_names(l: Seq<TestResult>, r: Seq<TestResult>) -> Set<Seq<char>> {
    (names(l) + names(r)).filter(|n: Seq<char>| is_fix(l, r, n))
}

/// The names of the tests that regressed from `l` to `r`.
pub open spec fn regressed_names(l: Seq<TestResult>, r: Seq<TestResult>) -> Set<Seq<char>> {
    (names(l) + names(r)).filter(|n: Seq<char>| is_regression(l, r, n))
}

/// The number of results in `v` with status `st`.
pub open spec fn count_status(v: Seq<TestResult>, st: TestStatus) -> nat
    decreases v.len(),
{
    if v.len() == 0 {
        0
    } else {
        count_status(v.drop_last(), st) + if v.last().status == st { 1nat } else { 0nat }
    }
}

/// The sum of the known durations in `v`, in milliseconds.
pub open spec fn total_ms(v: Seq<TestResult>) -> nat
    decreases v.len(),
{
    if v.len() == 0 {
        0
    } else {
        total_ms(v.drop_last()) + match v.last().duration_ms {
            Some(d) => d as nat,
            None => 0nat,
        }
    }
}

/// The timing part of the score: +1 when the right side is more than 2%
/// faster, -1 when it is more than 5% slower, 0 otherwise or when the left
/// side has no time.
pub open spec fn time_adjust(left_ms: nat, right_ms: nat) -> int {
    if left_ms == 0 {
        0
    } else if 100 * right_ms < 98 * left_ms {
        1
    } else if 100 * right_ms > 105 * left_ms {
        -1
    } else {
        0
    }
}

/// The score of a comparison: three per fix, minus five per regression,
/// adjusted by timing.
pub open spec fn score_of(fixes: nat, regressions: nat, left_ms: nat, right_ms: nat) -> int {
    3 * fixes - 5 * regressions + time_adjust(left_ms, right_ms)
}

fn status_of(v: &Vec<TestResult>, name: &[char]) -> (r: Option<TestStatus>)
    ensures
        r == last_status(v@, name@),
{
    let mut k: usize = v.len();
    proof {
        assert(v@.take(k as int) =~= v@);
    }
    while k > 0
        invariant
            k <= v.len(),
            last_status(v@, name@) == last_status(v@.take(k as int), name@),
        decreases k,
    {
        proof {
            assert(v@.take(k as int).drop_last() =~= v@.take(k - 1));
        }
        let cs = chars_of(v[k - 1].name.as_str());
        if chars_eq(&cs, name) {
            return Some(v[k - 1].status);
        }
        k = k - 1;
    }
    None
}

proof fn lemma_names_push(v: Seq<TestResult>, i: int)
    requires
        0 <= i < v.len(),
    ensures
        names(v.take(i + 1)) == names(v.take(i)).insert(v[i].name@),
{
    let a = names(v.take(i + 1));
    let b = names(v.take(i)).insert(v[i].name@);
    assert forall|n: Seq<char>| a.contains(n) <==> b.contains(n) by {
        if a.contains(n) {
            let k = choose|k: int| 0 <= k < v.take(i + 1).len() && (#[trigger] v.take(i + 1)[k]).name@ == n;
            if k < i {
                assert(v.take(i)[k].name@ == n);
            }
        }
        if b.contains(n) && n != v[i].name@ {
            let k = choose|k: int| 0 <= k < v.take(i).len() && (#[trigger] v.take(i)[k]).name@ == n;
            assert(v.take(i + 1)[k].name@ == n);
        }
        if n == v[i].name@ {
            assert(v.take(i + 1)[i].name@ == n);
        }
    }
    assert(a =~= b);
}

/// All names of `left` and `right`, sorted and without repeats.
pub fn merged_names(left: &Vec<TestResult>, right: &Vec<TestResult>) -> (out: Vec<String>)
    ensures
        out@.len() <= left@.len() + right@.len(),
        strictly_sorted(out@.map_values(|s: String| s@)),
        out@.map_values(|s: String| s@).to_set() == names(left@) + names(right@),
{
    let mut out: Vec<String> = Vec::new();
    let mut side: usize = 0;
    while side < 2
        invariant
            side <= 2,
            strictly_sorted(out@.map_values(|s: String| s@)),
            side == 0 ==> out@.len() == 0,
            side == 1 ==> out@.len() <= left@.len(),
            side == 2 ==> out@.len() <= left@.len() + right@.len(),
            out@.map_values(|s: String| s@).to_set() == (if side == 0 {
                Set::empty()
            } else if side == 1 {
                names(left@)
            } else {
                names(left@) + names(right@)
            }),
        decreases 2 - side,
    {
        let src = if side == 0 { left } else { right };
        let ghost base = out@.map_values(|s: String| s@).to_set();
        let ghost base_len = out@.len();
        let mut i: usize = 0;
        proof {
            assert(src@.take(0) =~= Seq::<TestResult>::empty());
            assert(names(src@.take(0)) =~= Set::empty());
            assert(base + names(src@.take(0)) =~= base);
        }
        while i < src.len()
            invariant
                i <= src.len(),
                strictly_sorted(out@.map_values(|s: String| s@)),
                out@.map_values(|s: String| s@).to_set() == base + names(src@.take(i as int)),
                out@.len() <= base_len + i,
                side == 0 ==> base_len == 0 && src@ == left@,
                side == 1 ==> base_len <= left@.len() && src@ == right@,
            decreases src.len() - i,
        {
            proof {
                lemma_names_push(src@, i as int);
            }
            insert_sorted_unique(&mut out, &src[i].name);
            i = i + 1;
        }
        proof {
            assert(src@.take(src.len() as int) =~= src@);
            if side == 0 {
                assert(base + names(left@) =~= names(left@));
            }
        }
        side = side + 1;
    }
    out
}


/// The number of names in `s` for which `p` holds.
pub open spec fn count_where(s: Seq<Seq<char>>, p: spec_fn(Seq<char>) -> bool) -> nat
    decreases s.len(),
{
    if s.len() == 0 {
        0
    } else {
        count_where(s.drop_last(), p) + if p(s.last()) { 1nat } else { 0nat }
    }
}

proof fn lemma_count_set(s: Seq<Seq<char>>, p: spec_fn(Seq<char>) -> bool)
    requires
        s.no_duplicates(),
    ensures
        s.to_set().filter(p).finite(),
        count_where(s, p) == s.to_set().filter(p).len(),
    decreases s.len(),
{
    if s.len() == 0 {
        assert(s.to_set().filter(p) =~= Set::empty());
    } else {
        let t = s.drop_last();
        assert(t.no_duplicates());
        lemma_count_set(t, p);
        assert(s.to_set() =~= t.to_set().insert(s.last())) by {
            assert forall|y: Seq<char>| s.to_set().contains(y) <==> t.to_set().insert(s.last()).contains(y) by {
                if s.contains(y) {
                    let k = choose|k: int| 0 <= k < s.len() && #[trigger] s[k] == y;
                    if k < s.len() - 1 {
                        assert(t[k] == y);
                    }
                }
                if t.contains(y) {
                    let k = choose|k: int| 0 <= k < t.len() && #[trigger] t[k] == y;
                    assert(s[k] == y);
                }
                if y == s.last() {
                    assert(s[s.len() - 1] == y);
                }
            }
        }
        assert(!t.to_set().contains(s.last())) by {
            if t.contains(s.last()) {
                let k = choose|k: int| 0 <= k < t.len() && #[trigger] t[k] == s.last();
                assert(s[k] == s[s.len() - 1]);
            }
        }
        if p(s.last()) {
            assert(s.to_set().filter(p) =~= t.to_set().filter(p).insert(s.last()));
        } else {
            assert(s.to_set().filter(p) =~= t.to_set().filter(p));
        }
    }
}

proof fn lemma_total_ms_prefix(v: Seq<TestResult>, i: int)
    requires
        0 <= i <= v.len(),
    ensures
        total_ms(v.take(i)) <= total_ms(v),
    decreases v.len() - i,
{
    if i < v.len() {
        lemma_total_ms_prefix(v, i + 1);
        assert(v.take(i + 1).drop_last() =~= v.take(i));
    } else {
        assert(v.take(i) =~= v);
    }
}

fn side_stats(v: &Vec<TestResult>) -> (st: RunStats)
    requires
        total_ms(v@) <= u64::MAX,
    ensures
        st.pass == count_status(v@, TestStatus::Pass),
        st.fail == count_status(v@, TestStatus::Fail),
        st.total == v@.len(),
        st.time.spec_nanos() == total_ms(v@) * 1_000_000,
{
    let mut pass: usize = 0;
    let mut fail: usize = 0;
    let mut ms: u64 = 0;
    let mut i: usize = 0;
    while i < v.len()
        invariant
            i <= v.len(),
            total_ms(v@) <= u64::MAX,
            pass == count_status(v@.take(i as int), TestStatus::Pass),
            fail == count_status(v@.take(i as int), TestStatus::Fail),
            pass <= i,
            fail <= i,
            ms == total_ms(v@.take(i as int)),
        decreases v.len() - i,
    {
        proof {
            assert(v@.take(i + 1).drop_last() =~= v@.take(i as int));
            lemma_total_ms_prefix(v@, i + 1);
        }
        if v[i].status == TestStatus::Pass {
            pass = pass + 1;
        }
        if v[i].status == TestStatus::Fail {
            fail = fail + 1;
        }
        match v[i].duration_ms {
            Some(d) => {
                ms = ms + d;
            },
            None => {},
        }
        i = i + 1;
    }
    proof {
        assert(v@.take(v.len() as int) =~= v@);
    }
    RunStats { pass, fail, total: v.len(), time: Duration::from_millis(ms) }
}

/// The number of tests fixed (fail → pass) and regressed (pass → fail)
/// from `left` to `right`, by name, where a name's status on a side is that
/// of its last result there.
pub fn change_counts(left: &Vec<TestResult>, right: &Vec<TestResult>) -> (r: (usize, usize))
    ensures
        r.0 == fixed_names(left@, right@).len(),
        r.1 == regressed_names(left@, right@).len(),
{
    let all = merged_names(left, right);
    let ghost allv = all@.map_values(|x: String| x@);
    let ghost fix_p = |n: Seq<char>| is_fix(left@, right@, n);
    let ghost reg_p = |n: Seq<char>| is_regression(left@, right@, n);
    let mut fixes: usize = 0;
    let mut regressions: usize = 0;
    let mut k: usize = 0;
    while k < all.len()
        invariant
            k <= all.len(),
            all@.len() <= left@.len() + right@.len(),
            allv == all@.map_values(|x: String| x@),
            fixes == count_where(allv.take(k as int), fix_p),
            regressions == count_where(allv.take(k as int), reg_p),
            fixes + regressions <= k,
            fix_p == (|n: Seq<char>| is_fix(left@, right@, n)),
            reg_p == (|n: Seq<char>| is_regression(left@, right@, n)),
        decreases all.len() - k,
    {
        let name = chars_of(all[k].as_str());
        proof {
            assert(allv.take(k + 1).drop_last() =~= allv.take(k as int));
            assert(allv.take(k + 1).last() == name@);
        }
        let l = status_of(left, &name);
        let r = status_of(right, &name);
        if l == Some(TestStatus::Fail) && r == Some(TestStatus::Pass) {
            fixes = fixes + 1;
        } else if l == Some(TestStatus::Pass) && r == Some(TestStatus::Fail) {
            regressions = regressions + 1;
        }
        k = k + 1;
    }
    proof {
        assert(allv.take(all.len() as int) =~= allv);
        lemma_sorted_no_dup(allv);
        lemma_count_set(allv, fix_p);
        lemma_count_set(allv, reg_p);
        assert(fixed_names(left@, right@) =~= allv.to_set().filter(fix_p));
        assert(regressed_names(left@, right@) =~= allv.to_set().filter(reg_p));
    }
    (fixes, regressions)
}

/// Compares two sets of test results: per-side counts and times, the tests
/// fixed (fail → pass) and regressed (pass → fail) by name, where a name's
/// status on a side is that of its last result there, and the score.
pub fn compare_results(
    _left_ref: &str,
    _right_ref: &str,
    left: &Vec<TestResult>,
    right: &Vec<TestResult>,
) -> (s: CompareSummary)
    requires
        fixed_names(left@, right@).len() * 3 <= i32::MAX,
        regressed_names(left@, right@).len() * 5 <= i32::MAX,
        total_ms(left@) <= u64::MAX,
        total_ms(right@) <= u64::MAX,
    ensures
        s.left.pass == count_status(left@, TestStatus::Pass),
        s.left.fail == count_status(left@, TestStatus::Fail),
        s.left.total == left@.len(),
        s.left.time.spec_nanos() == total_ms(left@) * 1_000_000,
        s.right.pass == count_status(right@, TestStatus::Pass),
        s.right.fail == count_status(right@, TestStatus::Fail),
        s.right.total == right@.len(),
        s.right.time.spec_nanos() == total_ms(right@) * 1_000_000,
        s.fixes == fixed_names(left@, right@).len(),
        s.regressions == regressed_names(left@, right@).len(),
        s.score == score_of(s.fixes as nat, s.regressions as nat, total_ms(left@), total_ms(right@)),
{
    let ls = side_stats(left);
    let rs = side_stats(right);
    let (fixes, regressions) = change_counts(left, right);
    let mut score: i32 = (fixes as i32) * 3 - (regressions as i32) * 5;
    let lms = (ls.time.as_millis()) as u128;
    let rms = (rs.time.as_millis()) as u128;
    proof {
        assert(lms == total_ms(left@));
        assert(rms == total_ms(right@));
    }
    if lms > 0 {
        if 100 * rms < 98 * lms {
            score = score + 1;
        } else if 100 * rms > 105 * lms {
            score = score - 1;
        }
    }
    CompareSummary { left: ls, right: rs, fixes, regressions, score }
}

/// Comparing a run with itself finds no fixes and no regressions, and its
/// timing does not move the score.
pub proof fn law_self_comparison_is_neutral(v: Seq<TestResult>, ms: nat)
    ensures
        fixed_names(v, v).len() == 0,
        regressed_names(v, v).len() == 0,
        score_of(0, 0, ms, ms) == 0,
{
    assert(fixed_names(v, v) =~= Set::empty());
    assert(regressed_names(v, v) =~= Set::empty());
}

/// Swapping the sides of a comparison turns its fixes into regressions and
/// its regressions into fixes.
pub proof fn law_swapping_sides_swaps_fixes_and_regressions(l: Seq<TestResult>, r: Seq<TestResult>)
    ensures
        fixed_names(l, r) == regressed_names(r, l),
        regressed_names(l, r) == fixed_names(r, l),
{
    assert(fixed_names(l, r) =~= regressed_names(r, l));
    assert(regressed_names(l, r) =~= fixed_names(r, l));
}

/// Each fix raises the score by three and each regression lowers it by five:
/// without timing on the left side the score is exactly `3 * fixes - 5 *
/// regressions`, timing moves it by at most one, one more fix adds three and
/// one more regression takes five away.
pub proof fn law_score_counts_fixes_and_regressions(fixes: nat, regressions: nat, left_ms: nat, right_ms: nat)
    ensures
        score_of(fixes, regressions, 0, right_ms) == 3 * fixes - 5 * regressions,
        3 * fixes - 5 * regressions - 1 <= score_of(fixes, regressions, left_ms, right_ms) <= 3 * fixes - 5
            * regressions + 1,
        score_of(fixes + 1, regressions, left_ms, right_ms) == score_of(fixes, regressions, left_ms, right_ms) + 3,
        score_of(fixes, regressions + 1, left_ms, right_ms) == score_of(fixes, regressions, left_ms, right_ms) - 5,
{
}

/// Timing moves the score by one at most, and only by how the right side's
/// total time compares with the left's: equal times leave it, a right side
/// faster by more than 2% raises it, slower by more than 5% lowers it, and a
/// faster right side never scores below a slower one.
pub proof fn law_timing_adjusts_by_speed(left_ms: nat, r1: nat, r2: nat)
    ensures
        time_adjust(left_ms, left_ms) == 0,
        time_adjust(0, r1) == 0,
        left_ms > 0 && 100 * r1 < 98 * left_ms ==> time_adjust(left_ms, r1) == 1,
        left_ms > 0 && 100 * r1 > 105 * left_ms ==> time_adjust(left_ms, r1) == -1,
        r1 <= r2 ==> time_adjust(left_ms, r1) >= time_adjust(left_ms, r2),
        -1 <= time_adjust(left_ms, r1) <= 1,
{
}

/// The table marks a test as fixed exactly when the comparison counts it as
/// a fix, and as a regression exactly when it counts it as one; a test on
/// one side only is new or removed, never either.
pub proof fn law_delta_labels_agree_with_counts(l: Seq<TestResult>, r: Seq<TestResult>, n: Seq<char>)
    ensures
        (delta_label_text(last_status(l, n), last_status(r, n)) == "fixed"@) == is_fix(l, r, n),
        (delta_label_text(last_status(l, n), last_status(r, n)) == "REGRESS"@) == is_regression(l, r, n),
        last_status(l, n) is None && last_status(r, n) is Some ==> delta_label_text(last_status(l, n), last_status(r, n))
            == "new"@,
        last_status(l, n) is Some && last_status(r, n) is None ==> delta_label_text(last_status(l, n), last_status(r, n))
            == "removed"@,
{
    reveal_strlit("fixed");
    reveal_strlit("REGRESS");
    reveal_strlit("new");
    reveal_strlit("removed");
    reveal_strlit("");
    assert("fixed"@ != "REGRESS"@) by { assert("fixed"@.len() != "REGRESS"@.len()); }
    assert("fixed"@ != "new"@) by { assert("fixed"@.len() != "new"@.len()); }
    assert("fixed"@ != "removed"@) by { assert("fixed"@.len() != "removed"@.len()); }
    assert("fixed"@ != ""@) by { assert("fixed"@.len() != ""@.len()); }
    assert("REGRESS"@ != "new"@) by { assert("REGRESS"@.len() != "new"@.len()); }
    assert("REGRESS"@ != "removed"@) by { assert("REGRESS"@[0] != "removed"@[0]); }
    assert("REGRESS"@ != ""@) by { assert("REGRESS"@.len() != ""@.len()); }
}

proof fn lemma_outcome_line(name: Seq<char>, w: Seq<char>)
    requires
        w.len() > 0,
        !is_ws(w[0]),
        !is_ws(w.last()),
        w[0] != '.',
        forall|k: int| 0 <= k < w.len() ==> w[k] != ' ',
    ensures
        cargo_line("test "@ + name + " ... "@ + w) == match status_of_word(w) {
            Some(st) => Some((trim(name), st)),
            None => None::<(Seq<char>, TestStatus)>,
        },
{
    reveal_strlit("test ");
    let line = "test "@ + name + " ... "@ + w;
    assert(line[0] == 't');
    assert(line.last() == w.last());
    lemma_trim_unchanged(line);
    lemma_trim_unchanged(w);
    assert(line.take(5) =~= "test "@);
    assert(line.skip(5) =~= name + " ... "@ + w);
    lemma_rsplit_dots_last(name, w);
}

/// The outcome word of a `cargo test` line decides its status: for every test
/// name, `test <name> ... ok` announces a pass, `test <name> ... FAILED` a
/// failure and `test <name> ... ignored` an ignored test, each under the
/// trimmed name.
pub proof fn law_outcome_words(name: Seq<char>)
    ensures
        cargo_line("test "@ + name + " ... ok"@) == Some((trim(name), TestStatus::Pass)),
        cargo_line("test "@ + name + " ... FAILED"@) == Some((trim(name), TestStatus::Fail)),
        cargo_line("test "@ + name + " ... ignored"@) == Some((trim(name), TestStatus::Ignored)),
{
    reveal_strlit(" ... ok");
    reveal_strlit(" ... FAILED");
    reveal_strlit(" ... ignored");
    reveal_strlit(" ... ");
    reveal_strlit("ok");
    reveal_strlit("FAILED");
    reveal_strlit("ignored");
    assert(" ... ok"@ =~= " ... "@ + "ok"@);
    assert(" ... FAILED"@ =~= " ... "@ + "FAILED"@);
    assert(" ... ignored"@ =~= " ... "@ + "ignored"@);
    assert("test "@ + name + " ... ok"@ =~= "test "@ + name + " ... "@ + "ok"@);
    assert("test "@ + name + " ... FAILED"@ =~= "test "@ + name + " ... "@ + "FAILED"@);
    assert("test "@ + name + " ... ignored"@ =~= "test "@ + name + " ... "@ + "ignored"@);
    lemma_outcome_line(name, "ok"@);
    lemma_outcome_line(name, "FAILED"@);
    lemma_outcome_line(name, "ignored"@);
}

/// The label of a test's status in the summary table.
pub open spec fn status_label_text(s: Option<TestStatus>) -> Seq<char> {
    match s {
        Some(TestStatus::Pass) => "PASS"@,
        Some(TestStatus::Fail) => "FAIL"@,
        Some(TestStatus::Ignored) => "SKIP"@,
        None => "-"@,
    }
}

/// The label of a test's status in the summary table (`-` when the side
/// does not have the test).
pub fn status_label(s: Option<TestStatus>) -> (r: &'static str)
    ensures
        r@ == status_label_text(s),
{
    match s {
        Some(TestStatus::Pass) => "PASS",
        Some(TestStatus::Fail) => "FAIL",
        Some(TestStatus::Ignored) => "SKIP",
        None => "-",
    }
}

/// How a test changed from left to right, in the summary table.
pub open spec fn delta_label_text(l: Option<TestStatus>, r: Option<TestStatus>) -> Seq<char> {
    match (l, r) {
        (Some(TestStatus::Fail), Some(TestStatus::Pass)) => "fixed"@,
        (Some(TestStatus::Pass), Some(TestStatus::Fail)) => "REGRESS"@,
        (None, Some(_)) => "new"@,
        (Some(_), None) => "removed"@,
        _ => ""@,
    }
}

/// How a test changed from left to right: fixed, regressed, new, removed,
/// or nothing to say.
pub fn delta_label(l: Option<TestStatus>, r: Option<TestStatus>) -> (d: &'static str)
    ensures
        d@ == delta_label_text(l, r),
{
    match (l, r) {
        (Some(TestStatus::Fail), Some(TestStatus::Pass)) => "fixed",
        (Some(TestStatus::Pass), Some(TestStatus::Fail)) => "REGRESS",
        (None, Some(_)) => "new",
        (Some(_), None) => "removed",
        _ => "",
    }
}

/// The status of the test `name` on one side, as the summary reads it.
pub fn side_status(v: &Vec<TestResult>, name: &str) -> (r: Option<TestStatus>)
    ensures
        r == last_status(v@, name@),
{
    let n = chars_of(name);
    status_of(v, &n)
}

/// The score line of the summary: the score with its sign, the fixes and the
/// regressions.
pub open spec fn score_line_text(score: i64, fixes: nat, regressions: nat) -> Seq<char> {
    "Score: "@ + (if score < 0 { "-"@ + decimal((-score) as nat) } else { "+"@ + decimal(score as nat) })
        + " ("@ + decimal(fixes) + " fixes, "@ + decimal(regressions) + " regressions)"@
}

/// The score line of the summary.
pub fn score_line(score: i64, fixes: u64, regressions: u64) -> (r: String)
    ensures
        r@ == score_line_text(score, fixes as nat, regressions as nat),
{
    let mut v: Vec<char> = Vec::new();
    push_str(&mut v, "Score: ");
    if score < 0 {
        push_str(&mut v, "-");
        let m: u64 = (-(score as i128)) as u64;
        push_decimal(&mut v, m);
    } else {
        push_str(&mut v, "+");
        push_decimal(&mut v, score as u64);
    }
    push_str(&mut v, " (");
    push_decimal(&mut v, fixes);
    push_str(&mut v, " fixes, ");
    push_decimal(&mut v, regressions);
    push_str(&mut v, " regressions)");
    into_string(v)
}

} // verus!
