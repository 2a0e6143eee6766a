//! What an upload sends: the manifest written beside a directory that has
//! none, and the server endpoints.

use vstd::prelude::*;
use crate::manifest::{RunKind, RunManifest};
use crate::text::{chars_of, opt_chars, parse_u64, parse_u64_chars};
use crate::time::Timestamp;

verus! {

/// The pull-request number of CI, where the variable holds a `u64`.
pub open spec fn pr_number(v: Option<Seq<char>>) -> Option<u64> {
    match v {
        Some(s) => parse_u64(s),
        None => None,
    }
}

/// Builds the run manifest of an upload for `project` from the CI
/// environment: the branch is `GITHUB_REF_NAME`, else `GITHUB_HEAD_REF`; the
/// commit `GITHUB_SHA`; the pull request `GITHUB_PR_NUMBER` where it is a
/// number; the title `GITHUB_PR_TITLE`; started now (`now`). The kind is a
/// simulation run.
pub fn manifest_from_env(
    project: &str,
    ref_name: Option<String>,
    head_ref: Option<String>,
    sha: Option<String>,
    pr: Option<String>,
    pr_title: Option<String>,
    now: Timestamp,
) -> (m: RunManifest)
    ensures
        m.kind == RunKind::Sim,
        opt_chars(m.project) == Some(project@),
        m.branch == (match ref_name {
            Some(r) => Some(r),
            None => head_ref,
        }),
        m.commit == sha,
        m.pr == pr_number(opt_chars(pr)),
        m.pr_url is None,
        m.title == pr_title,
        m.outcome is None,
        m.started_at == Some(now),
        m.ended_at is None,
        m.runtime is None,
        !m.dirty,
        m.pass is None,
        m.fail is None,
        m.total is None,
        m.tests@.len() == 0,
        m.os is None,
        m.arch is None,
        m.patchbay_version is None,
{
    let branch = match ref_name {
        Some(r) => Some(r),
        None => head_ref,
    };
    let pr_num = match &pr {
        Some(s) => {
            let cs = chars_of(s.as_str());
            parse_u64_chars(&cs)
        },
        None => None,
    };
    RunManifest {
        kind: RunKind::Sim,
        project: Some(project.to_owned()),
        commit: sha,
        branch,
        dirty: false,
        pr: pr_num,
        pr_url: None,
        title: pr_title,
        started_at: Some(now),
        ended_at: None,
        runtime: None,
        outcome: None,
        pass: None,
        fail: None,
        total: None,
        tests: Vec::new(),
        os: None,
        arch: None,
        patchbay_version: None,
    }
}

/// `s` without its trailing `/` characters.
pub open spec fn without_trailing_slashes(s: Seq<char>) -> Seq<char>
    decreases s.len(),
{
    if s.len() > 0 && s.last() == '/' {
        without_trailing_slashes(s.drop_last())
    } else {
        s
    }
}

fn trim_trailing_slashes(s: &str) -> (r: Vec<char>)
    ensures
        r@ == without_trailing_slashes(s@),
{
    let cs = chars_of(s);
    let mut n: usize = cs.len();
    proof {
        assert(cs@.take(n as int) =~= cs@);
    }
    while n > 0 && cs[n - 1] == '/'
        invariant
            n <= cs.len(),
            without_trailing_slashes(cs@) == without_trailing_slashes(cs@.take(n as int)),
        decreases n,
    {
        proof {
            assert(cs@.take(n as int).drop_last() =~= cs@.take(n - 1));
        }
        n = n - 1;
    }
    crate::text::slice_chars(&cs, 0, n)
}

/// The endpoint that a directory of `project` is pushed to on the server at
/// `url`.
pub fn push_url(url: &str, project: &str) -> (r: String)
    ensures
        r@ == without_trailing_slashes(url@) + "/api/push/"@ + project@,
{
    let mut v = trim_trailing_slashes(url);
    crate::text::push_str(&mut v, "/api/push/");
    crate::text::push_str(&mut v, project);
    crate::text::into_string(v)
}

/// The page of the uploaded run `run` on the server at `url`.
pub fn run_view_url(url: &str, run: &str) -> (r: String)
    ensures
        r@ == without_trailing_slashes(url@) + "/run/"@ + run@,
{
    let mut v = trim_trailing_slashes(url);
    crate::text::push_str(&mut v, "/run/");
    crate::text::push_str(&mut v, run);
    crate::text::into_string(v)
}

} // verus!
