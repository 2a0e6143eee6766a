//! Helpers shared by the VM and container backends: host targets, shell
//! quoting, file names, hashing, and the plans for building guest binaries.

use vstd::prelude::*;
use crate::text::{
    chars_of, clone_opt_string, clone_strings, eq_str, into_string, opt_chars, push_chars, push_str,
    strings_view, chars_eq, last_index, lemma_insert_sorted, lemma_last_index_at,
    lemma_last_index_range, lemma_lex_total, lemma_sorted_no_dup, lex_lt, lex_lt_chars,
    strictly_sorted, starts_with, find_char, lemma_find_char_first, lemma_find_char_range,
    find_char_idx, slice_chars, split_once_char, string_from,
};

verus! {

/// The musl target triple for a host of architecture `arch`.
pub open spec fn musl_target(arch: Seq<char>) -> Seq<char> {
    if arch == "aarch64"@ {
        "aarch64-unknown-linux-musl"@
    } else {
        "x86_64-unknown-linux-musl"@
    }
}

/// The release archive of the runner for a host of architecture `arch`.
pub open spec fn musl_asset(arch: Seq<char>) -> Seq<char> {
    if arch == "aarch64"@ {
        "patchbay-aarch64-unknown-linux-musl.tar.gz"@
    } else {
        "patchbay-x86_64-unknown-linux-musl.tar.gz"@
    }
}

/// `arch` names a 64-bit ARM host.
pub fn is_arm64_host(arch: &str) -> (b: bool)
    ensures
        b == (arch@ == "aarch64"@),
{
    let a = chars_of(arch);
    eq_str(&a, "aarch64")
}

/// The musl target to build guest binaries for, on a host of architecture `arch`
/// (as `std::env::consts::ARCH` names it).
pub fn default_musl_target(arch: &str) -> (t: &'static str)
    ensures
        t@ == musl_target(arch@),
{
    if is_arm64_host(arch) {
        "aarch64-unknown-linux-musl"
    } else {
        "x86_64-unknown-linux-musl"
    }
}

/// The release asset of the runner, on a host of architecture `arch`.
pub fn release_musl_asset(arch: &str) -> (t: &'static str)
    ensures
        t@ == musl_asset(arch@),
{
    if is_arm64_host(arch) {
        "patchbay-aarch64-unknown-linux-musl.tar.gz"
    } else {
        "patchbay-x86_64-unknown-linux-musl.tar.gz"
    }
}

/// The message of a missing command.
pub open spec fn missing_command_text(name: Seq<char>) -> Seq<char> {
    "missing required command: "@ + name
}

/// Succeeds when the command `name` exists (`exists`, as probed on the host),
/// and fails naming it otherwise.
pub fn need_cmd(name: &str, exists: bool) -> (r: Result<(), String>)
    ensures
        exists ==> r is Ok,
        !exists ==> (r matches Err(m) && m@ == missing_command_text(name@)),
{
    if exists {
        Ok(())
    } else {
        let mut v: Vec<char> = Vec::new();
        push_str(&mut v, "missing required command: ");
        push_str(&mut v, name);
        Err(into_string(v))
    }
}

/// A character that a shell word may hold unquoted.
pub open spec fn shell_safe(c: char) -> bool {
    ('A' <= c && c <= 'Z') || ('a' <= c && c <= 'z') || ('0' <= c && c <= '9') || c == '-' || c
        == '_' || c == '.' || c == '/' || c == ':'
}

/// `s` with each single quote replaced by `'"'"'`.
pub open spec fn quote_inner(s: Seq<char>) -> Seq<char>
    decreases s.len(),
{
    if s.len() == 0 {
        Seq::empty()
    } else {
        quote_inner(s.drop_last()) + if s.last() == '\'' {
            "'\"'\"'"@
        } else {
            seq![s.last()]
        }
    }
}

/// `s` as one POSIX shell word.
pub open spec fn shell_escaped(s: Seq<char>) -> Seq<char> {
    if s.len() == 0 {
        "''"@
    } else if forall|i: int| 0 <= i < s.len() ==> shell_safe(#[trigger] s[i]) {
        s
    } else {
        "'"@ + quote_inner(s) + "'"@
    }
}

/// `w` with `p` before it.
pub open spec fn prefixed(p: Seq<char>, w: Option<Seq<char>>) -> Option<Seq<char>> {
    match w {
        Some(x) => Some(p + x),
        None => None,
    }
}

/// A character that a POSIX shell treats specially inside double quotes.
pub open spec fn special_in_double_quotes(c: char) -> bool {
    c == '$' || c == '`' || c == '\\' || c == '"'
}

/// How a POSIX shell reads the text `t` as (the rest of) one word, for the
/// quoting that `shell_escape` uses: a character that needs no quoting stands
/// for itself; `'...'` for the characters between the single quotes; `"..."`
/// for those between the double quotes, when none of them is special there.
/// `None` where `t` is not one such word (an unquoted blank or other
/// character, an unclosed quote).
pub open spec fn shell_word_rest(t: Seq<char>) -> Option<Seq<char>>
    decreases t.len(),
{
    if t.len() == 0 {
        Some(Seq::empty())
    } else if shell_safe(t[0]) {
        prefixed(seq![t[0]], shell_word_rest(t.drop_first()))
    } else if t[0] == '\'' || t[0] == '"' {
        let body = t.drop_first();
        match find_char(body, t[0]) {
            Some(i) => {
                proof {
                    lemma_find_char_range(body, t[0]);
                }
                let inner = body.take(i);
                if t[0] == '"' && exists|k: int| 0 <= k < inner.len() && special_in_double_quotes(inner[k]) {
                    None
                } else {
                    prefixed(inner, shell_word_rest(body.skip(i + 1)))
                }
            },
            None => None,
        }
    } else {
        None
    }
}

/// How a POSIX shell reads the text `t` as exactly one word: `None` where it
/// is empty (no word at all) or not one word.
pub open spec fn shell_word(t: Seq<char>) -> Option<Seq<char>> {
    if t.len() == 0 {
        None
    } else {
        shell_word_rest(t)
    }
}

proof fn lemma_safe_word(s: Seq<char>, z: Seq<char>)
    requires
        forall|i: int| 0 <= i < s.len() ==> shell_safe(#[trigger] s[i]),
    ensures
        shell_word_rest(s + z) == prefixed(s, shell_word_rest(z)),
    decreases s.len(),
{
    if s.len() == 0 {
        assert(s + z =~= z);
        match shell_word_rest(z) {
            Some(x) => assert(s + x =~= x),
            None => {},
        }
    } else {
        assert((s + z)[0] == s[0]);
        assert((s + z).drop_first() =~= s.drop_first() + z);
        assert forall|i: int| 0 <= i < s.drop_first().len() implies shell_safe(#[trigger] s.drop_first()[i]) by {
            assert(s.drop_first()[i] == s[i + 1]);
        }
        lemma_safe_word(s.drop_first(), z);
        match shell_word_rest(z) {
            Some(x) => assert(seq![s[0]] + (s.drop_first() + x) =~= s + x),
            None => {},
        }
    }
}

proof fn lemma_quote_inner_concat(x: Seq<char>, y: Seq<char>)
    ensures
        quote_inner(x + y) == quote_inner(x) + quote_inner(y),
    decreases y.len(),
{
    if y.len() == 0 {
        assert(x + y =~= x);
        assert(quote_inner(y) =~= Seq::<char>::empty());
        assert(quote_inner(x) + quote_inner(y) =~= quote_inner(x));
    } else {
        assert((x + y).drop_last() =~= x + y.drop_last());
        assert((x + y).last() == y.last());
        lemma_quote_inner_concat(x, y.drop_last());
        let tail: Seq<char> = if y.last() == '\'' { "'\"'\"'"@ } else { seq![y.last()] };
        assert(quote_inner(x + y) =~= quote_inner(x) + quote_inner(y.drop_last()) + tail);
        assert(quote_inner(y) =~= quote_inner(y.drop_last()) + tail);
    }
}

proof fn lemma_quote_inner_plain(s: Seq<char>)
    requires
        forall|i: int| 0 <= i < s.len() ==> s[i] != '\'',
    ensures
        quote_inner(s) == s,
    decreases s.len(),
{
    if s.len() > 0 {
        assert forall|i: int| 0 <= i < s.drop_last().len() implies s.drop_last()[i] != '\'' by {
            assert(s.drop_last()[i] == s[i]);
        }
        lemma_quote_inner_plain(s.drop_last());
        assert(s.last() != '\'');
        assert(s.drop_last() + seq![s.last()] =~= s);
    }
}

proof fn lemma_quoted_word(s: Seq<char>, z: Seq<char>)
    ensures
        shell_word_rest("'"@ + quote_inner(s) + "'"@ + z) == prefixed(s, shell_word_rest(z)),
    decreases s.len(),
{
    reveal_strlit("'");
    reveal_strlit("'\"'\"'");
    let t = "'"@ + quote_inner(s) + "'"@ + z;
    assert(t[0] == '\'');
    let body = t.drop_first();
    match find_char(s, '\'') {
        None => {
            assert forall|i: int| 0 <= i < s.len() implies s[i] != '\'' by {
                if s[i] == '\'' {
                    lemma_no_quote_absent(s, i);
                }
            }
            lemma_quote_inner_plain(s);
            assert(body =~= s + ("'"@ + z));
            assert(body[s.len() as int] == '\'');
            lemma_find_char_first(body, '\'', s.len() as int);
            assert(body.take(s.len() as int) =~= s);
            assert(body.skip(s.len() as int + 1) =~= z);
            assert(!shell_safe('\''));
            assert(shell_word_rest(t) == prefixed(body.take(s.len() as int), shell_word_rest(body.skip(s.len() as int + 1))));
        },
        Some(j) => {
            lemma_find_char_range(s, '\'');
            let a = s.take(j);
            let b = s.skip(j + 1);
            assert(s =~= a + (seq!['\''] + b));
            assert forall|i: int| 0 <= i < a.len() implies a[i] != '\'' by {
                lemma_first_quote(s, j, i);
            }
            lemma_quote_inner_plain(a);
            lemma_quote_inner_concat(a, seq!['\''] + b);
            lemma_quote_inner_concat(seq!['\''], b);
            assert(seq!['\''].drop_last() =~= Seq::<char>::empty());
            assert(quote_inner(Seq::<char>::empty()) =~= Seq::<char>::empty());
            assert(seq!['\''].last() == '\'');
            assert(quote_inner(seq!['\'']) =~= "'\"'\"'"@);
            assert(quote_inner(s) =~= a + ("'\"'\"'"@ + quote_inner(b)));
            let rest2 = "'"@ + quote_inner(b) + "'"@ + z;
            // The single-quoted part: `a`.
            assert(body =~= a + (seq!['\'', '"', '\'', '"'] + rest2));
            assert(body[a.len() as int] == '\'');
            lemma_find_char_first(body, '\'', a.len() as int);
            assert(body.take(a.len() as int) =~= a);
            let rest1 = body.skip(a.len() as int + 1);
            assert(rest1 =~= seq!['"', '\'', '"'] + rest2);
            // The double-quoted part: a single quote.
            let body1 = rest1.drop_first();
            assert(body1 =~= seq!['\'', '"'] + rest2);
            lemma_find_char_first(body1, '"', 1);
            assert(body1.take(1) =~= seq!['\'']);
            assert(!special_in_double_quotes('\''));
            assert(body1.skip(2) =~= rest2);
            assert(!shell_safe('"'));
            assert(rest1[0] == '"');
            assert(!(exists|k: int| 0 <= k < body1.take(1).len() && special_in_double_quotes(body1.take(1)[k])));
            assert(shell_word_rest(rest1) == prefixed(seq!['\''], shell_word_rest(rest2)));
            assert(!shell_safe('\''));
            assert(shell_word_rest(t) == prefixed(a, shell_word_rest(rest1)));
            lemma_quoted_word(b, z);
            match shell_word_rest(z) {
                Some(x) => {
                    assert(a + (seq!['\''] + (b + x)) =~= s + x);
                },
                None => {},
            }
        },
    }
}

proof fn lemma_no_quote_absent(s: Seq<char>, i: int)
    requires
        0 <= i < s.len(),
        s[i] == '\'',
    ensures
        find_char(s, '\'') is Some,
    decreases i,
{
    if i > 0 && s[0] != '\'' {
        lemma_no_quote_absent(s.drop_first(), i - 1);
    }
}

proof fn lemma_first_quote(s: Seq<char>, j: int, i: int)
    requires
        find_char(s, '\'') == Some(j),
        0 <= i < j,
    ensures
        s[i] != '\'',
    decreases i,
{
    lemma_find_char_range(s, '\'');
    if s[0] != '\'' && i > 0 {
        lemma_first_quote(s.drop_first(), j - 1, i - 1);
    }
}

// ── Merging binary specs and reading overrides ─────────────────────

/// The spec at `i` is the last of its name in `names`.
pub open spec fn last_of_name(names: Seq<Seq<char>>, i: int) -> bool {
    forall|j: int| i < j < names.len() ==> names[j] != names[i]
}

/// Which specs survive when specs are merged in order and a later spec of a
/// name replaces an earlier one: the index of the last spec of each name, in
/// increasing order (the order in which the survivors were added).
pub fn last_of_each_name(names: &Vec<String>) -> (r: Vec<usize>)
    ensures
        forall|k: int| 0 <= k < r@.len() ==> r@[k] < names@.len() && last_of_name(strings_view(names@), r@[k] as int),
        forall|k: int, l: int| 0 <= k < l < r@.len() ==> r@[k] < r@[l],
        forall|i: int| 0 <= i < names@.len() && last_of_name(strings_view(names@), i) ==> r@.contains(i as usize),
{
    let ghost nv = strings_view(names@);
    let mut out: Vec<usize> = Vec::new();
    let mut i: usize = 0;
    while i < names.len()
        invariant
            i <= names.len(),
            nv == strings_view(names@),
            forall|k: int| 0 <= k < out@.len() ==> out@[k] < i && last_of_name(nv, out@[k] as int),
            forall|k: int, l: int| 0 <= k < l < out@.len() ==> out@[k] < out@[l],
            forall|m: int| 0 <= m < i && last_of_name(nv, m) ==> out@.contains(m as usize),
        decreases names.len() - i,
    {
        let name = chars_of(names[i].as_str());
        let mut later = false;
        let mut j: usize = i + 1;
        while j < names.len()
            invariant
                i < names.len(),
                i < j <= names.len(),
                nv == strings_view(names@),
                name@ == nv[i as int],
                later == exists|m: int| i < m < j && nv[m] == nv[i as int],
            decreases names.len() - j,
        {
            let other = chars_of(names[j].as_str());
            let ghost before = later;
            if chars_eq(&other, &name) {
                later = true;
            }
            proof {
                assert(nv[j as int] == other@);
                if other@ == name@ {
                    assert(i < j < j + 1 && nv[j as int] == nv[i as int]);
                }
                if exists|m: int| i < m < j + 1 && nv[m] == nv[i as int] {
                    let m = choose|m: int| i < m < j + 1 && nv[m] == nv[i as int];
                    if m < j {
                        assert(before);
                    }
                }
            }
            j = j + 1;
        }
        let ghost prev = out@;
        if !later {
            out.push(i);
            proof {
                assert forall|m: int| 0 <= m < i + 1 && last_of_name(nv, m) implies out@.contains(m as usize) by {
                    if m == i {
                        assert(out@[out@.len() - 1] == i);
                    } else {
                        let k = choose|k: int| 0 <= k < prev.len() && prev[k] == m as usize;
                        assert(out@[k] == m as usize);
                    }
                }
            }
        } else {
            proof {
                let m = choose|m: int| i < m < names@.len() && nv[m] == nv[i as int];
                assert(!last_of_name(nv, i as int));
            }
        }
        i = i + 1;
    }
    out
}

/// The name that a `--binary <name>:<mode>:<value>` override sets: the text
/// before its first `':'`; an error where it has none.
pub open spec fn override_name_of(o: Seq<char>) -> Result<Seq<char>, Seq<char>> {
    match split_once_char(o, ':') {
        Some((name, _)) => Ok(name),
        None => Err("invalid --binary override '"@ + o + "' (expected <name>:<mode>:<value>)"@),
    }
}

/// Reads the name of a `--binary` override (see `override_name_of`).
pub fn override_name(o: &str) -> (r: Result<String, String>)
    ensures
        match override_name_of(o@) {
            Ok(n) => r matches Ok(x) && x@ == n,
            Err(e) => r matches Err(x) && x@ == e,
        },
{
    let cs = chars_of(o);
    match find_char_idx(&cs, ':') {
        Some(i) => {
            let name = slice_chars(&cs, 0, i);
            Ok(string_from(&name))
        },
        None => {
            let mut v: Vec<char> = Vec::new();
            push_str(&mut v, "invalid --binary override '");
            push_str(&mut v, o);
            push_str(&mut v, "' (expected <name>:<mode>:<value>)");
            Err(string_from(&v))
        },
    }
}

/// A POSIX shell reads the quoted text of any string back as exactly that
/// string, as one word.
pub proof fn law_shell_escape_reads_back(s: Seq<char>)
    ensures
        shell_word(shell_escaped(s)) == Some(s),
{
    reveal_strlit("''");
    reveal_strlit("'");
    let e = shell_escaped(s);
    if s.len() == 0 {
        lemma_quoted_word(s, Seq::empty());
        assert(quote_inner(s) =~= Seq::<char>::empty());
        assert("'"@ + quote_inner(s) + "'"@ + Seq::<char>::empty() =~= "''"@);
        assert(Seq::<char>::empty() + Seq::<char>::empty() =~= s);
    } else if forall|i: int| 0 <= i < s.len() ==> shell_safe(#[trigger] s[i]) {
        lemma_safe_word(s, Seq::empty());
        assert(s + Seq::<char>::empty() =~= s);
    } else {
        lemma_quoted_word(s, Seq::empty());
        assert("'"@ + quote_inner(s) + "'"@ + Seq::<char>::empty() =~= e);
        assert(s + Seq::<char>::empty() =~= s);
    }
}

fn char_shell_safe(c: char) -> (b: bool)
    ensures
        b == shell_safe(c),
{
    ('A' <= c && c <= 'Z') || ('a' <= c && c <= 'z') || ('0' <= c && c <= '9') || c == '-' || c
        == '_' || c == '.' || c == '/' || c == ':'
}

/// Quotes `s` for a POSIX shell: unchanged when every character is safe,
/// `''` when empty, and in single quotes otherwise.
pub fn shell_escape(s: &str) -> (r: String)
    ensures
        r@ == shell_escaped(s@),
{
    let cs = chars_of(s);
    if cs.len() == 0 {
        return "''".to_owned();
    }
    let mut all_safe = true;
    let mut i: usize = 0;
    while i < cs.len()
        invariant
            i <= cs.len(),
            all_safe == (forall|j: int| 0 <= j < i ==> shell_safe(#[trigger] cs@[j])),
        decreases cs.len() - i,
    {
        if !char_shell_safe(cs[i]) {
            all_safe = false;
        }
        i = i + 1;
    }
    if all_safe {
        return s.to_owned();
    }
    let mut v: Vec<char> = Vec::new();
    v.push('\'');
    proof {
        reveal_strlit("'");
        assert(quote_inner(cs@.take(0)) =~= Seq::<char>::empty());
        assert(v@ =~= "'"@ + quote_inner(cs@.take(0)));
    }
    let mut k: usize = 0;
    while k < cs.len()
        invariant
            k <= cs.len(),
            v@ == "'"@ + quote_inner(cs@.take(k as int)),
        decreases cs.len() - k,
    {
        proof {
            reveal_strlit("'");
            assert(cs@.take(k + 1).drop_last() =~= cs@.take(k as int));
        }
        if cs[k] == '\'' {
            push_str(&mut v, "'\"'\"'");
        } else {
            v.push(cs[k]);
        }
        proof {
            assert(v@ =~= "'"@ + quote_inner(cs@.take(k + 1)));
        }
        k = k + 1;
    }
    push_str(&mut v, "'");
    proof {
        assert(cs@.take(cs.len() as int) =~= cs@);
    }
    into_string(v)
}

/// Words joined with single spaces.
pub open spec fn join_words(ws: Seq<Seq<char>>) -> Seq<char>
    decreases ws.len(),
{
    if ws.len() == 0 {
        Seq::empty()
    } else if ws.len() == 1 {
        ws[0]
    } else {
        join_words(ws.drop_last()) + " "@ + ws.last()
    }
}

/// Each of `parts` as a shell word.
pub open spec fn escaped_words(parts: Seq<String>) -> Seq<Seq<char>> {
    parts.map_values(|p: String| shell_escaped(p@))
}

/// The shell command line made of `parts`, each quoted as needed.
pub fn shell_join(parts: &[String]) -> (r: String)
    ensures
        r@ == join_words(escaped_words(parts@)),
{
    let mut v: Vec<char> = Vec::new();
    let mut i: usize = 0;
    while i < parts.len()
        invariant
            i <= parts.len(),
            v@ == join_words(escaped_words(parts@.take(i as int))),
        decreases parts.len() - i,
    {
        let w = shell_escape(parts[i].as_str());
        let wc = chars_of(w.as_str());
        proof {
            assert(escaped_words(parts@.take(i + 1)).drop_last() =~= escaped_words(
                parts@.take(i as int),
            ));
        }
        if i > 0 {
            push_str(&mut v, " ");
        }
        push_chars(&mut v, &wc);
        proof {
            if i == 0 {
                assert(escaped_words(parts@.take(0)) =~= Seq::<Seq<char>>::empty());
                assert(v@ =~= escaped_words(parts@.take(1))[0]);
            }
        }
        i = i + 1;
    }
    proof {
        assert(parts@.take(parts.len() as int) =~= parts@);
    }
    into_string(v)
}

/// Where the guest's runner binary comes from.
#[derive(Debug)]
pub enum RunnerSource {
    /// A binary on the host, at this path.
    HostPath(String),
    /// Built for musl from this git ref.
    GitRef(String),
    /// The release with this version (or `latest`).
    Release(String),
}

/// The source of the runner named by `--patchbay-version` on the host `os`:
/// `path:<file>`, `git:<ref>`, or a release version; only Linux and macOS
/// hosts run the VM.
pub open spec fn runner_source_of(os: Seq<char>, version: Seq<char>) -> Result<(nat, Seq<char>), Seq<char>> {
    if os != "linux"@ && os != "macos"@ {
        Err("run-vm is not supported on host OS '"@ + os + "'"@)
    } else if starts_with(version, "path:"@) {
        Ok((0, version.skip(5)))
    } else if starts_with(version, "git:"@) {
        Ok((1, version.skip(4)))
    } else {
        Ok((2, version))
    }
}

/// The kind (0 path, 1 git ref, 2 release) and text of a runner source.
pub open spec fn runner_source_view(r: RunnerSource) -> (nat, Seq<char>) {
    match r {
        RunnerSource::HostPath(p) => (0, p@),
        RunnerSource::GitRef(g) => (1, g@),
        RunnerSource::Release(v) => (2, v@),
    }
}

/// Decides where the runner comes from for the host `os` and `version`.
pub fn runner_source(os: &str, version: &str) -> (r: Result<RunnerSource, String>)
    ensures
        match r {
            Ok(s) => runner_source_of(os@, version@) == Ok::<(nat, Seq<char>), Seq<char>>(runner_source_view(s)),
            Err(m) => runner_source_of(os@, version@) == Err::<(nat, Seq<char>), Seq<char>>(m@),
        },
{
    let o = chars_of(os);
    if !eq_str(&o, "linux") && !eq_str(&o, "macos") {
        let mut v: Vec<char> = Vec::new();
        push_str(&mut v, "run-vm is not supported on host OS '");
        push_str(&mut v, os);
        push_str(&mut v, "'");
        return Err(into_string(v));
    }
    let vc = chars_of(version);
    proof {
        reveal_strlit("path:");
        reveal_strlit("git:");
    }
    match crate::text::strip_prefix(&vc, "path:") {
        Some(rest) => Ok(RunnerSource::HostPath(crate::text::string_from(&rest))),
        None => match crate::text::strip_prefix(&vc, "git:") {
            Some(rest) => Ok(RunnerSource::GitRef(crate::text::string_from(&rest))),
            None => Ok(RunnerSource::Release(version.to_owned())),
        },
    }
}

/// A release tag: `version` with a leading `v`, added when missing.
pub open spec fn release_tag(version: Seq<char>) -> Seq<char> {
    if version.len() > 0 && version[0] == 'v' {
        version
    } else {
        "v"@ + version
    }
}

/// Adds the leading `v` of a release tag to `version` when it lacks one.
pub fn normalize_release_tag(version: &str) -> (r: String)
    ensures
        r@ == release_tag(version@),
{
    let cs = chars_of(version);
    if cs.len() > 0 && cs[0] == 'v' {
        version.to_owned()
    } else {
        let mut v: Vec<char> = Vec::new();
        push_str(&mut v, "v");
        push_chars(&mut v, &cs);
        into_string(v)
    }
}

/// The guest package installation script shared by both backends.
pub const GUEST_PREPARE_SCRIPT: &'static str = "set -euo pipefail; export PATH=/usr/local/sbin:/usr/local/bin:/usr/sbin:/usr/bin:/sbin:/bin:$PATH; export DEBIAN_FRONTEND=noninteractive; if ! command -v ip >/dev/null 2>&1 || ! command -v tc >/dev/null 2>&1 || ! command -v nft >/dev/null 2>&1 || ! command -v modprobe >/dev/null 2>&1 || ! command -v sysctl >/dev/null 2>&1; then apt-get update; apt-get install -y bridge-utils iproute2 iputils-ping iptables nftables net-tools curl iperf3 jq kmod procps; fi; modprobe sch_netem || true; sysctl -w net.ipv4.ip_forward=1";

/// The repository the runner is built from for `git:` versions.
pub const GITHUB_REPO: &'static str = "https://github.com/n0-computer/patchbay.git";

/// The cache key of a release version: `latest`, or its tag.
pub open spec fn version_key(version: Seq<char>) -> Seq<char> {
    if version == "latest"@ {
        "latest"@
    } else {
        release_tag(version)
    }
}

/// `s` with each `/` replaced by `_`.
pub open spec fn slashes_to_underscores(s: Seq<char>) -> Seq<char> {
    s.map_values(|c: char| if c == '/' { '_' } else { c })
}

/// Where a release of the runner comes from and is cached, on a host of
/// architecture `arch`: the download URL, the archive's file name and the
/// name of the directory it is unpacked into, under the cache root.
pub open spec fn release_plan(version: Seq<char>, arch: Seq<char>) -> (Seq<char>, Seq<char>, Seq<char>) {
    let key = slashes_to_underscores(version_key(version));
    let url = if version == "latest"@ {
        "https://github.com/n0-computer/patchbay/releases/latest/download/"@ + musl_asset(arch)
    } else {
        "https://github.com/n0-computer/patchbay/releases/download/"@ + release_tag(version) + "/"@
            + musl_asset(arch)
    };
    (url, key + "-"@ + musl_asset(arch), "release-"@ + key + "-"@ + musl_target(arch))
}

fn underscore_slashes(s: &str) -> (r: Vec<char>)
    ensures
        r@ == slashes_to_underscores(s@),
{
    let cs = chars_of(s);
    let mut out: Vec<char> = Vec::new();
    let mut i: usize = 0;
    while i < cs.len()
        invariant
            i <= cs.len(),
            out@ == slashes_to_underscores(cs@.take(i as int)),
        decreases cs.len() - i,
    {
        let c = cs[i];
        out.push(if c == '/' { '_' } else { c });
        proof {
            assert(slashes_to_underscores(cs@.take(i + 1)) =~= slashes_to_underscores(cs@.take(i as int)).push(
                if c == '/' { '_' } else { c },
            ));
        }
        i = i + 1;
    }
    proof {
        assert(cs@.take(cs.len() as int) =~= cs@);
    }
    out
}

/// The download URL of the runner release `version`, the archive's file name
/// and the directory it is unpacked into.
pub fn release_runner_plan(version: &str, arch: &str) -> (r: (String, String, String))
    ensures
        (r.0@, r.1@, r.2@) == release_plan(version@, arch@),
{
    let vc = chars_of(version);
    let latest = eq_str(&vc, "latest");
    let key_src = if latest { "latest".to_owned() } else { normalize_release_tag(version) };
    let key = underscore_slashes(key_src.as_str());
    let asset = release_musl_asset(arch);
    let target = default_musl_target(arch);
    let mut url: Vec<char> = Vec::new();
    if latest {
        push_str(&mut url, "https://github.com/n0-computer/patchbay/releases/latest/download/");
        push_str(&mut url, asset);
    } else {
        push_str(&mut url, "https://github.com/n0-computer/patchbay/releases/download/");
        push_str(&mut url, key_src.as_str());
        push_str(&mut url, "/");
        push_str(&mut url, asset);
    }
    let mut archive: Vec<char> = Vec::new();
    push_chars(&mut archive, &key);
    push_str(&mut archive, "-");
    push_str(&mut archive, asset);
    let mut unpack: Vec<char> = Vec::new();
    push_str(&mut unpack, "release-");
    push_chars(&mut unpack, &key);
    push_str(&mut unpack, "-");
    push_str(&mut unpack, target);
    (into_string(url), into_string(archive), into_string(unpack))
}

/// A character kept as is in a file name.
pub open spec fn filename_char(c: char) -> bool {
    ('A' <= c && c <= 'Z') || ('a' <= c && c <= 'z') || ('0' <= c && c <= '9') || c == '.' || c
        == '-' || c == '_'
}

/// `s` with every other character replaced by `_`, or `base-image` when empty.
pub open spec fn sanitized_filename(s: Seq<char>) -> Seq<char> {
    if s.len() == 0 {
        "base-image"@
    } else {
        s.map_values(|c: char| if filename_char(c) { c } else { '_' })
    }
}

/// Makes `s` safe as a file name.
pub fn sanitize_filename(s: &str) -> (r: String)
    ensures
        r@ == sanitized_filename(s@),
{
    let cs = chars_of(s);
    if cs.len() == 0 {
        return "base-image".to_owned();
    }
    let mut v: Vec<char> = Vec::new();
    let mut i: usize = 0;
    while i < cs.len()
        invariant
            i <= cs.len(),
            v@ == cs@.take(i as int).map_values(|c: char| if filename_char(c) { c } else { '_' }),
        decreases cs.len() - i,
    {
        let c = cs[i];
        let keep = ('A' <= c && c <= 'Z') || ('a' <= c && c <= 'z') || ('0' <= c && c <= '9') || c
            == '.' || c == '-' || c == '_';
        if keep {
            v.push(c);
        } else {
            v.push('_');
        }
        proof {
            assert(cs@.take(i + 1).map_values(|c: char| if filename_char(c) { c } else { '_' })
                =~= v@);
        }
        i = i + 1;
    }
    proof {
        assert(cs@.take(cs.len() as int) =~= cs@);
    }
    into_string(v)
}

/// The FNV-1a offset basis.
pub const FNV_OFFSET: u64 = 0xcbf29ce484222325;

/// The FNV-1a prime.
pub const FNV_PRIME: u64 = 0x100000001b3;

/// The 64-bit FNV-1a hash of `bytes`.
pub open spec fn fnv_hash(bytes: Seq<u8>) -> u64
    decreases bytes.len(),
{
    if bytes.len() == 0 {
        FNV_OFFSET
    } else {
        (((fnv_hash(bytes.drop_last()) ^ (bytes.last() as u64)) as nat * FNV_PRIME as nat)
            % 0x1_0000_0000_0000_0000) as u64
    }
}

/// The 64-bit FNV-1a hash of `bytes`.
pub fn fnv1a64(bytes: &[u8]) -> (h: u64)
    ensures
        h == fnv_hash(bytes@),
{
    let mut h: u64 = FNV_OFFSET;
    let mut i: usize = 0;
    while i < bytes.len()
        invariant
            i <= bytes.len(),
            h == fnv_hash(bytes@.take(i as int)),
        decreases bytes.len() - i,
    {
        proof {
            assert(bytes@.take(i + 1).drop_last() =~= bytes@.take(i as int));
        }
        h = h ^ (bytes[i] as u64);
        h = h.wrapping_mul(FNV_PRIME);
        i = i + 1;
    }
    proof {
        assert(bytes@.take(bytes.len() as int) =~= bytes@);
    }
    h
}


/// Arguments of a run of simulations in the VM.
#[derive(Debug)]
pub struct RunVmArgs {
    pub sim_inputs: Vec<String>,
    pub work_dir: String,
    pub binary_overrides: Vec<String>,
    pub verbose: bool,
    pub recreate: bool,
    pub patchbay_version: String,
}

/// Arguments of a run of tests in the VM.
#[derive(Debug)]
pub struct TestVmArgs {
    pub filter: Option<String>,
    pub target: String,
    pub packages: Vec<String>,
    pub tests: Vec<String>,
    pub recreate: bool,
    pub cargo_args: Vec<String>,
}

/// A file that a simulation extends.
#[derive(Debug)]
pub struct VmExtends {
    pub file: String,
}

/// The `[sim]` table of a simulation file, as the VM launcher reads it.
#[derive(Debug)]
pub struct VmSimMeta {
    pub binaries: Option<String>,
}

/// What the VM launcher reads of a simulation file besides its binaries.
#[derive(Debug)]
pub struct VmSimFile {
    pub sim: VmSimMeta,
    pub extends: Vec<VmExtends>,
}

/// A binary to build on the host for the guest.
#[derive(Debug)]
pub struct VmBuildRequest {
    pub source_dir: String,
    pub example: Option<String>,
    pub bin: Option<String>,
    pub features: Vec<String>,
    pub all_features: bool,
}

/// The content of a build request.
pub struct BuildRequestView {
    pub source_dir: Seq<char>,
    pub example: Option<Seq<char>>,
    pub bin: Option<Seq<char>>,
    pub features: Seq<Seq<char>>,
    pub all_features: bool,
}

impl View for VmBuildRequest {
    type V = BuildRequestView;

    open spec fn view(&self) -> BuildRequestView {
        BuildRequestView {
            source_dir: self.source_dir@,
            example: opt_chars(self.example),
            bin: opt_chars(self.bin),
            features: strings_view(self.features@),
            all_features: self.all_features,
        }
    }
}

impl Clone for VmBuildRequest {
    fn clone(&self) -> (r: Self)
        ensures
            r@ == self@,
    {
        let features = clone_strings(&self.features);
        VmBuildRequest {
            source_dir: self.source_dir.clone(),
            example: clone_opt_string(&self.example),
            bin: clone_opt_string(&self.bin),
            features,
            all_features: self.all_features,
        }
    }
}

fn opt_string_eq(a: &Option<String>, b: &Option<String>) -> (r: bool)
    ensures
        r == (opt_chars(*a) == opt_chars(*b)),
{
    match (a, b) {
        (Some(x), Some(y)) => *x == *y,
        (None, None) => true,
        _ => false,
    }
}

fn strings_eq(a: &Vec<String>, b: &Vec<String>) -> (r: bool)
    ensures
        r == (strings_view(a@) == strings_view(b@)),
{
    if a.len() != b.len() {
        proof {
            assert(strings_view(a@).len() != strings_view(b@).len());
        }
        return false;
    }
    let mut i: usize = 0;
    while i < a.len()
        invariant
            i <= a.len(),
            a.len() == b.len(),
            forall|j: int| 0 <= j < i ==> a@[j]@ == b@[j]@,
        decreases a.len() - i,
    {
        if a[i] != b[i] {
            proof {
                assert(strings_view(a@)[i as int] != strings_view(b@)[i as int]);
            }
            return false;
        }
        i = i + 1;
    }
    proof {
        assert(strings_view(a@) =~= strings_view(b@));
    }
    true
}

/// Whether the paths `a` and `b` are equal as `std::path::Path` compares
/// them: component by component.
pub uninterp spec fn paths_equal(a: Seq<char>, b: Seq<char>) -> bool;

/// Compares `Path::new(a)` and `Path::new(b)` with `==`, which compares their
/// components. The contract claims only that the answer is a function of the
/// two texts (`paths_equal`).
#[verifier::external_body]
fn same_path(a: &str, b: &str) -> (r: bool)
    ensures
        r == paths_equal(a@, b@),
{
    std::path::Path::new(a) == std::path::Path::new(b)
}

/// Two build requests ask for the same build: the same source directory as a
/// path, and the same example, binary, features and all-features flag.
pub open spec fn same_build(a: BuildRequestView, b: BuildRequestView) -> bool {
    &&& paths_equal(a.source_dir, b.source_dir)
    &&& a.example == b.example
    &&& a.bin == b.bin
    &&& a.features == b.features
    &&& a.all_features == b.all_features
}

/// Two build requests ask for the same build (see `same_build`).
pub fn same_request(a: &VmBuildRequest, b: &VmBuildRequest) -> (r: bool)
    ensures
        r == same_build(a@, b@),
{
    same_path(a.source_dir.as_str(), b.source_dir.as_str()) && opt_string_eq(&a.example, &b.example) && opt_string_eq(
        &b.bin,
        &a.bin,
    ) && strings_eq(&a.features, &b.features) && a.all_features == b.all_features
}

/// Words joined with `sep`.
pub open spec fn join_sep(ws: Seq<Seq<char>>, sep: Seq<char>) -> Seq<char>
    decreases ws.len(),
{
    if ws.len() == 0 {
        Seq::empty()
    } else if ws.len() == 1 {
        ws[0]
    } else {
        join_sep(ws.drop_last(), sep) + sep + ws.last()
    }
}

/// `parts` joined with `sep`.
pub fn join_strings(parts: &[String], sep: &str) -> (r: String)
    ensures
        r@ == join_sep(strings_view(parts@), sep@),
{
    let mut v: Vec<char> = Vec::new();
    let mut i: usize = 0;
    while i < parts.len()
        invariant
            i <= parts.len(),
            v@ == join_sep(strings_view(parts@.take(i as int)), sep@),
        decreases parts.len() - i,
    {
        let wc = chars_of(parts[i].as_str());
        proof {
            assert(strings_view(parts@.take(i + 1)).drop_last() =~= strings_view(
                parts@.take(i as int),
            ));
        }
        if i > 0 {
            push_str(&mut v, sep);
        }
        push_chars(&mut v, &wc);
        proof {
            if i == 0 {
                assert(v@ =~= strings_view(parts@.take(1))[0]);
            }
        }
        i = i + 1;
    }
    proof {
        assert(parts@.take(parts.len() as int) =~= parts@);
    }
    into_string(v)
}

/// The cargo arguments common to every build of a request, for `target`.
pub open spec fn base_build_args(target: Seq<char>, req: BuildRequestView) -> Seq<Seq<char>> {
    seq!["build"@, "--release"@, "--target"@, target] + if req.all_features {
        seq!["--all-features"@]
    } else if req.features.len() > 0 {
        seq!["--features"@, join_sep(req.features, ","@)]
    } else {
        Seq::empty()
    }
}

/// The guest path of an example built for `target`.
pub open spec fn example_path(target: Seq<char>, name: Seq<char>) -> Seq<char> {
    "/target/"@ + target + "/release/examples/"@ + name
}

/// The guest path of a binary built for `target`.
pub open spec fn bin_path(target: Seq<char>, name: Seq<char>) -> Seq<char> {
    "/target/"@ + target + "/release/"@ + name
}

/// The builds to try for the binary `name`, in order, each with its cargo
/// arguments and the guest path of what it builds: the example or bin that the
/// request names, or else an example called `name` and then a bin called `name`.
pub open spec fn build_attempts(target: Seq<char>, name: Seq<char>, req: BuildRequestView) -> Seq<
    (Seq<Seq<char>>, Seq<char>),
> {
    let base = base_build_args(target, req);
    match req.example {
        Some(e) => seq![(base + seq!["--example"@, e], example_path(target, e))],
        None => match req.bin {
            Some(b) => seq![(base + seq!["--bin"@, b], bin_path(target, b))],
            None => seq![
                (base + seq!["--example"@, name], example_path(target, name)),
                (base + seq!["--bin"@, name], bin_path(target, name)),
            ],
        },
    }
}

/// One build to try: the cargo arguments and the guest path of the result.
#[derive(Debug)]
pub struct BuildAttempt {
    pub args: Vec<String>,
    pub guest_path: String,
}

/// The content of a build attempt.
pub open spec fn attempt_view(a: BuildAttempt) -> (Seq<Seq<char>>, Seq<char>) {
    (strings_view(a.args@), a.guest_path@)
}

fn lit(s: &str) -> (r: String)
    ensures
        r@ == s@,
{
    s.to_owned()
}

fn base_args_exec(target: &str, req: &VmBuildRequest) -> (r: Vec<String>)
    ensures
        strings_view(r@) == base_build_args(target@, req@),
{
    let mut args: Vec<String> = Vec::new();
    args.push(lit("build"));
    args.push(lit("--release"));
    args.push(lit("--target"));
    args.push(target.to_owned());
    if req.all_features {
        args.push(lit("--all-features"));
    } else if req.features.len() > 0 {
        args.push(lit("--features"));
        args.push(join_strings(req.features.as_slice(), ","));
    }
    proof {
        assert(strings_view(args@) =~= base_build_args(target@, req@));
    }
    args
}

fn with_two(base: &Vec<String>, a: &str, b: &str) -> (r: Vec<String>)
    ensures
        strings_view(r@) == strings_view(base@) + seq![a@, b@],
{
    let mut v = clone_strings(base);
    v.push(a.to_owned());
    v.push(b.to_owned());
    proof {
        assert(strings_view(v@) =~= strings_view(base@) + seq![a@, b@]);
    }
    v
}

fn guest_path(prefix: &str, target: &str, middle: &str, name: &str) -> (r: String)
    ensures
        r@ == prefix@ + target@ + middle@ + name@,
{
    let mut v: Vec<char> = Vec::new();
    push_str(&mut v, prefix);
    push_str(&mut v, target);
    push_str(&mut v, middle);
    push_str(&mut v, name);
    into_string(v)
}

/// The builds to try, in order, for the binary `name` of `req` on `target`.
pub fn vm_build_attempts(target: &str, name: &str, req: &VmBuildRequest) -> (r: Vec<BuildAttempt>)
    ensures
        r@.map_values(|a: BuildAttempt| attempt_view(a)) == build_attempts(target@, name@, req@),
{
    let base = base_args_exec(target, req);
    let mut out: Vec<BuildAttempt> = Vec::new();
    match &req.example {
        Some(e) => {
            out.push(
                BuildAttempt {
                    args: with_two(&base, "--example", e.as_str()),
                    guest_path: guest_path("/target/", target, "/release/examples/", e.as_str()),
                },
            );
        },
        None => match &req.bin {
            Some(b) => {
                out.push(
                    BuildAttempt {
                        args: with_two(&base, "--bin", b.as_str()),
                        guest_path: guest_path("/target/", target, "/release/", b.as_str()),
                    },
                );
            },
            None => {
                out.push(
                    BuildAttempt {
                        args: with_two(&base, "--example", name),
                        guest_path: guest_path("/target/", target, "/release/examples/", name),
                    },
                );
                out.push(
                    BuildAttempt {
                        args: with_two(&base, "--bin", name),
                        guest_path: guest_path("/target/", target, "/release/", name),
                    },
                );
            },
        },
    }
    proof {
        assert(out@.map_values(|a: BuildAttempt| attempt_view(a)) =~= build_attempts(
            target@,
            name@,
            req@,
        ));
    }
    out
}


/// A binary of a simulation that is built on the host: its name, the
/// simulation file that asks for it, whether its source is a repository, and
/// what to build.
#[derive(Debug)]
pub struct BuildCandidate {
    pub name: String,
    pub sim_path: String,
    pub repo_based: bool,
    pub request: VmBuildRequest,
}

/// The content of a build candidate.
pub open spec fn candidate_view(c: BuildCandidate) -> (Seq<char>, Seq<char>, bool, BuildRequestView) {
    (c.name@, c.sim_path@, c.repo_based, c.request@)
}

/// A build that the guest needs: the binary's name, what to build, and the
/// simulation file that first asked for it.
#[derive(Debug)]
pub struct BuildJob {
    pub name: String,
    pub request: VmBuildRequest,
    pub first_seen: String,
}

/// The names of the jobs, in order.
pub open spec fn job_names(jobs: Seq<BuildJob>) -> Seq<Seq<char>> {
    jobs.map_values(|j: BuildJob| j.name@)
}

/// The jobs by name: what each builds and where it was first asked for.
pub open spec fn jobs_map(jobs: Seq<BuildJob>) -> Map<Seq<char>, (BuildRequestView, Seq<char>)> {
    let names = job_names(jobs);
    Map::new(
        |k: Seq<char>| last_index(names, k) >= 0,
        |k: Seq<char>| (jobs[last_index(names, k)].request@, jobs[last_index(names, k)].first_seen@),
    )
}

/// The error for a candidate whose source is a repository.
pub open spec fn repo_build_text(name: Seq<char>, sim_path: Seq<char>) -> Seq<char> {
    "VM auto-override does not support repo-based build spec '"@ + name + "' in "@ + sim_path
}

/// The error for two candidates of one name that ask for different builds.
pub open spec fn duplicate_build_text(name: Seq<char>, first: Seq<char>, sim_path: Seq<char>) -> Seq<
    char,
> {
    "duplicate build spec '"@ + name + "' differs across sims: "@ + first + " vs "@ + sim_path
}

/// The builds that the candidates ask for, taken in order: names the user
/// overrode are skipped, a repository source is an error, a name seen before
/// must ask for the same build, and a new name is added with where it was seen.
pub open spec fn collect_builds(
    cands: Seq<(Seq<char>, Seq<char>, bool, BuildRequestView)>,
    overridden: Seq<Seq<char>>,
) -> Result<Map<Seq<char>, (BuildRequestView, Seq<char>)>, Seq<char>>
    decreases cands.len(),
{
    if cands.len() == 0 {
        Ok(Map::empty())
    } else {
        match collect_builds(cands.drop_last(), overridden) {
            Err(e) => Err(e),
            Ok(m) => {
                let (name, sim_path, repo_based, req) = cands.last();
                if overridden.contains(name) {
                    Ok(m)
                } else if repo_based {
                    Err(repo_build_text(name, sim_path))
                } else if m.contains_key(name) {
                    if same_build(m[name].0, req) {
                        Ok(m)
                    } else {
                        Err(duplicate_build_text(name, m[name].1, sim_path))
                    }
                } else {
                    Ok(m.insert(name, (req, sim_path)))
                }
            },
        }
    }
}

fn contains_string(v: &Vec<String>, x: &String) -> (r: bool)
    ensures
        r == strings_view(v@).contains(x@),
{
    let mut i: usize = 0;
    while i < v.len()
        invariant
            i <= v.len(),
            forall|j: int| 0 <= j < i ==> v@[j]@ != x@,
        decreases v.len() - i,
    {
        if v[i] == *x {
            proof {
                assert(strings_view(v@)[i as int] == x@);
            }
            return true;
        }
        i = i + 1;
    }
    proof {
        if strings_view(v@).contains(x@) {
            let j = choose|j: int| 0 <= j < strings_view(v@).len() && strings_view(v@)[j] == x@;
            assert(v@[j]@ == x@);
        }
    }
    false
}

fn text3(a: &str, b: &str, c: &str, d: &str) -> (r: Vec<char>)
    ensures
        r@ == a@ + b@ + c@ + d@,
{
    let mut v: Vec<char> = Vec::new();
    push_str(&mut v, a);
    push_str(&mut v, b);
    push_str(&mut v, c);
    push_str(&mut v, d);
    v
}

proof fn lemma_jobs_map_insert_other(jobs: Seq<BuildJob>, p: int, job: BuildJob, k: Seq<char>)
    requires
        0 <= p <= jobs.len(),
        strictly_sorted(job_names(jobs)),
        strictly_sorted(job_names(jobs.insert(p, job))),
        k != job.name@,
    ensures
        jobs_map(jobs.insert(p, job)).contains_key(k) == jobs_map(jobs).contains_key(k),
        jobs_map(jobs).contains_key(k) ==> jobs_map(jobs.insert(p, job))[k] == jobs_map(jobs)[k],
{
    let new_jobs = jobs.insert(p, job);
    let names = job_names(jobs);
    let new_names = job_names(new_jobs);
    assert(new_names =~= names.insert(p, job.name@));
    lemma_sorted_no_dup(names);
    lemma_sorted_no_dup(new_names);
    lemma_last_index_range(names, k);
    let i = last_index(names, k);
    if i >= 0 {
        let ni = if i < p { i } else { i + 1 };
        assert(new_jobs[ni] == jobs[i]);
        assert(new_names[ni] == k);
        lemma_last_index_at(new_names, k, ni);
    } else {
        assert forall|j: int| 0 <= j < new_names.len() implies new_names[j] != k by {
            if new_names[j] == k {
                let oj = if j < p { j } else { j - 1 };
                assert(names[oj] == k);
                lemma_last_index_at(names, k, oj);
            }
        }
        crate::text::lemma_last_index_absent(new_names, k);
    }
}

proof fn lemma_jobs_map_insert(jobs: Seq<BuildJob>, p: int, job: BuildJob)
    requires
        0 <= p <= jobs.len(),
        strictly_sorted(job_names(jobs)),
        strictly_sorted(job_names(jobs.insert(p, job))),
    ensures
        jobs_map(jobs.insert(p, job)) == jobs_map(jobs).insert(job.name@, (job.request@, job.first_seen@)),
{
    let new_jobs = jobs.insert(p, job);
    let names = job_names(jobs);
    let new_names = job_names(new_jobs);
    assert(new_names =~= names.insert(p, job.name@));
    lemma_sorted_no_dup(names);
    lemma_sorted_no_dup(new_names);
    assert(new_names[p] == job.name@);
    lemma_last_index_at(new_names, job.name@, p);
    let lhs = jobs_map(new_jobs);
    let rhs = jobs_map(jobs).insert(job.name@, (job.request@, job.first_seen@));
    assert forall|k: Seq<char>| #[trigger] lhs.dom().contains(k) <==> rhs.dom().contains(k) by {
        if k != job.name@ {
            lemma_jobs_map_insert_other(jobs, p, job, k);
        }
    }
    assert forall|k: Seq<char>| #[trigger] lhs.contains_key(k) && k != job.name@ implies lhs[k] == rhs[k] by {
        lemma_jobs_map_insert_other(jobs, p, job, k);
    }
    assert(lhs.contains_key(job.name@));
    assert(lhs[job.name@] == (job.request@, job.first_seen@));
    assert(rhs.contains_key(job.name@));
    assert(lhs.dom() =~= rhs.dom());
    assert(lhs =~= rhs);
}

proof fn lemma_collect_err_stays(
    cands: Seq<(Seq<char>, Seq<char>, bool, BuildRequestView)>,
    overridden: Seq<Seq<char>>,
    k: int,
    e: Seq<char>,
)
    requires
        0 <= k <= cands.len(),
        collect_builds(cands.take(k), overridden) == Err::<Map<Seq<char>, (BuildRequestView, Seq<char>)>, Seq<char>>(e),
    ensures
        collect_builds(cands, overridden) == Err::<Map<Seq<char>, (BuildRequestView, Seq<char>)>, Seq<char>>(e),
    decreases cands.len(),
{
    if k == cands.len() {
        assert(cands.take(k) =~= cands);
    } else {
        assert(cands.drop_last().take(k) =~= cands.take(k));
        lemma_collect_err_stays(cands.drop_last(), overridden, k, e);
    }
}

/// The builds that the candidates ask for, sorted by name; or the first error
/// met, as [`collect_builds`] takes them in order.
pub fn collect_build_jobs(cands: &Vec<BuildCandidate>, overridden: &Vec<String>) -> (r: Result<
    Vec<BuildJob>,
    String,
>)
    ensures
        match r {
            Ok(jobs) => collect_builds(
                cands@.map_values(|c: BuildCandidate| candidate_view(c)),
                strings_view(overridden@),
            ) == Ok::<_, Seq<char>>(jobs_map(jobs@)) && strictly_sorted(job_names(jobs@)),
            Err(m) => collect_builds(
                cands@.map_values(|c: BuildCandidate| candidate_view(c)),
                strings_view(overridden@),
            ) == Err::<Map<Seq<char>, (BuildRequestView, Seq<char>)>, Seq<char>>(m@),
        },
{
    let ghost cv = cands@.map_values(|c: BuildCandidate| candidate_view(c));
    let ghost ov = strings_view(overridden@);
    let mut jobs: Vec<BuildJob> = Vec::new();
    let mut i: usize = 0;
    proof {
        assert(cv.take(0) =~= Seq::<(Seq<char>, Seq<char>, bool, BuildRequestView)>::empty());
        assert(jobs_map(jobs@) =~= Map::<Seq<char>, (BuildRequestView, Seq<char>)>::empty());
    }
    while i < cands.len()
        invariant
            i <= cands.len(),
            cv == cands@.map_values(|c: BuildCandidate| candidate_view(c)),
            ov == strings_view(overridden@),
            strictly_sorted(job_names(jobs@)),
            collect_builds(cv.take(i as int), ov) == Ok::<_, Seq<char>>(jobs_map(jobs@)),
        decreases cands.len() - i,
    {
        let c = &cands[i];
        proof {
            assert(cv.take(i + 1).drop_last() =~= cv.take(i as int));
            assert(cv.take(i + 1).last() == candidate_view(*c));
        }
        if contains_string(overridden, &c.name) {
            i = i + 1;
            continue;
        }
        if c.repo_based {
            let m = text3(
                "VM auto-override does not support repo-based build spec '",
                c.name.as_str(),
                "' in ",
                c.sim_path.as_str(),
            );
            proof {
                lemma_collect_err_stays(cv, ov, i + 1, m@);
            }
            return Err(into_string(m));
        }
        let name = chars_of(c.name.as_str());
        let ghost names = job_names(jobs@);
        let mut p: usize = 0;
        let mut stop = false;
        while p < jobs.len() && !stop
            invariant
                p <= jobs.len(),
                names == job_names(jobs@),
                forall|j: int| 0 <= j < p ==> lex_lt(#[trigger] names[j], name@),
                stop ==> p < jobs.len() && !lex_lt(names[p as int], name@),
            decreases jobs.len() - p, if stop { 0int } else { 1int },
        {
            let cur = chars_of(jobs[p].name.as_str());
            if !lex_lt_chars(&cur, &name) {
                stop = true;
            } else {
                p = p + 1;
            }
        }
        let present = if p < jobs.len() {
            let cur = chars_of(jobs[p].name.as_str());
            chars_eq(&cur, &name)
        } else {
            false
        };
        proof {
            lemma_sorted_no_dup(names);
        }
        if present {
            proof {
                assert(names[p as int] == name@);
                lemma_last_index_at(names, name@, p as int);
            }
            if !same_request(&jobs[p].request, &c.request) {
                let mut m = text3("duplicate build spec '", c.name.as_str(), "' differs across sims: ", jobs[p].first_seen.as_str());
                push_str(&mut m, " vs ");
                push_str(&mut m, c.sim_path.as_str());
                proof {
                    lemma_collect_err_stays(cv, ov, i + 1, m@);
                }
                return Err(into_string(m));
            }
        } else {
            proof {
                if p < jobs.len() {
                    lemma_lex_total(names[p as int], name@);
                }
                assert forall|j: int| 0 <= j < names.len() implies names[j] != name@ by {
                    if j < p {
                        crate::text::lemma_lex_irreflexive(name@);
                    } else if j > p {
                        crate::text::lemma_lex_trans(name@, names[p as int], names[j]);
                        crate::text::lemma_lex_irreflexive(name@);
                    }
                }
                crate::text::lemma_last_index_absent(names, name@);
                lemma_insert_sorted(names, p as int, name@);
            }
            let job = BuildJob {
                name: c.name.clone(),
                request: c.request.clone(),
                first_seen: c.sim_path.clone(),
            };
            let ghost old_jobs = jobs@;
            jobs.insert(p, job);
            proof {
                assert(job_names(jobs@) =~= names.insert(p as int, name@));
                lemma_jobs_map_insert(old_jobs, p as int, job);
            }
        }
        i = i + 1;
    }
    proof {
        assert(cv.take(cands.len() as int) =~= cv);
    }
    Ok(jobs)
}

/// A name that the user overrode never becomes a build job, and every job
/// comes from a candidate that is not repository-based.
pub proof fn law_overridden_names_are_not_built(
    cands: Seq<(Seq<char>, Seq<char>, bool, BuildRequestView)>,
    overridden: Seq<Seq<char>>,
    name: Seq<char>,
)
    ensures
        collect_builds(cands, overridden) matches Ok(m) ==> (overridden.contains(name) ==> !m.contains_key(name)),
        collect_builds(cands, overridden) matches Ok(m) ==> (m.contains_key(name) ==> exists|i: int|
            0 <= i < cands.len() && (#[trigger] cands[i]).0 == name && !cands[i].2 && cands[i].3 == m[name].0),
    decreases cands.len(),
{
    if cands.len() > 0 {
        law_overridden_names_are_not_built(cands.drop_last(), overridden, name);
        match collect_builds(cands.drop_last(), overridden) {
            Ok(m0) => {
                if m0.contains_key(name) {
                    let i = choose|i: int| 0 <= i < cands.drop_last().len() && (#[trigger] cands.drop_last()[i]).0
                        == name && !cands.drop_last()[i].2 && cands.drop_last()[i].3 == m0[name].0;
                    assert(cands[i] == cands.drop_last()[i]);
                }
                let last = cands.last();
                if last.0 == name {
                    assert(cands[cands.len() - 1] == last);
                }
            },
            Err(_) => {},
        }
    }
}

/// The `--binary` override that points the guest at a built binary.
pub open spec fn override_line(name: Seq<char>, guest_path: Seq<char>) -> Seq<char> {
    name + ":path:"@ + guest_path
}

/// The `--binary` override `name:path:guest_path`.
pub fn guest_override(name: &str, guest_path: &str) -> (r: String)
    ensures
        r@ == override_line(name@, guest_path@),
{
    let mut v: Vec<char> = Vec::new();
    push_str(&mut v, name);
    push_str(&mut v, ":path:");
    push_str(&mut v, guest_path);
    into_string(v)
}


/// Each of `vals` preceded by `flag`.
pub open spec fn flag_pairs(flag: Seq<char>, vals: Seq<Seq<char>>) -> Seq<Seq<char>>
    decreases vals.len(),
{
    if vals.len() == 0 {
        Seq::empty()
    } else {
        flag_pairs(flag, vals.drop_last()) + seq![flag, vals.last()]
    }
}

/// The arguments of `cargo test --no-run` that builds the test binaries.
pub open spec fn test_build_args(
    target: Seq<char>,
    packages: Seq<Seq<char>>,
    tests: Seq<Seq<char>>,
    cargo_args: Seq<Seq<char>>,
) -> Seq<Seq<char>> {
    seq!["test"@, "--no-run"@, "--target"@, target, "--message-format"@, "json"@] + flag_pairs(
        "-p"@,
        packages,
    ) + flag_pairs("--test"@, tests) + cargo_args
}

/// Appends `flag` before each of `vals`.
pub fn push_flag_pairs(out: &mut Vec<String>, flag: &str, vals: &Vec<String>)
    ensures
        strings_view(final(out)@) == strings_view(old(out)@) + flag_pairs(flag@, strings_view(vals@)),
{
    let ghost start = strings_view(out@);
    let mut i: usize = 0;
    while i < vals.len()
        invariant
            i <= vals.len(),
            strings_view(out@) == start + flag_pairs(flag@, strings_view(vals@.take(i as int))),
        decreases vals.len() - i,
    {
        let ghost prev = out@;
        out.push(flag.to_owned());
        out.push(vals[i].clone());
        proof {
            assert(strings_view(out@) =~= strings_view(prev).push(flag@).push(vals@[i as int]@));
            assert(strings_view(vals@.take(i + 1)) =~= strings_view(vals@.take(i as int)).push(vals@[i as int]@));
            assert(vals@.take(i + 1) =~= vals@.take(i as int).push(vals@[i as int]));
            assert(strings_view(vals@.take(i + 1)).drop_last() =~= strings_view(vals@.take(i as int)));
            assert(strings_view(out@) =~= start + flag_pairs(flag@, strings_view(vals@.take(i + 1))));
        }
        i = i + 1;
    }
    proof {
        assert(vals@.take(vals.len() as int) =~= vals@);
    }
}

/// The arguments of `cargo test --no-run` for `target`, the packages, the test
/// targets and the extra cargo arguments.
pub fn test_build_cmd_args(
    target: &str,
    packages: &Vec<String>,
    tests: &Vec<String>,
    cargo_args: &Vec<String>,
) -> (r: Vec<String>)
    ensures
        strings_view(r@) == test_build_args(
            target@,
            strings_view(packages@),
            strings_view(tests@),
            strings_view(cargo_args@),
        ),
{
    let mut out: Vec<String> = Vec::new();
    out.push(lit("test"));
    out.push(lit("--no-run"));
    out.push(lit("--target"));
    out.push(target.to_owned());
    out.push(lit("--message-format"));
    out.push(lit("json"));
    proof {
        assert(strings_view(out@) =~= seq!["test"@, "--no-run"@, "--target"@, target@, "--message-format"@, "json"@]);
    }
    push_flag_pairs(&mut out, "-p", packages);
    push_flag_pairs(&mut out, "--test", tests);
    let ghost before = strings_view(out@);
    let mut i: usize = 0;
    while i < cargo_args.len()
        invariant
            i <= cargo_args.len(),
            strings_view(out@) == before + strings_view(cargo_args@.take(i as int)),
        decreases cargo_args.len() - i,
    {
        let ghost prev = out@;
        out.push(cargo_args[i].clone());
        proof {
            assert(out@ == prev.push(cargo_args@[i as int]));
            assert(strings_view(out@) =~= strings_view(prev).push(cargo_args@[i as int]@));
            assert(strings_view(cargo_args@.take(i + 1)) =~= strings_view(cargo_args@.take(i as int)).push(cargo_args@[i as int]@));
            assert(cargo_args@.take(i + 1) =~= cargo_args@.take(i as int).push(cargo_args@[i as int]));
            assert(strings_view(out@) =~= before + strings_view(cargo_args@.take(i + 1)));
        }
        i = i + 1;
    }
    proof {
        assert(cargo_args@.take(cargo_args.len() as int) =~= cargo_args@);
    }
    out
}

/// What is read from one line of cargo's JSON messages: `reason`,
/// `profile.test`, `executable` and `message.rendered`, each where present
/// with the right JSON type.
#[derive(Debug)]
pub struct CargoMessage {
    pub reason: Option<String>,
    pub profile_test: Option<bool>,
    pub executable: Option<String>,
    pub rendered: Option<String>,
}

/// The content of a cargo message.
pub open spec fn cargo_message_view(m: CargoMessage) -> (
    Option<Seq<char>>,
    Option<bool>,
    Option<Seq<char>>,
    Option<Seq<char>>,
) {
    (opt_chars(m.reason), m.profile_test, opt_chars(m.executable), opt_chars(m.rendered))
}

/// The fields that a JSON decoder reads from the cargo message line `line`:
/// `None` where the line is not a JSON value.
pub uninterp spec fn cargo_json_fields(line: Seq<char>) -> Option<
    (Option<Seq<char>>, Option<bool>, Option<Seq<char>>, Option<Seq<char>>),
>;

/// Decodes `line` with `serde_json::from_str` and picks the fields of a cargo
/// message. The contract claims only that the result is a function of the line
/// (`cargo_json_fields`).
#[verifier::external_body]
fn cargo_message(line: &str) -> (r: Option<CargoMessage>)
    ensures
        match r {
            Some(m) => cargo_json_fields(line@) == Some(cargo_message_view(m)),
            None => cargo_json_fields(line@) is None,
        },
{
    let v: serde_json::Value = serde_json::from_str(line).ok()?;
    Some(CargoMessage {
        reason: v.get("reason").and_then(serde_json::Value::as_str).map(String::from),
        profile_test: v.get("profile").and_then(|p| p.get("test")).and_then(serde_json::Value::as_bool),
        executable: v.get("executable").and_then(serde_json::Value::as_str).map(String::from),
        rendered: v.get("message").and_then(|m| m.get("rendered")).and_then(serde_json::Value::as_str).map(String::from),
    })
}

/// The test executable that a cargo message announces: a `compiler-artifact`
/// of a test profile that has an executable.
pub open spec fn artifact_executable(
    f: (Option<Seq<char>>, Option<bool>, Option<Seq<char>>, Option<Seq<char>>),
) -> Option<Seq<char>> {
    let (reason, test, exe, _rendered) = f;
    if reason == Some("compiler-artifact"@) && test == Some(true) {
        exe
    } else {
        None
    }
}

/// The rendered diagnostic of a `compiler-message`.
pub open spec fn rendered_message(
    f: (Option<Seq<char>>, Option<bool>, Option<Seq<char>>, Option<Seq<char>>),
) -> Option<Seq<char>> {
    let (reason, _test, _exe, rendered) = f;
    if reason == Some("compiler-message"@) {
        rendered
    } else {
        None
    }
}

fn reason_is(m: &CargoMessage, word: &str) -> (b: bool)
    ensures
        b == (opt_chars(m.reason) == Some(word@)),
{
    match &m.reason {
        Some(r) => {
            let rc = chars_of(r.as_str());
            eq_str(&rc, word)
        },
        None => false,
    }
}

/// The test executable that the cargo message `m` announces, if any.
pub fn test_executable_of(m: &CargoMessage) -> (r: Option<String>)
    ensures
        opt_chars(r) == artifact_executable(cargo_message_view(*m)),
{
    if reason_is(m, "compiler-artifact") && m.profile_test == Some(true) {
        clone_opt_string(&m.executable)
    } else {
        None
    }
}

/// The rendered compiler diagnostic that the cargo message `m` carries, if any.
pub fn rendered_of(m: &CargoMessage) -> (r: Option<String>)
    ensures
        opt_chars(r) == rendered_message(cargo_message_view(*m)),
{
    if reason_is(m, "compiler-message") {
        clone_opt_string(&m.rendered)
    } else {
        None
    }
}

/// What `pick` gives for each line of cargo output that decodes, in order.
pub open spec fn picked(
    lines: Seq<Seq<char>>,
    pick: spec_fn((Option<Seq<char>>, Option<bool>, Option<Seq<char>>, Option<Seq<char>>)) -> Option<Seq<char>>,
) -> Seq<Seq<char>>
    decreases lines.len(),
{
    if lines.len() == 0 {
        Seq::empty()
    } else {
        picked(lines.drop_last(), pick) + match cargo_json_fields(lines.last()) {
            Some(f) => match pick(f) {
                Some(x) => seq![x],
                None => Seq::empty(),
            },
            None => Seq::empty(),
        }
    }
}

/// The test executables that cargo's JSON output `lines` announces, in order.
pub fn test_executables(lines: &Vec<String>) -> (r: Vec<String>)
    ensures
        strings_view(r@) == picked(strings_view(lines@), |f| artifact_executable(f)),
{
    collect_picked(lines, true)
}

/// The rendered compiler diagnostics in cargo's JSON output `lines`, in order.
pub fn compiler_diagnostics(lines: &Vec<String>) -> (r: Vec<String>)
    ensures
        strings_view(r@) == picked(strings_view(lines@), |f| rendered_message(f)),
{
    collect_picked(lines, false)
}

fn collect_picked(lines: &Vec<String>, executables: bool) -> (r: Vec<String>)
    ensures
        executables ==> strings_view(r@) == picked(strings_view(lines@), |f| artifact_executable(f)),
        !executables ==> strings_view(r@) == picked(strings_view(lines@), |f| rendered_message(f)),
{
    let ghost pick: spec_fn((Option<Seq<char>>, Option<bool>, Option<Seq<char>>, Option<Seq<char>>)) -> Option<Seq<char>>
        = if executables { |f| artifact_executable(f) } else { |f| rendered_message(f) };
    let mut out: Vec<String> = Vec::new();
    let mut i: usize = 0;
    while i < lines.len()
        invariant
            i <= lines.len(),
            pick == (if executables { |f| artifact_executable(f) } else { |f| rendered_message(f) }),
            strings_view(out@) == picked(strings_view(lines@.take(i as int)), pick),
        decreases lines.len() - i,
    {
        proof {
            assert(strings_view(lines@.take(i + 1)).drop_last() =~= strings_view(lines@.take(i as int)));
            assert(strings_view(lines@.take(i + 1)).last() == lines@[i as int]@);
        }
        match cargo_message(lines[i].as_str()) {
            Some(m) => {
                let x = if executables { test_executable_of(&m) } else { rendered_of(&m) };
                match x {
                    Some(e) => {
                        out.push(e);
                    },
                    None => {},
                }
                proof {
                    assert(strings_view(out@) =~= picked(strings_view(lines@.take(i + 1)), pick));
                }
            },
            None => {
                proof {
                    assert(strings_view(out@) =~= picked(strings_view(lines@.take(i + 1)), pick));
                }
            },
        }
        i = i + 1;
    }
    proof {
        assert(lines@.take(lines.len() as int) =~= lines@);
    }
    out
}

} // verus!
