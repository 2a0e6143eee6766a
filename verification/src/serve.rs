//! The embedded UI server's HTTP handling: reading a request, routing it,
//! byte ranges, and the response head.

use vstd::prelude::*;
use crate::text::{
    chars_of, contains, eq_str, find_char_idx, has_substring, into_string, is_ws,
    lines, lines_of, parse_u64, parse_u64_chars, push_decimal, push_str,
    slice_chars, split_chars, split_once_char, split_pieces, starts_with, string_from, strip_prefix,
    trim, trim_chars, trim_start, decimal,
};

verus! {

/// Why a `Range` header cannot be served.
#[derive(Clone, Copy, Debug, PartialEq, Eq, Structural)]
pub enum RangeError {
    EmptyFile,
    UnsupportedUnit,
    InvalidRange,
    InvalidSuffix,
    InvalidStart,
    StartOutOfBounds,
    InvalidEnd,
    EndBeforeStart,
}

impl RangeError {
    /// The message of the error.
    pub fn message(&self) -> (m: &'static str)
        ensures
            m@ == range_error_text(*self),
    {
        match self {
            RangeError::EmptyFile => "empty file",
            RangeError::UnsupportedUnit => "unsupported range unit",
            RangeError::InvalidRange => "invalid range",
            RangeError::InvalidSuffix => "invalid suffix range",
            RangeError::InvalidStart => "invalid range start",
            RangeError::StartOutOfBounds => "range start out of bounds",
            RangeError::InvalidEnd => "invalid range end",
            RangeError::EndBeforeStart => "range end before start",
        }
    }
}

/// The message of a range error.
pub open spec fn range_error_text(e: RangeError) -> Seq<char> {
    match e {
        RangeError::EmptyFile => "empty file"@,
        RangeError::UnsupportedUnit => "unsupported range unit"@,
        RangeError::InvalidRange => "invalid range"@,
        RangeError::InvalidSuffix => "invalid suffix range"@,
        RangeError::InvalidStart => "invalid range start"@,
        RangeError::StartOutOfBounds => "range start out of bounds"@,
        RangeError::InvalidEnd => "invalid range end"@,
        RangeError::EndBeforeStart => "range end before start"@,
    }
}

/// The inclusive byte range that the header `h` asks of a file of `len`
/// bytes: `bytes=S-E`, `bytes=S-` (to the end) or `bytes=-N` (the last `N`),
/// with `E` clamped to the last byte.
pub open spec fn byte_range(h: Seq<char>, len: u64) -> Result<(u64, u64), RangeError> {
    if len == 0 {
        Err(RangeError::EmptyFile)
    } else if !starts_with(h, "bytes="@) {
        Err(RangeError::UnsupportedUnit)
    } else {
        match split_once_char(h.skip(6), '-') {
            None => Err(RangeError::InvalidRange),
            Some((s, e)) => if s.len() == 0 {
                match parse_u64(e) {
                    None => Err(RangeError::InvalidSuffix),
                    Some(n) => {
                        let take = if n < len { n } else { len };
                        Ok(((len - take) as u64, (len - 1) as u64))
                    },
                }
            } else {
                match parse_u64(s) {
                    None => Err(RangeError::InvalidStart),
                    Some(start) => if start >= len {
                        Err(RangeError::StartOutOfBounds)
                    } else {
                        let end: Option<u64> = if e.len() == 0 {
                            Some((len - 1) as u64)
                        } else {
                            match parse_u64(e) {
                                Some(p) => Some(if p < len - 1 { p } else { (len - 1) as u64 }),
                                None => None,
                            }
                        };
                        match end {
                            None => Err(RangeError::InvalidEnd),
                            Some(end) => if end < start {
                                Err(RangeError::EndBeforeStart)
                            } else {
                                Ok((start, end))
                            },
                        }
                    },
                }
            },
        }
    }
}

/// A range served from a file stays inside it: its last byte is a byte of the
/// file, and its first byte is no later than its last, but for a suffix range
/// of zero bytes, which starts just past the end.
pub proof fn law_range_within_file(h: Seq<char>, len: u64)
    ensures
        byte_range(h, len) matches Ok((s, e)) ==> e < len && s <= len && (s <= e || (s == len && e == len - 1)),
        len == 0 ==> byte_range(h, len) == Err::<(u64, u64), RangeError>(RangeError::EmptyFile),
{
}

/// Reads the `Range` header `header` for a file of `len` bytes.
pub fn parse_range(header: &str, len: u64) -> (r: Result<(u64, u64), RangeError>)
    ensures
        r == byte_range(header@, len),
{
    if len == 0 {
        return Err(RangeError::EmptyFile);
    }
    let h = chars_of(header);
    let raw = match strip_prefix(&h, "bytes=") {
        Some(r) => r,
        None => return Err(RangeError::UnsupportedUnit),
    };
    proof {
        reveal_strlit("bytes=");
    }
    let dash = match find_char_idx(&raw, '-') {
        Some(i) => i,
        None => return Err(RangeError::InvalidRange),
    };
    let s = slice_chars(&raw, 0, dash);
    let e = slice_chars(&raw, dash + 1, raw.len());
    proof {
        assert(s@ =~= raw@.take(dash as int));
        assert(e@ =~= raw@.skip(dash + 1));
    }
    if s.len() == 0 {
        let n = match parse_u64_chars(&e) {
            Some(n) => n,
            None => return Err(RangeError::InvalidSuffix),
        };
        let take = if n < len { n } else { len };
        return Ok((len - take, len - 1));
    }
    let start = match parse_u64_chars(&s) {
        Some(v) => v,
        None => return Err(RangeError::InvalidStart),
    };
    if start >= len {
        return Err(RangeError::StartOutOfBounds);
    }
    let end = if e.len() == 0 {
        len - 1
    } else {
        match parse_u64_chars(&e) {
            Some(p) => if p < len - 1 { p } else { len - 1 },
            None => return Err(RangeError::InvalidEnd),
        }
    };
    if end < start {
        return Err(RangeError::EndBeforeStart);
    }
    Ok((start, end))
}

/// One piece of a query string sets the flag `name`: `name=1`, or `name`
/// alone.
pub open spec fn sets_flag(part: Seq<char>, name: Seq<char>) -> bool {
    match split_once_char(part, '=') {
        Some((k, v)) => k == name && v == "1"@,
        None => part == name,
    }
}

/// The query string `query` sets the flag `name` in one of its `&`-pieces.
pub open spec fn query_flag(query: Seq<char>, name: Seq<char>) -> bool {
    exists|i: int| 0 <= i < split_pieces(query, '&').len() && sets_flag(#[trigger] split_pieces(query, '&')[i], name)
}

fn part_sets_flag(part: &[char], name: &str) -> (b: bool)
    ensures
        b == sets_flag(part@, name@),
{
    match find_char_idx(part, '=') {
        Some(i) => {
            assert(i < part.len());
            let k = slice_chars(part, 0, i);
            let v = slice_chars(part, i + 1, part.len());
            proof {
                assert(k@ =~= part@.take(i as int));
                assert(v@ =~= part@.skip(i + 1));
            }
            eq_str(&k, name) && eq_str(&v, "1")
        },
        None => eq_str(part, name),
    }
}

/// Whether the query string `query` sets the flag `name`.
pub fn query_has_flag(query: &str, name: &str) -> (b: bool)
    ensures
        b == query_flag(query@, name@),
{
    let q = chars_of(query);
    let parts = split_chars(&q, '&');
    let mut i: usize = 0;
    while i < parts.len()
        invariant
            i <= parts.len(),
            q@ == query@,
            parts@.len() == split_pieces(q@, '&').len(),
            forall|j: int| 0 <= j < parts@.len() ==> #[trigger] parts@[j]@ == split_pieces(q@, '&')[j],
            forall|j: int| 0 <= j < i ==> !sets_flag(#[trigger] split_pieces(q@, '&')[j], name@),
        decreases parts.len() - i,
    {
        if part_sets_flag(&parts[i], name) {
            proof {
                assert(sets_flag(split_pieces(q@, '&')[i as int], name@));
            }
            return true;
        }
        i = i + 1;
    }
    false
}

/// The extension of the path `path`, as `Path::extension` gives it, where it
/// is valid text.
pub uninterp spec fn path_extension(path: Seq<char>) -> Option<Seq<char>>;

/// `std::path::Path::extension` of `path`, as text. The contract claims only
/// that the result is a function of the path (`path_extension`).
#[verifier::external_body]
fn extension_of(path: &str) -> (r: Option<String>)
    ensures
        crate::text::opt_chars(r) == path_extension(path@),
{
    std::path::Path::new(path).extension().and_then(|s| s.to_str()).map(String::from)
}

/// The content type of a file with the extension `ext`.
pub open spec fn mime_of(ext: Seq<char>) -> Seq<char> {
    if ext == "html"@ {
        "text/html; charset=utf-8"@
    } else if ext == "json"@ || ext == "qlog"@ {
        "application/json; charset=utf-8"@
    } else if ext == "md"@ || ext == "log"@ || ext == "txt"@ {
        "text/plain; charset=utf-8"@
    } else {
        "application/octet-stream"@
    }
}

/// The content type of a file with the extension `ext`.
pub fn mime_for_extension(ext: &str) -> (m: &'static str)
    ensures
        m@ == mime_of(ext@),
{
    let e = chars_of(ext);
    if eq_str(&e, "html") {
        "text/html; charset=utf-8"
    } else if eq_str(&e, "json") || eq_str(&e, "qlog") {
        "application/json; charset=utf-8"
    } else if eq_str(&e, "md") || eq_str(&e, "log") || eq_str(&e, "txt") {
        "text/plain; charset=utf-8"
    } else {
        "application/octet-stream"
    }
}

/// The content type of the file at `path`, by its extension.
pub fn guess_mime(path: &str) -> (m: &'static str)
    ensures
        m@ == mime_of(
            match path_extension(path@) {
                Some(e) => e,
                None => Seq::empty(),
            },
        ),
{
    match extension_of(path) {
        Some(e) => mime_for_extension(e.as_str()),
        None => {
            proof {
                reveal_strlit("");
                assert(""@ =~= Seq::<char>::empty());
            }
            mime_for_extension("")
        },
    }
}

/// The length of the run of non-whitespace that `t` starts with.
pub open spec fn token_len(t: Seq<char>) -> nat
    decreases t.len(),
{
    if t.len() == 0 || is_ws(t[0]) {
        0
    } else {
        1 + token_len(t.drop_first())
    }
}

/// The first whitespace-separated token of `s` (empty when there is none),
/// and what follows it.
pub open spec fn first_token(s: Seq<char>) -> (Seq<char>, Seq<char>) {
    let t = trim_start(s);
    (t.take(token_len(t) as int), t.skip(token_len(t) as int))
}

proof fn lemma_token_len(t: Seq<char>, i: int)
    requires
        0 <= i <= t.len(),
        forall|j: int| 0 <= j < i ==> !is_ws(#[trigger] t[j]),
        i == t.len() || is_ws(t[i]),
    ensures
        token_len(t) == i,
    decreases i,
{
    if i > 0 {
        assert forall|j: int| 0 <= j < i - 1 implies !is_ws(#[trigger] t.drop_first()[j]) by {
            assert(t.drop_first()[j] == t[j + 1]);
        }
        lemma_token_len(t.drop_first(), i - 1);
    }
}

fn take_token(s: &[char]) -> (r: (Vec<char>, Vec<char>))
    ensures
        (r.0@, r.1@) == first_token(s@),
{
    let t = crate::text::trim_start_chars(s);
    let mut i: usize = 0;
    while i < t.len() && !crate::text::char_is_ws(t[i])
        invariant
            i <= t.len(),
            forall|j: int| 0 <= j < i ==> !is_ws(#[trigger] t@[j]),
        decreases t.len() - i,
    {
        i = i + 1;
    }
    proof {
        lemma_token_len(t@, i as int);
    }
    let a = slice_chars(&t, 0, i);
    let b = slice_chars(&t, i, t.len());
    proof {
        assert(a@ =~= t@.take(i as int));
        assert(b@ =~= t@.skip(i as int));
    }
    (a, b)
}

/// The text after `prefix`, trimmed, on the first of `ls` that starts with it.
pub open spec fn first_header(ls: Seq<Seq<char>>, prefix: Seq<char>) -> Option<Seq<char>>
    decreases ls.len(),
{
    if ls.len() == 0 {
        None
    } else if starts_with(ls[0], prefix) {
        Some(trim(ls[0].skip(prefix.len() as int)))
    } else {
        first_header(ls.drop_first(), prefix)
    }
}

/// The parts of an HTTP request that the server reads.
#[derive(Debug)]
pub struct Request {
    /// The method: the first word of the request line, or empty.
    pub method: String,
    /// The path of the target, before any `?`.
    pub path: String,
    /// The query of the target, after the first `?`, or empty.
    pub query: String,
    /// The trimmed value of the first `Range:` header, if any.
    pub range: Option<String>,
}

/// The request line of a request text.
pub open spec fn request_line(text: Seq<char>) -> Seq<char> {
    if lines(text).len() > 0 {
        lines(text)[0]
    } else {
        Seq::empty()
    }
}

/// The target of a request: the second word of the request line, or `/`.
pub open spec fn request_target(text: Seq<char>) -> Seq<char> {
    let second = first_token(first_token(request_line(text)).1).0;
    if second.len() == 0 {
        "/"@
    } else {
        second
    }
}

/// What the server reads of the request `text`.
pub open spec fn request_of(text: Seq<char>) -> (Seq<char>, Seq<char>, Seq<char>, Option<Seq<char>>) {
    let target = request_target(text);
    let (path, query) = match split_once_char(target, '?') {
        Some((p, q)) => (p, q),
        None => (target, Seq::empty()),
    };
    (
        first_token(request_line(text)).0,
        path,
        query,
        if lines(text).len() > 0 {
            first_header(lines(text).drop_first(), "Range:"@)
        } else {
            None
        },
    )
}

/// Reads the method, path, query and range of the request `text`.
pub fn parse_request(text: &str) -> (r: Request)
    ensures
        (r.method@, r.path@, r.query@, crate::text::opt_chars(r.range)) == request_of(text@),
{
    let cs = chars_of(text);
    let ls = lines_of(&cs);
    let ghost all = lines(text@);
    let first: Vec<char> = if ls.len() > 0 {
        slice_chars(&ls[0], 0, ls[0].len())
    } else {
        Vec::new()
    };
    proof {
        assert(first@ =~= request_line(text@));
    }
    let (method, rest) = take_token(&first);
    let (second, _) = take_token(&rest);
    let target: Vec<char> = if second.len() == 0 {
        chars_of("/")
    } else {
        second
    };
    let (path, query) = match find_char_idx(&target, '?') {
        Some(i) => {
            let p = slice_chars(&target, 0, i);
            let q = slice_chars(&target, i + 1, target.len());
            proof {
                assert(p@ =~= target@.take(i as int));
                assert(q@ =~= target@.skip(i + 1));
            }
            (p, q)
        },
        None => {
            proof {
                reveal_strlit("");
            }
            (slice_chars(&target, 0, target.len()), Vec::new())
        },
    };
    proof {
        assert(path@ =~= request_of(text@).1);
        assert(query@ =~= request_of(text@).2);
    }
    let mut range: Option<String> = None;
    if ls.len() > 0 {
        let mut k: usize = ls.len();
        proof {
            assert(all.skip(ls.len() as int) =~= Seq::<Seq<char>>::empty());
        }
        while k > 1
            invariant
                1 <= k <= ls.len(),
                ls@.len() == all.len(),
                all == lines(text@),
                forall|j: int| 0 <= j < ls@.len() ==> #[trigger] ls@[j]@ == all[j],
                crate::text::opt_chars(range) == first_header(all.skip(k as int), "Range:"@),
            decreases k,
        {
            k = k - 1;
            proof {
                assert(all.skip(k as int).drop_first() =~= all.skip(k + 1));
                assert(all.skip(k as int)[0] == ls@[k as int]@);
            }
            match strip_prefix(&ls[k], "Range:") {
                Some(v) => {
                    let t = trim_chars(&v);
                    range = Some(string_from(&t));
                },
                None => {},
            }
        }
        proof {
            assert(all.skip(1) =~= all.drop_first());
        }
    }
    Request { method: string_from(&method), path: string_from(&path), query: string_from(&query), range }
}

/// How the server answers a request.
#[derive(Debug)]
pub enum Route {
    /// 405: only `GET` and `HEAD` are served.
    MethodNotAllowed,
    /// The embedded UI page.
    Index,
    /// The list of runs under the work root.
    Runs,
    /// 403: the path climbs out of the work root.
    Forbidden,
    /// A file under the work root, at `rel`; its size and line count when
    /// `meta`, else its bytes.
    File { rel: String, meta: bool },
}

/// `s` without its leading `/` characters.
pub open spec fn trim_slashes(s: Seq<char>) -> Seq<char>
    decreases s.len(),
{
    if s.len() > 0 && s[0] == '/' {
        trim_slashes(s.drop_first())
    } else {
        s
    }
}

fn trim_leading_slashes(s: &[char]) -> (r: Vec<char>)
    ensures
        r@ == trim_slashes(s@),
{
    let mut i: usize = 0;
    proof {
        assert(s@.skip(0) =~= s@);
    }
    while i < s.len() && s[i] == '/'
        invariant
            i <= s.len(),
            trim_slashes(s@) == trim_slashes(s@.skip(i as int)),
        decreases s.len() - i,
    {
        proof {
            assert(s@.skip(i as int).drop_first() =~= s@.skip(i + 1));
        }
        i = i + 1;
    }
    let r = slice_chars(s, i, s.len());
    proof {
        assert(r@ =~= s@.skip(i as int));
    }
    r
}

/// Routes the request `req`: the method first, then the UI page, the runs
/// list, paths that climb out, and files by their path without leading `/`.
pub fn route(req: &Request) -> (r: Route)
    ensures
        if req.method@ != "GET"@ && req.method@ != "HEAD"@ {
            r is MethodNotAllowed
        } else if req.path@ == "/"@ || req.path@ == "/index.html"@ {
            r is Index
        } else if req.path@ == "/__netsim/runs"@ {
            r is Runs
        } else if contains(req.path@, ".."@) {
            r is Forbidden
        } else {
            r matches Route::File { rel, meta } && rel@ == trim_slashes(req.path@) && meta
                == query_flag(req.query@, "__meta"@)
        },
{
    let m = chars_of(req.method.as_str());
    if !eq_str(&m, "GET") && !eq_str(&m, "HEAD") {
        return Route::MethodNotAllowed;
    }
    let p = chars_of(req.path.as_str());
    if eq_str(&p, "/") || eq_str(&p, "/index.html") {
        return Route::Index;
    }
    if eq_str(&p, "/__netsim/runs") {
        return Route::Runs;
    }
    if has_substring(&p, "..") {
        return Route::Forbidden;
    }
    let rel = trim_leading_slashes(&p);
    let meta = query_has_flag(req.query.as_str(), "__meta");
    Route::File { rel: string_from(&rel), meta }
}

/// Whether the response to `method` carries no body.
pub fn head_only(method: &str) -> (b: bool)
    ensures
        b == (method@ == "HEAD"@),
{
    let m = chars_of(method);
    eq_str(&m, "HEAD")
}

/// The reason phrase of an HTTP status.
pub open spec fn status_text(status: u16) -> Seq<char> {
    if status == 200 {
        "OK"@
    } else if status == 206 {
        "Partial Content"@
    } else if status == 400 {
        "Bad Request"@
    } else if status == 403 {
        "Forbidden"@
    } else if status == 404 {
        "Not Found"@
    } else if status == 405 {
        "Method Not Allowed"@
    } else if status == 416 {
        "Range Not Satisfiable"@
    } else {
        "Error"@
    }
}

fn status_phrase(status: u16) -> (r: &'static str)
    ensures
        r@ == status_text(status),
{
    match status {
        200 => "OK",
        206 => "Partial Content",
        400 => "Bad Request",
        403 => "Forbidden",
        404 => "Not Found",
        405 => "Method Not Allowed",
        416 => "Range Not Satisfiable",
        _ => "Error",
    }
}

/// The extra header lines `name: value`, each ended by CRLF.
pub open spec fn header_lines(hs: Seq<(String, String)>) -> Seq<char>
    decreases hs.len(),
{
    if hs.len() == 0 {
        Seq::empty()
    } else {
        header_lines(hs.drop_last()) + hs.last().0@ + ": "@ + hs.last().1@ + "\r\n"@
    }
}

/// The head of a response: status line, content type and length, no caching,
/// closing the connection, the extra headers, and the blank line.
pub open spec fn response_head_text(status: u16, content_type: Seq<char>, body_len: nat, extra: Seq<(String, String)>) -> Seq<char> {
    "HTTP/1.1 "@ + decimal(status as nat) + " "@ + status_text(status) + "\r\nContent-Type: "@
        + content_type + "\r\nContent-Length: "@ + decimal(body_len)
        + "\r\nCache-Control: no-cache\r\nConnection: close\r\n"@ + header_lines(extra) + "\r\n"@
}

/// The head of a response with `status`, `content_type`, a body of
/// `body_len` bytes and the extra headers `extra`.
pub fn response_head(status: u16, content_type: &str, body_len: u64, extra: &Vec<(String, String)>) -> (r: String)
    ensures
        r@ == response_head_text(status, content_type@, body_len as nat, extra@),
{
    let mut v: Vec<char> = Vec::new();
    push_str(&mut v, "HTTP/1.1 ");
    push_decimal(&mut v, status as u64);
    push_str(&mut v, " ");
    push_str(&mut v, status_phrase(status));
    push_str(&mut v, "\r\nContent-Type: ");
    push_str(&mut v, content_type);
    push_str(&mut v, "\r\nContent-Length: ");
    push_decimal(&mut v, body_len);
    push_str(&mut v, "\r\nCache-Control: no-cache\r\nConnection: close\r\n");
    let ghost base = v@;
    let mut i: usize = 0;
    while i < extra.len()
        invariant
            i <= extra.len(),
            v@ == base + header_lines(extra@.take(i as int)),
        decreases extra.len() - i,
    {
        proof {
            assert(extra@.take(i + 1).drop_last() =~= extra@.take(i as int));
        }
        push_str(&mut v, extra[i].0.as_str());
        push_str(&mut v, ": ");
        push_str(&mut v, extra[i].1.as_str());
        push_str(&mut v, "\r\n");
        proof {
            assert(v@ =~= base + header_lines(extra@.take(i + 1)));
        }
        i = i + 1;
    }
    push_str(&mut v, "\r\n");
    proof {
        assert(extra@.take(extra.len() as int) =~= extra@);
    }
    into_string(v)
}

/// The `Content-Range` value of the bytes `start..=end` of `len`.
pub fn content_range(start: u64, end: u64, len: u64) -> (r: String)
    ensures
        r@ == "bytes "@ + decimal(start as nat) + "-"@ + decimal(end as nat) + "/"@ + decimal(len as nat),
{
    let mut v: Vec<char> = Vec::new();
    push_str(&mut v, "bytes ");
    push_decimal(&mut v, start);
    push_str(&mut v, "-");
    push_decimal(&mut v, end);
    push_str(&mut v, "/");
    push_decimal(&mut v, len);
    into_string(v)
}

/// The number of lines of a log read line by line: each `\n` ends one, and
/// a last line without one counts too.
pub open spec fn log_lines(b: Seq<u8>) -> nat
    decreases b.len(),
{
    if b.len() == 0 {
        0
    } else {
        let prev = b.drop_last();
        if prev.len() == 0 || prev.last() == 10u8 {
            log_lines(prev) + 1
        } else {
            log_lines(prev)
        }
    }
}

proof fn lemma_log_lines_bound(b: Seq<u8>)
    ensures
        log_lines(b) <= b.len(),
    decreases b.len(),
{
    if b.len() > 0 {
        lemma_log_lines_bound(b.drop_last());
    }
}

/// The line count of the log with bytes `data`.
pub fn log_line_count(data: &[u8]) -> (n: u64)
    requires
        data@.len() <= u64::MAX,
    ensures
        n == log_lines(data@),
{
    let mut n: u64 = 0;
    let mut i: usize = 0;
    while i < data.len()
        invariant
            i <= data.len(),
            data@.len() <= u64::MAX,
            n == log_lines(data@.take(i as int)),
        decreases data.len() - i,
    {
        proof {
            assert(data@.take(i + 1).drop_last() =~= data@.take(i as int));
            lemma_log_lines_bound(data@.take(i as int));
        }
        if i == 0 || data[i - 1] == 10u8 {
            n = n + 1;
        }
        i = i + 1;
    }
    proof {
        assert(data@.take(data.len() as int) =~= data@);
    }
    n
}

/// Whether a directory entry `name` under the work root is a run: a
/// directory, not hidden, not the `latest` link.
pub open spec fn is_run_entry(name: Seq<char>, is_dir: bool) -> bool {
    is_dir && !starts_with(name, "."@) && name != "latest"@
}

/// The run names among `entries` (name and whether it is a directory).
pub open spec fn run_entry_names(entries: Seq<(String, bool)>) -> Set<Seq<char>> {
    Set::new(|n: Seq<char>| exists|i: int| 0 <= i < entries.len() && (#[trigger] entries[i]).0@ == n && is_run_entry(n, entries[i].1))
}

fn run_entry_exec(name: &String, is_dir: bool) -> (b: bool)
    ensures
        b == is_run_entry(name@, is_dir),
{
    let n = chars_of(name.as_str());
    proof {
        reveal_strlit(".");
    }
    let hidden = n.len() > 0 && n[0] == '.';
    proof {
        assert("."@ =~= seq!['.']);
        if n@.len() > 0 {
            assert(n@.take(1) =~= seq![n@[0]]);
            if starts_with(n@, "."@) {
                assert(n@.take(1)[0] == '.');
            }
        }
        assert(hidden == starts_with(n@, "."@));
    }
    is_dir && !hidden && !eq_str(&n, "latest")
}

/// The runs under the work root, newest name first: the names of the
/// directories among `entries` that are not hidden and not `latest`,
/// sorted in reverse.
pub fn run_names(entries: &Vec<(String, bool)>) -> (r: Vec<String>)
    ensures
        crate::text::strictly_sorted(r@.map_values(|s: String| s@).reverse()),
        r@.map_values(|s: String| s@).to_set() == run_entry_names(entries@),
{
    let mut asc: Vec<String> = Vec::new();
    let mut i: usize = 0;
    while i < entries.len()
        invariant
            i <= entries.len(),
            crate::text::strictly_sorted(asc@.map_values(|s: String| s@)),
            asc@.map_values(|s: String| s@).to_set() == run_entry_names(entries@.take(i as int)),
        decreases entries.len() - i,
    {
        let ghost before = run_entry_names(entries@.take(i as int));
        let keep = run_entry_exec(&entries[i].0, entries[i].1);
        if keep {
            crate::text::insert_sorted_unique(&mut asc, &entries[i].0);
        }
        proof {
            let nxt = run_entry_names(entries@.take(i + 1));
            let e = entries@[i as int];
            assert forall|n: Seq<char>| nxt.contains(n) <==> (before.contains(n) || (keep && n == e.0@)) by {
                if nxt.contains(n) {
                    let k = choose|k: int| 0 <= k < entries@.take(i + 1).len() && (#[trigger] entries@.take(i + 1)[k]).0@ == n && is_run_entry(n, entries@.take(i + 1)[k].1);
                    if k < i {
                        assert(entries@.take(i as int)[k] == entries@.take(i + 1)[k]);
                    }
                }
                if before.contains(n) {
                    let k = choose|k: int| 0 <= k < entries@.take(i as int).len() && (#[trigger] entries@.take(i as int)[k]).0@ == n && is_run_entry(n, entries@.take(i as int)[k].1);
                    assert(entries@.take(i + 1)[k] == entries@.take(i as int)[k]);
                }
                if keep && n == e.0@ {
                    assert(entries@.take(i + 1)[i as int] == e);
                }
            }
            if keep {
                assert(nxt =~= before.insert(e.0@));
            } else {
                assert(nxt =~= before);
            }
        }
        i = i + 1;
    }
    proof {
        assert(entries@.take(entries.len() as int) =~= entries@);
    }
    let mut r: Vec<String> = Vec::new();
    let mut k: usize = asc.len();
    let ghost av = asc@.map_values(|s: String| s@);
    while k > 0
        invariant
            k <= asc.len(),
            av == asc@.map_values(|s: String| s@),
            r@.len() == asc.len() - k,
            forall|j: int| 0 <= j < r@.len() ==> (#[trigger] r@[j])@ == av[asc.len() - 1 - j],
        decreases k,
    {
        k = k - 1;
        r.push(asc[k].clone());
    }
    proof {
        let rv = r@.map_values(|s: String| s@);
        assert(rv.reverse() =~= av);
        assert forall|n: Seq<char>| rv.to_set().contains(n) <==> av.to_set().contains(n) by {
            if rv.contains(n) {
                let j = choose|j: int| 0 <= j < rv.len() && rv[j] == n;
                assert(av[av.len() - 1 - j] == n);
            }
            if av.contains(n) {
                let j = choose|j: int| 0 <= j < av.len() && av[j] == n;
                assert(rv[av.len() - 1 - j] == n);
            }
        }
        assert(rv.to_set() =~= av.to_set());
    }
    r
}

} // verus!
