//! Character-sequence helpers shared by the parsers and renderers.
//!
//! Text is handled as sequences of `char`; the spec functions here give the
//! meaning of the usual string operations (trimming, prefix tests, line
//! splitting, decimal rendering) over `Seq<char>`.

use vstd::prelude::*;

verus! {

/// The characters of an optional string.
pub open spec fn opt_chars(s: Option<String>) -> Option<Seq<char>> {
    match s {
        Some(s) => Some(s@),
        None => None,
    }
}

/// The characters of each string in `v`, in order.
pub open spec fn strings_view(v: Seq<String>) -> Seq<Seq<char>> {
    v.map_values(|s: String| s@)
}

/// A copy of an optional string.
pub fn clone_opt_string(s: &Option<String>) -> (r: Option<String>)
    ensures
        opt_chars(r) == opt_chars(*s),
{
    match s {
        Some(t) => Some(t.clone()),
        None => None,
    }
}

/// A copy of a list of strings.
pub fn clone_strings(v: &Vec<String>) -> (r: Vec<String>)
    ensures
        r@ == v@,
{
    let mut out: Vec<String> = Vec::new();
    let mut i: usize = 0;
    while i < v.len()
        invariant
            i <= v.len(),
            out@ == v@.take(i as int),
        decreases v.len() - i,
    {
        out.push(v[i].clone());
        proof {
            assert(v@.take(i + 1) =~= v@.take(i as int).push(v@[i as int]));
        }
        i = i + 1;
    }
    proof {
        assert(v@.take(v.len() as int) =~= v@);
    }
    out
}

/// `name` joined under the directory `dir`, as `Path::join` joins a
/// relative name: with one `/` between them, none added after a trailing `/`,
/// and `name` alone under an empty directory.
pub open spec fn join_path(dir: Seq<char>, name: Seq<char>) -> Seq<char> {
    if dir.len() == 0 {
        name
    } else if dir.last() == '/' {
        dir + name
    } else {
        dir + "/"@ + name
    }
}

/// Joins the relative `name` under `dir`.
pub fn path_join(dir: &str, name: &str) -> (r: String)
    ensures
        r@ == join_path(dir@, name@),
{
    let d = chars_of(dir);
    let mut v: Vec<char> = Vec::new();
    push_chars(&mut v, &d);
    if d.len() > 0 && d[d.len() - 1] != '/' {
        push_str(&mut v, "/");
    }
    push_str(&mut v, name);
    proof {
        assert(v@ =~= join_path(dir@, name@));
    }
    into_string(v)
}

/// `String` pushes that keep a view of the strings.
pub fn push_lit(out: &mut Vec<String>, s: &str)
    ensures
        strings_view(final(out)@) == strings_view(old(out)@).push(s@),
{
    let ghost prev = out@;
    out.push(s.to_owned());
    proof {
        assert(strings_view(out@) =~= strings_view(prev).push(s@));
    }
}

/// Appends a copy of `s`.
pub fn push_string(out: &mut Vec<String>, s: &String)
    ensures
        strings_view(final(out)@) == strings_view(old(out)@).push(s@),
{
    let ghost prev = out@;
    out.push(s.clone());
    proof {
        assert(strings_view(out@) =~= strings_view(prev).push(s@));
    }
}

/// Whether `pat` occurs in `s`.
pub fn has_substring(s: &[char], pat: &str) -> (r: bool)
    ensures
        r == contains(s@, pat@),
{
    let p = chars_of(pat);
    if p.len() > s.len() {
        proof {
            assert forall|i: int| !occurs_at(s@, pat@, i) by {}
        }
        return false;
    }
    let last = s.len() - p.len();
    let mut i: usize = 0;
    loop
        invariant
            p@ == pat@,
            p.len() <= s.len(),
            last == s.len() - p.len(),
            i <= last,
            forall|j: int| 0 <= j < i ==> !occurs_at(s@, pat@, j),
        ensures
            forall|j: int| 0 <= j <= last ==> !occurs_at(s@, pat@, j),
        decreases last - i,
    {
        let w = slice_chars(s, i, i + p.len());
        if chars_eq(&w, &p) {
            proof {
                assert(occurs_at(s@, pat@, i as int));
            }
            return true;
        }
        proof {
            assert(!occurs_at(s@, pat@, i as int));
        }
        if i == last {
            break;
        }
        i = i + 1;
    }
    proof {
        assert forall|j: int| !occurs_at(s@, pat@, j) by {
            if j > last as int {
                assert(!(j + pat@.len() <= s@.len()));
            }
        }
    }
    false
}

/// Appends copies of `vals`.
pub fn append_strings(out: &mut Vec<String>, vals: &Vec<String>)
    ensures
        strings_view(final(out)@) == strings_view(old(out)@) + strings_view(vals@),
{
    let ghost start = strings_view(out@);
    let mut i: usize = 0;
    while i < vals.len()
        invariant
            i <= vals.len(),
            strings_view(out@) == start + strings_view(vals@.take(i as int)),
        decreases vals.len() - i,
    {
        let ghost prev = out@;
        out.push(vals[i].clone());
        proof {
            assert(strings_view(out@) =~= strings_view(prev).push(vals@[i as int]@));
            assert(vals@.take(i + 1) =~= vals@.take(i as int).push(vals@[i as int]));
            assert(strings_view(out@) =~= start + strings_view(vals@.take(i + 1)));
        }
        i = i + 1;
    }
    proof {
        assert(vals@.take(vals.len() as int) =~= vals@);
    }
}

/// Unicode `White_Space`, the set that `char::is_whitespace` accepts.
pub open spec fn is_ws(c: char) -> bool {
    let n = c as u32;
    ||| 9 <= n <= 13
    ||| n == 32
    ||| n == 0x85
    ||| n == 0xA0
    ||| n == 0x1680
    ||| 0x2000 <= n <= 0x200A
    ||| n == 0x2028
    ||| n == 0x2029
    ||| n == 0x202F
    ||| n == 0x205F
    ||| n == 0x3000
}

/// `s` without its leading whitespace.
pub open spec fn trim_start(s: Seq<char>) -> Seq<char>
    decreases s.len(),
{
    if s.len() > 0 && is_ws(s[0]) {
        trim_start(s.drop_first())
    } else {
        s
    }
}

/// `s` without its trailing whitespace.
pub open spec fn trim_end(s: Seq<char>) -> Seq<char>
    decreases s.len(),
{
    if s.len() > 0 && is_ws(s.last()) {
        trim_end(s.drop_last())
    } else {
        s
    }
}

/// `s` without leading and trailing whitespace.
pub open spec fn trim(s: Seq<char>) -> Seq<char> {
    trim_end(trim_start(s))
}

/// `s` begins with `p`.
pub open spec fn starts_with(s: Seq<char>, p: Seq<char>) -> bool {
    p.len() <= s.len() && s.take(p.len() as int) == p
}

/// `s` ends with `p`.
pub open spec fn ends_with(s: Seq<char>, p: Seq<char>) -> bool {
    p.len() <= s.len() && s.skip(s.len() - p.len()) == p
}

/// `pat` occurs in `s` at index `i`.
pub open spec fn occurs_at(s: Seq<char>, pat: Seq<char>, i: int) -> bool {
    0 <= i && i + pat.len() <= s.len() && s.subrange(i, i + pat.len()) == pat
}

/// `pat` occurs somewhere in `s`.
pub open spec fn contains(s: Seq<char>, pat: Seq<char>) -> bool {
    exists|i: int| occurs_at(s, pat, i)
}

/// The first index of `c` in `s`, if any.
pub open spec fn find_char(s: Seq<char>, c: char) -> Option<int>
    decreases s.len(),
{
    if s.len() == 0 {
        None
    } else if s[0] == c {
        Some(0)
    } else {
        match find_char(s.drop_first(), c) {
            Some(i) => Some(i + 1),
            None => None,
        }
    }
}

/// The last index at which `pat` occurs in `s` with the occurrence starting
/// strictly before `end`, if any.
pub open spec fn rfind_before(s: Seq<char>, pat: Seq<char>, end: int) -> Option<int>
    decreases end,
{
    if end <= 0 {
        None
    } else if occurs_at(s, pat, end - 1) {
        Some(end - 1)
    } else {
        rfind_before(s, pat, end - 1)
    }
}

/// The last index at which `pat` occurs in `s`, if any.
pub open spec fn rfind(s: Seq<char>, pat: Seq<char>) -> Option<int> {
    rfind_before(s, pat, s.len() + 1int)
}

/// `str::rsplit_once(pat)`: the parts before and after the last occurrence.
pub open spec fn rsplit_once(s: Seq<char>, pat: Seq<char>) -> Option<(Seq<char>, Seq<char>)> {
    match rfind(s, pat) {
        Some(i) => Some((s.take(i), s.skip(i + pat.len()))),
        None => None,
    }
}

/// `str::split_once(c)` for a single-character separator.
pub open spec fn split_once_char(s: Seq<char>, c: char) -> Option<(Seq<char>, Seq<char>)> {
    match find_char(s, c) {
        Some(i) => Some((s.take(i), s.skip(i + 1))),
        None => None,
    }
}

/// A line as `str::lines` yields it: a trailing `'\r'` before the `'\n'`
/// that ended it is dropped.
pub open spec fn strip_cr(line: Seq<char>) -> Seq<char> {
    if line.len() > 0 && line.last() == '\r' {
        line.drop_last()
    } else {
        line
    }
}

/// `str::lines`: the pieces of `s` between `'\n'` characters, each with a
/// `'\r'` that stood right before its `'\n'` removed, and without a final
/// empty piece.
pub open spec fn lines(s: Seq<char>) -> Seq<Seq<char>>
    decreases s.len(),
{
    match find_char(s, '\n') {
        Some(i) => {
            proof {
                lemma_find_char_range(s, '\n');
            }
            seq![strip_cr(s.take(i))] + lines(s.skip(i + 1))
        },
        None => if s.len() == 0 {
            Seq::empty()
        } else {
            seq![s]
        },
    }
}

/// The decimal digit for `d < 10`.
pub open spec fn digit(d: nat) -> char {
    if d == 0 { '0' } else if d == 1 { '1' } else if d == 2 { '2' } else if d == 3 { '3' }
    else if d == 4 { '4' } else if d == 5 { '5' } else if d == 6 { '6' } else if d == 7 { '7' }
    else if d == 8 { '8' } else { '9' }
}

/// The decimal rendering of `n`, without sign or leading zeros.
pub open spec fn decimal(n: nat) -> Seq<char>
    decreases n,
{
    if n < 10 {
        seq![digit(n)]
    } else {
        decimal(n / 10).push(digit(n % 10))
    }
}

/// The lower-case hexadecimal digit for `d < 16`.
pub open spec fn hex_digit(d: nat) -> char {
    if d < 10 { digit(d) } else if d == 10 { 'a' } else if d == 11 { 'b' } else if d == 12 { 'c' }
    else if d == 13 { 'd' } else if d == 14 { 'e' } else { 'f' }
}

/// The `width` lowest hexadecimal digits of `n`, zero padded (`{:0width$x}`
/// for values below `16^width`).
pub open spec fn hex_padded(n: nat, width: nat) -> Seq<char>
    decreases width,
{
    if width == 0 {
        Seq::empty()
    } else {
        hex_padded(n / 16, (width - 1) as nat).push(hex_digit(n % 16))
    }
}


/// `c` is an ASCII decimal digit.
pub open spec fn is_digit(c: char) -> bool {
    '0' <= c && c <= '9'
}

/// Every character of `s` is an ASCII decimal digit.
pub open spec fn all_digits(s: Seq<char>) -> bool {
    forall|i: int| 0 <= i < s.len() ==> is_digit(#[trigger] s[i])
}

/// The value of the decimal digit string `s` (0 for the empty string).
pub open spec fn digits_value(s: Seq<char>) -> nat
    decreases s.len(),
{
    if s.len() == 0 {
        0
    } else {
        digits_value(s.drop_last()) * 10 + ((s.last() as u32) - ('0' as u32)) as nat
    }
}

/// The digits of an unsigned decimal as `u64::from_str` reads them: an
/// optional `'+'` and then at least one digit.
pub open spec fn unsigned_digits(s: Seq<char>) -> Seq<char> {
    if s.len() > 0 && s[0] == '+' {
        s.drop_first()
    } else {
        s
    }
}

/// `str::parse::<u64>()`.
pub open spec fn parse_u64(s: Seq<char>) -> Option<u64> {
    let d = unsigned_digits(s);
    if d.len() > 0 && all_digits(d) && digits_value(d) <= u64::MAX {
        Some(digits_value(d) as u64)
    } else {
        None
    }
}

/// The character for the decimal digit `d`.
pub fn digit_char(d: u64) -> (c: char)
    requires
        d < 10,
    ensures
        c == digit(d as nat),
{
    if d == 0 { '0' } else if d == 1 { '1' } else if d == 2 { '2' } else if d == 3 { '3' }
    else if d == 4 { '4' } else if d == 5 { '5' } else if d == 6 { '6' } else if d == 7 { '7' }
    else if d == 8 { '8' } else { '9' }
}

/// The character for the hexadecimal digit `d`.
pub fn hex_digit_char(d: u64) -> (c: char)
    requires
        d < 16,
    ensures
        c == hex_digit(d as nat),
{
    if d < 10 { digit_char(d) } else if d == 10 { 'a' } else if d == 11 { 'b' } else if d == 12 { 'c' }
    else if d == 13 { 'd' } else if d == 14 { 'e' } else { 'f' }
}

/// Appends the decimal rendering of `n` to `v`.
pub fn push_decimal(v: &mut Vec<char>, n: u64)
    ensures
        final(v)@ == old(v)@ + decimal(n as nat),
    decreases n,
{
    if n < 10 {
        v.push(digit_char(n));
        proof {
            assert(decimal(n as nat) == seq![digit(n as nat)]);
        }
    } else {
        push_decimal(v, n / 10);
        v.push(digit_char(n % 10));
        proof {
            assert(decimal(n as nat) == decimal((n / 10) as nat).push(digit((n % 10) as nat)));
        }
    }
}

/// Appends the `width` lowest hexadecimal digits of `n`, zero padded.
pub fn push_hex(v: &mut Vec<char>, n: u64, width: u64)
    ensures
        final(v)@ == old(v)@ + hex_padded(n as nat, width as nat),
    decreases width,
{
    if width > 0 {
        push_hex(v, n / 16, width - 1);
        v.push(hex_digit_char(n % 16));
    }
}

/// The decimal rendering of `n` as a `String`.
pub fn u64_to_string(n: u64) -> (s: String)
    ensures
        s@ == decimal(n as nat),
{
    let mut v: Vec<char> = Vec::new();
    push_decimal(&mut v, n);
    into_string(v)
}

/// The value of the digit string `s`, when every character is a digit and
/// the value fits in a `u64`.
pub fn digits_u64(s: &[char]) -> (r: Option<u64>)
    ensures
        r is Some <==> (all_digits(s@) && digits_value(s@) <= u64::MAX),
        r matches Some(v) ==> v == digits_value(s@),
{
    let mut acc: u64 = 0;
    let mut j: usize = 0;
    while j < s.len()
        invariant
            j <= s.len(),
            all_digits(s@.take(j as int)),
            acc as nat == digits_value(s@.take(j as int)),
        decreases s.len() - j,
    {
        let c = s[j];
        proof {
            assert(s@.take(j + 1).drop_last() =~= s@.take(j as int));
            assert(s@.take(j + 1).last() == c);
        }
        if !('0' <= c && c <= '9') {
            proof {
                assert(!is_digit(s@[j as int]));
            }
            return None;
        }
        let dv = (c as u32 - '0' as u32) as u64;
        proof {
            assert(digits_value(s@.take(j + 1)) == acc * 10 + dv);
        }
        if acc > (u64::MAX - dv) / 10 {
            proof {
                if all_digits(s@) {
                    lemma_digits_value_mono(s@, j + 1);
                }
                assert(all_digits(s@) ==> digits_value(s@) > u64::MAX) by (nonlinear_arith)
                    requires
                        all_digits(s@) ==> digits_value(s@) >= digits_value(s@.take(j + 1)),
                        digits_value(s@.take(j + 1)) == acc * 10 + dv,
                        acc > (u64::MAX - dv) / 10,
                        dv < 10,
                ;
            }
            return None;
        }
        proof {
            assert(all_digits(s@.take(j + 1)));
        }
        acc = acc * 10 + dv;
        j = j + 1;
    }
    proof {
        assert(s@.take(s.len() as int) =~= s@);
    }
    Some(acc)
}

/// `str::parse::<u64>()` on the characters `s`.
pub fn parse_u64_chars(s: &[char]) -> (r: Option<u64>)
    ensures
        r == parse_u64(s@),
{
    let mut i: usize = 0;
    if s.len() > 0 && s[0] == '+' {
        i = 1;
    }
    let d = slice_chars(s, i, s.len());
    proof {
        assert(d@ =~= unsigned_digits(s@));
    }
    if d.len() == 0 {
        return None;
    }
    digits_u64(&d)
}

/// A digit string's value does not shrink when digits are appended.
pub proof fn lemma_digits_value_mono(s: Seq<char>, k: int)
    requires
        0 <= k <= s.len(),
        all_digits(s),
    ensures
        digits_value(s) >= digits_value(s.take(k)),
    decreases s.len() - k,
{
    if k < s.len() {
        lemma_digits_value_mono(s, k + 1);
        assert(s.take(k + 1).drop_last() =~= s.take(k));
        assert(s.take(k + 1).last() == s[k]);
        assert(is_digit(s[k]));
    } else {
        assert(s.take(k) =~= s);
    }
}

/// `a` sorts strictly before `b`: lexicographic by code point, which is the
/// order of `str`.
pub open spec fn lex_lt(a: Seq<char>, b: Seq<char>) -> bool
    decreases a.len(),
{
    if a.len() == 0 {
        b.len() > 0
    } else if b.len() == 0 {
        false
    } else if a[0] != b[0] {
        a[0] < b[0]
    } else {
        lex_lt(a.drop_first(), b.drop_first())
    }
}

/// No sequence sorts before itself.
pub proof fn lemma_lex_irreflexive(a: Seq<char>)
    ensures
        !lex_lt(a, a),
    decreases a.len(),
{
    if a.len() > 0 {
        lemma_lex_irreflexive(a.drop_first());
    }
}

/// Of two different sequences one sorts before the other.
pub proof fn lemma_lex_total(a: Seq<char>, b: Seq<char>)
    ensures
        a == b || lex_lt(a, b) || lex_lt(b, a),
    decreases a.len(),
{
    if a.len() > 0 && b.len() > 0 && a[0] == b[0] {
        lemma_lex_total(a.drop_first(), b.drop_first());
        if a.drop_first() == b.drop_first() {
            assert(a =~= seq![a[0]] + a.drop_first());
            assert(b =~= seq![b[0]] + b.drop_first());
        }
    } else if a.len() == 0 && b.len() == 0 {
        assert(a =~= b);
    }
}

/// Sorting before is transitive.
pub proof fn lemma_lex_trans(a: Seq<char>, b: Seq<char>, c: Seq<char>)
    requires
        lex_lt(a, b),
        lex_lt(b, c),
    ensures
        lex_lt(a, c),
    decreases a.len(),
{
    if a.len() > 0 && b.len() > 0 && c.len() > 0 && a[0] == b[0] && b[0] == c[0] {
        lemma_lex_trans(a.drop_first(), b.drop_first(), c.drop_first());
    }
}

/// `a` sorts strictly before `b`.
pub fn lex_lt_chars(a: &[char], b: &[char]) -> (r: bool)
    ensures
        r == lex_lt(a@, b@),
{
    let mut i: usize = 0;
    proof {
        assert(a@.skip(0) =~= a@);
        assert(b@.skip(0) =~= b@);
    }
    while i < a.len() && i < b.len() && a[i] == b[i]
        invariant
            i <= a.len(),
            i <= b.len(),
            lex_lt(a@, b@) == lex_lt(a@.skip(i as int), b@.skip(i as int)),
        decreases a.len() - i,
    {
        proof {
            assert(a@.skip(i as int).drop_first() =~= a@.skip(i + 1));
            assert(b@.skip(i as int).drop_first() =~= b@.skip(i + 1));
        }
        i = i + 1;
    }
    proof {
        if i < a.len() && i < b.len() {
            assert(a@.skip(i as int)[0] == a@[i as int]);
            assert(b@.skip(i as int)[0] == b@[i as int]);
        }
    }
    if i == a.len() {
        i < b.len()
    } else if i == b.len() {
        false
    } else {
        a[i] < b[i]
    }
}

/// The characters of `s`, in order.
pub fn chars_of(s: &str) -> (r: Vec<char>)
    ensures
        r@ == s@,
{
    let mut v: Vec<char> = Vec::new();
    for c in it: s.chars()
        invariant
            v@ == it.seq().take(it.index() as int),
    {
        v.push(c);
    }
    v
}

/// Collects the characters `v` into a `String` with std's `Iterator::collect`.
/// The contract claims that the string holds exactly those characters, in
/// order.
#[verifier::external_body]
pub(crate) fn string_from(v: &[char]) -> (s: String)
    ensures
        s@ == v@,
{
    v.iter().collect()
}

/// The `String` made of the characters `v`, consuming them.
pub fn into_string(v: Vec<char>) -> (s: String)
    ensures
        s@ == v@,
{
    string_from(v.as_slice())
}

/// Appends the characters of `s` to `v`.
pub fn push_str(v: &mut Vec<char>, s: &str)
    ensures
        final(v)@ == old(v)@ + s@,
{
    let cs = chars_of(s);
    push_chars(v, &cs);
}

/// Appends `cs` to `v`.
pub fn push_chars(v: &mut Vec<char>, cs: &[char])
    ensures
        final(v)@ == old(v)@ + cs@,
{
    let ghost start = v@;
    let mut i: usize = 0;
    while i < cs.len()
        invariant
            i <= cs.len(),
            v@ == start + cs@.take(i as int),
        decreases cs.len() - i,
    {
        v.push(cs[i]);
        proof {
            assert(cs@.take(i + 1) =~= cs@.take(i as int).push(cs@[i as int]));
        }
        i = i + 1;
    }
    proof {
        assert(cs@.take(cs.len() as int) =~= cs@);
    }
}

/// `a` and `b` hold the same characters.
pub fn chars_eq(a: &[char], b: &[char]) -> (r: bool)
    ensures
        r == (a@ == b@),
{
    if a.len() != b.len() {
        return false;
    }
    let mut i: usize = 0;
    while i < a.len()
        invariant
            i <= a.len(),
            a.len() == b.len(),
            forall|j: int| 0 <= j < i ==> a@[j] == b@[j],
        decreases a.len() - i,
    {
        if a[i] != b[i] {
            return false;
        }
        i = i + 1;
    }
    proof {
        assert(a@ =~= b@);
    }
    true
}

/// `a` holds the characters of the literal `lit`.
pub fn eq_str(a: &[char], lit: &str) -> (r: bool)
    ensures
        r == (a@ == lit@),
{
    let l = chars_of(lit);
    chars_eq(a, &l)
}

/// The characters of `s` from `start` up to `end`.
pub fn slice_chars(s: &[char], start: usize, end: usize) -> (r: Vec<char>)
    requires
        start <= end <= s.len(),
    ensures
        r@ == s@.subrange(start as int, end as int),
{
    let mut v: Vec<char> = Vec::new();
    let mut i: usize = start;
    while i < end
        invariant
            start <= i <= end <= s.len(),
            v@ == s@.subrange(start as int, i as int),
        decreases end - i,
    {
        v.push(s[i]);
        proof {
            assert(s@.subrange(start as int, i + 1) =~= s@.subrange(start as int, i as int).push(
                s@[i as int],
            ));
        }
        i = i + 1;
    }
    v
}

/// `char::is_whitespace`.
pub fn char_is_ws(c: char) -> (r: bool)
    ensures
        r == is_ws(c),
{
    let n = c as u32;
    (9 <= n && n <= 13) || n == 32 || n == 0x85 || n == 0xA0 || n == 0x1680 || (0x2000 <= n && n
        <= 0x200A) || n == 0x2028 || n == 0x2029 || n == 0x202F || n == 0x205F || n == 0x3000
}

proof fn lemma_trim_start_skip(s: Seq<char>, i: int)
    requires
        0 <= i <= s.len(),
        forall|j: int| 0 <= j < i ==> is_ws(s[j]),
    ensures
        trim_start(s) == trim_start(s.skip(i)),
    decreases i,
{
    if i > 0 {
        assert(s.skip(1) == s.drop_first());
        lemma_trim_start_skip(s.drop_first(), i - 1);
        assert(s.drop_first().skip(i - 1) =~= s.skip(i));
    } else {
        assert(s.skip(0) =~= s);
    }
}

proof fn lemma_trim_end_take(s: Seq<char>, i: int)
    requires
        0 <= i <= s.len(),
        forall|j: int| i <= j < s.len() ==> is_ws(s[j]),
    ensures
        trim_end(s) == trim_end(s.take(i)),
    decreases s.len() - i,
{
    if i < s.len() {
        lemma_trim_end_take(s.drop_last(), i);
        assert(s.drop_last().take(i) =~= s.take(i));
    } else {
        assert(s.take(i) =~= s);
    }
}

/// `str::trim_start`.
pub fn trim_start_chars(s: &[char]) -> (r: Vec<char>)
    ensures
        r@ == trim_start(s@),
{
    let mut a: usize = 0;
    while a < s.len() && char_is_ws(s[a])
        invariant
            a <= s.len(),
            forall|j: int| 0 <= j < a ==> is_ws(s@[j]),
        decreases s.len() - a,
    {
        a = a + 1;
    }
    proof {
        lemma_trim_start_skip(s@, a as int);
        assert(trim_start(s@.skip(a as int)) == s@.skip(a as int));
        assert(s@.subrange(a as int, s.len() as int) =~= s@.skip(a as int));
    }
    slice_chars(s, a, s.len())
}

/// `str::trim`.
pub fn trim_chars(s: &[char]) -> (r: Vec<char>)
    ensures
        r@ == trim(s@),
{
    let mut a: usize = 0;
    while a < s.len() && char_is_ws(s[a])
        invariant
            a <= s.len(),
            forall|j: int| 0 <= j < a ==> is_ws(s@[j]),
        decreases s.len() - a,
    {
        a = a + 1;
    }
    proof {
        lemma_trim_start_skip(s@, a as int);
        assert(trim_start(s@.skip(a as int)) == s@.skip(a as int));
    }
    let mut b: usize = s.len();
    while b > a && char_is_ws(s[b - 1])
        invariant
            a <= b <= s.len(),
            forall|j: int| b <= j < s.len() ==> is_ws(s@[j]),
        decreases b - a,
    {
        b = b - 1;
    }
    let ghost t = s@.skip(a as int);
    proof {
        assert forall|j: int| (b - a) <= j < t.len() implies is_ws(t[j]) by {
            assert(t[j] == s@[j + a]);
        }
        lemma_trim_end_take(t, b - a);
        assert(t.take(b - a) =~= s@.subrange(a as int, b as int));
        let u = s@.subrange(a as int, b as int);
        if u.len() > 0 {
            assert(!is_ws(u.last()));
        }
    }
    slice_chars(s, a, b)
}

/// `s` starts with the characters of `p`; on success, the rest of `s`.
pub fn strip_prefix(s: &[char], p: &str) -> (r: Option<Vec<char>>)
    ensures
        r is Some <==> starts_with(s@, p@),
        r matches Some(rest) ==> rest@ == s@.skip(p@.len() as int),
{
    let pc = chars_of(p);
    if pc.len() > s.len() {
        return None;
    }
    let head = slice_chars(s, 0, pc.len());
    if chars_eq(&head, &pc) {
        Some(slice_chars(s, pc.len(), s.len()))
    } else {
        None
    }
}

/// `s` ends with the characters of `p`; on success, the rest of `s` before it.
pub fn strip_suffix(s: &[char], p: &str) -> (r: Option<Vec<char>>)
    ensures
        r is Some <==> ends_with(s@, p@),
        r matches Some(rest) ==> rest@ == s@.take(s@.len() - p@.len()),
{
    let pc = chars_of(p);
    if pc.len() > s.len() {
        return None;
    }
    let tail = slice_chars(s, s.len() - pc.len(), s.len());
    if chars_eq(&tail, &pc) {
        Some(slice_chars(s, 0, s.len() - pc.len()))
    } else {
        None
    }
}

/// The first index of `c` in `s`.
pub fn find_char_idx(s: &[char], c: char) -> (r: Option<usize>)
    ensures
        match find_char(s@, c) {
            Some(i) => r == Some(i as usize),
            None => r is None,
        },
        r matches Some(i) ==> i < s@.len() && s@[i as int] == c && find_char(s@, c) == Some(
            i as int,
        ),
{
    proof {
        lemma_find_char_range(s@, c);
    }
    let mut i: usize = 0;
    proof {
        assert(s@.skip(0) =~= s@);
    }
    while i < s.len()
        invariant
            i <= s.len(),
            find_char(s@, c) == (match find_char(s@.skip(i as int), c) {
                Some(k) => Some(k + i),
                None => None::<int>,
            }),
        decreases s.len() - i,
    {
        proof {
            assert(s@.skip(i as int).drop_first() =~= s@.skip(i + 1));
        }
        if s[i] == c {
            return Some(i);
        }
        i = i + 1;
    }
    proof {
        assert(s@.skip(i as int) =~= Seq::<char>::empty());
    }
    None
}

/// The last index at which `pat` occurs in `s`.
pub fn rfind_idx(s: &[char], pat: &[char]) -> (r: Option<usize>)
    ensures
        match rfind(s@, pat@) {
            Some(i) => r == Some(i as usize),
            None => r is None,
        },
        r matches Some(i) ==> occurs_at(s@, pat@, i as int) && rfind(s@, pat@) == Some(i as int),
{
    if pat.len() > s.len() {
        proof {
            lemma_rfind_none_below(s@, pat@, s@.len() + 1int);
        }
        return None;
    }
    let mut i: usize = s.len() - pat.len();
    proof {
        lemma_rfind_skip_tail(s@, pat@, s@.len() + 1int, i + 1int);
    }
    loop
        invariant
            i + pat.len() <= s.len(),
            rfind(s@, pat@) == rfind_before(s@, pat@, i + 1int),
        decreases i,
    {
        let part = slice_chars(s, i, i + pat.len());
        if chars_eq(&part, pat) {
            proof {
                assert(occurs_at(s@, pat@, i as int));
                assert(rfind_before(s@, pat@, i + 1int) == Some(i as int));
            }
            return Some(i);
        }
        proof {
            assert(!occurs_at(s@, pat@, i as int));
            assert(rfind_before(s@, pat@, i + 1int) == rfind_before(s@, pat@, i as int));
        }
        if i == 0 {
            return None;
        }
        i = i - 1;
    }
}

proof fn lemma_rfind_none_below(s: Seq<char>, pat: Seq<char>, end: int)
    requires
        pat.len() > s.len(),
    ensures
        rfind_before(s, pat, end) is None,
    decreases end,
{
    if end > 0 {
        lemma_rfind_none_below(s, pat, end - 1);
    }
}

proof fn lemma_rfind_skip_tail(s: Seq<char>, pat: Seq<char>, end: int, e: int)
    requires
        pat.len() <= s.len(),
        e == s.len() - pat.len() + 1,
        e <= end,
    ensures
        rfind_before(s, pat, end) == rfind_before(s, pat, e),
    decreases end - e,
{
    if end > e {
        lemma_rfind_skip_tail(s, pat, end - 1, e);
    }
}

/// `str::lines` on the characters `s`.
pub fn lines_of(s: &[char]) -> (r: Vec<Vec<char>>)
    ensures
        r@.len() == lines(s@).len(),
        forall|i: int| 0 <= i < r@.len() ==> #[trigger] r@[i]@ == lines(s@)[i],
{
    let mut out: Vec<Vec<char>> = Vec::new();
    let mut start: usize = 0;
    let mut i: usize = 0;
    proof {
        assert(s@.skip(0) =~= s@);
        assert(Seq::new(out@.len(), |k: int| out@[k]@) + lines(s@) =~= lines(s@));
    }
    while i < s.len()
        invariant
            start <= i <= s.len(),
            lines(s@) == (Seq::new(out@.len(), |k: int| out@[k]@) + lines(s@.skip(start as int))),
            forall|j: int| start <= j < i ==> s@[j] != '\n',
        decreases s.len() - i,
    {
        if s[i] == '\n' {
            let ghost rest = s@.skip(start as int);
            proof {
                assert forall|j: int| 0 <= j < i - start implies rest[j] != '\n' by {
                    assert(rest[j] == s@[j + start]);
                }
                lemma_find_char_first(rest, '\n', i - start);
                assert(rest.take(i - start) =~= s@.subrange(start as int, i as int));
                assert(rest.skip(i - start + 1) =~= s@.skip(i + 1));
            }
            let mut line = slice_chars(s, start, i);
            if line.len() > 0 && line[line.len() - 1] == '\r' {
                line.pop();
            }
            let ghost before = Seq::new(out@.len(), |k: int| out@[k]@);
            out.push(line);
            proof {
                assert(Seq::new(out@.len(), |k: int| out@[k]@) =~= before.push(
                    strip_cr(s@.subrange(start as int, i as int)),
                ));
                assert(seq![strip_cr(s@.subrange(start as int, i as int))] + lines(s@.skip(i + 1))
                    =~= lines(rest));
                assert(before + lines(rest) =~= before.push(
                    strip_cr(s@.subrange(start as int, i as int)),
                ) + lines(s@.skip(i + 1)));
            }
            start = i + 1;
        }
        i = i + 1;
    }
    let ghost rest = s@.skip(start as int);
    proof {
        assert forall|j: int| 0 <= j < rest.len() implies rest[j] != '\n' by {
            assert(rest[j] == s@[j + start]);
        }
        lemma_find_char_absent(rest, '\n');
    }
    if start < s.len() {
        let ghost before = Seq::new(out@.len(), |k: int| out@[k]@);
        let last = slice_chars(s, start, s.len());
        out.push(last);
        proof {
            assert(rest =~= s@.subrange(start as int, s.len() as int));
            assert(Seq::new(out@.len(), |k: int| out@[k]@) =~= before + lines(rest));
        }
    } else {
        proof {
            assert(Seq::new(out@.len(), |k: int| out@[k]@) + lines(rest) =~= Seq::new(
                out@.len(),
                |k: int| out@[k]@,
            ));
        }
    }
    proof {
        assert forall|k: int| 0 <= k < out@.len() implies #[trigger] out@[k]@ == lines(s@)[k] by {
            assert(lines(s@) =~= Seq::new(out@.len(), |k: int| out@[k]@));
        }
    }
    out
}

/// `str::split` on the character `c`: the pieces between the `c`s, all of
/// them, empty ones included.
pub open spec fn split_pieces(s: Seq<char>, c: char) -> Seq<Seq<char>>
    decreases s.len(),
{
    match find_char(s, c) {
        Some(i) => {
            proof {
                lemma_find_char_range(s, c);
            }
            seq![s.take(i)] + split_pieces(s.skip(i + 1), c)
        },
        None => seq![s],
    }
}

/// The pieces of `s` between the characters `c`.
pub fn split_chars(s: &[char], c: char) -> (r: Vec<Vec<char>>)
    ensures
        r@.len() == split_pieces(s@, c).len(),
        forall|i: int| 0 <= i < r@.len() ==> #[trigger] r@[i]@ == split_pieces(s@, c)[i],
{
    let mut out: Vec<Vec<char>> = Vec::new();
    let mut start: usize = 0;
    let mut i: usize = 0;
    proof {
        assert(s@.skip(0) =~= s@);
        assert(Seq::new(out@.len(), |k: int| out@[k]@) + split_pieces(s@, c) =~= split_pieces(s@, c));
    }
    while i < s.len()
        invariant
            start <= i <= s.len(),
            split_pieces(s@, c) == (Seq::new(out@.len(), |k: int| out@[k]@) + split_pieces(s@.skip(start as int), c)),
            forall|j: int| start <= j < i ==> s@[j] != c,
        decreases s.len() - i,
    {
        if s[i] == c {
            let ghost rest = s@.skip(start as int);
            proof {
                assert forall|j: int| 0 <= j < i - start implies rest[j] != c by {
                    assert(rest[j] == s@[j + start]);
                }
                lemma_find_char_first(rest, c, i - start);
                assert(rest.take(i - start) =~= s@.subrange(start as int, i as int));
                assert(rest.skip(i - start + 1) =~= s@.skip(i + 1));
            }
            let piece = slice_chars(s, start, i);
            let ghost before = Seq::new(out@.len(), |k: int| out@[k]@);
            out.push(piece);
            proof {
                assert(Seq::new(out@.len(), |k: int| out@[k]@) =~= before.push(
                    s@.subrange(start as int, i as int),
                ));
                assert(before + split_pieces(rest, c) =~= before.push(s@.subrange(start as int, i as int))
                    + split_pieces(s@.skip(i + 1), c));
            }
            start = i + 1;
        }
        i = i + 1;
    }
    let ghost rest = s@.skip(start as int);
    proof {
        assert forall|j: int| 0 <= j < rest.len() implies rest[j] != c by {
            assert(rest[j] == s@[j + start]);
        }
        lemma_find_char_absent(rest, c);
    }
    let ghost before = Seq::new(out@.len(), |k: int| out@[k]@);
    let last = slice_chars(s, start, s.len());
    out.push(last);
    proof {
        assert(rest =~= s@.subrange(start as int, s.len() as int));
        assert(Seq::new(out@.len(), |k: int| out@[k]@) =~= before + split_pieces(rest, c));
        assert forall|k: int| 0 <= k < out@.len() implies #[trigger] out@[k]@ == split_pieces(s@, c)[k] by {
            assert(split_pieces(s@, c) =~= Seq::new(out@.len(), |k: int| out@[k]@));
        }
    }
    out
}

pub proof fn lemma_find_char_range(s: Seq<char>, c: char)
    ensures
        find_char(s, c) matches Some(i) ==> 0 <= i < s.len() && s[i] == c,
    decreases s.len(),
{
    if s.len() > 0 {
        lemma_find_char_range(s.drop_first(), c);
    }
}

pub proof fn lemma_find_char_first(s: Seq<char>, c: char, i: int)
    requires
        0 <= i < s.len(),
        s[i] == c,
        forall|j: int| 0 <= j < i ==> s[j] != c,
    ensures
        find_char(s, c) == Some(i),
    decreases i,
{
    if i > 0 {
        lemma_find_char_first(s.drop_first(), c, i - 1);
    }
}

pub proof fn lemma_find_char_absent(s: Seq<char>, c: char)
    requires
        forall|j: int| 0 <= j < s.len() ==> s[j] != c,
    ensures
        find_char(s, c) is None,
    decreases s.len(),
{
    if s.len() > 0 {
        lemma_find_char_absent(s.drop_first(), c);
    }
}

/// `s` is strictly increasing in the order of `str`.
pub open spec fn strictly_sorted(s: Seq<Seq<char>>) -> bool {
    forall|i: int, j: int| 0 <= i < j < s.len() ==> lex_lt(#[trigger] s[i], #[trigger] s[j])
}

/// Inserting `x` where it sorts keeps `s` strictly sorted.
pub proof fn lemma_insert_sorted(s: Seq<Seq<char>>, p: int, x: Seq<char>)
    requires
        strictly_sorted(s),
        0 <= p <= s.len(),
        forall|j: int| 0 <= j < p ==> lex_lt(s[j], x),
        p < s.len() ==> lex_lt(x, s[p]),
    ensures
        strictly_sorted(s.insert(p, x)),
{
    let t = s.insert(p, x);
    assert forall|i: int, j: int| 0 <= i < j < t.len() implies lex_lt(#[trigger] t[i], #[trigger] t[j]) by {
        if j < p {
        } else if j == p {
        } else if i < p {
            lemma_lex_trans(s[i], x, s[p]);
            if j - 1 > p {
                lemma_lex_trans(s[i], s[p], s[j - 1]);
            }
        } else if i == p {
            if j - 1 > p {
                lemma_lex_trans(x, s[p], s[j - 1]);
            }
        } else {
        }
    }
}

/// A strictly sorted sequence holds no name twice.
pub proof fn lemma_sorted_no_dup(s: Seq<Seq<char>>)
    requires
        strictly_sorted(s),
    ensures
        s.no_duplicates(),
{
    assert forall|i: int, j: int| 0 <= i < s.len() && 0 <= j < s.len() && i != j implies s[i] != s[j] by {
        if i < j {
            assert(lex_lt(s[i], s[j]));
            lemma_lex_irreflexive(s[i]);
        } else {
            assert(lex_lt(s[j], s[i]));
            lemma_lex_irreflexive(s[j]);
        }
    }
}

/// Inserting `x` into `s` adds `x` to its set of elements.
pub proof fn lemma_to_set_insert(s: Seq<Seq<char>>, p: int, x: Seq<char>)
    requires
        0 <= p <= s.len(),
    ensures
        s.insert(p, x).to_set() == s.to_set().insert(x),
{
    let t = s.insert(p, x);
    assert forall|y: Seq<char>| t.to_set().contains(y) <==> s.to_set().insert(x).contains(y) by {
        if t.contains(y) {
            let k = choose|k: int| 0 <= k < t.len() && #[trigger] t[k] == y;
            if k < p {
                assert(s[k] == y);
            } else if k > p {
                assert(s[k - 1] == y);
            }
        }
        if s.contains(y) {
            let k = choose|k: int| 0 <= k < s.len() && #[trigger] s[k] == y;
            if k < p {
                assert(t[k] == y);
            } else {
                assert(t[k + 1] == y);
            }
        }
        if y == x {
            assert(t[p] == y);
        }
    }
    assert(t.to_set() =~= s.to_set().insert(x));
}

/// Inserts `name` into the strictly sorted `out` where it sorts, unless it is
/// already there.
pub fn insert_sorted_unique(out: &mut Vec<String>, name: &String)
    requires
        strictly_sorted(old(out)@.map_values(|s: String| s@)),
    ensures
        strictly_sorted(final(out)@.map_values(|s: String| s@)),
        final(out)@.map_values(|s: String| s@).to_set() == old(out)@.map_values(|s: String| s@).to_set().insert(name@),
        final(out)@.len() <= old(out)@.len() + 1,
{
    let n = chars_of(name.as_str());
    let ghost view = out@.map_values(|s: String| s@);
    // The first position whose name does not sort before `name`.
    let mut p: usize = 0;
    let mut stop = false;
    while p < out.len() && !stop
        invariant
            p <= out.len(),
            view == out@.map_values(|s: String| s@),
            forall|j: int| 0 <= j < p ==> lex_lt(#[trigger] view[j], n@),
            stop ==> p < out.len() && !lex_lt(view[p as int], n@),
        decreases out.len() - p, if stop { 0int } else { 1int },
    {
        let cur = chars_of(out[p].as_str());
        if !lex_lt_chars(&cur, &n) {
            stop = true;
        } else {
            p = p + 1;
        }
    }
    let present = if p < out.len() {
        let cur = chars_of(out[p].as_str());
        chars_eq(&cur, &n)
    } else {
        false
    };
    if !present {
        proof {
            if p < out.len() {
                lemma_lex_total(view[p as int], n@);
            }
            lemma_insert_sorted(view, p as int, n@);
            lemma_to_set_insert(view, p as int, n@);
        }
        out.insert(p, name.clone());
        proof {
            assert(out@.map_values(|s: String| s@) =~= view.insert(p as int, n@));
        }
    } else {
        proof {
            assert(view.to_set().contains(n@)) by {
                assert(view[p as int] == n@);
            }
            assert(view.to_set().insert(n@) =~= view.to_set());
        }
    }
}


/// Index of the last occurrence of `k` in `keys`, or `-1`.
pub open spec fn last_index(keys: Seq<Seq<char>>, k: Seq<char>) -> int
    decreases keys.len(),
{
    if keys.len() == 0 {
        -1
    } else if keys.last() == k {
        keys.len() - 1
    } else {
        last_index(keys.drop_last(), k)
    }
}

pub proof fn lemma_last_index_range(keys: Seq<Seq<char>>, k: Seq<char>)
    ensures
        -1 <= last_index(keys, k) < keys.len(),
        last_index(keys, k) >= 0 ==> keys[last_index(keys, k)] == k,
    decreases keys.len(),
{
    if keys.len() > 0 && keys.last() != k {
        lemma_last_index_range(keys.drop_last(), k);
    }
}

pub proof fn lemma_last_index_at(keys: Seq<Seq<char>>, k: Seq<char>, i: int)
    requires
        0 <= i < keys.len(),
        keys[i] == k,
        forall|j: int| i < j < keys.len() ==> keys[j] != k,
    ensures
        last_index(keys, k) == i,
    decreases keys.len(),
{
    if i < keys.len() - 1 {
        assert(keys[keys.len() - 1] != k);
        lemma_last_index_at(keys.drop_last(), k, i);
    }
}

pub proof fn lemma_last_index_absent(keys: Seq<Seq<char>>, k: Seq<char>)
    requires
        forall|j: int| 0 <= j < keys.len() ==> keys[j] != k,
    ensures
        last_index(keys, k) == -1,
    decreases keys.len(),
{
    if keys.len() > 0 {
        assert(keys[keys.len() - 1] != k);
        lemma_last_index_absent(keys.drop_last(), k);
    }
}

pub proof fn lemma_last_index_push(keys: Seq<Seq<char>>, k: Seq<char>, other: Seq<char>)
    ensures
        last_index(keys.push(k), k) == keys.len(),
        other != k ==> last_index(keys.push(k), other) == last_index(keys, other),
{
    assert(keys.push(k).drop_last() =~= keys);
}

/// Text that starts and ends with a character other than whitespace is its
/// own trim.
pub proof fn lemma_trim_unchanged(s: Seq<char>)
    requires
        s.len() > 0,
        !is_ws(s[0]),
        !is_ws(s.last()),
    ensures
        trim(s) == s,
{
    assert(trim_start(s) == s);
}

/// The last occurrence before `end` is at `i` when `pat` occurs at `i` and
/// at no later index before `end`.
pub proof fn lemma_rfind_before_at(s: Seq<char>, pat: Seq<char>, i: int, end: int)
    requires
        i < end,
        occurs_at(s, pat, i),
        forall|j: int| i < j < end ==> !occurs_at(s, pat, j),
    ensures
        rfind_before(s, pat, end) == Some(i),
    decreases end - i,
{
    if end - 1 > i {
        lemma_rfind_before_at(s, pat, i, end - 1);
    }
}

/// A word without spaces that does not start with a dot ends the text
/// `name ... word`: splitting at the last `" ... "` gives back `name` and
/// the word.
pub proof fn lemma_rsplit_dots_last(name: Seq<char>, w: Seq<char>)
    requires
        w.len() > 0,
        w[0] != '.',
        forall|k: int| 0 <= k < w.len() ==> w[k] != ' ',
    ensures
        rsplit_once(name + " ... "@ + w, " ... "@) == Some((name, w)),
{
    reveal_strlit(" ... ");
    let pat = " ... "@;
    let x = name + pat + w;
    let n = name.len() as int;
    assert forall|k: int| 0 <= k < 5 implies x[n + k] == pat[k] by {}
    assert forall|k: int| 0 <= k < w.len() implies x[n + 5 + k] == w[k] by {}
    assert(x.subrange(n, n + 5) =~= pat);
    assert forall|j: int| n < j < x.len() + 1 implies !occurs_at(x, pat, j) by {
        if occurs_at(x, pat, j) {
            assert(x.subrange(j, j + 5)[0] == x[j]);
            assert(x.subrange(j, j + 5)[1] == x[j + 1]);
            if j < n + 4 {
                assert(x[n + (j - n)] == pat[j - n]);
            } else if j == n + 4 {
                assert(x[n + 5 + 0] == w[0]);
            } else {
                assert(x[n + 5 + (j - n - 5)] == w[j - n - 5]);
            }
        }
    }
    lemma_rfind_before_at(x, pat, n, x.len() + 1int);
    assert(x.take(n) =~= name);
    assert(x.skip(n + 5) =~= w);
}

} // verus!
