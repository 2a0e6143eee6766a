//! The cache of URL-backed binaries: its keys, file names, and which archive
//! entry is the binary.

use vstd::prelude::*;
use crate::text::{
    chars_of, ends_with, find_char, find_char_idx, hex_padded, into_string, occurs_at, push_hex,
    rfind, rfind_idx, slice_chars, starts_with, string_from,
};

verus! {

/// The SHA-256 digest of `data`.
pub uninterp spec fn sha256_of(data: Seq<u8>) -> Seq<u8>;

/// `sha2::Sha256::digest` of `data`, as its 32 bytes. The contract claims
/// that the result is a function of the data (`sha256_of`) and has the 32
/// bytes of a SHA-256 digest.
#[verifier::external_body]
fn sha256(data: &[u8]) -> (r: Vec<u8>)
    ensures
        r@ == sha256_of(data@),
        r@.len() == 32,
{
    <sha2::Sha256 as sha2::Digest>::digest(data).to_vec()
}

/// The lowercase hex of the bytes `b`, two digits each.
pub open spec fn hex_bytes(b: Seq<u8>) -> Seq<char>
    decreases b.len(),
{
    if b.len() == 0 {
        Seq::empty()
    } else {
        hex_bytes(b.drop_last()) + hex_padded(b.last() as nat, 2)
    }
}

/// The cache key of `url`: the hex of the first 16 bytes of the SHA-256 of
/// its UTF-8 bytes (32 characters).
pub open spec fn cache_key_text(url: Seq<char>) -> Seq<char> {
    hex_bytes(sha256_of(vstd::utf8::encode_utf8(url)).take(16))
}

/// The cache key of `url`.
pub fn url_cache_key(url: &str) -> (r: String)
    ensures
        r@ == cache_key_text(url@),
{
    let digest = sha256(url.as_bytes());
    let mut v: Vec<char> = Vec::new();
    let mut i: usize = 0;
    while i < 16
        invariant
            i <= 16,
            digest@.len() == 32,
            digest@ == sha256_of(vstd::utf8::encode_utf8(url@)),
            v@ == hex_bytes(digest@.take(i as int)),
        decreases 16 - i,
    {
        proof {
            assert(digest@.take(i + 1).drop_last() =~= digest@.take(i as int));
        }
        push_hex(&mut v, digest[i] as u64, 2);
        i = i + 1;
    }
    into_string(v)
}

/// The file name of `url`: its last piece after a `/`, cut at the first `?`.
pub open spec fn url_file_name(url: Seq<char>) -> Seq<char> {
    let tail = match rfind(url, "/"@) {
        Some(i) => url.skip(i + 1),
        None => url,
    };
    match find_char(tail, '?') {
        Some(j) => tail.take(j),
        None => tail,
    }
}

/// The file name under which the asset of `url` is downloaded.
pub fn download_file_name(url: &str) -> (r: String)
    ensures
        r@ == url_file_name(url@),
{
    let u = chars_of(url);
    let slash = chars_of("/");
    proof {
        reveal_strlit("/");
    }
    let ghost t1 = match rfind(url@, "/"@) {
        Some(i) => url@.skip(i + 1),
        None => url@,
    };
    let found = rfind_idx(&u, &slash);
    let tail = match found {
        Some(i) => {
            proof {
                assert(occurs_at(u@, slash@, i as int));
                assert(i < u.len());
            }
            slice_chars(&u, i + 1, u.len())
        },
        None => slice_chars(&u, 0, u.len()),
    };
    proof {
        assert(tail@ =~= t1);
    }
    let name = match find_char_idx(&tail, '?') {
        Some(j) => slice_chars(&tail, 0, j),
        None => tail,
    };
    proof {
        assert(name@ =~= url_file_name(url@));
    }
    string_from(&name)
}

/// Whether the asset with file name `name` is a gzipped tarball.
pub open spec fn is_tarball(name: Seq<char>) -> bool {
    ends_with(name, ".tar.gz"@) || ends_with(name, ".tgz"@)
}

fn ends_with_exec(s: &[char], suffix: &str) -> (b: bool)
    ensures
        b == ends_with(s@, suffix@),
{
    match crate::text::strip_suffix(s, suffix) {
        Some(_) => true,
        None => false,
    }
}

/// Whether the asset with file name `name` is unpacked as a gzipped tarball.
pub fn is_archive(name: &str) -> (b: bool)
    ensures
        b == is_tarball(name@),
{
    let n = chars_of(name);
    ends_with_exec(&n, ".tar.gz") || ends_with_exec(&n, ".tgz")
}

/// Whether a regular file of an archive, with file name `name` and extension
/// `ext` (empty when it has none), is the binary: a visible file without an
/// extension or with `bin`.
pub open spec fn is_binary_entry_spec(name: Seq<char>, ext: Seq<char>) -> bool {
    name.len() > 0 && !starts_with(name, "."@) && (ext.len() == 0 || ext == "bin"@)
}

/// Whether an archive's regular file `name` (with extension `ext`) is the
/// binary to take.
pub fn is_binary_entry(name: &str, ext: &str) -> (b: bool)
    ensures
        b == is_binary_entry_spec(name@, ext@),
{
    let n = chars_of(name);
    let e = chars_of(ext);
    proof {
        reveal_strlit(".");
    }
    let hidden = n.len() > 0 && n[0] == '.';
    proof {
        assert("."@ =~= seq!['.']);
        if n@.len() > 0 {
            assert(n@.take(1) =~= seq![n@[0]]);
            if starts_with(n@, "."@) {
                assert(n@.take(1)[0] == '.');
            }
            assert(hidden == starts_with(n@, "."@));
        }
    }
    n.len() > 0 && !hidden && (e.len() == 0 || crate::text::eq_str(&e, "bin"))
}

} // verus!
