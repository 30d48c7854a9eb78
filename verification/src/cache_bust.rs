//! Cache busting for static assets.
//!
//! File content is hashed and the hash is embedded in the file name, so assets
//! can be served with long-lived cache headers. Hashes use the "dodeca
//! alphabet": base 12 with the digits `0`–`6` and the letters of "dodeca"
//! (`a`, `c`, `d`, `e`, `o`), i.e. `0123456acdeo`.
//!
//! File names that already carry a bundler hash (`main-B6eUmL6x.js`,
//! `main.abc123.js`) are recognised so they are not hashed twice.
use vstd::arithmetic::div_mod::lemma_mod_breakdown;
use vstd::arithmetic::power::{lemma_pow_positive, pow};
use vstd::prelude::*;

use crate::text::{extend_chars, from_chars, is_last_char, last_index, lemma_last_char_exists, lemma_last_index, lemma_no_last_index, rfind_char, sub_chars, to_chars};

verus! {

// ---------------------------------------------------------------------------
// Recognising existing hashes
// ---------------------------------------------------------------------------

/// ASCII letter or digit.
pub open spec fn is_ascii_alnum(c: char) -> bool {
    ||| ('0' as u32 <= c as u32 && c as u32 <= '9' as u32)
    ||| ('a' as u32 <= c as u32 && c as u32 <= 'z' as u32)
    ||| ('A' as u32 <= c as u32 && c as u32 <= 'Z' as u32)
}

/// A character that bundlers use in hashes (base64url-like).
pub open spec fn is_hash_char(c: char) -> bool {
    is_ascii_alnum(c) || c == '-' || c == '_'
}

/// 6 to 12 characters, each an ASCII letter, digit, `-` or `_`.
pub open spec fn spec_is_hash_like(s: Seq<char>) -> bool {
    &&& 6 <= s.len() <= 12
    &&& forall|i: int| 0 <= i < s.len() ==> is_hash_char(#[trigger] s[i])
}

/// The part of `s` after the last `c`, or all of `s` when `c` does not occur.
pub open spec fn after_last(s: Seq<char>, c: char) -> Seq<char> {
    match last_index(s, c) {
        Some(i) => s.skip(i + 1),
        None => s,
    }
}

/// Whether the part of `name` after its last `sep` looks like a hash.
pub open spec fn hash_after_last(name: Seq<char>, sep: char) -> bool {
    match last_index(name, sep) {
        Some(i) => spec_is_hash_like(name.skip(i + 1)),
        None => false,
    }
}

/// The file name of `path` (after its last `/`) has an extension, and the
/// part before that extension ends in `-HASH` (Vite style) or `.HASH`
/// (Webpack style).
pub open spec fn spec_has_existing_hash(path: Seq<char>) -> bool {
    let filename = after_last(path, '/');
    match last_index(filename, '.') {
        None => false,
        Some(dot) => {
            let name_part = filename.take(dot);
            hash_after_last(name_part, '-') || hash_after_last(name_part, '.')
        },
    }
}

fn is_hash_char_exec(c: char) -> (r: bool)
    ensures
        r == is_hash_char(c),
{
    ('0' <= c && c <= '9') || ('a' <= c && c <= 'z') || ('A' <= c && c <= 'Z') || c == '-' || c
        == '_'
}

fn is_hash_like(s: &[char]) -> (r: bool)
    ensures
        r == spec_is_hash_like(s@),
{
    if s.len() < 6 || s.len() > 12 {
        return false;
    }
    let mut i: usize = 0;
    while i < s.len()
        invariant
            i <= s.len(),
            forall|k: int| 0 <= k < i ==> is_hash_char(#[trigger] s@[k]),
        decreases s.len() - i,
    {
        if !is_hash_char_exec(s[i]) {
            return false;
        }
        i = i + 1;
    }
    true
}

fn hash_after_last_exec(name: &[char], sep: char) -> (r: bool)
    ensures
        r == hash_after_last(name@, sep),
{
    match rfind_char(name, sep) {
        Some(i) => {
            assert(i < name.len());
            let tail = sub_chars(name, i + 1, name.len());
            assert(tail@ == name@.skip(i + 1));
            is_hash_like(tail.as_slice())
        },
        None => false,
    }
}

/// Whether a file name already carries a bundler hash: `name-HASH.ext`
/// (Vite) or `name.HASH.ext` (Webpack), where `HASH` is 6 to 12 characters
/// of ASCII letters, digits, `-` and `_`.
pub fn has_existing_hash(path: &str) -> (r: bool)
    ensures
        r == spec_has_existing_hash(path@),
{
    let p = to_chars(path);
    let filename = match rfind_char(p.as_slice(), '/') {
        Some(i) => {
            assert(i < p.len());
            sub_chars(p.as_slice(), i + 1, p.len())
        },
        None => p,
    };
    assert(filename@ == after_last(path@, '/'));
    match rfind_char(filename.as_slice(), '.') {
        None => false,
        Some(dot) => {
            let name_part = sub_chars(filename.as_slice(), 0, dot);
            assert(name_part@ == filename@.take(dot as int));
            hash_after_last_exec(name_part.as_slice(), '-') || hash_after_last_exec(
                name_part.as_slice(),
                '.',
            )
        },
    }
}

// ---------------------------------------------------------------------------
// The dodeca encoding
// ---------------------------------------------------------------------------

/// The dodeca alphabet, indexed by digit value.
pub open spec fn dodeca_char(d: int) -> char {
    if d == 0 {
        '0'
    } else if d == 1 {
        '1'
    } else if d == 2 {
        '2'
    } else if d == 3 {
        '3'
    } else if d == 4 {
        '4'
    } else if d == 5 {
        '5'
    } else if d == 6 {
        '6'
    } else if d == 7 {
        'a'
    } else if d == 8 {
        'c'
    } else if d == 9 {
        'd'
    } else if d == 10 {
        'e'
    } else {
        'o'
    }
}

/// Whether `c` belongs to the dodeca alphabet `0123456acdeo`.
pub open spec fn is_dodeca_char(c: char) -> bool {
    exists|d: int| 0 <= d < 12 && dodeca_char(d) == c
}

/// The digit value of a dodeca character.
pub open spec fn dodeca_digit(c: char) -> int {
    choose|d: int| 0 <= d < 12 && dodeca_char(d) == c
}

/// The `n` least significant base-12 digits of `h`, most significant first,
/// written in the dodeca alphabet.
pub open spec fn dodeca_digits(h: nat, n: nat) -> Seq<char>
    decreases n,
{
    if n == 0 {
        Seq::empty()
    } else {
        dodeca_digits(h / 12, (n - 1) as nat).push(dodeca_char((h % 12) as int))
    }
}

/// The 12-character dodeca encoding of a hash.
pub open spec fn spec_encode_dodeca(h: u64) -> Seq<char> {
    dodeca_digits(h as nat, 12)
}

/// The number that a dodeca string denotes in base 12.
pub open spec fn dodeca_value(s: Seq<char>) -> int
    decreases s.len(),
{
    if s.len() == 0 {
        0
    } else {
        dodeca_value(s.drop_last()) * 12 + dodeca_digit(s.last())
    }
}

fn dodeca_char_exec(d: u64) -> (c: char)
    requires
        d < 12,
    ensures
        c == dodeca_char(d as int),
{
    if d == 0 {
        '0'
    } else if d == 1 {
        '1'
    } else if d == 2 {
        '2'
    } else if d == 3 {
        '3'
    } else if d == 4 {
        '4'
    } else if d == 5 {
        '5'
    } else if d == 6 {
        '6'
    } else if d == 7 {
        'a'
    } else if d == 8 {
        'c'
    } else if d == 9 {
        'd'
    } else if d == 10 {
        'e'
    } else {
        'o'
    }
}

fn dodeca_digits_exec(h: u64, n: usize) -> (v: Vec<char>)
    ensures
        v@ == dodeca_digits(h as nat, n as nat),
    decreases n,
{
    if n == 0 {
        Vec::new()
    } else {
        let mut v = dodeca_digits_exec(h / 12, n - 1);
        v.push(dodeca_char_exec(h % 12));
        v
    }
}

/// Encodes a 64-bit hash as 12 base-12 digits in the dodeca alphabet,
/// most significant digit first (only the value modulo 12^12 is kept).
pub fn encode_dodeca(hash: u64) -> (s: String)
    ensures
        s@ == spec_encode_dodeca(hash),
{
    let v = dodeca_digits_exec(hash, 12);
    from_chars(v.as_slice())
}

proof fn lemma_dodeca_char_digit(d: int)
    requires
        0 <= d < 12,
    ensures
        is_dodeca_char(dodeca_char(d)),
        dodeca_digit(dodeca_char(d)) == d,
{
    let e = dodeca_digit(dodeca_char(d));
    assert(0 <= e < 12 && dodeca_char(e) == dodeca_char(d));
}

/// Every dodeca encoding has `n` characters, all from the dodeca alphabet,
/// and denotes `h` modulo 12^n.
pub proof fn lemma_dodeca_digits(h: nat, n: nat)
    ensures
        dodeca_digits(h, n).len() == n,
        forall|i: int|
            0 <= i < n ==> #[trigger] is_dodeca_char(dodeca_digits(h, n)[i]),
        dodeca_value(dodeca_digits(h, n)) == (h as int) % pow(12, n),
    decreases n,
{
    lemma_pow_positive(12, n);
    reveal(pow);
    if n > 0 {
        lemma_dodeca_digits(h / 12, (n - 1) as nat);
        lemma_dodeca_char_digit((h % 12) as int);
        let s = dodeca_digits(h, n);
        assert(s.drop_last() == dodeca_digits(h / 12, (n - 1) as nat));
        lemma_pow_positive(12, (n - 1) as nat);
        lemma_mod_breakdown(h as int, 12, pow(12, (n - 1) as nat));
        assert(pow(12, n) == 12 * pow(12, (n - 1) as nat));
        assert(dodeca_value(s) == dodeca_value(s.drop_last()) * 12 + dodeca_digit(s.last()));
        let p = pow(12, (n - 1) as nat);
        let hi = h as int;
        assert(hi % (12 * p) == 12 * ((hi / 12) % p) + hi % 12);
        assert(dodeca_value(s.drop_last()) == (hi / 12) % p);
        assert(dodeca_digit(s.last()) == hi % 12);
        assert forall|i: int| 0 <= i < n implies #[trigger] is_dodeca_char(s[i]) by {
            if i < n - 1 {
                assert(s[i] == dodeca_digits(h / 12, (n - 1) as nat)[i]);
            }
        }
    }
}

/// Law: the dodeca encoding of a hash is 12 characters long, uses only the
/// dodeca alphabet, and decodes (as a base-12 number) to the hash modulo
/// 12^12.
pub proof fn law_encode_dodeca(hash: u64)
    ensures
        spec_encode_dodeca(hash).len() == 12,
        forall|i: int|
            0 <= i < 12 ==> #[trigger] is_dodeca_char(spec_encode_dodeca(hash)[i]),
        dodeca_value(spec_encode_dodeca(hash)) == hash as int % pow(12, 12),
{
    lemma_dodeca_digits(hash as nat, 12);
}

// ---------------------------------------------------------------------------
// Content hashes
// ---------------------------------------------------------------------------

/// The 64-bit hash that `rapidhash::fast::RapidHasher` (default seed and
/// secrets, as compiled for non-WebAssembly targets) computes for one
/// `write` of `bytes`.
pub uninterp spec fn rapidhash_fast(bytes: Seq<u8>) -> u64;

/// Hashes `content` with a default `rapidhash::fast::RapidHasher`: one
/// `Hasher::write` of the bytes, then `Hasher::finish`.
///
/// The contract names the result `rapidhash_fast(content)`: the hasher is
/// built from a fixed default seed and fixed secrets, so its output depends on
/// the bytes alone (for a given compilation target: on WebAssembly targets the
/// crate compiles a different variant). Nothing more is stated of the value.
#[verifier::external_body]
pub(crate) fn rapid_hash_bytes(content: &[u8]) -> (h: u64)
    ensures
        h == rapidhash_fast(content@),
{
    let mut hasher = rapidhash::fast::RapidHasher::default();
    std::hash::Hasher::write(&mut hasher, content);
    std::hash::Hasher::finish(&hasher)
}

/// A short hash of `content` for cache busting: the dodeca encoding of its
/// rapidhash.
pub fn content_hash(content: &[u8]) -> (s: String)
    ensures
        s@ == spec_encode_dodeca(rapidhash_fast(content@)),
{
    encode_dodeca(rapid_hash_bytes(content))
}

// ---------------------------------------------------------------------------
// Cache-busted file names
// ---------------------------------------------------------------------------

/// The last `.` of the file name of `path` (its final `/`-separated
/// segment), if the file name has one.
pub open spec fn file_name_dot(path: Seq<char>) -> Option<int> {
    match last_index(path, '.') {
        Some(d) => if forall|j: int| d < j < path.len() ==> path[j] != '/' {
            Some(d)
        } else {
            None
        },
        None => None,
    }
}

/// `path` with `.HASH` embedded in its file name: inserted before the last
/// `.` of the file name (before the extension), or appended when the file
/// name has no `.`; the directories are left as they are.
pub open spec fn spec_cache_busted_path(path: Seq<char>, hash: Seq<char>) -> Seq<char> {
    match file_name_dot(path) {
        Some(d) => path.take(d) + seq!['.'] + hash + path.skip(d),
        None => path + seq!['.'] + hash,
    }
}

/// Generates the cache-busted file name: `fonts/Inter.woff2` with hash
/// `a1b2c3d4` becomes `fonts/Inter.a1b2c3d4.woff2`.
pub fn cache_busted_path(path: &str, hash: &str) -> (s: String)
    ensures
        s@ == spec_cache_busted_path(path@, hash@),
{
    let p = to_chars(path);
    let h = to_chars(hash);
    let mut out: Vec<char> = Vec::new();
    let dot = match rfind_char(p.as_slice(), '.') {
        Some(d) => match rfind_char(p.as_slice(), '/') {
            Some(sl) => {
                if sl < d {
                    Some(d)
                } else {
                    assert(p@[sl as int] == '/');
                    None
                }
            },
            None => Some(d),
        },
        None => None,
    };
    assert(file_name_dot(p@) == match dot {
        Some(d) => Some(d as int),
        None => None::<int>,
    });
    match dot {
        Some(d) => {
            let head = sub_chars(p.as_slice(), 0, d);
            let tail = sub_chars(p.as_slice(), d, p.len());
            extend_chars(&mut out, head.as_slice());
            out.push('.');
            extend_chars(&mut out, h.as_slice());
            extend_chars(&mut out, tail.as_slice());
            assert(out@ == p@.take(d as int) + seq!['.'] + h@ + p@.skip(d as int));
        },
        None => {
            extend_chars(&mut out, p.as_slice());
            out.push('.');
            extend_chars(&mut out, h.as_slice());
            assert(out@ == p@ + seq!['.'] + h@);
        },
    }
    from_chars(out.as_slice())
}

/// A file whose name has an extension (a `.` after its last `/`), once
/// busted with a hash-like hash (such as a content hash), is recognised as
/// already hashed, so it is never hashed twice.
pub proof fn law_busted_paths_are_recognised_as_hashed(path: Seq<char>, hash: Seq<char>, d: int)
    requires
        spec_is_hash_like(hash),
        is_last_char(path, '.', d),
        forall|j: int| d < j < path.len() ==> path[j] != '/',
    ensures
        spec_has_existing_hash(spec_cache_busted_path(path, hash)),
{
    lemma_last_index(path, '.', d);
    assert(file_name_dot(path) == Some(d));
    let h = hash.len() as int;
    let b = spec_cache_busted_path(path, hash);
    assert(b == path.take(d) + seq!['.'] + hash + path.skip(d));
    assert(b.len() == path.len() + 1 + h);
    assert forall|j: int| 0 <= j < d implies #[trigger] b[j] == path[j] by {}
    assert(b[d] == '.');
    assert forall|j: int| d < j <= d + h implies #[trigger] b[j] == hash[j - d - 1] by {}
    assert forall|j: int| d + h < j < b.len() implies #[trigger] b[j] == path[j - 1 - h] by {}
    assert forall|j: int| d < j <= d + h implies #[trigger] b[j] != '/' && b[j] != '.' by {
        assert(is_hash_char(hash[j - d - 1]));
    }
    // The file name of the busted path starts where that of the path does.
    let off: int = if exists|s: int| is_last_char(path, '/', s) {
        let s = choose|s: int| is_last_char(path, '/', s);
        assert(s != d);
        assert(s < d);
        assert forall|j: int| s < j < b.len() implies b[j] != '/' by {
            if j < d {
                assert(path[j] != '/');
            } else if d + h < j {
                assert(path[j - 1 - h] != '/');
            }
        }
        lemma_last_index(b, '/', s);
        s + 1
    } else {
        assert forall|j: int| 0 <= j < b.len() implies b[j] != '/' by {
            if j < d {
                if path[j] == '/' {
                    lemma_last_char_exists(path, '/', j);
                }
            } else if d + h < j {
                if path[j - 1 - h] == '/' {
                    lemma_last_char_exists(path, '/', j - 1 - h);
                }
            }
        }
        lemma_no_last_index(b, '/');
        0
    };
    let f = after_last(b, '/');
    assert(f == b.skip(off));
    assert(off <= d);
    let e = d + 1 + h - off;
    assert(f[e] == '.');
    assert forall|j: int| e < j < f.len() implies f[j] != '.' by {
        assert(f[j] == b[j + off]);
        assert(b[j + off] == path[j + off - 1 - h]);
    }
    lemma_last_index(f, '.', e);
    let name = f.take(e);
    let k = e - h - 1;
    assert(name[k] == '.');
    assert forall|j: int| k < j < name.len() implies name[j] != '.' by {
        assert(name[j] == b[j + off]);
    }
    lemma_last_index(name, '.', k);
    assert(name.skip(k + 1) =~= hash) by {
        assert forall|j: int| 0 <= j < h implies name.skip(k + 1)[j] == hash[j] by {
            assert(name.skip(k + 1)[j] == b[k + 1 + j + off]);
        }
    }
}

/// Bundler hashes are recognised: a file name `STEM-HASH.EXT` (Vite) or
/// `STEM.HASH.EXT` (Webpack), whatever comes before it in the path, carries
/// a hash when HASH has 6 to 12 characters, each an ASCII letter or digit
/// or `_` (base64url), or also `-` in the Webpack form, and EXT has no `.`
/// or `/`. (In the Vite form a `-` inside HASH would end the stem there.)
pub proof fn law_bundler_hashes_are_recognised(
    prefix: Seq<char>,
    sep: char,
    hash: Seq<char>,
    ext: Seq<char>,
)
    requires
        sep == '-' || sep == '.',
        6 <= hash.len() <= 12,
        forall|i: int|
            0 <= i < hash.len() ==> {
                let c = #[trigger] hash[i];
                ||| ('0' <= c && c <= '9')
                ||| ('a' <= c && c <= 'z')
                ||| ('A' <= c && c <= 'Z')
                ||| c == '_'
                ||| (sep == '.' && c == '-')
            },
        forall|i: int| 0 <= i < ext.len() ==> #[trigger] ext[i] != '.' && ext[i] != '/',
    ensures
        spec_has_existing_hash(prefix + seq![sep] + hash + seq!['.'] + ext),
{
    let n = prefix.len() as int;
    let h = hash.len() as int;
    let p = prefix + seq![sep] + hash + seq!['.'] + ext;
    assert(p.len() == n + 2 + h + ext.len());
    assert forall|j: int| 0 <= j < n implies #[trigger] p[j] == prefix[j] by {}
    assert(p[n] == sep);
    assert forall|j: int| n < j <= n + h implies #[trigger] p[j] == hash[j - n - 1] by {}
    assert(p[n + 1 + h] == '.');
    assert forall|j: int| n + 1 + h < j < p.len() implies #[trigger] p[j] == ext[j - n - 2 - h] by {}
    assert forall|j: int| n < j <= n + h implies #[trigger] p[j] != '/' && p[j] != '.' && is_hash_char(p[j]) by {
        assert(p[j] == hash[j - n - 1]);
    }
    assert forall|j: int| n + 1 + h < j < p.len() implies #[trigger] p[j] != '/' && p[j] != '.' by {
        assert(p[j] == ext[j - n - 2 - h]);
    }
    // The file name starts after the last `/` of the prefix, if any.
    let off: int = if exists|s: int| is_last_char(prefix, '/', s) {
        let s = choose|s: int| is_last_char(prefix, '/', s);
        assert forall|j: int| s < j < p.len() implies p[j] != '/' by {
            if j < n {
                assert(prefix[j] != '/');
            }
        }
        lemma_last_index(p, '/', s);
        s + 1
    } else {
        assert forall|j: int| 0 <= j < p.len() implies p[j] != '/' by {
            if j < n && prefix[j] == '/' {
                lemma_last_char_exists(prefix, '/', j);
            }
        }
        lemma_no_last_index(p, '/');
        0
    };
    let f = after_last(p, '/');
    assert(f == p.skip(off));
    assert(off <= n);
    let e = n + 1 + h - off;
    assert(f[e] == '.');
    assert forall|j: int| e < j < f.len() implies f[j] != '.' by {
        assert(f[j] == p[j + off]);
    }
    lemma_last_index(f, '.', e);
    let name = f.take(e);
    let k = n - off;
    assert(name[k] == sep);
    assert forall|j: int| k < j < name.len() implies name[j] != sep by {
        assert(name[j] == p[j + off]);
        assert(p[j + off] == hash[j + off - n - 1]);
    }
    lemma_last_index(name, sep, k);
    assert(name.skip(k + 1) =~= hash) by {
        assert forall|j: int| 0 <= j < h implies name.skip(k + 1)[j] == hash[j] by {
            assert(name.skip(k + 1)[j] == p[k + 1 + j + off]);
        }
    }
    assert forall|i: int| 0 <= i < h implies is_hash_char(#[trigger] hash[i]) by {
        assert(p[n + 1 + i] == hash[i]);
    }
    assert(hash_after_last(name, sep));
}

/// File names without a bundler hash are not taken for hashed: a file name
/// `NAME.EXT` (after the last `/` of the path) where NAME has no `.` and
/// either no `-` or, after its last `-` (at `k`), fewer than 6 or more than
/// 12 characters or a character other than an ASCII letter, digit or `_`.
pub proof fn law_unhashed_names_are_not_recognised(
    dir: Seq<char>,
    name: Seq<char>,
    k: int,
    ext: Seq<char>,
)
    requires
        forall|j: int| 0 <= j < name.len() ==> #[trigger] name[j] != '.' && name[j] != '/',
        forall|i: int| 0 <= i < ext.len() ==> #[trigger] ext[i] != '.' && ext[i] != '/',
        -1 <= k < name.len(),
        forall|j: int| k < j < name.len() ==> #[trigger] name[j] != '-',
        k == -1 || name[k] == '-',
        k == -1 || name.len() - k - 1 < 6 || name.len() - k - 1 > 12 || exists|j: int|
            k < j < name.len() && !(is_ascii_alnum(#[trigger] name[j]) || name[j] == '_'),
    ensures
        !spec_has_existing_hash(dir + seq!['/'] + name + seq!['.'] + ext),
{
    let n = dir.len() as int;
    let l = name.len() as int;
    let p = dir + seq!['/'] + name + seq!['.'] + ext;
    assert(p[n] == '/');
    assert forall|j: int| n < j < p.len() implies p[j] != '/' by {
        if j <= n + l {
            assert(p[j] == name[j - n - 1]);
        } else if j > n + l + 1 {
            assert(p[j] == ext[j - n - l - 2]);
        }
    }
    lemma_last_index(p, '/', n);
    let f = after_last(p, '/');
    assert(f =~= name + seq!['.'] + ext);
    assert forall|j: int| l < j < f.len() implies f[j] != '.' by {
        assert(f[j] == ext[j - l - 1]);
    }
    lemma_last_index(f, '.', l);
    assert(f.take(l) =~= name);
    lemma_no_last_index(name, '.');
    if k == -1 {
        lemma_no_last_index(name, '-');
    } else {
        lemma_last_index(name, '-', k);
        if 6 <= name.len() - k - 1 <= 12 {
            let j = choose|j: int|
                k < j < name.len() && !(is_ascii_alnum(#[trigger] name[j]) || name[j] == '_');
            assert(name.skip(k + 1)[j - k - 1] == name[j]);
            assert(name[j] != '-');
            assert(!is_hash_char(name[j]));
        }
    }
}

/// A dodeca encoding looks like a bundler hash.
pub proof fn law_dodeca_hashes_are_hash_like(hash: u64)
    ensures
        spec_is_hash_like(spec_encode_dodeca(hash)),
{
    law_encode_dodeca(hash);
    let e = spec_encode_dodeca(hash);
    assert forall|i: int| 0 <= i < e.len() implies is_hash_char(#[trigger] e[i]) by {
        assert(is_dodeca_char(e[i]));
    }
}

/// A file whose name has an extension, busted with its content hash, is
/// recognised as already hashed.
pub proof fn law_content_busted_paths_are_not_hashed_twice(path: Seq<char>, content: Seq<u8>, d: int)
    requires
        is_last_char(path, '.', d),
        forall|j: int| d < j < path.len() ==> path[j] != '/',
    ensures
        spec_has_existing_hash(
            spec_cache_busted_path(path, spec_encode_dodeca(rapidhash_fast(content))),
        ),
{
    law_dodeca_hashes_are_hash_like(rapidhash_fast(content));
    law_busted_paths_are_recognised_as_hashed(path, spec_encode_dodeca(rapidhash_fast(content)), d);
}

} // verus!
