//! Requests the local HTTP router hands to the site: decoding query strings,
//! and deciding which built-in endpoint a request path names.
use vstd::prelude::*;

use vstd::utf8::{decode_utf8, encode_utf8, valid_utf8};

use crate::text::{find_char, first_index, from_chars, split, sub_chars, to_chars};

verus! {

// ---------------------------------------------------------------------------
// Percent-decoding
// ---------------------------------------------------------------------------

/// The value of an ASCII hexadecimal digit.
pub open spec fn hex_value(b: u8) -> Option<u8> {
    if 48 <= b <= 57 {
        Some((b - 48) as u8)
    } else if 97 <= b <= 102 {
        Some((b - 87) as u8)
    } else if 65 <= b <= 70 {
        Some((b - 55) as u8)
    } else {
        None
    }
}

/// The value of an ASCII hexadecimal digit, if `b` is one.
pub fn hex(b: u8) -> (r: Option<u8>)
    ensures
        r == hex_value(b),
{
    if 48 <= b && b <= 57 {
        Some(b - 48)
    } else if 97 <= b && b <= 102 {
        Some(b - 87)
    } else if 65 <= b && b <= 70 {
        Some(b - 55)
    } else {
        None
    }
}

/// Form-decoding of bytes, left to right: `+` is a space, `%` followed by
/// two hexadecimal digits (with at least two bytes after the `%`) is the
/// byte they spell, and every other byte stands for itself.
pub open spec fn percent_decoded(b: Seq<u8>) -> Seq<u8>
    decreases b.len(),
{
    if b.len() == 0 {
        Seq::empty()
    } else if b[0] == 43 {
        seq![32u8] + percent_decoded(b.skip(1))
    } else if b[0] == 37 && b.len() >= 3 && hex_value(b[1]) is Some && hex_value(b[2]) is Some {
        seq![(hex_value(b[1])->0 * 16 + hex_value(b[2])->0) as u8] + percent_decoded(b.skip(3))
    } else {
        seq![b[0]] + percent_decoded(b.skip(1))
    }
}

/// The bytes that form-decoding `s` gives.
pub fn percent_decode_bytes(s: &str) -> (r: Vec<u8>)
    ensures
        r@ == percent_decoded(encode_utf8(s@)),
{
    let bytes = s.as_bytes();
    let ghost b = bytes@;
    let mut out: Vec<u8> = Vec::new();
    let mut i: usize = 0;
    assert(b.skip(0) == b);
    while i < bytes.len()
        invariant
            i <= bytes.len(),
            b == bytes@,
            out@ + percent_decoded(b.skip(i as int)) == percent_decoded(b),
        decreases bytes.len() - i,
    {
        let ghost rest = b.skip(i as int);
        assert(rest[0] == bytes@[i as int]);
        let c = bytes[i];
        if c == 43 {
            assert(rest.skip(1) == b.skip(i + 1));
            out.push(32);
            assert(out@ + percent_decoded(b.skip(i + 1)) == percent_decoded(b));
            i = i + 1;
        } else if c == 37 && bytes.len() - i > 2 {
            assert(rest[1] == bytes@[i + 1]);
            assert(rest[2] == bytes@[i + 2]);
            match (hex(bytes[i + 1]), hex(bytes[i + 2])) {
                (Some(h), Some(l)) => {
                    assert(rest.skip(3) == b.skip(i + 3));
                    out.push(h * 16 + l);
                    assert(out@ + percent_decoded(b.skip(i + 3)) == percent_decoded(b));
                    i = i + 3;
                },
                _ => {
                    assert(rest.skip(1) == b.skip(i + 1));
                    out.push(c);
                    assert(out@ + percent_decoded(b.skip(i + 1)) == percent_decoded(b));
                    i = i + 1;
                },
            }
        } else {
            assert(rest.skip(1) == b.skip(i + 1));
            out.push(c);
            assert(out@ + percent_decoded(b.skip(i + 1)) == percent_decoded(b));
            i = i + 1;
        }
    }
    assert(out@ + percent_decoded(b.skip(bytes.len() as int)) == out@);
    out
}

/// What `String::from_utf8_lossy` gives for `bytes`: the text they encode,
/// with every invalid sequence replaced by U+FFFD.
pub uninterp spec fn utf8_lossy(bytes: Seq<u8>) -> Seq<char>;

/// Calls `String::from_utf8_lossy`. Its documentation says that the result
/// depends on the bytes alone and that valid UTF-8 is decoded as it is; the
/// contract names the result and states that valid input decodes exactly.
/// What replaces invalid sequences is left unsaid.
#[verifier::external_body]
pub fn string_from_utf8_lossy(bytes: &[u8]) -> (r: String)
    ensures
        r@ == utf8_lossy(bytes@),
        valid_utf8(bytes@) ==> r@ == decode_utf8(bytes@),
{
    String::from_utf8_lossy(bytes).into_owned()
}

/// The text that form-decoding `s` spells.
pub open spec fn spec_percent_decode(s: Seq<char>) -> Seq<char> {
    utf8_lossy(percent_decoded(encode_utf8(s)))
}

/// Form-decodes `s` (`+` and `%XX` escapes), reading the result as UTF-8
/// with invalid sequences replaced.
pub fn percent_decode(s: &str) -> (r: String)
    ensures
        r@ == spec_percent_decode(s@),
{
    let bytes = percent_decode_bytes(s);
    string_from_utf8_lossy(bytes.as_slice())
}

// ---------------------------------------------------------------------------
// Query strings
// ---------------------------------------------------------------------------

/// The key and value of one `key=value` piece of a query string, both
/// decoded; a piece without `=` is a key with an empty value.
pub open spec fn query_pair(piece: Seq<char>) -> (Seq<char>, Seq<char>) {
    match first_index(piece, '=') {
        Some(e) => (spec_percent_decode(piece.take(e)), spec_percent_decode(piece.skip(e + 1))),
        None => (spec_percent_decode(piece), spec_percent_decode(Seq::empty())),
    }
}

/// The decoded pairs of the non-empty pieces, in order.
pub open spec fn query_pairs_of(pieces: Seq<Seq<char>>) -> Seq<(Seq<char>, Seq<char>)>
    decreases pieces.len(),
{
    if pieces.len() == 0 {
        Seq::empty()
    } else if pieces.last().len() == 0 {
        query_pairs_of(pieces.drop_last())
    } else {
        query_pairs_of(pieces.drop_last()).push(query_pair(pieces.last()))
    }
}

/// `s` without one leading `?`.
pub open spec fn without_question_mark(s: Seq<char>) -> Seq<char> {
    if s.len() > 0 && s[0] == '?' {
        s.skip(1)
    } else {
        s
    }
}

/// The decoded `key=value` pairs of a query string (with or without its
/// leading `?`), in order; empty pieces between `&`s are skipped.
pub open spec fn spec_query_pairs(s: Seq<char>) -> Seq<(Seq<char>, Seq<char>)> {
    query_pairs_of(split(without_question_mark(s), '&'))
}

/// The value of `key` in the pairs: the last pair with that key wins.
pub open spec fn query_get(pairs: Seq<(Seq<char>, Seq<char>)>, key: Seq<char>) -> Option<Seq<char>>
    decreases pairs.len(),
{
    if pairs.len() == 0 {
        None
    } else if pairs.last().0 == key {
        Some(pairs.last().1)
    } else {
        query_get(pairs.drop_last(), key)
    }
}

/// The pairs as plain values.
pub open spec fn pair_views(v: Seq<(String, String)>) -> Seq<(Seq<char>, Seq<char>)> {
    v.map_values(|p: (String, String)| (p.0@, p.1@))
}

fn decode_pair(piece: &[char]) -> (r: (String, String))
    ensures
        (r.0@, r.1@) == query_pair(piece@),
{
    match find_char(piece, '=') {
        Some(e) => {
            assert(e < piece.len());
            let k = from_chars(sub_chars(piece, 0, e).as_slice());
            let v = from_chars(sub_chars(piece, e + 1, piece.len()).as_slice());
            assert(piece@.subrange(0, e as int) == piece@.take(e as int));
            assert(piece@.subrange(e + 1 as int, piece@.len() as int) == piece@.skip(e + 1));
            (percent_decode(k.as_str()), percent_decode(v.as_str()))
        },
        None => {
            let k = from_chars(piece);
            let v = String::new();
            (percent_decode(k.as_str()), percent_decode(v.as_str()))
        },
    }
}

/// Parses a query string into its decoded pairs, in order. Later pairs with
/// the same key take precedence when looked up.
pub fn parse_query_string(s: &str) -> (r: Vec<(String, String)>)
    ensures
        pair_views(r@) == spec_query_pairs(s@),
{
    let all = to_chars(s);
    let start: usize = if all.len() > 0 && all[0] == '?' {
        1
    } else {
        0
    };
    let t = sub_chars(all.as_slice(), start, all.len());
    assert(t@ == without_question_mark(s@));
    let mut out: Vec<(String, String)> = Vec::new();
    let mut cur: Vec<char> = Vec::new();
    let mut i: usize = 0;
    assert(t@.take(0) == Seq::<char>::empty());
    while i < t.len()
        invariant
            i <= t.len(),
            split(t@.take(i as int), '&').len() >= 1,
            pair_views(out@) == query_pairs_of(split(t@.take(i as int), '&').drop_last()),
            cur@ == split(t@.take(i as int), '&').last(),
        decreases t.len() - i,
    {
        let ghost pieces = split(t@.take(i as int), '&');
        let c = t[i];
        assert(t@.take(i + 1 as int).drop_last() == t@.take(i as int));
        assert(t@.take(i + 1 as int).last() == c);
        if c == '&' {
            if cur.len() > 0 {
                let ghost before = out@;
                let pair = decode_pair(cur.as_slice());
                out.push(pair);
                assert(pair_views(out@) == pair_views(before).push(query_pair(cur@)));
            }
            cur = Vec::new();
            assert(split(t@.take(i + 1 as int), '&') == pieces.push(Seq::<char>::empty()));
            assert(pieces.push(Seq::<char>::empty()).drop_last() == pieces);
            assert(pieces.drop_last().push(pieces.last()) == pieces);
        } else {
            cur.push(c);
            let ghost next = pieces.update(pieces.len() - 1, pieces.last().push(c));
            assert(split(t@.take(i + 1 as int), '&') == next);
            assert(next.drop_last() == pieces.drop_last());
        }
        i = i + 1;
    }
    assert(t@.take(t.len() as int) == t@);
    let ghost pieces = split(t@, '&');
    assert(pieces.drop_last().push(pieces.last()) == pieces);
    if cur.len() > 0 {
        let ghost before = out@;
        let pair = decode_pair(cur.as_slice());
        out.push(pair);
        assert(pair_views(out@) == pair_views(before).push(query_pair(cur@)));
    }
    out
}

/// The value of `key` in parsed query pairs: the last pair with that key.
pub fn query_param<'a>(params: &'a Vec<(String, String)>, key: &str) -> (r: Option<&'a str>)
    ensures
        match query_get(pair_views(params@), key@) {
            Some(v) => r matches Some(x) && x@ == v,
            None => r is None,
        },
{
    let ghost pv = pair_views(params@);
    let mut i: usize = params.len();
    assert(pv.take(params.len() as int) == pv);
    while i > 0
        invariant
            i <= params.len(),
            pv == pair_views(params@),
            query_get(pv, key@) == query_get(pv.take(i as int), key@),
        decreases i,
    {
        let ghost pre = pv.take(i as int);
        assert(pre.drop_last() == pv.take(i - 1));
        assert(pre.last() == (params@[i - 1].0@, params@[i - 1].1@));
        if crate::text::str_eq(params[i - 1].0.as_str(), key) {
            return Some(params[i - 1].1.as_str());
        }
        i = i - 1;
    }
    None
}

// ---------------------------------------------------------------------------
// Numbers in query strings
// ---------------------------------------------------------------------------

/// An ASCII decimal digit.
pub open spec fn is_decimal_digit(c: char) -> bool {
    '0' <= c && c <= '9'
}

/// The value of a string of decimal digits.
pub open spec fn digits_value(d: Seq<char>) -> int
    decreases d.len(),
{
    if d.len() == 0 {
        0
    } else {
        digits_value(d.drop_last()) * 10 + (d.last() as int - '0' as int)
    }
}

/// The digits of a number: the text without one leading `+`.
pub open spec fn number_digits(s: Seq<char>) -> Seq<char> {
    if s.len() > 0 && s[0] == '+' {
        s.skip(1)
    } else {
        s
    }
}

/// What `str::parse::<usize>` accepts: an optional `+`, then one or more
/// ASCII digits whose value fits in a `usize`.
pub open spec fn spec_parse_usize(s: Seq<char>) -> Option<int> {
    let d = number_digits(s);
    if d.len() > 0 && (forall|i: int| 0 <= i < d.len() ==> is_decimal_digit(#[trigger] d[i]))
        && digits_value(d) <= usize::MAX {
        Some(digits_value(d))
    } else {
        None
    }
}

proof fn lemma_digits_value_grows(d: Seq<char>, i: int)
    requires
        0 <= i <= d.len(),
        forall|k: int| 0 <= k < d.len() ==> is_decimal_digit(#[trigger] d[k]),
    ensures
        digits_value(d.take(i)) <= digits_value(d),
        0 <= digits_value(d.take(i)),
    decreases d.len() - i,
{
    if i < d.len() {
        lemma_digits_value_grows(d, i + 1);
        assert(d.take(i + 1).drop_last() == d.take(i));
        assert(d.take(i + 1).last() == d[i]);
    } else {
        assert(d.take(i) == d);
    }
    lemma_digits_value_nonneg(d.take(i));
}

proof fn lemma_digits_value_nonneg(d: Seq<char>)
    requires
        forall|k: int| 0 <= k < d.len() ==> is_decimal_digit(#[trigger] d[k]),
    ensures
        0 <= digits_value(d),
    decreases d.len(),
{
    if d.len() > 0 {
        assert(is_decimal_digit(d[d.len() - 1]));
        lemma_digits_value_nonneg(d.drop_last());
    }
}

/// Parses a decimal `usize` the way `str::parse::<usize>` does.
pub fn parse_usize(s: &str) -> (r: Option<usize>)
    ensures
        match spec_parse_usize(s@) {
            Some(v) => r matches Some(x) && x == v,
            None => r is None,
        },
{
    let v = to_chars(s);
    let start: usize = if v.len() > 0 && v[0] == '+' {
        1
    } else {
        0
    };
    let ghost d = number_digits(s@);
    assert(d == v@.skip(start as int));
    if start == v.len() {
        assert(d.len() == 0);
        return None;
    }
    let mut value: usize = 0;
    let mut i: usize = start;
    assert(d.take(0) == Seq::<char>::empty());
    while i < v.len()
        invariant
            start <= i <= v.len(),
            v@ == s@,
            d == v@.skip(start as int),
            d == number_digits(s@),
            value == digits_value(d.take(i - start)),
            forall|k: int| 0 <= k < i - start ==> is_decimal_digit(#[trigger] d[k]),
        decreases v.len() - i,
    {
        let c = v[i];
        assert(d[i - start] == c);
        if !('0' <= c && c <= '9') {
            assert(!is_decimal_digit(d[i - start]));
            return None;
        }
        let digit = (c as u32 - '0' as u32) as usize;
        assert(d.take(i + 1 - start).drop_last() == d.take(i - start));
        assert(d.take(i + 1 - start).last() == c);
        let next = match value.checked_mul(10) {
            Some(m) => m.checked_add(digit),
            None => None,
        };
        match next {
            Some(n) => {
                value = n;
            },
            None => {
                proof {
                    if forall|k: int| 0 <= k < d.len() ==> is_decimal_digit(#[trigger] d[k]) {
                        lemma_digits_value_grows(d, i + 1 - start);
                    }
                }
                return None;
            },
        }
        i = i + 1;
    }
    assert(d.take(d.len() as int) == d);
    Some(value)
}

/// The `k` of a knowledge query: the parsed `k` parameter (or `default`
/// when it is absent or not a number), clamped to 1 through 50.
pub open spec fn spec_knowledge_k(params: Seq<(Seq<char>, Seq<char>)>, default: int) -> int {
    let k = match query_get(params, "k"@) {
        Some(t) => match spec_parse_usize(t) {
            Some(v) => v,
            None => default,
        },
        None => default,
    };
    if k < 1 {
        1
    } else if k > 50 {
        50
    } else {
        k
    }
}

/// The `k` of a knowledge query, clamped to 1 through 50.
pub fn knowledge_k(params: &Vec<(String, String)>, default: usize) -> (r: usize)
    ensures
        r == spec_knowledge_k(pair_views(params@), default as int),
{
    let k = match query_param(params, "k") {
        Some(t) => match parse_usize(t) {
            Some(v) => v,
            None => default,
        },
        None => default,
    };
    if k < 1 {
        1
    } else if k > 50 {
        50
    } else {
        k
    }
}

// ---------------------------------------------------------------------------
// Coverage endpoints
// ---------------------------------------------------------------------------

/// The representation a coverage endpoint answers in.
#[derive(Clone, Copy, Debug, PartialEq, Eq, Structural)]
pub enum CoverageOutputFormat {
    Json,
    Markdown,
}

/// Which source and implementation a coverage query is about.
pub struct CoverageSelector {
    pub source: Option<String>,
    pub impl_name: Option<String>,
}

/// A coverage query. The `threshold` of a validation is passed on as
/// written in the query.
pub enum CoverageEndpoint {
    Status,
    Uncovered,
    Untested,
    Unmapped,
    Stale,
    Invalid,
    Validate { threshold: Option<String> },
    Rule { id: String },
}

/// A coverage query as plain values.
pub enum CoverageEndpointView {
    Status,
    Uncovered,
    Untested,
    Unmapped,
    Stale,
    Invalid,
    Validate(Option<Seq<char>>),
    Rule(Seq<char>),
}

/// The optional string as a plain value.
pub open spec fn opt_str(o: Option<String>) -> Option<Seq<char>> {
    match o {
        Some(s) => Some(s@),
        None => None,
    }
}

impl CoverageEndpoint {
    /// The query as plain values.
    pub open spec fn view_of(self) -> CoverageEndpointView {
        match self {
            CoverageEndpoint::Status => CoverageEndpointView::Status,
            CoverageEndpoint::Uncovered => CoverageEndpointView::Uncovered,
            CoverageEndpoint::Untested => CoverageEndpointView::Untested,
            CoverageEndpoint::Unmapped => CoverageEndpointView::Unmapped,
            CoverageEndpoint::Stale => CoverageEndpointView::Stale,
            CoverageEndpoint::Invalid => CoverageEndpointView::Invalid,
            CoverageEndpoint::Validate { threshold } => CoverageEndpointView::Validate(
                opt_str(threshold),
            ),
            CoverageEndpoint::Rule { id } => CoverageEndpointView::Rule(id@),
        }
    }
}

/// A coverage path without its `.json` or `.md` suffix, with the format the
/// suffix asks for; none without either suffix.
pub open spec fn spec_strip_coverage_suffix(path: Seq<char>) -> Option<(Seq<char>, CoverageOutputFormat)> {
    if crate::text::ends_with(path, ".json"@) {
        Some((path.take(path.len() - 5), CoverageOutputFormat::Json))
    } else if crate::text::ends_with(path, ".md"@) {
        Some((path.take(path.len() - 3), CoverageOutputFormat::Markdown))
    } else {
        None
    }
}

/// Splits the representation suffix off a coverage path.
pub fn strip_coverage_suffix(path: &str) -> (r: Option<(String, CoverageOutputFormat)>)
    ensures
        match spec_strip_coverage_suffix(path@) {
            Some((p, f)) => r matches Some((x, g)) && x@ == p && g == f,
            None => r is None,
        },
{
    let v = to_chars(path);
    proof {
        reveal_strlit(".json");
        reveal_strlit(".md");
    }
    if crate::routes::ends_with_str(v.as_slice(), ".json") {
        let head = sub_chars(v.as_slice(), 0, v.len() - 5);
        Some((from_chars(head.as_slice()), CoverageOutputFormat::Json))
    } else if crate::routes::ends_with_str(v.as_slice(), ".md") {
        let head = sub_chars(v.as_slice(), 0, v.len() - 3);
        Some((from_chars(head.as_slice()), CoverageOutputFormat::Markdown))
    } else {
        None
    }
}

/// `s` with every leading repetition of `p` removed.
pub open spec fn strip_all_prefix(s: Seq<char>, p: Seq<char>) -> Seq<char>
    decreases s.len(),
{
    if p.len() > 0 && crate::text::starts_with(s, p) {
        strip_all_prefix(s.skip(p.len() as int), p)
    } else {
        s
    }
}

fn strip_all_prefix_exec(s: &[char], p: &str) -> (r: Vec<char>)
    ensures
        r@ == strip_all_prefix(s@, p@),
{
    let pv = to_chars(p);
    let mut i: usize = 0;
    assert(s@.skip(0) == s@);
    while pv.len() > 0 && i <= s.len() && crate::text::occurs_at_exec(s, pv.as_slice(), i)
        invariant
            i <= s.len(),
            pv@ == p@,
            strip_all_prefix(s@.skip(i as int), p@) == strip_all_prefix(s@, p@),
        decreases s.len() - i,
    {
        let ghost rest = s@.skip(i as int);
        assert(rest.subrange(0, pv@.len() as int) == s@.subrange(i as int, i + pv@.len()));
        assert(rest.skip(pv@.len() as int) == s@.skip(i + pv@.len()));
        i = i + pv.len();
    }
    proof {
        let rest = s@.skip(i as int);
        if pv@.len() > 0 && crate::text::starts_with(rest, p@) {
            assert(rest.subrange(0, pv@.len() as int) == s@.subrange(i as int, i + pv@.len()));
        }
    }
    sub_chars(s, i, s.len())
}

/// What a coverage path (after `/_dodeca/coverage/`) asks for: the endpoint
/// named by the path without its representation suffix, the representation,
/// and the `source` and `impl` selectors of its query; none for an unknown
/// endpoint or a path without a `.json` or `.md` suffix.
pub open spec fn spec_parse_coverage_endpoint(rest: Seq<char>) -> Option<
    (CoverageEndpointView, CoverageOutputFormat, (Option<Seq<char>>, Option<Seq<char>>)),
> {
    let (path, query) = match first_index(rest, '?') {
        Some(q) => (rest.take(q), rest.skip(q + 1)),
        None => (rest, Seq::empty()),
    };
    let params = spec_query_pairs(query);
    match spec_strip_coverage_suffix(path) {
        None => None,
        Some((name, format)) => {
            let selector = (query_get(params, "source"@), query_get(params, "impl"@));
            let endpoint = if name == "status"@ {
                Some(CoverageEndpointView::Status)
            } else if name == "uncovered"@ {
                Some(CoverageEndpointView::Uncovered)
            } else if name == "untested"@ {
                Some(CoverageEndpointView::Untested)
            } else if name == "unmapped"@ {
                Some(CoverageEndpointView::Unmapped)
            } else if name == "stale"@ {
                Some(CoverageEndpointView::Stale)
            } else if name == "invalid"@ {
                Some(CoverageEndpointView::Invalid)
            } else if name == "validate"@ {
                Some(CoverageEndpointView::Validate(query_get(params, "threshold"@)))
            } else if crate::text::starts_with(name, "rule/"@) {
                Some(CoverageEndpointView::Rule(spec_percent_decode(strip_all_prefix(name, "rule/"@))))
            } else {
                None
            };
            match endpoint {
                Some(e) => Some((e, format, selector)),
                None => None,
            }
        },
    }
}

fn owned_param(params: &Vec<(String, String)>, key: &str) -> (r: Option<String>)
    ensures
        opt_str(r) == query_get(pair_views(params@), key@),
{
    match query_param(params, key) {
        Some(v) => Some(from_chars(to_chars(v).as_slice())),
        None => None,
    }
}

/// Parses a coverage path (after `/_dodeca/coverage/`) into its endpoint,
/// representation and selector.
pub fn parse_coverage_endpoint(rest: &str) -> (r: Option<
    (CoverageEndpoint, CoverageOutputFormat, CoverageSelector),
>)
    ensures
        match spec_parse_coverage_endpoint(rest@) {
            Some((e, f, sel)) => r matches Some((x, g, y)) && x.view_of() == e && g == f && (
            opt_str(y.source),
            opt_str(y.impl_name),
        ) == sel,
            None => r is None,
        },
{
    let v = to_chars(rest);
    let (path, query) = match find_char(v.as_slice(), '?') {
        Some(q) => {
            assert(q < v.len());
            assert(v@.subrange(0, q as int) == v@.take(q as int));
            assert(v@.subrange(q + 1 as int, v@.len() as int) == v@.skip(q + 1));
            (sub_chars(v.as_slice(), 0, q), sub_chars(v.as_slice(), q + 1, v.len()))
        },
        None => (v, Vec::new()),
    };
    let query = from_chars(query.as_slice());
    let params = parse_query_string(query.as_str());
    let path = from_chars(path.as_slice());
    let (name, format) = match strip_coverage_suffix(path.as_str()) {
        Some(x) => x,
        None => return None,
    };
    let selector = CoverageSelector {
        source: owned_param(&params, "source"),
        impl_name: owned_param(&params, "impl"),
    };
    let n = name.as_str();
    let endpoint = if crate::text::str_eq(n, "status") {
        CoverageEndpoint::Status
    } else if crate::text::str_eq(n, "uncovered") {
        CoverageEndpoint::Uncovered
    } else if crate::text::str_eq(n, "untested") {
        CoverageEndpoint::Untested
    } else if crate::text::str_eq(n, "unmapped") {
        CoverageEndpoint::Unmapped
    } else if crate::text::str_eq(n, "stale") {
        CoverageEndpoint::Stale
    } else if crate::text::str_eq(n, "invalid") {
        CoverageEndpoint::Invalid
    } else if crate::text::str_eq(n, "validate") {
        CoverageEndpoint::Validate { threshold: owned_param(&params, "threshold") }
    } else {
        let nv = to_chars(n);
        if crate::routes::starts_with_str(nv.as_slice(), "rule/") {
            let id = strip_all_prefix_exec(nv.as_slice(), "rule/");
            let id = from_chars(id.as_slice());
            CoverageEndpoint::Rule { id: percent_decode(id.as_str()) }
        } else {
            return None;
        }
    };
    Some((endpoint, format, selector))
}

// ---------------------------------------------------------------------------
// Built-in endpoints
// ---------------------------------------------------------------------------

/// What a request path asks the site for, before the site looks anything up.
pub enum ContentRoute {
    /// The status page.
    StatusPage,
    /// Send the client to the login of the authenticating proxy.
    LoginRedirect { location: String },
    /// A not-found page.
    NotFound,
    /// Mint an editing token for the requester.
    EditToken,
    /// Semantic search over the pages.
    KnowledgeSearch { query: String, k: usize },
    /// Pages related to a page.
    KnowledgeRelated { route: String, k: usize },
    /// The link neighbourhood of a page, as JSON or as an interactive view.
    KnowledgeGraph { route: String, k: usize, json: bool },
    /// The annotation index as JSON.
    AnnotationsJson,
    /// The annotation index as HTML.
    AnnotationsHtml,
    /// The annotation index as Markdown.
    AnnotationsMarkdown,
    /// A coverage query.
    Coverage { endpoint: CoverageEndpoint, format: CoverageOutputFormat, selector: CoverageSelector },
    /// The in-browser editor for a route, if the requester may edit.
    EditShell { route: String },
    /// Pull the git sources (all of them, or the one named).
    Pull { name: Option<String> },
    /// Anything else: bundled assets, rule redirects and site content.
    Other,
}

/// A route as plain values.
pub enum ContentRouteView {
    StatusPage,
    LoginRedirect(Seq<char>),
    NotFound,
    EditToken,
    KnowledgeSearch(Seq<char>, int),
    KnowledgeRelated(Seq<char>, int),
    KnowledgeGraph(Seq<char>, int, bool),
    AnnotationsJson,
    AnnotationsHtml,
    AnnotationsMarkdown,
    Coverage(CoverageEndpointView, CoverageOutputFormat, (Option<Seq<char>>, Option<Seq<char>>)),
    EditShell(Seq<char>),
    Pull(Option<Seq<char>>),
    Other,
}

impl ContentRoute {
    /// The route as plain values.
    pub open spec fn view_of(self) -> ContentRouteView {
        match self {
            ContentRoute::StatusPage => ContentRouteView::StatusPage,
            ContentRoute::LoginRedirect { location } => ContentRouteView::LoginRedirect(location@),
            ContentRoute::NotFound => ContentRouteView::NotFound,
            ContentRoute::EditToken => ContentRouteView::EditToken,
            ContentRoute::KnowledgeSearch { query, k } => ContentRouteView::KnowledgeSearch(
                query@,
                k as int,
            ),
            ContentRoute::KnowledgeRelated { route, k } => ContentRouteView::KnowledgeRelated(
                route@,
                k as int,
            ),
            ContentRoute::KnowledgeGraph { route, k, json } => ContentRouteView::KnowledgeGraph(
                route@,
                k as int,
                json,
            ),
            ContentRoute::AnnotationsJson => ContentRouteView::AnnotationsJson,
            ContentRoute::AnnotationsHtml => ContentRouteView::AnnotationsHtml,
            ContentRoute::AnnotationsMarkdown => ContentRouteView::AnnotationsMarkdown,
            ContentRoute::Coverage { endpoint, format, selector } => ContentRouteView::Coverage(
                endpoint.view_of(),
                format,
                (opt_str(selector.source), opt_str(selector.impl_name)),
            ),
            ContentRoute::EditShell { route } => ContentRouteView::EditShell(route@),
            ContentRoute::Pull { name } => ContentRouteView::Pull(opt_str(name)),
            ContentRoute::Other => ContentRouteView::Other,
        }
    }
}

/// Where a request without an identity is sent to log in first.
pub open spec fn login_location(path: Seq<char>) -> Seq<char> {
    "/oauth2/start?rd="@ + path
}

/// A value, or the empty string.
pub open spec fn or_empty(o: Option<Seq<char>>) -> Seq<char> {
    match o {
        Some(v) => v,
        None => Seq::empty(),
    }
}

/// `path` starts with `p`, and this is what follows.
pub open spec fn after_prefix(path: Seq<char>, p: Seq<char>) -> Seq<char> {
    path.skip(p.len() as int)
}

/// What a request path asks for. The status page asks a request without an
/// identity to log in when authentication is on; knowledge queries read
/// their parameters from the path's query (`k` defaults to 8, or 10 for the
/// graph, clamped to 1 through 50); a coverage path that names no endpoint
/// is not found; the editor path names the route after it; the pull path
/// may name one source.
pub open spec fn spec_content_route(path: Seq<char>, auth_enabled: bool, has_identity: bool) -> ContentRouteView {
    let search = "/_dodeca/knowledge/search"@;
    let related = "/_dodeca/knowledge/related"@;
    let graph = "/_dodeca/knowledge/graph"@;
    let coverage = "/_dodeca/coverage/"@;
    let edit = "/_dodeca/edit/"@;
    let pull = "/_dodeca/pull/"@;
    if path == "/_dodeca/status"@ {
        if auth_enabled && !has_identity {
            ContentRouteView::LoginRedirect(login_location(path))
        } else {
            ContentRouteView::StatusPage
        }
    } else if path == "/_dodeca/edit-token"@ {
        ContentRouteView::EditToken
    } else if crate::text::starts_with(path, search) {
        let params = spec_query_pairs(after_prefix(path, search));
        ContentRouteView::KnowledgeSearch(
            or_empty(query_get(params, "q"@)),
            spec_knowledge_k(params, 8),
        )
    } else if crate::text::starts_with(path, related) {
        let params = spec_query_pairs(after_prefix(path, related));
        ContentRouteView::KnowledgeRelated(
            or_empty(query_get(params, "route"@)),
            spec_knowledge_k(params, 8),
        )
    } else if crate::text::starts_with(path, graph) {
        let params = spec_query_pairs(after_prefix(path, graph));
        ContentRouteView::KnowledgeGraph(
            or_empty(query_get(params, "route"@)),
            spec_knowledge_k(params, 10),
            query_get(params, "format"@) == Some("json"@),
        )
    } else if path == "/_dodeca/annotations.json"@ {
        ContentRouteView::AnnotationsJson
    } else if path == "/_dodeca/annotations"@ || path == "/_dodeca/annotations.html"@ {
        ContentRouteView::AnnotationsHtml
    } else if path == "/_dodeca/annotations.md"@ {
        ContentRouteView::AnnotationsMarkdown
    } else if crate::text::starts_with(path, coverage) {
        match spec_parse_coverage_endpoint(after_prefix(path, coverage)) {
            Some((e, f, sel)) => ContentRouteView::Coverage(e, f, sel),
            None => ContentRouteView::NotFound,
        }
    } else if crate::text::starts_with(path, edit) {
        ContentRouteView::EditShell(
            seq!['/'] + crate::model::without_leading_slashes(after_prefix(path, edit)),
        )
    } else if path == "/_dodeca/pull"@ || crate::text::starts_with(path, pull) {
        let name = if crate::text::starts_with(path, pull) && after_prefix(path, pull).len() > 0 {
            Some(after_prefix(path, pull))
        } else {
            None
        };
        ContentRouteView::Pull(name)
    } else {
        ContentRouteView::Other
    }
}

/// The rest of `pv` after the prefix `p`, if `pv` starts with it.
fn rest_after(pv: &Vec<char>, p: &str) -> (r: Option<String>)
    ensures
        match r {
            Some(x) => crate::text::starts_with(pv@, p@) && x@ == after_prefix(pv@, p@),
            None => !crate::text::starts_with(pv@, p@),
        },
{
    let prefix = to_chars(p);
    if crate::text::starts_with_exec(pv.as_slice(), prefix.as_slice()) {
        let rest = sub_chars(pv.as_slice(), prefix.len(), pv.len());
        assert(rest@ == pv@.skip(p@.len() as int));
        Some(from_chars(rest.as_slice()))
    } else {
        None
    }
}

/// Decides what a request path asks for.
pub fn content_route(path: &str, auth_enabled: bool, has_identity: bool) -> (r: ContentRoute)
    ensures
        r.view_of() == spec_content_route(path@, auth_enabled, has_identity),
{
    let pv = to_chars(path);
    if crate::text::str_eq(path, "/_dodeca/status") {
        if auth_enabled && !has_identity {
            let mut loc = to_chars("/oauth2/start?rd=");
            crate::text::extend_chars(&mut loc, pv.as_slice());
            return ContentRoute::LoginRedirect { location: from_chars(loc.as_slice()) };
        }
        return ContentRoute::StatusPage;
    }
    if crate::text::str_eq(path, "/_dodeca/edit-token") {
        return ContentRoute::EditToken;
    }
    match rest_after(&pv, "/_dodeca/knowledge/search") {
        Some(rest) => {
            let params = parse_query_string(rest.as_str());
            let query = match query_param(&params, "q") {
                Some(q) => from_chars(to_chars(q).as_slice()),
                None => String::new(),
            };
            return ContentRoute::KnowledgeSearch { query, k: knowledge_k(&params, 8) };
        },
        None => {},
    }
    match rest_after(&pv, "/_dodeca/knowledge/related") {
        Some(rest) => {
            let params = parse_query_string(rest.as_str());
            let route = match query_param(&params, "route") {
                Some(q) => from_chars(to_chars(q).as_slice()),
                None => String::new(),
            };
            return ContentRoute::KnowledgeRelated { route, k: knowledge_k(&params, 8) };
        },
        None => {},
    }
    match rest_after(&pv, "/_dodeca/knowledge/graph") {
        Some(rest) => {
            let params = parse_query_string(rest.as_str());
            let route = match query_param(&params, "route") {
                Some(q) => from_chars(to_chars(q).as_slice()),
                None => String::new(),
            };
            let json = match query_param(&params, "format") {
                Some(f) => crate::text::str_eq(f, "json"),
                None => false,
            };
            return ContentRoute::KnowledgeGraph { route, k: knowledge_k(&params, 10), json };
        },
        None => {},
    }
    if crate::text::str_eq(path, "/_dodeca/annotations.json") {
        return ContentRoute::AnnotationsJson;
    }
    if crate::text::str_eq(path, "/_dodeca/annotations") || crate::text::str_eq(
        path,
        "/_dodeca/annotations.html",
    ) {
        return ContentRoute::AnnotationsHtml;
    }
    if crate::text::str_eq(path, "/_dodeca/annotations.md") {
        return ContentRoute::AnnotationsMarkdown;
    }
    match rest_after(&pv, "/_dodeca/coverage/") {
        Some(rest) => {
            return match parse_coverage_endpoint(rest.as_str()) {
                Some((endpoint, format, selector)) => ContentRoute::Coverage {
                    endpoint,
                    format,
                    selector,
                },
                None => ContentRoute::NotFound,
            };
        },
        None => {},
    }
    match rest_after(&pv, "/_dodeca/edit/") {
        Some(rest) => {
            let trimmed = crate::model::strip_leading_slashes(rest.as_str());
            let mut route: Vec<char> = Vec::new();
            route.push('/');
            crate::text::push_str_chars(&mut route, trimmed.as_str());
            return ContentRoute::EditShell { route: from_chars(route.as_slice()) };
        },
        None => {},
    }
    let pulled = rest_after(&pv, "/_dodeca/pull/");
    if crate::text::str_eq(path, "/_dodeca/pull") || pulled.is_some() {
        let name = match pulled {
            Some(n) => if n.as_str().unicode_len() > 0 {
                Some(n)
            } else {
                None
            },
            None => None,
        };
        return ContentRoute::Pull { name };
    }
    ContentRoute::Other
}

/// What a request for the editor gets when no editing token was granted:
/// a login redirect when authentication is on and the request carries no
/// identity, else a not-found page.
pub fn edit_shell_denied(path: &str, auth_enabled: bool, has_identity: bool) -> (r: ContentRoute)
    ensures
        r.view_of() == if auth_enabled && !has_identity {
            ContentRouteView::LoginRedirect(login_location(path@))
        } else {
            ContentRouteView::NotFound
        },
{
    if auth_enabled && !has_identity {
        let mut loc = to_chars("/oauth2/start?rd=");
        crate::text::push_str_chars(&mut loc, path);
        ContentRoute::LoginRedirect { location: from_chars(loc.as_slice()) }
    } else {
        ContentRoute::NotFound
    }
}

} // verus!
