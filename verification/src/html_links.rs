//! Literal links written in template text: the `href` values of the `<a>`
//! tags of an HTML fragment, with their byte ranges, so a link found in a
//! rendered page can be traced back to the template line that wrote it.
use vstd::prelude::*;

use vstd::utf8::encode_utf8;

use crate::content_service::{string_from_utf8_lossy, utf8_lossy};

verus! {

/// ASCII whitespace as `u8::is_ascii_whitespace` defines it.
pub open spec fn is_ascii_ws(b: u8) -> bool {
    b == 32 || b == 9 || b == 10 || b == 12 || b == 13
}

/// A byte of an HTML tag or attribute name: ASCII letter or digit, `-`, `:`
/// or `_`.
pub open spec fn is_name_byte(b: u8) -> bool {
    ||| (48 <= b && b <= 57)
    ||| (65 <= b && b <= 90)
    ||| (97 <= b && b <= 122)
    ||| b == 45
    ||| b == 58
    ||| b == 95
}

/// Where a name starting at `i` ends.
pub open spec fn name_end(b: Seq<u8>, i: int) -> int
    decreases b.len() - i,
{
    if 0 <= i < b.len() && is_name_byte(b[i]) {
        name_end(b, i + 1)
    } else {
        i
    }
}

pub proof fn lemma_name_end(b: Seq<u8>, i: int)
    requires
        0 <= i,
    ensures
        i <= name_end(b, i),
        i <= b.len() ==> name_end(b, i) <= b.len(),
    decreases b.len() - i,
{
    if 0 <= i < b.len() && is_name_byte(b[i]) {
        lemma_name_end(b, i + 1);
    }
}

fn is_name_byte_exec(b: u8) -> (r: bool)
    ensures
        r == is_name_byte(b),
{
    (48 <= b && b <= 57) || (65 <= b && b <= 90) || (97 <= b && b <= 122) || b == 45 || b == 58
        || b == 95
}

fn is_ascii_ws_exec(b: u8) -> (r: bool)
    ensures
        r == is_ascii_ws(b),
{
    b == 32 || b == 9 || b == 10 || b == 12 || b == 13
}

/// The end of the HTML name that starts at `cursor`.
pub fn scan_html_name(bytes: &[u8], cursor: usize) -> (r: usize)
    ensures
        r == name_end(bytes@, cursor as int),
{
    let mut c = cursor;
    while c < bytes.len() && is_name_byte_exec(bytes[c])
        invariant
            cursor <= c,
            name_end(bytes@, c as int) == name_end(bytes@, cursor as int),
        decreases bytes.len() - c,
    {
        c = c + 1;
    }
    c
}

/// The `>` that closes a tag, scanning from `i` with `quote` the quote
/// character of an attribute value being read (quoted `>` do not count).
pub open spec fn tag_end_from(b: Seq<u8>, i: int, quote: Option<u8>) -> Option<int>
    decreases b.len() - i,
{
    if i < 0 || i >= b.len() {
        None
    } else {
        match quote {
            Some(q) => if b[i] == q {
                tag_end_from(b, i + 1, None)
            } else {
                tag_end_from(b, i + 1, quote)
            },
            None => if b[i] == 39 || b[i] == 34 {
                tag_end_from(b, i + 1, Some(b[i]))
            } else if b[i] == 62 {
                Some(i)
            } else {
                tag_end_from(b, i + 1, None)
            },
        }
    }
}

pub proof fn lemma_tag_end_from(b: Seq<u8>, i: int, quote: Option<u8>)
    ensures
        tag_end_from(b, i, quote) matches Some(e) ==> i <= e < b.len() && b[e] == 62,
    decreases b.len() - i,
{
    if 0 <= i < b.len() {
        match quote {
            Some(q) => if b[i] == q {
                lemma_tag_end_from(b, i + 1, None);
            } else {
                lemma_tag_end_from(b, i + 1, quote);
            },
            None => if b[i] == 39 || b[i] == 34 {
                lemma_tag_end_from(b, i + 1, Some(b[i]));
            } else if b[i] != 62 {
                lemma_tag_end_from(b, i + 1, None);
            },
        }
    }
}

/// The `>` that closes the tag whose attributes start at `cursor`.
pub fn scan_html_tag_end(bytes: &[u8], cursor: usize) -> (r: Option<usize>)
    ensures
        match r {
            Some(e) => tag_end_from(bytes@, cursor as int, None) == Some(e as int),
            None => tag_end_from(bytes@, cursor as int, None) is None,
        },
{
    let mut quote: Option<u8> = None;
    let mut c = cursor;
    while c < bytes.len()
        invariant
            cursor <= c,
            tag_end_from(bytes@, c as int, quote) == tag_end_from(bytes@, cursor as int, None),
        decreases bytes.len() - c,
    {
        let byte = bytes[c];
        match quote {
            Some(q) => {
                if byte == q {
                    quote = None;
                }
            },
            None => {
                if byte == 39 || byte == 34 {
                    quote = Some(byte);
                } else if byte == 62 {
                    return Some(c);
                }
            },
        }
        c = c + 1;
    }
    None
}

/// The first index at or after `i` (and before `end`) holding `q`.
pub open spec fn first_byte_from(b: Seq<u8>, i: int, end: int, q: u8) -> Option<int>
    decreases end - i,
{
    if i < 0 || i >= end || i >= b.len() {
        None
    } else if b[i] == q {
        Some(i)
    } else {
        first_byte_from(b, i + 1, end, q)
    }
}

/// Where an unquoted value starting at `i` ends: at `end`, at whitespace
/// or at `>`.
pub open spec fn unquoted_end(b: Seq<u8>, i: int, end: int) -> int
    decreases end - i,
{
    if i < 0 || i >= end || i >= b.len() || is_ascii_ws(b[i]) || b[i] == 62 {
        i
    } else {
        unquoted_end(b, i + 1, end)
    }
}

/// The value of the attribute that starts at `cursor` (before `tag_end`):
/// a quoted value runs to the matching quote (none when it is not closed
/// before the tag ends) and reading goes on after the quote; an unquoted
/// value runs to whitespace or the end of the tag and must not be empty.
/// The result is the value's start and end and where reading goes on.
pub open spec fn attr_value(b: Seq<u8>, cursor: int, tag_end: int) -> Option<(int, int, int)> {
    if cursor < 0 || cursor >= b.len() {
        None
    } else if b[cursor] == 39 || b[cursor] == 34 {
        match first_byte_from(b, cursor + 1, tag_end, b[cursor]) {
            Some(e) => Some((cursor + 1, e, e + 1)),
            None => None,
        }
    } else {
        let e = unquoted_end(b, cursor, tag_end);
        if e > cursor {
            Some((cursor, e, e))
        } else {
            None
        }
    }
}

/// The value of the attribute that starts at `cursor`, if it has one.
pub fn scan_html_attr_value(bytes: &[u8], cursor: usize, tag_end: usize) -> (r: Option<
    (usize, usize, usize),
>)
    requires
        tag_end <= bytes.len(),
    ensures
        match attr_value(bytes@, cursor as int, tag_end as int) {
            Some((s, e, n)) => r == Some((s as usize, e as usize, n as usize)),
            None => r is None,
        },
        r matches Some((s, e, n)) ==> cursor <= s <= e && cursor < n && e <= tag_end && n <= tag_end
            + 1,
{
    if cursor >= bytes.len() {
        return None;
    }
    let q = bytes[cursor];
    if q == 39 || q == 34 {
        let start = cursor + 1;
        let mut e = start;
        while e < tag_end && bytes[e] != q
            invariant
                start <= e,
                start <= tag_end ==> e <= tag_end,
                tag_end <= bytes.len(),
                first_byte_from(bytes@, e as int, tag_end as int, q) == first_byte_from(
                    bytes@,
                    start as int,
                    tag_end as int,
                    q,
                ),
            decreases tag_end - e,
        {
            e = e + 1;
        }
        if e < tag_end {
            Some((start, e, e + 1))
        } else {
            None
        }
    } else {
        let mut e = cursor;
        while e < tag_end && !is_ascii_ws_exec(bytes[e]) && bytes[e] != 62
            invariant
                cursor <= e,
                cursor <= tag_end ==> e <= tag_end,
                tag_end <= bytes.len(),
                unquoted_end(bytes@, e as int, tag_end as int) == unquoted_end(
                    bytes@,
                    cursor as int,
                    tag_end as int,
                ),
            decreases tag_end - e,
        {
            e = e + 1;
        }
        if e > cursor {
            Some((cursor, e, e))
        } else {
            None
        }
    }
}

/// Skips ASCII whitespace (and `/` when `slash`) from `i`, stopping at `end`.
pub open spec fn skip_blank(b: Seq<u8>, i: int, end: int, slash: bool) -> int
    decreases end - i,
{
    if 0 <= i < end && i < b.len() && (is_ascii_ws(b[i]) || (slash && b[i] == 47)) {
        skip_blank(b, i + 1, end, slash)
    } else {
        i
    }
}

pub proof fn lemma_skip_blank(b: Seq<u8>, i: int, end: int, slash: bool)
    ensures
        i <= skip_blank(b, i, end, slash),
        i <= end ==> skip_blank(b, i, end, slash) <= end,
    decreases end - i,
{
    if 0 <= i < end && i < b.len() && (is_ascii_ws(b[i]) || (slash && b[i] == 47)) {
        lemma_skip_blank(b, i + 1, end, slash);
    }
}

pub proof fn lemma_first_byte_from(b: Seq<u8>, i: int, end: int, q: u8)
    ensures
        first_byte_from(b, i, end, q) matches Some(e) ==> i <= e < end && e < b.len() && b[e] == q,
    decreases end - i,
{
    if 0 <= i < end && i < b.len() && b[i] != q {
        lemma_first_byte_from(b, i + 1, end, q);
    }
}

pub proof fn lemma_unquoted_end(b: Seq<u8>, i: int, end: int)
    ensures
        i <= unquoted_end(b, i, end),
        i <= end ==> unquoted_end(b, i, end) <= end,
    decreases end - i,
{
    if !(i < 0 || i >= end || i >= b.len() || is_ascii_ws(b[i]) || b[i] == 62) {
        lemma_unquoted_end(b, i + 1, end);
    }
}

pub proof fn lemma_attr_value(b: Seq<u8>, cursor: int, tag_end: int)
    ensures
        attr_value(b, cursor, tag_end) matches Some((s, e, n)) ==> cursor <= s <= e && cursor < n
            && e <= tag_end && n <= tag_end + 1 && (cursor <= tag_end ==> n <= tag_end),
{
    if 0 <= cursor < b.len() {
        if b[cursor] == 39 || b[cursor] == 34 {
            lemma_first_byte_from(b, cursor + 1, tag_end, b[cursor]);
        } else {
            lemma_unquoted_end(b, cursor, tag_end);
        }
    }
}

/// The bytes equal `lit` when ASCII letters are compared without case.
pub open spec fn eq_ascii_ci(a: Seq<u8>, lit: Seq<u8>) -> bool {
    a.len() == lit.len() && forall|i: int| 0 <= i < a.len() ==> #[trigger] ascii_lower(a[i]) == ascii_lower(lit[i])
}

/// A byte with ASCII upper case mapped to lower case.
pub open spec fn ascii_lower(b: u8) -> int {
    if 65 <= b && b <= 90 {
        b + 32
    } else {
        b as int
    }
}

fn eq_ascii_ci_exec(bytes: &[u8], from: usize, to: usize, lit: &[u8]) -> (r: bool)
    requires
        from <= to <= bytes.len(),
    ensures
        r == eq_ascii_ci(bytes@.subrange(from as int, to as int), lit@),
{
    if to - from != lit.len() {
        return false;
    }
    let mut i: usize = 0;
    while i < lit.len()
        invariant
            i <= lit.len(),
            to - from == lit.len(),
            from <= to <= bytes.len(),
            forall|k: int|
                0 <= k < i ==> #[trigger] ascii_lower(bytes@.subrange(from as int, to as int)[k])
                    == ascii_lower(lit@[k]),
        decreases lit.len() - i,
    {
        let x = bytes[from + i];
        let y = lit[i];
        let lx: u16 = if 65 <= x && x <= 90 {
            x as u16 + 32
        } else {
            x as u16
        };
        let ly: u16 = if 65 <= y && y <= 90 {
            y as u16 + 32
        } else {
            y as u16
        };
        assert(bytes@.subrange(from as int, to as int)[i as int] == x);
        assert(lx == ascii_lower(x));
        assert(ly == ascii_lower(y));
        if lx != ly {
            return false;
        }
        i = i + 1;
    }
    true
}

/// The bytes of `href`.
pub open spec fn href_name() -> Seq<u8> {
    seq![104u8, 114u8, 101u8, 102u8]
}

/// The value ranges of the `href` attributes among the attributes from
/// `cursor` to the tag's end `tag_end`, in order. Reading skips whitespace
/// and `/`, takes an attribute name, and (after whitespace) an `=` and a
/// value; a name without `=` is skipped, and a value that cannot be read
/// ends the tag.
pub open spec fn href_ranges(b: Seq<u8>, cursor: int, tag_end: int) -> Seq<(int, int)>
    decreases tag_end - cursor,
{
    if cursor < 0 || cursor >= tag_end || tag_end > b.len() {
        Seq::empty()
    } else {
        let c1 = skip_blank(b, cursor, tag_end, true);
        let ne = name_end(b, c1);
        proof {
            lemma_skip_blank(b, cursor, tag_end, true);
            lemma_name_end(b, c1);
        }
        if c1 >= tag_end {
            Seq::empty()
        } else if ne == c1 {
            href_ranges(b, c1 + 1, tag_end)
        } else {
            let c2 = skip_blank(b, ne, tag_end, false);
            proof {
                lemma_skip_blank(b, ne, tag_end, false);
            }
            if c2 >= tag_end {
                Seq::empty()
            } else if b[c2] != 61 {
                href_ranges(b, c2, tag_end)
            } else {
                let c3 = skip_blank(b, c2 + 1, tag_end, false);
                proof {
                    lemma_skip_blank(b, c2 + 1, tag_end, false);
                    lemma_attr_value(b, c3, tag_end);
                }
                match attr_value(b, c3, tag_end) {
                    None => Seq::empty(),
                    Some((vs, ve, next)) => {
                        let rest = href_ranges(b, next, tag_end);
                        if eq_ascii_ci(b.subrange(c1, ne), href_name()) {
                            seq![(vs, ve)] + rest
                        } else {
                            rest
                        }
                    },
                }
            }
        }
    }
}

/// The value ranges of the `href` attributes of the `<a>` tags of `b` from
/// `cursor` on, in order. Closing tags, comments and processing
/// instructions are passed over; a tag whose name is not `a` (ignoring
/// case) is passed over after its name; an `<a>` tag that is not closed by
/// `>` ends the scan.
pub open spec fn literal_ranges(b: Seq<u8>, cursor: int) -> Seq<(int, int)>
    decreases b.len() - cursor,
{
    if cursor < 0 || cursor >= b.len() {
        Seq::empty()
    } else {
        proof {
            lemma_first_byte_from(b, cursor, b.len() as int, 60);
        }
        match first_byte_from(b, cursor, b.len() as int, 60) {
            None => Seq::empty(),
            Some(ts) => {
                let ns0 = ts + 1;
                if ns0 < b.len() && (b[ns0] == 47 || b[ns0] == 33 || b[ns0] == 63) {
                    literal_ranges(b, ns0 + 1)
                } else {
                    let ns = skip_blank(b, ns0, b.len() as int, false);
                    let ne = name_end(b, ns);
                    proof {
                        lemma_skip_blank(b, ns0, b.len() as int, false);
                        lemma_name_end(b, ns);
                    }
                    if !eq_ascii_ci(b.subrange(ns, ne), seq![97u8]) {
                        literal_ranges(
                            b,
                            if ne > ts + 1 {
                                ne
                            } else {
                                ts + 1
                            },
                        )
                    } else {
                        proof {
                            lemma_tag_end_from(b, ne, None);
                        }
                        match tag_end_from(b, ne, None) {
                            None => Seq::empty(),
                            Some(te) => href_ranges(b, ne, te) + literal_ranges(b, te + 1),
                        }
                    }
                }
            }
        }
    }
}

/// A literal link: its `href` value and the byte range of that value,
/// offset by where the fragment starts in its file.
pub struct LiteralHref {
    pub href: String,
    pub byte_start: usize,
    pub byte_end: usize,
}

/// A link as plain values.
pub open spec fn literal_view(h: LiteralHref) -> (Seq<char>, int, int) {
    (h.href@, h.byte_start as int, h.byte_end as int)
}

/// The links as plain values.
pub open spec fn literal_views(v: Seq<LiteralHref>) -> Seq<(Seq<char>, int, int)> {
    v.map_values(|h: LiteralHref| literal_view(h))
}

/// The links that value ranges of `b` stand for, in a fragment starting at
/// byte `base` of its file: each value read as text, with its range shifted.
pub open spec fn range_views(b: Seq<u8>, base: int, rs: Seq<(int, int)>) -> Seq<(Seq<char>, int, int)> {
    rs.map_values(|r: (int, int)| (utf8_lossy(b.subrange(r.0, r.1)), base + r.0, base + r.1))
}

fn skip_blank_exec(bytes: &[u8], i: usize, end: usize, slash: bool) -> (r: usize)
    requires
        end <= bytes.len(),
    ensures
        r == skip_blank(bytes@, i as int, end as int, slash),
{
    let mut c = i;
    while c < end && (is_ascii_ws_exec(bytes[c]) || (slash && bytes[c] == 47))
        invariant
            i <= c,
            end <= bytes.len(),
            skip_blank(bytes@, c as int, end as int, slash) == skip_blank(
                bytes@,
                i as int,
                end as int,
                slash,
            ),
        decreases end - c,
    {
        c = c + 1;
    }
    c
}

fn copy_range(bytes: &[u8], from: usize, to: usize) -> (r: Vec<u8>)
    requires
        from <= to <= bytes.len(),
    ensures
        r@ == bytes@.subrange(from as int, to as int),
{
    let mut out: Vec<u8> = Vec::new();
    let mut i = from;
    while i < to
        invariant
            from <= i <= to <= bytes.len(),
            out@ == bytes@.subrange(from as int, i as int),
        decreases to - i,
    {
        out.push(bytes[i]);
        assert(out@ == bytes@.subrange(from as int, i + 1 as int));
        i = i + 1;
    }
    out
}

fn push_literal(
    bytes: &[u8],
    vs: usize,
    ve: usize,
    base_offset: usize,
    hrefs: &mut Vec<LiteralHref>,
    Ghost(acc): Ghost<Seq<(int, int)>>,
)
    requires
        vs <= ve <= bytes.len(),
        base_offset + bytes.len() <= usize::MAX,
        literal_views(old(hrefs)@) == range_views(bytes@, base_offset as int, acc),
    ensures
        literal_views(final(hrefs)@) == range_views(
            bytes@,
            base_offset as int,
            acc.push((vs as int, ve as int)),
        ),
{
    let value = copy_range(bytes, vs, ve);
    let href = string_from_utf8_lossy(value.as_slice());
    let ghost before = hrefs@;
    hrefs.push(LiteralHref { href, byte_start: base_offset + vs, byte_end: base_offset + ve });
    assert(literal_views(hrefs@) == literal_views(before).push(
        (utf8_lossy(bytes@.subrange(vs as int, ve as int)), base_offset + vs, base_offset + ve),
    ));
    assert(range_views(bytes@, base_offset as int, acc.push((vs as int, ve as int)))
        == range_views(bytes@, base_offset as int, acc).push(
        (utf8_lossy(bytes@.subrange(vs as int, ve as int)), base_offset + vs, base_offset + ve),
    ));
}

/// Appends the `href` values among the attributes from `cursor` to
/// `tag_end` to `hrefs`.
pub fn collect_href_attrs(
    bytes: &[u8],
    cursor: usize,
    tag_end: usize,
    base_offset: usize,
    hrefs: &mut Vec<LiteralHref>,
)
    requires
        tag_end <= bytes.len(),
        base_offset + bytes.len() <= usize::MAX,
    ensures
        literal_views(final(hrefs)@) == literal_views(old(hrefs)@) + range_views(
            bytes@,
            base_offset as int,
            href_ranges(bytes@, cursor as int, tag_end as int),
        ),
{
    let ghost b = bytes@;
    let ghost start = cursor;
    let ghost mut acc: Seq<(int, int)> = Seq::empty();
    assert(range_views(b, base_offset as int, acc) == Seq::<(Seq<char>, int, int)>::empty());
    let mut own: Vec<LiteralHref> = Vec::new();
    let mut cursor = cursor;
    loop
        invariant
            b == bytes@,
            tag_end <= bytes.len(),
            base_offset + bytes.len() <= usize::MAX,
            start <= cursor,
            acc + href_ranges(b, cursor as int, tag_end as int) == href_ranges(
                b,
                start as int,
                tag_end as int,
            ),
            literal_views(own@) == range_views(b, base_offset as int, acc),
        ensures
            acc == href_ranges(b, start as int, tag_end as int),
            literal_views(own@) == range_views(b, base_offset as int, acc),
        decreases tag_end - cursor,
    {
        if cursor >= tag_end {
            assert(acc + Seq::<(int, int)>::empty() == acc);
            break;
        }
        let c1 = skip_blank_exec(bytes, cursor, tag_end, true);
        let ne = scan_html_name(bytes, c1);
        proof {
            lemma_skip_blank(b, cursor as int, tag_end as int, true);
            lemma_name_end(b, c1 as int);
        }
        if c1 >= tag_end {
            assert(acc + Seq::<(int, int)>::empty() == acc);
            break;
        }
        if ne == c1 {
            cursor = c1 + 1;
            continue;
        }
        let c2 = skip_blank_exec(bytes, ne, tag_end, false);
        proof {
            lemma_skip_blank(b, ne as int, tag_end as int, false);
        }
        if c2 >= tag_end {
            assert(acc + Seq::<(int, int)>::empty() == acc);
            break;
        }
        if bytes[c2] != 61 {
            cursor = c2;
            continue;
        }
        let c3 = skip_blank_exec(bytes, c2 + 1, tag_end, false);
        proof {
            lemma_skip_blank(b, c2 + 1, tag_end as int, false);
            lemma_attr_value(b, c3 as int, tag_end as int);
        }
        match scan_html_attr_value(bytes, c3, tag_end) {
            None => {
                assert(acc + Seq::<(int, int)>::empty() == acc);
                break;
            },
            Some((vs, ve, next)) => {
                let href: [u8; 4] = [104u8, 114u8, 101u8, 102u8];
                assert(href@ == href_name());
                if eq_ascii_ci_exec(bytes, c1, ne, &href) {
                    push_literal(bytes, vs, ve, base_offset, &mut own, Ghost(acc));
                    proof {
                        assert(acc.push((vs as int, ve as int)) + href_ranges(b, next as int, tag_end as int)
                            == acc + (seq![(vs as int, ve as int)] + href_ranges(b, next as int, tag_end as int)));
                        acc = acc.push((vs as int, ve as int));
                    }
                }
                cursor = next;
            },
        }
    }
    let ghost before = hrefs@;
    let mut k: usize = 0;
    while k < own.len()
        invariant
            k <= own.len(),
            literal_views(hrefs@) == literal_views(before) + literal_views(own@).take(k as int),
        decreases own.len() - k,
    {
        let h = &own[k];
        let ghost prev = hrefs@;
        hrefs.push(LiteralHref { href: h.href.clone(), byte_start: h.byte_start, byte_end: h.byte_end });
        assert(literal_views(hrefs@) == literal_views(prev).push(literal_view(own@[k as int])));
        assert(literal_views(own@).take(k + 1 as int) == literal_views(own@).take(k as int).push(
            literal_view(own@[k as int]),
        ));
        k = k + 1;
    }
    assert(literal_views(own@).take(own.len() as int) == literal_views(own@));
}

/// The `href` values of the `<a>` tags of an HTML fragment that starts at
/// byte `base_offset` of its file, with their byte ranges in that file.
pub fn literal_anchor_hrefs(text: &str, base_offset: usize) -> (r: Vec<LiteralHref>)
    requires
        base_offset + encode_utf8(text@).len() <= usize::MAX,
    ensures
        literal_views(r@) == range_views(
            encode_utf8(text@),
            base_offset as int,
            literal_ranges(encode_utf8(text@), 0),
        ),
{
    let bytes = text.as_bytes();
    let ghost b = bytes@;
    let mut hrefs: Vec<LiteralHref> = Vec::new();
    let ghost mut acc: Seq<(int, int)> = Seq::empty();
    assert(range_views(b, base_offset as int, acc) == Seq::<(Seq<char>, int, int)>::empty());
    let mut cursor: usize = 0;
    loop
        invariant
            b == bytes@,
            b == encode_utf8(text@),
            base_offset + bytes.len() <= usize::MAX,
            acc + literal_ranges(b, cursor as int) == literal_ranges(b, 0),
            literal_views(hrefs@) == range_views(b, base_offset as int, acc),
        ensures
            acc == literal_ranges(b, 0),
            literal_views(hrefs@) == range_views(b, base_offset as int, acc),
        decreases bytes.len() - cursor,
    {
        if cursor >= bytes.len() {
            assert(acc + Seq::<(int, int)>::empty() == acc);
            break;
        }
        proof {
            lemma_first_byte_from(b, cursor as int, b.len() as int, 60);
        }
        let mut ts = cursor;
        while ts < bytes.len() && bytes[ts] != 60
            invariant
                cursor <= ts <= bytes.len(),
                first_byte_from(b, ts as int, b.len() as int, 60) == first_byte_from(
                    b,
                    cursor as int,
                    b.len() as int,
                    60,
                ),
                b == bytes@,
            decreases bytes.len() - ts,
        {
            ts = ts + 1;
        }
        if ts >= bytes.len() {
            assert(acc + Seq::<(int, int)>::empty() == acc);
            break;
        }
        let ns0 = ts + 1;
        if ns0 < bytes.len() && (bytes[ns0] == 47 || bytes[ns0] == 33 || bytes[ns0] == 63) {
            cursor = ns0 + 1;
            continue;
        }
        let ns = skip_blank_exec(bytes, ns0, bytes.len(), false);
        let ne = scan_html_name(bytes, ns);
        proof {
            lemma_skip_blank(b, ns0 as int, b.len() as int, false);
            lemma_name_end(b, ns as int);
        }
        let a: [u8; 1] = [97u8];
        assert(a@ == seq![97u8]);
        if !eq_ascii_ci_exec(bytes, ns, ne, &a) {
            cursor = if ne > ts + 1 {
                ne
            } else {
                ts + 1
            };
            continue;
        }
        proof {
            lemma_tag_end_from(b, ne as int, None);
        }
        match scan_html_tag_end(bytes, ne) {
            None => {
                assert(acc + Seq::<(int, int)>::empty() == acc);
                break;
            },
            Some(te) => {
                let ghost found = href_ranges(b, ne as int, te as int);
                collect_href_attrs(bytes, ne, te, base_offset, &mut hrefs);
                proof {
                    assert(range_views(b, base_offset as int, acc) + range_views(b, base_offset as int, found)
                        == range_views(b, base_offset as int, acc + found));
                    assert(acc + found + literal_ranges(b, te + 1) == acc + (found + literal_ranges(
                        b,
                        te + 1,
                    )));
                    acc = acc + found;
                }
                cursor = te + 1;
            },
        }
    }
    hrefs
}

} // verus!
