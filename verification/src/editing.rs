//! Text helpers of the editor's code actions: titles from slugs, headings
//! and selections, anchors, excerpts and whitespace.
use vstd::prelude::*;

use crate::config::{is_lead_run, lemma_lead_run, trim_end_char, trim_end_len};
use crate::links::nonempty_pieces;
use crate::routes::{spec_split_fragment, split_fragment};
use crate::text::{find_char, find_from, first_index, from_chars, is_first_occurrence, is_last_occurrence, is_ws, is_ws_exec, join, join_exec, occurs_at, push_str_chars, rfind, split, sub_chars, to_chars, trim, trim_chars, trim_end, views, ws_suffix_len_exec};

verus! {

/// `n` is the length of the common prefix of `a` and `b`.
pub open spec fn is_common_prefix_len(a: Seq<char>, b: Seq<char>, n: int) -> bool {
    &&& 0 <= n <= a.len()
    &&& n <= b.len()
    &&& forall|i: int| 0 <= i < n ==> a[i] == b[i]
    &&& (n == a.len() || n == b.len() || a[n] != b[n])
}

/// How many leading characters two strings share.
pub fn common_prefix_len(left: &str, right: &str) -> (r: usize)
    ensures
        is_common_prefix_len(left@, right@, r as int),
{
    let a = to_chars(left);
    let b = to_chars(right);
    let mut n: usize = 0;
    while n < a.len() && n < b.len() && a[n] == b[n]
        invariant
            n <= a.len(),
            n <= b.len(),
            a@ == left@,
            b@ == right@,
            forall|i: int| 0 <= i < n ==> a@[i] == b@[i],
        decreases a.len() - n,
    {
        n = n + 1;
    }
    n
}

/// The fragment of a link target, when it has a non-empty one.
pub fn missing_anchor_fragment(target: &str) -> (r: Option<&str>)
    ensures
        match spec_split_fragment(target@).1 {
            Some(f) => if f.len() > 0 {
                r matches Some(x) && x@ == f
            } else {
                r is None
            },
            None => r is None,
        },
{
    match split_fragment(target).1 {
        Some(f) => if f.unicode_len() > 0 {
            Some(f)
        } else {
            None
        },
        None => None,
    }
}

/// A nested anchor `parent--leaf` split at its last `--`; an anchor without
/// `--` has no parent.
pub open spec fn spec_missing_anchor_parent_and_leaf(fragment: Seq<char>) -> (Option<Seq<char>>, Seq<char>) {
    if exists|i: int| is_last_occurrence(fragment, "--"@, i) {
        let i = choose|i: int| is_last_occurrence(fragment, "--"@, i);
        (Some(fragment.take(i)), fragment.skip(i + 2))
    } else {
        (None, fragment)
    }
}

proof fn lemma_last_occurrence_unique(s: Seq<char>, p: Seq<char>, i: int)
    requires
        is_last_occurrence(s, p, i),
    ensures
        (choose|j: int| is_last_occurrence(s, p, j)) == i,
{
    let j = choose|j: int| is_last_occurrence(s, p, j);
    assert(is_last_occurrence(s, p, j));
    if j < i {
        assert(!occurs_at(s, p, i));
    }
    if i < j {
        assert(!occurs_at(s, p, j));
    }
}

/// Splits a nested anchor into its parent and its leaf.
pub fn missing_anchor_parent_and_leaf(fragment: &str) -> (r: (Option<String>, String))
    ensures
        ((match r.0 {
            Some(p) => Some(p@),
            None => None,
        }), r.1@) == spec_missing_anchor_parent_and_leaf(fragment@),
{
    let v = to_chars(fragment);
    let sep = to_chars("--");
    proof {
        reveal_strlit("--");
    }
    match rfind(v.as_slice(), sep.as_slice()) {
        Some(i) => {
            proof {
                lemma_last_occurrence_unique(fragment@, "--"@, i as int);
            }
            assert(i + 2 <= v.len());
            let parent = sub_chars(v.as_slice(), 0, i);
            let leaf = sub_chars(v.as_slice(), i + 2, v.len());
            assert(parent@ == v@.take(i as int));
            assert(leaf@ == v@.skip(i + 2));
            (Some(from_chars(parent.as_slice())), from_chars(leaf.as_slice()))
        },
        None => {
            proof {
                if exists|i: int| is_last_occurrence(fragment@, "--"@, i) {
                    let i = choose|i: int| is_last_occurrence(fragment@, "--"@, i);
                    assert(occurs_at(fragment@, "--"@, i));
                }
            }
            (None, from_chars(v.as_slice()))
        },
    }
}

/// The first occurrence of `p` in `s` at or after `from`, if any.
pub open spec fn first_occurrence_from(s: Seq<char>, p: Seq<char>, from: int) -> Option<int> {
    if exists|i: int| is_first_occurrence(s, p, from, i) {
        Some(choose|i: int| is_first_occurrence(s, p, from, i))
    } else {
        None
    }
}

pub proof fn lemma_first_occurrence_from(s: Seq<char>, p: Seq<char>, from: int, i: int)
    requires
        is_first_occurrence(s, p, from, i),
    ensures
        first_occurrence_from(s, p, from) == Some(i),
{
    let j = choose|j: int| is_first_occurrence(s, p, from, j);
    assert(is_first_occurrence(s, p, from, j));
    if j < i {
        assert(!occurs_at(s, p, j));
    }
    if i < j {
        assert(!occurs_at(s, p, i));
    }
}

/// The Markdown body of a page source: without a leading `+++` frontmatter
/// block (up to the first `\n+++` and one newline after it); the source as
/// it is when it has none or the block is not closed.
pub open spec fn spec_markdown_body_without_frontmatter(content: Seq<char>) -> Seq<char> {
    if !crate::text::starts_with(content, "+++\n"@) {
        content
    } else {
        match first_occurrence_from(content, "\n+++"@, 4) {
            None => content,
            Some(i) => {
                let after = content.skip(i + 4);
                if after.len() > 0 && after[0] == '\n' {
                    after.skip(1)
                } else {
                    after
                }
            },
        }
    }
}

/// The Markdown body of a page source, without its frontmatter.
pub fn markdown_body_without_frontmatter(content: &str) -> (r: String)
    ensures
        r@ == spec_markdown_body_without_frontmatter(content@),
{
    let v = to_chars(content);
    let open = to_chars("+++\n");
    let close = to_chars("\n+++");
    proof {
        reveal_strlit("+++\n");
        reveal_strlit("\n+++");
    }
    if !crate::text::starts_with_exec(v.as_slice(), open.as_slice()) {
        return from_chars(v.as_slice());
    }
    match find_from(v.as_slice(), close.as_slice(), 4) {
        None => {
            proof {
                if exists|i: int| is_first_occurrence(content@, "\n+++"@, 4, i) {
                    let i = choose|i: int| is_first_occurrence(content@, "\n+++"@, 4, i);
                    assert(occurs_at(content@, "\n+++"@, i));
                }
            }
            from_chars(v.as_slice())
        },
        Some(i) => {
            proof {
                lemma_first_occurrence_from(content@, "\n+++"@, 4, i as int);
            }
            assert(i + 4 <= v.len());
            let start = i + 4;
            let after = sub_chars(v.as_slice(), start, v.len());
            assert(after@ == v@.skip(start as int));
            if after.len() > 0 && after[0] == '\n' {
                let rest = sub_chars(after.as_slice(), 1, after.len());
                assert(rest@ == after@.skip(1));
                from_chars(rest.as_slice())
            } else {
                from_chars(after.as_slice())
            }
        },
    }
}

/// `s` cut at whitespace, like `split` with every whitespace character as
/// a separator.
pub open spec fn split_ws(s: Seq<char>) -> Seq<Seq<char>>
    decreases s.len(),
{
    if s.len() == 0 {
        seq![Seq::<char>::empty()]
    } else {
        let t = split_ws(s.drop_last());
        if is_ws(s.last()) {
            t.push(Seq::<char>::empty())
        } else {
            t.update(t.len() - 1, t.last().push(s.last()))
        }
    }
}

proof fn lemma_split_ws_nonempty(s: Seq<char>)
    ensures
        split_ws(s).len() >= 1,
    decreases s.len(),
{
    if s.len() > 0 {
        lemma_split_ws_nonempty(s.drop_last());
    }
}

/// The whitespace-separated words of `s` (like `split_whitespace`).
pub open spec fn words(s: Seq<char>) -> Seq<Seq<char>> {
    nonempty_pieces(split_ws(s))
}

/// The words of `s`, in order.
pub fn words_exec(s: &[char]) -> (r: Vec<Vec<char>>)
    ensures
        views(r@) == words(s@),
{
    let mut done: Vec<Vec<char>> = Vec::new();
    let mut cur: Vec<char> = Vec::new();
    let mut i: usize = 0;
    assert(s@.take(0) == Seq::<char>::empty());
    proof {
        lemma_split_ws_nonempty(Seq::<char>::empty());
    }
    while i < s.len()
        invariant
            i <= s.len(),
            split_ws(s@.take(i as int)).len() >= 1,
            views(done@) == nonempty_pieces(split_ws(s@.take(i as int)).drop_last()),
            cur@ == split_ws(s@.take(i as int)).last(),
        decreases s.len() - i,
    {
        let ghost pieces = split_ws(s@.take(i as int));
        let c = s[i];
        assert(s@.take(i + 1 as int).drop_last() == s@.take(i as int));
        assert(s@.take(i + 1 as int).last() == c);
        if is_ws_exec(c) {
            if cur.len() > 0 {
                let ghost before = done@;
                done.push(cur);
                assert(views(done@) == views(before).push(pieces.last()));
            }
            cur = Vec::new();
            assert(split_ws(s@.take(i + 1 as int)) == pieces.push(Seq::<char>::empty()));
            assert(pieces.push(Seq::<char>::empty()).drop_last() == pieces);
            assert(pieces.drop_last().push(pieces.last()) == pieces);
        } else {
            cur.push(c);
            let ghost next = pieces.update(pieces.len() - 1, pieces.last().push(c));
            assert(split_ws(s@.take(i + 1 as int)) == next);
            assert(next.drop_last() == pieces.drop_last());
        }
        i = i + 1;
    }
    assert(s@.take(s.len() as int) == s@);
    let ghost all = split_ws(s@);
    assert(all.drop_last().push(all.last()) == all);
    if cur.len() > 0 {
        let ghost before = done@;
        done.push(cur);
        assert(views(done@) == views(before).push(all.last()));
    }
    done
}

/// `input` with every run of whitespace made one space and the ends trimmed:
/// its words joined with single spaces.
pub fn collapse_whitespace(input: &str) -> (r: String)
    ensures
        r@ == join(words(input@), seq![' ']),
{
    let v = to_chars(input);
    let ws = words_exec(v.as_slice());
    let space: Vec<char> = vec![' '];
    assert(space@ == seq![' ']);
    from_chars(join_exec(&ws, space.as_slice()).as_slice())
}

/// The length of the run of `#` at the start of `s`.
pub open spec fn is_hash_run(s: Seq<char>, k: int) -> bool {
    is_lead_run(s, '#', k)
}

/// The title of an ATX heading line (`## Title ##`): none unless the trimmed
/// line starts with one to six `#` followed by whitespace or nothing; the
/// title is the rest trimmed, without closing `#`s unless that leaves
/// nothing; none when the title is empty.
pub open spec fn spec_title_from_atx_heading_line(line: Seq<char>) -> Option<Seq<char>> {
    let l = trim(line);
    let m = choose|k: int| is_lead_run(l, '#', k);
    let rest = l.skip(m);
    if m == 0 || m > 6 {
        None
    } else if rest.len() > 0 && !is_ws(rest[0]) {
        None
    } else {
        let title = trim(rest);
        let stripped = trim_end(trim_end_char(title, '#'));
        let t = if stripped.len() > 0 {
            stripped
        } else {
            title
        };
        if t.len() > 0 {
            Some(t)
        } else {
            None
        }
    }
}

/// The title of an ATX heading line, if it is one.
pub fn title_from_atx_heading_line(line: &str) -> (r: Option<String>)
    ensures
        match spec_title_from_atx_heading_line(line@) {
            Some(t) => r matches Some(x) && x@ == t,
            None => r is None,
        },
{
    let v = to_chars(line);
    let l = trim_chars(v.as_slice());
    let mut m: usize = 0;
    while m < l.len() && l[m] == '#'
        invariant
            m <= l.len(),
            forall|j: int| 0 <= j < m ==> #[trigger] l@[j] == '#',
        decreases l.len() - m,
    {
        m = m + 1;
    }
    proof {
        lemma_lead_run(l@, '#', m as int);
    }
    if m == 0 || m > 6 {
        return None;
    }
    let rest = sub_chars(l.as_slice(), m, l.len());
    assert(rest@ == l@.skip(m as int));
    if rest.len() > 0 && !is_ws_exec(rest[0]) {
        return None;
    }
    let title = trim_chars(rest.as_slice());
    let n = trim_end_len(title.as_slice(), '#');
    let hashless = sub_chars(title.as_slice(), 0, n);
    assert(hashless@ == title@.take(n as int));
    let k = ws_suffix_len_exec(hashless.as_slice(), 0, hashless.len());
    assert(hashless@.subrange(0, hashless@.len() as int) == hashless@);
    let stripped = sub_chars(hashless.as_slice(), 0, hashless.len() - k);
    assert(stripped@ == trim_end(hashless@));
    let t = if stripped.len() > 0 {
        stripped
    } else {
        title
    };
    if t.len() > 0 {
        Some(from_chars(t.as_slice()))
    } else {
        None
    }
}

/// A leading character of a selection that is skipped before its first
/// line: space, tab, newline or carriage return.
pub open spec fn is_blank_char(c: char) -> bool {
    c == ' ' || c == '\t' || c == '\n' || c == '\r'
}

/// `k` is the length of the run of blank characters at the start of `s`.
pub open spec fn is_leading_blanks(s: Seq<char>, k: int) -> bool {
    &&& 0 <= k <= s.len()
    &&& forall|j: int| 0 <= j < k ==> is_blank_char(#[trigger] s[j])
    &&& (k == s.len() || !is_blank_char(s[k]))
}

/// A selection that starts (after blank characters) with an ATX heading:
/// the heading's title and the selection after the heading's line.
pub open spec fn spec_extract_leading_heading(selected: Seq<char>) -> Option<(Seq<char>, Seq<char>)> {
    let lead = choose|k: int| is_leading_blanks(selected, k);
    let after = selected.skip(lead);
    let line_end = match first_index(after, '\n') {
        Some(e) => e,
        None => after.len() as int,
    };
    match spec_title_from_atx_heading_line(after.take(line_end)) {
        Some(title) => {
            let body_start = lead + line_end + if line_end < after.len() {
                1int
            } else {
                0int
            };
            Some((title, selected.skip(body_start)))
        },
        None => None,
    }
}

/// The heading a selection starts with, and the text after it.
pub fn extract_leading_heading(selected: &str) -> (r: Option<(String, String)>)
    ensures
        match spec_extract_leading_heading(selected@) {
            Some((t, b)) => r matches Some((x, y)) && x@ == t && y@ == b,
            None => r is None,
        },
{
    let v = to_chars(selected);
    let mut lead: usize = 0;
    while lead < v.len() && (v[lead] == ' ' || v[lead] == '\t' || v[lead] == '\n' || v[lead] == '\r')
        invariant
            lead <= v.len(),
            v@ == selected@,
            forall|j: int| 0 <= j < lead ==> is_blank_char(#[trigger] v@[j]),
        decreases v.len() - lead,
    {
        lead = lead + 1;
    }
    proof {
        assert(is_leading_blanks(selected@, lead as int));
        let k = choose|k: int| is_leading_blanks(selected@, k);
        if k < lead {
            assert(is_blank_char(selected@[k]));
        }
        if lead < k {
            assert(is_blank_char(selected@[lead as int]));
        }
    }
    let after = sub_chars(v.as_slice(), lead, v.len());
    assert(after@ == v@.skip(lead as int));
    let line_end = match find_char(after.as_slice(), '\n') {
        Some(e) => e,
        None => after.len(),
    };
    let first_line = from_chars(sub_chars(after.as_slice(), 0, line_end).as_slice());
    assert(after@.subrange(0, line_end as int) == after@.take(line_end as int));
    let title = match title_from_atx_heading_line(first_line.as_str()) {
        Some(t) => t,
        None => return None,
    };
    let body_start = lead + line_end + if line_end < after.len() {
        1
    } else {
        0
    };
    let body = sub_chars(v.as_slice(), body_start, v.len());
    assert(body@ == v@.skip(body_start as int));
    Some((title, from_chars(body.as_slice())))
}

/// An extracted page body: newlines and carriage returns trimmed from both
/// ends, then a single newline when nothing but whitespace remains, else the
/// trimmed text between two newlines.
pub open spec fn spec_normalize_extracted_body(body: Seq<char>) -> Seq<char> {
    let a = choose|k: int| is_leading_breaks(body, k);
    let rest = body.skip(a);
    let b = choose|k: int| is_trailing_breaks(rest, k);
    let t = rest.take(rest.len() - b);
    if trim(t).len() == 0 {
        seq!['\n']
    } else {
        seq!['\n'] + trim(t) + seq!['\n']
    }
}

/// `k` is the length of the run of line breaks at the start of `s`.
pub open spec fn is_leading_breaks(s: Seq<char>, k: int) -> bool {
    &&& 0 <= k <= s.len()
    &&& forall|j: int| 0 <= j < k ==> is_line_break(#[trigger] s[j])
    &&& (k == s.len() || !is_line_break(s[k]))
}

/// `k` is the length of the run of line breaks at the end of `s`.
pub open spec fn is_trailing_breaks(s: Seq<char>, k: int) -> bool {
    &&& 0 <= k <= s.len()
    &&& forall|j: int| s.len() - k <= j < s.len() ==> is_line_break(#[trigger] s[j])
    &&& (k == s.len() || !is_line_break(s[s.len() - k - 1]))
}

/// A newline or a carriage return.
pub open spec fn is_line_break(c: char) -> bool {
    c == '\n' || c == '\r'
}

/// Normalises the body of an extracted page.
pub fn normalize_extracted_body(body: &str) -> (r: String)
    ensures
        r@ == spec_normalize_extracted_body(body@),
{
    let v = to_chars(body);
    let mut a: usize = 0;
    while a < v.len() && (v[a] == '\n' || v[a] == '\r')
        invariant
            a <= v.len(),
            v@ == body@,
            forall|j: int| 0 <= j < a ==> is_line_break(#[trigger] v@[j]),
        decreases v.len() - a,
    {
        a = a + 1;
    }
    proof {
        assert(is_leading_breaks(body@, a as int));
        let k = choose|k: int| is_leading_breaks(body@, k);
        if k < a {
            assert(is_line_break(body@[k]));
        }
        if a < k {
            assert(is_line_break(body@[a as int]));
        }
    }
    let rest = sub_chars(v.as_slice(), a, v.len());
    assert(rest@ == v@.skip(a as int));
    let mut b: usize = rest.len();
    while b > 0 && (rest[b - 1] == '\n' || rest[b - 1] == '\r')
        invariant
            b <= rest.len(),
            forall|j: int| b <= j < rest.len() ==> is_line_break(#[trigger] rest@[j]),
        decreases b,
    {
        b = b - 1;
    }
    proof {
        let r = rest@;
        let kk = (r.len() - b) as int;
        assert(is_trailing_breaks(r, kk));
        let k = choose|k: int| is_trailing_breaks(r, k);
        if k < kk {
            assert(is_line_break(r[r.len() - kk + (kk - k - 1)]));
        }
        if kk < k {
            assert(is_line_break(r[r.len() - k + (k - kk - 1)]));
        }
    }
    let t = sub_chars(rest.as_slice(), 0, b);
    assert(t@ == rest@.take(b as int));
    let tt = trim_chars(t.as_slice());
    let mut out: Vec<char> = Vec::new();
    out.push('\n');
    if tt.len() > 0 {
        crate::text::extend_chars(&mut out, tt.as_slice());
        out.push('\n');
    }
    from_chars(out.as_slice())
}

// ---------------------------------------------------------------------------
// Case mapping (Unicode tables of the standard library)
// ---------------------------------------------------------------------------

/// What `char::to_uppercase` yields for `c`, collected: its upper-case
/// mapping, one or more characters.
pub uninterp spec fn char_uppercase(c: char) -> Seq<char>;

/// What `str::to_lowercase` gives for `s`.
pub uninterp spec fn str_lowercase(s: Seq<char>) -> Seq<char>;

/// Calls `char::to_uppercase` and collects the characters. The mapping is
/// the standard library's Unicode table, fixed for a given toolchain; the
/// contract names the result and states, as std documents it, the ASCII
/// case: `a` to `z` become `A` to `Z`, and any other ASCII character has no
/// upper-case mapping and stays as it is.
#[verifier::external_body]
fn uppercase_of(c: char) -> (r: String)
    ensures
        r@ == char_uppercase(c),
        'a' <= c <= 'z' ==> r@ == seq![((c as u32) - 32) as char],
        (c as u32) < 128 && !('a' <= c <= 'z') ==> r@ == seq![c],
{
    c.to_uppercase().collect()
}

/// Calls `str::to_lowercase`. The mapping is the standard library's Unicode
/// table, fixed for a given toolchain; the contract names the result and
/// states nothing more of it.
#[verifier::external_body]
fn lowercase_of(s: &str) -> (r: String)
    ensures
        r@ == str_lowercase(s@),
{
    s.to_lowercase()
}

/// The slug that `marq::slugify` makes of `text`.
pub uninterp spec fn marq_slugify(text: Seq<char>) -> Seq<char>;

/// Whether `char::is_alphanumeric` holds of `c` (Unicode's alphabetic and
/// numeric tables).
pub uninterp spec fn char_is_alphanumeric(c: char) -> bool;

/// The characters a slug keeps: `.` and the alphanumerics; among ASCII
/// characters those are the letters and digits, as std documents.
pub open spec fn slug_keeps(c: char) -> bool {
    ||| c == '.'
    ||| if (c as u32) < 128 {
        ('a' <= c <= 'z') || ('A' <= c <= 'Z') || ('0' <= c <= '9')
    } else {
        char_is_alphanumeric(c)
    }
}

/// `char::to_ascii_lowercase`: `A` to `Z` become `a` to `z`.
pub open spec fn ascii_lowercase(c: char) -> char {
    if 'A' <= c <= 'Z' {
        ((c as u32) + 32) as char
    } else {
        c
    }
}

/// The slug built so far from `s`, and whether it ends in a hyphen or is
/// empty: a kept character is added ASCII-lower-cased; a run of other
/// characters adds one hyphen, none at the start.
pub open spec fn slug_scan(s: Seq<char>) -> (Seq<char>, bool)
    decreases s.len(),
{
    if s.len() == 0 {
        (Seq::empty(), true)
    } else {
        let (r, hyphen) = slug_scan(s.drop_last());
        let c = s.last();
        if slug_keeps(c) {
            (r.push(ascii_lowercase(c)), false)
        } else if !hyphen {
            (r.push('-'), true)
        } else {
            (r, true)
        }
    }
}

/// The slug of `s`: the scan without a trailing hyphen.
pub open spec fn spec_slugify(s: Seq<char>) -> Seq<char> {
    let r = slug_scan(s).0;
    if r.len() > 0 && r.last() == '-' {
        r.drop_last()
    } else {
        r
    }
}

/// Calls `marq::slugify`: the text's ASCII letters lower-cased, its runs of
/// characters other than alphanumerics and `.` turned into single hyphens,
/// without leading or trailing hyphens (see [`spec_slugify`]). Which
/// characters beyond ASCII are alphanumeric is Unicode's table, named by
/// [`char_is_alphanumeric`].
#[verifier::external_body]
pub(crate) fn slugify(text: &str) -> (r: String)
    ensures
        r@ == marq_slugify(text@),
        r@ == spec_slugify(text@),
        forall|c: char|
            (c as u32) >= 128 && text@.contains(c) ==> (r@.contains(c) <==> char_is_alphanumeric(
                c,
            )),
{
    marq::slugify(text)
}

// ---------------------------------------------------------------------------
// Titles and search
// ---------------------------------------------------------------------------

/// The upper-case mapping of `c`: `a` to `z` become `A` to `Z`, any other
/// ASCII character stays, and beyond ASCII it is the standard library's
/// table.
pub open spec fn uppercase(c: char) -> Seq<char> {
    if 'a' <= c <= 'z' {
        seq![((c as u32) - 32) as char]
    } else if (c as u32) < 128 {
        seq![c]
    } else {
        char_uppercase(c)
    }
}

/// A word with its first character upper-cased.
pub open spec fn capitalized(w: Seq<char>) -> Seq<char> {
    if w.len() == 0 {
        Seq::empty()
    } else {
        uppercase(w[0]) + w.skip(1)
    }
}

/// A title from a slug: its `-`-separated words, each capitalised, joined
/// with spaces; none when the slug has no words.
pub open spec fn spec_title_from_slug(slug: Seq<char>) -> Option<Seq<char>> {
    let ws = nonempty_pieces(split(slug, '-'));
    if ws.len() == 0 {
        None
    } else {
        Some(join(ws.map_values(|w: Seq<char>| capitalized(w)), seq![' ']))
    }
}

/// A title made from a slug (`getting-started` becomes `Getting Started`).
pub fn title_from_slug(slug: &str) -> (r: Option<String>)
    ensures
        match spec_title_from_slug(slug@) {
            Some(t) => r matches Some(x) && x@ == t,
            None => r is None,
        },
{
    let v = to_chars(slug);
    let pieces = crate::routes::split_pieces(v.as_slice(), '-');
    let ws = crate::links::keep_nonempty(pieces);
    if ws.len() == 0 {
        return None;
    }
    let ghost wv = views(ws@);
    let mut caps: Vec<Vec<char>> = Vec::new();
    let mut i: usize = 0;
    while i < ws.len()
        invariant
            i <= ws.len(),
            wv == views(ws@),
            views(caps@) == wv.take(i as int).map_values(|w: Seq<char>| capitalized(w)),
        decreases ws.len() - i,
    {
        let w = &ws[i];
        let mut c: Vec<char> = Vec::new();
        if w.len() > 0 {
            let up = uppercase_of(w[0]);
            crate::text::push_str_chars(&mut c, up.as_str());
            let rest = sub_chars(w.as_slice(), 1, w.len());
            crate::text::extend_chars(&mut c, rest.as_slice());
            assert(c@ == capitalized(w@));
        } else {
            assert(c@ == capitalized(w@));
        }
        let ghost before = views(caps@);
        caps.push(c);
        assert(views(caps@) == before.push(capitalized(wv[i as int])));
        assert(wv.take(i + 1 as int).map_values(|w: Seq<char>| capitalized(w)) == wv.take(
            i as int,
        ).map_values(|w: Seq<char>| capitalized(w)).push(capitalized(wv[i as int])));
        i = i + 1;
    }
    assert(wv.take(ws.len() as int) == wv);
    let space: Vec<char> = vec![' '];
    assert(space@ == seq![' ']);
    Some(from_chars(join_exec(&caps, space.as_slice()).as_slice()))
}

/// Every word of `query`, lower-cased, occurs in the lower-cased haystack.
pub open spec fn spec_fuzzy_contains(haystack: Seq<char>, query: Seq<char>) -> bool {
    forall|i: int|
        0 <= i < words(query).len() ==> crate::text::contains_seq(
            str_lowercase(haystack),
            str_lowercase(#[trigger] words(query)[i]),
        )
}

/// Whether every word of `query` occurs in `haystack`, ignoring case.
pub fn fuzzy_contains(haystack: &str, query: &str) -> (r: bool)
    ensures
        r == spec_fuzzy_contains(haystack@, query@),
{
    let hay = lowercase_of(haystack);
    let hv = to_chars(hay.as_str());
    let qv = to_chars(query);
    let ws = words_exec(qv.as_slice());
    let mut i: usize = 0;
    while i < ws.len()
        invariant
            i <= ws.len(),
            hv@ == str_lowercase(haystack@),
            views(ws@) == words(query@),
            forall|k: int|
                0 <= k < i ==> crate::text::contains_seq(
                    str_lowercase(haystack@),
                    str_lowercase(#[trigger] words(query@)[k]),
                ),
        decreases ws.len() - i,
    {
        let w = from_chars(ws[i].as_slice());
        let lw = lowercase_of(w.as_str());
        let lv = to_chars(lw.as_str());
        assert(w@ == words(query@)[i as int]);
        match find_from(hv.as_slice(), lv.as_slice(), 0) {
            Some(_) => {},
            None => {
                assert(!crate::text::contains_seq(hv@, lv@));
                return false;
            },
        }
        i = i + 1;
    }
    true
}

/// The text a workspace symbol search matches pages against: title, route,
/// source file, template and output path, separated by spaces.
pub open spec fn page_search_text(page: crate::model::AuthoringPage) -> Seq<char> {
    page.title@ + " "@ + page.route@ + " "@ + page.source_file@ + " "@ + page.template@ + " "@
        + page.output_path@
}

/// Whether a page matches a workspace symbol query: every page matches an
/// empty (or blank) query.
pub fn workspace_page_matches(page: &crate::model::AuthoringPage, query: &str) -> (r: bool)
    ensures
        r == (trim(query@).len() == 0 || spec_fuzzy_contains(page_search_text(*page), query@)),
{
    let qv = to_chars(query);
    if trim_chars(qv.as_slice()).len() == 0 {
        return true;
    }
    let mut h: Vec<char> = Vec::new();
    push_str_chars(&mut h, page.title.as_str());
    push_str_chars(&mut h, " ");
    push_str_chars(&mut h, page.route.as_str());
    push_str_chars(&mut h, " ");
    push_str_chars(&mut h, page.source_file.as_str());
    push_str_chars(&mut h, " ");
    push_str_chars(&mut h, page.template.as_str());
    push_str_chars(&mut h, " ");
    push_str_chars(&mut h, page.output_path.as_str());
    let hs = from_chars(h.as_slice());
    fuzzy_contains(hs.as_str(), query)
}

/// The text headings are matched against: heading title and id, then the
/// page's title, route and source file, separated by spaces.
pub open spec fn heading_search_text(
    page: crate::model::AuthoringPage,
    heading: crate::model::AuthoringHeading,
) -> Seq<char> {
    heading.title@ + " "@ + heading.id@ + " "@ + page.title@ + " "@ + page.route@ + " "@
        + page.source_file@
}

/// Whether a heading matches a workspace symbol query.
pub fn workspace_heading_matches(
    page: &crate::model::AuthoringPage,
    heading: &crate::model::AuthoringHeading,
    query: &str,
) -> (r: bool)
    ensures
        r == (trim(query@).len() == 0 || spec_fuzzy_contains(
            heading_search_text(*page, *heading),
            query@,
        )),
{
    let qv = to_chars(query);
    if trim_chars(qv.as_slice()).len() == 0 {
        return true;
    }
    let mut h: Vec<char> = Vec::new();
    push_str_chars(&mut h, heading.title.as_str());
    push_str_chars(&mut h, " ");
    push_str_chars(&mut h, heading.id.as_str());
    push_str_chars(&mut h, " ");
    push_str_chars(&mut h, page.title.as_str());
    push_str_chars(&mut h, " ");
    push_str_chars(&mut h, page.route.as_str());
    push_str_chars(&mut h, " ");
    push_str_chars(&mut h, page.source_file.as_str());
    let hs = from_chars(h.as_slice());
    fuzzy_contains(hs.as_str(), query)
}

/// The lines of `s`, each trimmed, without the empty ones.
pub open spec fn trimmed_lines(s: Seq<char>) -> Seq<Seq<char>> {
    nonempty_pieces(split(s, '\n').map_values(|l: Seq<char>| trim(l)))
}

fn trimmed_lines_exec(s: &[char]) -> (r: Vec<Vec<char>>)
    ensures
        views(r@) == trimmed_lines(s@),
{
    let lines = crate::routes::split_pieces(s, '\n');
    let ghost lv = views(lines@);
    let mut out: Vec<Vec<char>> = Vec::new();
    let mut i: usize = 0;
    while i < lines.len()
        invariant
            i <= lines.len(),
            lv == views(lines@),
            lv == split(s@, '\n'),
            views(out@) == nonempty_pieces(lv.take(i as int).map_values(|l: Seq<char>| trim(l))),
        decreases lines.len() - i,
    {
        let t = trim_chars(lines[i].as_slice());
        let ghost m = lv.take(i + 1 as int).map_values(|l: Seq<char>| trim(l));
        assert(m.drop_last() == lv.take(i as int).map_values(|l: Seq<char>| trim(l)));
        assert(m.last() == trim(lv[i as int]));
        if t.len() > 0 {
            let ghost before = views(out@);
            out.push(t);
            assert(views(out@) == before.push(trim(lv[i as int])));
        }
        i = i + 1;
    }
    assert(lv.take(lines.len() as int) == lv);
    out
}

/// A leading or trailing character stripped from the words of a title made
/// from a selection.
pub open spec fn is_title_punct(c: char) -> bool {
    ||| c == '#'
    ||| c == '*'
    ||| c == '_'
    ||| c == '`'
    ||| c == '['
    ||| c == ']'
    ||| c == '('
    ||| c == ')'
    ||| c == ':'
    ||| c == ','
    ||| c == '.'
    ||| c == '!'
    ||| c == '?'
}

/// `k` leading characters of `w` are title punctuation, and no more.
pub open spec fn is_punct_prefix(w: Seq<char>, k: int) -> bool {
    &&& 0 <= k <= w.len()
    &&& forall|j: int| 0 <= j < k ==> is_title_punct(#[trigger] w[j])
    &&& (k == w.len() || !is_title_punct(w[k]))
}

/// `k` trailing characters of `w` are title punctuation, and no more.
pub open spec fn is_punct_suffix(w: Seq<char>, k: int) -> bool {
    &&& 0 <= k <= w.len()
    &&& forall|j: int| w.len() - k <= j < w.len() ==> is_title_punct(#[trigger] w[j])
    &&& (k == w.len() || !is_title_punct(w[w.len() - k - 1]))
}

/// A word without surrounding title punctuation.
pub open spec fn strip_title_punct(w: Seq<char>) -> Seq<char> {
    let a = choose|k: int| is_punct_prefix(w, k);
    let rest = w.skip(a);
    rest.take(rest.len() - choose|k: int| is_punct_suffix(rest, k))
}

fn is_title_punct_exec(c: char) -> (r: bool)
    ensures
        r == is_title_punct(c),
{
    c == '#' || c == '*' || c == '_' || c == '`' || c == '[' || c == ']' || c == '(' || c == ')'
        || c == ':' || c == ',' || c == '.' || c == '!' || c == '?'
}

fn strip_title_punct_exec(w: &[char]) -> (r: Vec<char>)
    ensures
        r@ == strip_title_punct(w@),
{
    let mut a: usize = 0;
    while a < w.len() && is_title_punct_exec(w[a])
        invariant
            a <= w.len(),
            forall|j: int| 0 <= j < a ==> is_title_punct(#[trigger] w@[j]),
        decreases w.len() - a,
    {
        a = a + 1;
    }
    proof {
        assert(is_punct_prefix(w@, a as int));
        let k = choose|k: int| is_punct_prefix(w@, k);
        if k < a {
            assert(is_title_punct(w@[k]));
        }
        if a < k {
            assert(is_title_punct(w@[a as int]));
        }
    }
    let rest = sub_chars(w, a, w.len());
    assert(rest@ == w@.skip(a as int));
    let mut b: usize = rest.len();
    while b > 0 && is_title_punct_exec(rest[b - 1])
        invariant
            b <= rest.len(),
            forall|j: int| b <= j < rest.len() ==> is_title_punct(#[trigger] rest@[j]),
        decreases b,
    {
        b = b - 1;
    }
    proof {
        let r = rest@;
        let kk = (r.len() - b) as int;
        assert(is_punct_suffix(r, kk));
        let k = choose|k: int| is_punct_suffix(r, k);
        if k < kk {
            assert(is_title_punct(r[r.len() - kk + (kk - k - 1)]));
        }
        if kk < k {
            assert(is_title_punct(r[r.len() - k + (k - kk - 1)]));
        }
    }
    let out = sub_chars(rest.as_slice(), 0, b);
    assert(out@ == rest@.take(b as int));
    out
}

/// The title of a page extracted from a selection: the first six words of
/// its first non-blank line, stripped of surrounding punctuation and joined
/// with spaces; `Extracted page` when that leaves nothing.
pub open spec fn spec_title_from_selection(selected: Seq<char>) -> Seq<char> {
    let lines = trimmed_lines(selected);
    let text = if lines.len() > 0 {
        lines[0]
    } else {
        "Extracted page"@
    };
    let ws = words(text);
    let first = ws.take(if ws.len() < 6 {
        ws.len() as int
    } else {
        6
    });
    let cleaned = nonempty_pieces(first.map_values(|w: Seq<char>| strip_title_punct(w)));
    if cleaned.len() == 0 {
        "Extracted page"@
    } else {
        join(cleaned, seq![' '])
    }
}

/// The title of a page extracted from a selection.
pub fn title_from_selection(selected: &str) -> (r: String)
    ensures
        r@ == spec_title_from_selection(selected@),
{
    let v = to_chars(selected);
    let lines = trimmed_lines_exec(v.as_slice());
    let text = if lines.len() > 0 {
        lines[0].clone()
    } else {
        to_chars("Extracted page")
    };
    let ws = words_exec(text.as_slice());
    let n: usize = if ws.len() < 6 {
        ws.len()
    } else {
        6
    };
    let ghost wv = views(ws@);
    let ghost first = wv.take(n as int);
    let mut cleaned: Vec<Vec<char>> = Vec::new();
    let mut i: usize = 0;
    while i < n
        invariant
            i <= n <= ws.len(),
            wv == views(ws@),
            first == wv.take(n as int),
            views(cleaned@) == nonempty_pieces(
                first.take(i as int).map_values(|w: Seq<char>| strip_title_punct(w)),
            ),
        decreases n - i,
    {
        let c = strip_title_punct_exec(ws[i].as_slice());
        let ghost m = first.take(i + 1 as int).map_values(|w: Seq<char>| strip_title_punct(w));
        assert(m.drop_last() == first.take(i as int).map_values(|w: Seq<char>| strip_title_punct(w)));
        assert(m.last() == strip_title_punct(wv[i as int]));
        if c.len() > 0 {
            let ghost before = views(cleaned@);
            cleaned.push(c);
            assert(views(cleaned@) == before.push(strip_title_punct(wv[i as int])));
        }
        i = i + 1;
    }
    assert(first.take(n as int) == first);
    if cleaned.len() == 0 {
        return from_chars(to_chars("Extracted page").as_slice());
    }
    let space: Vec<char> = vec![' '];
    assert(space@ == seq![' ']);
    from_chars(join_exec(&cleaned, space.as_slice()).as_slice())
}

/// The longest excerpt shown, in characters.
pub open spec fn max_excerpt_chars() -> int {
    260
}

/// A hover excerpt of a page's body: its first four non-blank lines, with
/// whitespace collapsed, cut to 257 characters and `...` when longer than
/// 260, quoted with `> `; none for an empty body.
pub open spec fn spec_markdown_content_excerpt(content: Seq<char>) -> Option<Seq<char>> {
    let body = trim(spec_markdown_body_without_frontmatter(content));
    if body.len() == 0 {
        None
    } else {
        let lines = trimmed_lines(body);
        let first = lines.take(if lines.len() < 4 {
            lines.len() as int
        } else {
            4
        });
        let excerpt = join(words(join(first, seq![' '])), seq![' ']);
        let cut = if excerpt.len() > max_excerpt_chars() {
            excerpt.take(max_excerpt_chars() - 3) + "..."@
        } else {
            excerpt
        };
        Some("> "@ + cut)
    }
}

/// The excerpt of a page's body shown on hover.
pub fn markdown_content_excerpt(content: &str) -> (r: Option<String>)
    ensures
        match spec_markdown_content_excerpt(content@) {
            Some(e) => r matches Some(x) && x@ == e,
            None => r is None,
        },
{
    let body = markdown_body_without_frontmatter(content);
    let bv = to_chars(body.as_str());
    let b = trim_chars(bv.as_slice());
    if b.len() == 0 {
        return None;
    }
    let mut lines = trimmed_lines_exec(b.as_slice());
    let n: usize = if lines.len() < 4 {
        lines.len()
    } else {
        4
    };
    let ghost lv = views(lines@);
    lines.truncate(n);
    assert(views(lines@) == lv.take(n as int));
    let space: Vec<char> = vec![' '];
    assert(space@ == seq![' ']);
    let joined = join_exec(&lines, space.as_slice());
    let ws = words_exec(joined.as_slice());
    let excerpt = join_exec(&ws, space.as_slice());
    let mut out = to_chars("> ");
    if excerpt.len() > 260 {
        let cut = sub_chars(excerpt.as_slice(), 0, 257);
        assert(cut@ == excerpt@.take(257));
        crate::text::extend_chars(&mut out, cut.as_slice());
        push_str_chars(&mut out, "...");
    } else {
        crate::text::extend_chars(&mut out, excerpt.as_slice());
    }
    Some(from_chars(out.as_slice()))
}

// ---------------------------------------------------------------------------
// Suggesting an anchor
// ---------------------------------------------------------------------------

/// The length of the longest common prefix of `a` and `b`.
pub open spec fn spec_common_prefix_len(a: Seq<char>, b: Seq<char>) -> int {
    choose|n: int| is_common_prefix_len(a, b, n)
}

proof fn lemma_common_prefix_len(a: Seq<char>, b: Seq<char>, n: int)
    requires
        is_common_prefix_len(a, b, n),
    ensures
        spec_common_prefix_len(a, b) == n,
{
    let m = choose|m: int| is_common_prefix_len(a, b, m);
    assert(is_common_prefix_len(a, b, m));
    if m < n {
        assert(a[m] == b[m]);
    }
    if n < m {
        assert(a[n] == b[n]);
    }
}

/// `x` capped at the largest `usize`.
pub open spec fn sat(x: int) -> int {
    if x > usize::MAX {
        usize::MAX as int
    } else {
        x
    }
}

/// How well a heading matches a missing anchor, compared case-insensitively:
/// the largest score for the same id; otherwise the shared prefix of the
/// ids plus three times that of their last parts (after the last `--`),
/// 100 more when one id contains the other, and 50 more when the slug of
/// the heading's title and the anchor's last part contain one another.
/// Sums are capped at the largest `usize`.
pub open spec fn spec_anchor_suggestion_score(fragment: Seq<char>, heading_id: Seq<char>, title_slug: Seq<char>) -> int {
    let f = str_lowercase(fragment);
    let h = str_lowercase(heading_id);
    if h == f {
        usize::MAX as int
    } else {
        let fl = spec_missing_anchor_parent_and_leaf(f).1;
        let hl = spec_missing_anchor_parent_and_leaf(h).1;
        let p = spec_common_prefix_len(fl, hl);
        let base = sat(spec_common_prefix_len(f, h) + sat(p + p + p));
        let with_ids = if crate::text::contains_seq(h, f) || crate::text::contains_seq(f, h) {
            sat(base + 100)
        } else {
            base
        };
        if crate::text::contains_seq(title_slug, fl) || crate::text::contains_seq(fl, title_slug) {
            sat(with_ids + 50)
        } else {
            with_ids
        }
    }
}

fn contains_exec(s: &str, p: &str) -> (r: bool)
    ensures
        r == crate::text::contains_seq(s@, p@),
{
    let sv = to_chars(s);
    let pv = to_chars(p);
    match find_from(sv.as_slice(), pv.as_slice(), 0) {
        Some(i) => {
            assert(occurs_at(sv@, pv@, i as int));
            true
        },
        None => false,
    }
}

/// How well a heading (with id `heading_id` and title
/// `heading_title`) matches the missing anchor `fragment`; the title is
/// compared by its slug.
pub fn anchor_suggestion_score(fragment: &str, heading_id: &str, heading_title: &str) -> (r: usize)
    ensures
        r == spec_anchor_suggestion_score(fragment@, heading_id@, marq_slugify(heading_title@)),
{
    let slug = slugify(heading_title);
    let heading_title_slug = slug.as_str();
    let f = lowercase_of(fragment);
    let h = lowercase_of(heading_id);
    if crate::text::str_eq(h.as_str(), f.as_str()) {
        return usize::MAX;
    }
    let (_, fl) = missing_anchor_parent_and_leaf(f.as_str());
    let (_, hl) = missing_anchor_parent_and_leaf(h.as_str());
    let whole = common_prefix_len(f.as_str(), h.as_str());
    let leaf = common_prefix_len(fl.as_str(), hl.as_str());
    proof {
        lemma_common_prefix_len(f@, h@, whole as int);
        lemma_common_prefix_len(fl@, hl@, leaf as int);
    }
    let mut score = whole.saturating_add(leaf.saturating_add(leaf).saturating_add(leaf));
    if contains_exec(h.as_str(), f.as_str()) || contains_exec(f.as_str(), h.as_str()) {
        score = score.saturating_add(100);
    }
    if contains_exec(heading_title_slug, fl.as_str()) || contains_exec(fl.as_str(), heading_title_slug) {
        score = score.saturating_add(50);
    }
    score
}

// ---------------------------------------------------------------------------
// Extracting a selection into a new page
// ---------------------------------------------------------------------------

/// What a selection becomes as a page of its own: its title, the title's
/// slug, and its body.
pub struct ExtractedPageContent {
    pub title: String,
    pub slug: String,
    pub body: String,
}

/// The new page a selection makes: when it opens with an ATX heading, that
/// heading's text is the title and the rest is the body; otherwise the
/// title comes from the selection's first words and the whole selection is
/// the body. The body is normalised either way, and the slug is the
/// title's.
pub open spec fn spec_extracted_page_content(selected: Seq<char>) -> (Seq<char>, Seq<char>, Seq<char>) {
    match spec_extract_leading_heading(selected) {
        Some((title, body)) => (title, marq_slugify(title), spec_normalize_extracted_body(body)),
        None => {
            let title = spec_title_from_selection(selected);
            (title, marq_slugify(title), spec_normalize_extracted_body(selected))
        },
    }
}

/// The title, slug and body of the page a selection is extracted into.
pub fn extracted_page_content(selected: &str) -> (r: ExtractedPageContent)
    ensures
        (r.title@, r.slug@, r.body@) == spec_extracted_page_content(selected@),
{
    match extract_leading_heading(selected) {
        Some((title, body)) => {
            let slug = slugify(title.as_str());
            let body = normalize_extracted_body(body.as_str());
            ExtractedPageContent { title, slug, body }
        },
        None => {
            let title = title_from_selection(selected);
            let slug = slugify(title.as_str());
            ExtractedPageContent { title, slug, body: normalize_extracted_body(selected) }
        },
    }
}

} // verus!
