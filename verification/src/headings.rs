//! Lines of a source as the editor addresses them: the range of a
//! heading's title text on its line, the position just after a given line
//! (where a new heading is inserted), and the byte offset of an editor
//! position.
use vstd::prelude::*;

use crate::editing::{
    missing_anchor_parent_and_leaf, spec_missing_anchor_parent_and_leaf, spec_title_from_slug,
    title_from_slug,
};
use crate::frontmatter::byte_offsets;
use crate::model::{has_str, contains_str, AuthoringPage};
use crate::text::{from_chars, push_str_chars, str_eq, str_byte_len};
use crate::positions::{
    byte_range_to_lsp_range, byte_to_line_column, count_before, lemma_count_before, line_col,
    spec_byte_range_to_lsp_range, spec_byte_to_line_column, zero_based, Position, Range,
};
use crate::text::{
    byte_len, find_char_from, is_first_char, last_index, rfind_char, sub_chars, to_chars,
};

verus! {

// ---------------------------------------------------------------------------
// The title of an ATX or setext heading line
// ---------------------------------------------------------------------------

/// A space or a tab.
pub open spec fn is_blank(c: char) -> bool {
    c == ' ' || c == '\t'
}

/// Up to three leading spaces of `line`.
pub open spec fn lead_spaces(line: Seq<char>) -> int {
    if line.len() > 0 && line[0] == ' ' {
        if line.len() > 1 && line[1] == ' ' {
            if line.len() > 2 && line[2] == ' ' {
                3
            } else {
                2
            }
        } else {
            1
        }
    } else {
        0
    }
}

/// The end of the run of `#` that starts at `i`.
pub open spec fn hash_end(line: Seq<char>, i: int) -> int
    decreases line.len() - i,
{
    if 0 <= i < line.len() && line[i] == '#' {
        hash_end(line, i + 1)
    } else {
        i
    }
}

/// The end of the run of blanks that starts at `i`.
pub open spec fn blank_skip(line: Seq<char>, i: int) -> int
    decreases line.len() - i,
{
    if 0 <= i < line.len() && is_blank(line[i]) {
        blank_skip(line, i + 1)
    } else {
        i
    }
}

/// `hi` moved back over the blanks before it, but not before `lo`.
pub open spec fn blank_end(line: Seq<char>, lo: int, hi: int) -> int
    decreases hi - lo,
{
    if lo < hi && is_blank(line[hi - 1]) {
        blank_end(line, lo, hi - 1)
    } else {
        hi
    }
}

/// `hi` moved back over the `#` before it.
pub open spec fn hash_start(line: Seq<char>, hi: int) -> int
    decreases hi,
{
    if 0 < hi && line[hi - 1] == '#' {
        hash_start(line, hi - 1)
    } else {
        hi
    }
}

/// The title of a heading line, as a range of positions within the line:
/// after up to three spaces, the `#` marker and the blanks after it, up to
/// the trailing blanks, less a closing run of `#` that follows a blank.
/// A line without a marker (a setext heading) is its text up to the
/// trailing blanks.
pub open spec fn title_bounds(line: Seq<char>) -> (int, int) {
    let m = lead_spaces(line);
    let o = hash_end(line, m);
    if o == m {
        (m, blank_end(line, m, line.len() as int))
    } else {
        let ts = blank_skip(line, o);
        let te = blank_end(line, ts, line.len() as int);
        let cs = hash_start(line, te);
        if cs < te && cs > ts && is_blank(line[cs - 1]) {
            (ts, blank_end(line, ts, cs - 1))
        } else {
            (ts, te)
        }
    }
}

/// The end of the line that holds position `k`: the first newline at or
/// after it, or the end of `s`.
pub open spec fn line_end_from(s: Seq<char>, k: int) -> int {
    if exists|i: int| is_first_char(s, '\n', k, i) {
        choose|i: int| is_first_char(s, '\n', k, i)
    } else {
        s.len() as int
    }
}

pub proof fn lemma_line_end_from(s: Seq<char>, k: int, i: int)
    requires
        is_first_char(s, '\n', k, i),
    ensures
        line_end_from(s, k) == i,
{
    let j = choose|j: int| is_first_char(s, '\n', k, j);
    assert(is_first_char(s, '\n', k, j));
    if j < i {
        assert(s[j] != '\n');
    }
    if i < j {
        assert(s[i] != '\n');
    }
}

/// The start of the line that holds position `k`.
pub open spec fn line_start_before(s: Seq<char>, k: int) -> int {
    match last_index(s.take(k), '\n') {
        Some(i) => i + 1,
        None => 0,
    }
}

/// The range of the title of the heading whose line holds character `k`.
pub open spec fn spec_heading_title_range(s: Seq<char>, k: int) -> Range {
    let ls = line_start_before(s, k);
    let le = line_end_from(s, k);
    let tb = title_bounds(s.subrange(ls, le));
    spec_byte_range_to_lsp_range(
        s,
        byte_len(s.take(ls + tb.0)) as int,
        byte_len(s.take(ls + tb.1)) as int,
    )
}

fn title_bounds_exec(line: &[char]) -> (r: (usize, usize))
    ensures
        r.0 as int == title_bounds(line@).0,
        r.1 as int == title_bounds(line@).1,
        r.0 <= r.1 <= line.len(),
{
    let n = line.len();
    let mut m: usize = 0;
    while m < n && m < 3 && line[m] == ' '
        invariant
            m <= n == line.len(),
            m <= 3,
            forall|j: int| 0 <= j < m ==> line@[j] == ' ',
        decreases 3 - m,
    {
        m = m + 1;
    }
    assert(m as int == lead_spaces(line@));
    let mut o: usize = m;
    while o < n && line[o] == '#'
        invariant
            m <= o <= n == line.len(),
            hash_end(line@, m as int) == hash_end(line@, o as int),
        decreases n - o,
    {
        o = o + 1;
    }
    if o == m {
        let mut e: usize = n;
        while e > m && (line[e - 1] == ' ' || line[e - 1] == '\t')
            invariant
                m <= e <= n == line.len(),
                blank_end(line@, m as int, n as int) == blank_end(line@, m as int, e as int),
            decreases e,
        {
            e = e - 1;
        }
        return (m, e);
    }
    let mut ts: usize = o;
    while ts < n && (line[ts] == ' ' || line[ts] == '\t')
        invariant
            o <= ts <= n == line.len(),
            blank_skip(line@, o as int) == blank_skip(line@, ts as int),
        decreases n - ts,
    {
        ts = ts + 1;
    }
    let mut te: usize = n;
    while te > ts && (line[te - 1] == ' ' || line[te - 1] == '\t')
        invariant
            ts <= te <= n == line.len(),
            blank_end(line@, ts as int, n as int) == blank_end(line@, ts as int, te as int),
        decreases te,
    {
        te = te - 1;
    }
    let mut cs: usize = te;
    while cs > 0 && line[cs - 1] == '#'
        invariant
            cs <= te <= n == line.len(),
            hash_start(line@, te as int) == hash_start(line@, cs as int),
        decreases cs,
    {
        cs = cs - 1;
    }
    if cs < te && cs > ts && (line[cs - 1] == ' ' || line[cs - 1] == '\t') {
        let mut e: usize = cs - 1;
        while e > ts && (line[e - 1] == ' ' || line[e - 1] == '\t')
            invariant
                ts <= e <= cs - 1,
                cs <= n == line.len(),
                blank_end(line@, ts as int, cs - 1) == blank_end(line@, ts as int, e as int),
            decreases e,
        {
            e = e - 1;
        }
        (ts, e)
    } else {
        (ts, te)
    }
}

/// The range of the title text of the heading that starts at byte
/// `heading_byte_start` of `content` (a character boundary): on the line
/// that holds it, the text after the `#` marker and its blanks, without
/// trailing blanks or a closing run of `#`. The result is an `Option` for
/// callers that treat a missing range; it is always present.
pub fn heading_title_range(content: &str, heading_byte_start: usize) -> (r: Option<Range>)
    requires
        content@.len() < u32::MAX,
        byte_len(content@) <= usize::MAX,
        exists|k: int| 0 <= k <= content@.len() && byte_len(content@.take(k)) == heading_byte_start,
    ensures
        forall|k: int|
            0 <= k <= content@.len() && byte_len(content@.take(k)) == heading_byte_start ==> r
                == Some(spec_heading_title_range(content@, k)),
{
    let v = to_chars(content);
    let offs = byte_offsets(v.as_slice());
    let mut k: usize = 0;
    while k < v.len() && offs[k] != heading_byte_start
        invariant
            k <= v.len(),
            v@ == content@,
            offs@.len() == v@.len() + 1,
            forall|i: int| 0 <= i <= v@.len() ==> #[trigger] offs@[i] == byte_len(v@.take(i)),
            forall|j: int| 0 <= j < k ==> byte_len(v@.take(j)) != heading_byte_start,
        decreases v.len() - k,
    {
        k = k + 1;
    }
    proof {
        let w = choose|w: int| 0 <= w <= content@.len() && byte_len(content@.take(w)) == heading_byte_start;
        if offs@[k as int] != heading_byte_start {
            assert(k == v.len());
            assert(byte_len(v@.take(w)) == heading_byte_start);
        }
        assert forall|j: int|
            0 <= j <= content@.len() && byte_len(content@.take(j)) == heading_byte_start implies j
                == k by {
            if j > k {
                lemma_byte_len_take_strict(content@, k as int, j);
            }
        }
    }
    let head = sub_chars(v.as_slice(), 0, k);
    let ls: usize = match rfind_char(head.as_slice(), '\n') {
        Some(i) => i + 1,
        None => 0,
    };
    let le: usize = match find_char_from(v.as_slice(), '\n', k) {
        Some(i) => {
            proof {
                lemma_line_end_from(v@, k as int, i as int);
            }
            i
        },
        None => v.len(),
    };
    let line = sub_chars(v.as_slice(), ls, le);
    let (ts, te) = title_bounds_exec(line.as_slice());
    Some(byte_range_to_lsp_range(content, offs[ls + ts], offs[ls + te]))
}

pub proof fn lemma_byte_len_take_strict(s: Seq<char>, j: int, k: int)
    requires
        0 <= j < k <= s.len(),
    ensures
        byte_len(s.take(j)) < byte_len(s.take(k)),
    decreases k - j,
{
    crate::positions::lemma_byte_len_take_mono(s, j, k - 1);
    assert(s.take(k).drop_last() == s.take(k - 1));
}

// ---------------------------------------------------------------------------
// After a line
// ---------------------------------------------------------------------------

/// The position just after `k` more lines, counting from `from`: after the
/// `k`-th newline at or after `from`, or the end of `s` when there are
/// fewer.
pub open spec fn after_lines(s: Seq<char>, from: int, k: nat) -> int
    decreases k,
{
    if k == 0 {
        from
    } else if exists|i: int| is_first_char(s, '\n', from, i) {
        after_lines(s, (choose|i: int| is_first_char(s, '\n', from, i)) + 1, (k - 1) as nat)
    } else {
        s.len() as int
    }
}

proof fn lemma_first_newline(s: Seq<char>, from: int, i: int)
    requires
        is_first_char(s, '\n', from, i),
    ensures
        (choose|j: int| is_first_char(s, '\n', from, j)) == i,
{
    let j = choose|j: int| is_first_char(s, '\n', from, j);
    assert(is_first_char(s, '\n', from, j));
    if j < i {
        assert(s[j] != '\n');
    }
    if i < j {
        assert(s[i] != '\n');
    }
}

/// The zero-based position just after one-based line `one_based_line` of
/// `content` (the start of the next line; the end of `content` when it has
/// no more lines). Line 0 counts as line 1.
pub fn insertion_position_after_line(content: &str, one_based_line: u32) -> (r: Position)
    requires
        content@.len() < u32::MAX,
        byte_len(content@) <= usize::MAX,
    ensures
        ({
            let k = (if one_based_line == 0 {
                1
            } else {
                one_based_line as int
            }) as nat;
            r == zero_based(
                spec_byte_to_line_column(content@, byte_len(content@.take(after_lines(content@, 0, k))) as int),
            )
        }),
{
    let v = to_chars(content);
    let offs = byte_offsets(v.as_slice());
    let lines: u32 = if one_based_line == 0 {
        1
    } else {
        one_based_line
    };
    let ghost total = lines as nat;
    let mut pos: usize = 0;
    let mut left: u32 = lines;
    while left > 0
        invariant
            pos <= v.len(),
            v@ == content@,
            left <= lines,
            after_lines(v@, 0, total) == after_lines(v@, pos as int, left as nat),
        decreases left,
    {
        match find_char_from(v.as_slice(), '\n', pos) {
            Some(i) => {
                proof {
                    lemma_first_newline(v@, pos as int, i as int);
                }
                pos = i + 1;
                left = left - 1;
            },
            None => {
                pos = v.len();
                left = 0;
            },
        }
    }
    let (line, column) = byte_to_line_column(content, offs[pos]);
    proof {
        crate::positions::lemma_line_col_bound(
            content@.take(crate::positions::count_before(content@, offs@[pos as int] as int) as int),
        );
    }
    Position { line: line - 1, character: column - 1 }
}

// ---------------------------------------------------------------------------
// Editor positions to offsets
// ---------------------------------------------------------------------------

/// The character index of zero-based `line` and `character` in `s`: none
/// when the line does not exist (a final empty line after a trailing
/// newline does not) or the character lies beyond the line's end; the end
/// of the line itself is addressable.
pub open spec fn spec_position_to_char(s: Seq<char>, line: int, character: int) -> Option<int> {
    let ls = after_lines(s, 0, line as nat);
    if ls >= s.len() {
        None
    } else {
        let le = line_end_from(s, ls);
        if character <= le - ls {
            Some(ls + character)
        } else {
            None
        }
    }
}

/// The byte offset of an editor position in `content`, if the position is
/// inside the text.
pub fn position_to_byte_offset(content: &str, position: Position) -> (r: Option<usize>)
    requires
        byte_len(content@) <= usize::MAX,
    ensures
        match spec_position_to_char(content@, position.line as int, position.character as int) {
            Some(i) => r matches Some(b) && b == byte_len(content@.take(i)),
            None => r is None,
        },
{
    let v = to_chars(content);
    let offs = byte_offsets(v.as_slice());
    let mut pos: usize = 0;
    let mut left: u32 = position.line;
    while left > 0
        invariant
            pos <= v.len(),
            v@ == content@,
            after_lines(v@, 0, position.line as nat) == after_lines(v@, pos as int, left as nat),
        decreases left,
    {
        match find_char_from(v.as_slice(), '\n', pos) {
            Some(i) => {
                proof {
                    lemma_first_newline(v@, pos as int, i as int);
                }
                pos = i + 1;
                left = left - 1;
            },
            None => {
                pos = v.len();
                left = 0;
            },
        }
    }
    if pos >= v.len() {
        return None;
    }
    let le: usize = match find_char_from(v.as_slice(), '\n', pos) {
        Some(i) => {
            proof {
                lemma_line_end_from(v@, pos as int, i as int);
            }
            i
        },
        None => v.len(),
    };
    let ch = position.character as usize;
    if ch <= le - pos {
        Some(offs[pos + ch])
    } else {
        None
    }
}

/// The byte offset of an editor position in `content` (the name the
/// editor requests use).
pub fn lsp_position_to_byte_offset(content: &str, position: Position) -> (r: Option<usize>)
    requires
        byte_len(content@) <= usize::MAX,
    ensures
        match spec_position_to_char(content@, position.line as int, position.character as int) {
            Some(i) => r matches Some(b) && b == byte_len(content@.take(i)),
            None => r is None,
        },
{
    position_to_byte_offset(content, position)
}

proof fn lemma_after_lines_succ(s: Seq<char>, from: int, k: nat)
    requires
        0 <= from,
    ensures
        after_lines(s, from, k + 1) == after_lines(s, after_lines(s, from, k), 1),
    decreases k,
{
    if k > 0 {
        if exists|i: int| is_first_char(s, '\n', from, i) {
            let n = choose|i: int| is_first_char(s, '\n', from, i);
            lemma_after_lines_succ(s, n + 1, (k - 1) as nat);
        } else {
            assert(!exists|i: int| is_first_char(s, '\n', s.len() as int, i));
        }
    }
}

/// The line and column reached after `s.take(i)` locate `i`: the line
/// starts after the `(line - 1)`-th newline, `column - 1` characters before
/// `i`, with no newline in between.
proof fn lemma_line_col_locates(s: Seq<char>, i: int)
    requires
        0 <= i <= s.len(),
    ensures
        ({
            let (l, c) = line_col(s.take(i));
            let ls = i - (c - 1);
            &&& l >= 1 && c >= 1
            &&& 0 <= ls <= i
            &&& after_lines(s, 0, (l - 1) as nat) == ls
            &&& forall|j: int| ls <= j < i ==> s[j] != '\n'
            &&& (ls == 0 || s[ls - 1] == '\n')
        }),
    decreases i,
{
    crate::positions::lemma_line_col_bound(s.take(i));
    if i == 0 {
        assert(s.take(0) =~= Seq::<char>::empty());
        assert(line_col(s.take(0)) == (1nat, 1nat));
    } else {
        lemma_line_col_locates(s, i - 1);
        assert(s.take(i).drop_last() == s.take(i - 1));
        assert(s.take(i).last() == s[i - 1]);
        let (l0, c0) = line_col(s.take(i - 1));
        let ls0 = i - 1 - (c0 - 1);
        crate::positions::lemma_line_col_bound(s.take(i - 1));
        if s[i - 1] == '\n' {
            assert(line_col(s.take(i)) == (l0 + 1, 1nat));
            lemma_after_lines_succ(s, 0, (l0 - 1) as nat);
            assert(is_first_char(s, '\n', ls0, i - 1));
            lemma_first_newline(s, ls0, i - 1);
            assert(((l0 - 1) as nat + 1) as nat == l0);
            assert(after_lines(s, ls0, 1) == after_lines(s, i, 0));
            assert(after_lines(s, 0, l0 as nat) == i);
        } else {
            assert(line_col(s.take(i)) == (l0, c0 + 1));
            assert(i - ((c0 + 1) - 1) == ls0);
        }
    }
}

/// Locating a position and converting it back undo each other: the editor
/// position of any character boundary of a text gives back that boundary,
/// except the very end of a text that is empty or ends with a newline
/// (which has no line of its own to address).
pub proof fn law_position_of_offset_round_trips(s: Seq<char>, i: int)
    requires
        0 <= i <= s.len(),
        i < s.len() || (s.len() > 0 && s.last() != '\n'),
        s.len() < u32::MAX,
    ensures
        ({
            let p = zero_based(spec_byte_to_line_column(s, byte_len(s.take(i)) as int));
            spec_position_to_char(s, p.line as int, p.character as int) == Some(i)
        }),
{
    if i > 0 {
        crate::positions::lemma_byte_len_take_mono(s, i - 1, i);
        lemma_byte_len_take_strict(s, i - 1, i);
    }
    lemma_count_before(s, byte_len(s.take(i)) as int, i);
    lemma_line_col_locates(s, i);
    crate::positions::lemma_line_col_bound(s.take(i));
    let (l, c) = line_col(s.take(i));
    let ls = i - (c - 1);
    {
        assert(((l - 1) as u32) as int == l - 1);
        assert(((c - 1) as u32) as int == c - 1);
        if i == s.len() {
            assert(s[s.len() - 1] != '\n');
            assert(ls < s.len());
        }
        let le = line_end_from(s, ls);
        if exists|k: int| is_first_char(s, '\n', ls, k) {
            let k = choose|k: int| is_first_char(s, '\n', ls, k);
            assert(k >= i);
        }
        assert(le >= i);
    }
}

// ---------------------------------------------------------------------------
// Inserting a missing heading
// ---------------------------------------------------------------------------

/// A heading found in a Markdown source: its anchor id (with its parents'
/// slugs), its text, its level, its one-based line, and the range of its
/// title text.
pub struct MarkdownHeading {
    pub id: String,
    pub title: String,
    pub level: u8,
    pub line: u32,
    pub title_range: Range,
}

/// Heading `i` of `hs` is the first with id `id` that the page also knows.
pub open spec fn is_first_parent_heading(hs: Seq<MarkdownHeading>, id: Seq<char>, page: AuthoringPage, i: int) -> bool {
    &&& 0 <= i < hs.len()
    &&& hs[i].id@ == id
    &&& has_str(page.heading_ids@, id)
    &&& forall|j: int| 0 <= j < i ==> !((#[trigger] hs[j]).id@ == id && has_str(page.heading_ids@, id))
}

/// The heading that a missing nested anchor goes under, if any.
pub open spec fn parent_heading(hs: Seq<MarkdownHeading>, id: Seq<char>, page: AuthoringPage) -> Option<int> {
    if exists|i: int| is_first_parent_heading(hs, id, page, i) {
        Some(choose|i: int| is_first_parent_heading(hs, id, page, i))
    } else {
        None
    }
}

proof fn lemma_parent_heading(hs: Seq<MarkdownHeading>, id: Seq<char>, page: AuthoringPage, i: int)
    requires
        is_first_parent_heading(hs, id, page, i),
    ensures
        parent_heading(hs, id, page) == Some(i),
{
    let j = choose|j: int| is_first_parent_heading(hs, id, page, j);
    assert(is_first_parent_heading(hs, id, page, j));
    if j < i {
        assert(!(hs[j].id@ == id && has_str(page.heading_ids@, id)));
    }
    if i < j {
        assert(!(hs[i].id@ == id && has_str(page.heading_ids@, id)));
    }
}

/// The position just after one-based line `one_based_line` (line 0 counts
/// as line 1).
pub open spec fn spec_position_after_line(s: Seq<char>, one_based_line: u32) -> Position {
    let k = (if one_based_line == 0 {
        1
    } else {
        one_based_line as int
    }) as nat;
    zero_based(spec_byte_to_line_column(s, byte_len(s.take(after_lines(s, 0, k))) as int))
}

/// Where and how to add the heading a missing anchor names: its title is
/// made from the anchor's last slug; nested under the heading the rest of
/// the anchor names (when the page has it), one level deeper (at most 6),
/// right after that heading's line; otherwise a top-level heading at the
/// end of the source. None when the last slug makes no title.
pub open spec fn spec_missing_anchor_heading_insertion(
    page: AuthoringPage,
    content: Seq<char>,
    hs: Seq<MarkdownHeading>,
    fragment: Seq<char>,
) -> Option<(Position, u8, Seq<char>)> {
    let (parent, leaf) = spec_missing_anchor_parent_and_leaf(fragment);
    match spec_title_from_slug(leaf) {
        None => None,
        Some(title) => {
            let under = match parent {
                Some(pid) => parent_heading(hs, pid, page),
                None => None,
            };
            match under {
                Some(h) => Some(
                    (
                        spec_position_after_line(content, hs[h].line),
                        (if hs[h].level >= 5 {
                            6
                        } else {
                            hs[h].level + 1
                        }) as u8,
                        title,
                    ),
                ),
                None => Some(
                    (
                        zero_based(spec_byte_to_line_column(content, byte_len(content) as int)),
                        1u8,
                        title,
                    ),
                ),
            }
        },
    }
}

/// Where and how to add the heading that a missing anchor names, given the
/// headings of the page's source.
pub fn missing_anchor_heading_insertion(
    page: &AuthoringPage,
    content: &str,
    local_headings: &Vec<MarkdownHeading>,
    missing_fragment: &str,
) -> (r: Option<(Position, u8, String)>)
    requires
        content@.len() < u32::MAX,
        byte_len(content@) <= usize::MAX,
    ensures
        match spec_missing_anchor_heading_insertion(*page, content@, local_headings@, missing_fragment@) {
            Some((p, l, t)) => r matches Some(x) && x.0 == p && x.1 == l && x.2@ == t,
            None => r is None,
        },
{
    let (parent, leaf) = missing_anchor_parent_and_leaf(missing_fragment);
    let title = match title_from_slug(leaf.as_str()) {
        Some(t) => t,
        None => {
            return None;
        },
    };
    match &parent {
        Some(pid) => {
            let known = contains_str(&page.heading_ids, pid.as_str());
            let mut i: usize = 0;
            while i < local_headings.len()
                invariant
                    i <= local_headings.len(),
                    known == has_str(page.heading_ids@, pid@),
                    content@.len() < u32::MAX,
                    byte_len(content@) <= usize::MAX,
                    spec_missing_anchor_parent_and_leaf(missing_fragment@) == (Some(pid@), leaf@),
                    spec_title_from_slug(leaf@) == Some(title@),
                    forall|j: int|
                        0 <= j < i ==> !((#[trigger] local_headings@[j]).id@ == pid@ && has_str(
                            page.heading_ids@,
                            pid@,
                        )),
                decreases local_headings.len() - i,
            {
                let h = &local_headings[i];
                if known && str_eq(h.id.as_str(), pid.as_str()) {
                    proof {
                        lemma_parent_heading(local_headings@, pid@, *page, i as int);
                    }
                    let level: u8 = if h.level >= 5 {
                        6
                    } else {
                        h.level + 1
                    };
                    return Some((insertion_position_after_line(content, h.line), level, title));
                }
                i = i + 1;
            }
            proof {
                if exists|k: int| is_first_parent_heading(local_headings@, pid@, *page, k) {
                    let k = choose|k: int| is_first_parent_heading(local_headings@, pid@, *page, k);
                    assert(local_headings@[k].id@ == pid@);
                }
            }
        },
        None => {},
    }
    let n = str_byte_len(content);
    let (line, column) = byte_to_line_column(content, n);
    proof {
        crate::positions::lemma_line_col_bound(
            content@.take(crate::positions::count_before(content@, n as int) as int),
        );
    }
    Some((Position { line: line - 1, character: column - 1 }, 1, title))
}

/// An edit that adds a heading: the empty range to insert at, and the text.
pub struct MissingAnchorHeadingEdit {
    pub range: Range,
    pub new_text: String,
}

/// `level` hash marks.
pub open spec fn hashes(level: nat) -> Seq<char>
    decreases level,
{
    if level == 0 {
        Seq::empty()
    } else {
        hashes((level - 1) as nat).push('#')
    }
}

/// The edit that adds the heading a missing anchor names: a blank line,
/// the `#` marker of its level, its title, and a newline, inserted where
/// [`missing_anchor_heading_insertion`] says.
pub fn create_missing_anchor_heading_edit(
    page: &AuthoringPage,
    content: &str,
    missing_fragment: &str,
) -> (r: Option<MissingAnchorHeadingEdit>)
    requires
        content@.len() < u32::MAX,
        byte_len(content@) <= usize::MAX,
    ensures
        exists|hs: Seq<MarkdownHeading>|
            crate::markdown_headings::heading_views(hs) == crate::markdown_headings::spec_markdown_headings(content@)
                && match spec_missing_anchor_heading_insertion(*page, content@, hs, missing_fragment@) {
                Some((p, l, t)) => r matches Some(e) && e.range == (Range { start: p, end: p })
                    && e.new_text@ == "\n\n"@ + hashes(l as nat) + " "@ + t + "\n"@,
                None => r is None,
            },
{
    let local_headings = crate::markdown_headings::markdown_headings(content);
    let ghost hs = local_headings@;
    let (position, level, title) = match missing_anchor_heading_insertion(
        page,
        content,
        &local_headings,
        missing_fragment,
    ) {
        Some(x) => x,
        None => {
            return None;
        },
    };
    let mut text: Vec<char> = Vec::new();
    push_str_chars(&mut text, "\n\n");
    let ghost start = text@;
    let mut k: u8 = 0;
    while k < level
        invariant
            k <= level,
            text@ == start + hashes(k as nat),
        decreases level - k,
    {
        text.push('#');
        k = k + 1;
    }
    push_str_chars(&mut text, " ");
    push_str_chars(&mut text, title.as_str());
    push_str_chars(&mut text, "\n");
    Some(
        MissingAnchorHeadingEdit {
            range: Range { start: position, end: position },
            new_text: from_chars(text.as_slice()),
        },
    )
}

} // verus!
