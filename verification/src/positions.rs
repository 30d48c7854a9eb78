//! Line/column positions in text, the editor's zero-based positions and
//! ranges, and conversions between them and byte offsets.
use vstd::prelude::*;

use std::cmp::Ordering;

use crate::text::{byte_len, char_width, str_byte_len, to_chars};

verus! {

/// The one-based (line, column) reached after reading all of `s`: a newline
/// moves to column 1 of the next line, any other character advances the
/// column by one.
pub open spec fn line_col(s: Seq<char>) -> (nat, nat)
    decreases s.len(),
{
    if s.len() == 0 {
        (1, 1)
    } else {
        let (l, c) = line_col(s.drop_last());
        if s.last() == '\n' {
            (l + 1, 1)
        } else {
            (l, c + 1)
        }
    }
}

/// How many characters of `s` start before byte offset `b`.
pub open spec fn count_before(s: Seq<char>, b: int) -> nat
    decreases s.len(),
{
    if s.len() == 0 {
        0
    } else if byte_len(s.drop_last()) < b {
        s.len()
    } else {
        count_before(s.drop_last(), b)
    }
}

/// The one-based (line, column) of byte offset `b` in `s`: the position
/// after the characters that start before `b`.
pub open spec fn spec_byte_to_line_column(s: Seq<char>, b: int) -> (nat, nat) {
    line_col(s.take(count_before(s, b) as int))
}

/// Line and column never exceed one more than the number of characters.
pub proof fn lemma_line_col_bound(s: Seq<char>)
    ensures
        1 <= line_col(s).0 <= s.len() + 1,
        1 <= line_col(s).1 <= s.len() + 1,
    decreases s.len(),
{
    if s.len() > 0 {
        lemma_line_col_bound(s.drop_last());
    }
}

/// Byte lengths of prefixes grow with the prefix.
pub proof fn lemma_byte_len_take_mono(s: Seq<char>, j: int, k: int)
    requires
        0 <= j <= k <= s.len(),
    ensures
        byte_len(s.take(j)) <= byte_len(s.take(k)),
    decreases k - j,
{
    if j < k {
        lemma_byte_len_take_mono(s, j, k - 1);
        assert(s.take(k).drop_last() == s.take(k - 1));
    }
}

pub proof fn lemma_count_before(s: Seq<char>, b: int, i: int)
    requires
        0 <= i <= s.len(),
        i == s.len() || byte_len(s.take(i)) >= b,
        i == 0 || byte_len(s.take(i - 1)) < b,
    ensures
        count_before(s, b) == i,
    decreases s.len(),
{
    if s.len() == 0 {
    } else if i == s.len() {
        assert(s.drop_last() == s.take(i - 1));
    } else {
        let t = s.drop_last();
        assert(t.take(i) == s.take(i));
        if i > 0 {
            assert(t.take(i - 1) == s.take(i - 1));
        }
        lemma_byte_len_take_mono(s, i, s.len() - 1);
        assert(s.take(s.len() - 1) == t);
        lemma_count_before(t, b, i);
    }
}

/// The one-based line and column of `byte_offset` in `content`.
pub fn byte_to_line_column(content: &str, byte_offset: usize) -> (r: (u32, u32))
    requires
        content@.len() < u32::MAX,
    ensures
        r.0 as nat == spec_byte_to_line_column(content@, byte_offset as int).0,
        r.1 as nat == spec_byte_to_line_column(content@, byte_offset as int).1,
{
    let v = to_chars(content);
    let mut line: u32 = 1;
    let mut column: u32 = 1;
    let mut idx: u64 = 0;
    let mut i: usize = 0;
    while i < v.len()
        invariant
            i <= v.len(),
            v@ == content@,
            v@.len() < u32::MAX,
            idx as int == byte_len(v@.take(i as int)),
            (line as nat, column as nat) == line_col(v@.take(i as int)),
            i == 0 || byte_len(v@.take(i - 1)) < byte_offset,
        ensures
            i <= v.len(),
            (line as nat, column as nat) == line_col(v@.take(i as int)),
            i == 0 || byte_len(v@.take(i - 1)) < byte_offset,
            i == v.len() || byte_len(v@.take(i as int)) >= byte_offset,
        decreases v.len() - i,
    {
        if idx >= byte_offset as u64 {
            break;
        }
        let c = v[i];
        proof {
            lemma_line_col_bound(v@.take(i as int));
            assert(v@.take(i + 1 as int).drop_last() == v@.take(i as int));
            assert(byte_len(v@.take(i as int)) <= 4 * i) by {
                lemma_byte_len_bound(v@.take(i as int));
            }
        }
        if c == '\n' {
            line = line + 1;
            column = 1;
        } else {
            column = column + 1;
        }
        idx = idx + char_width(c) as u64;
        i = i + 1;
    }
    proof {
        lemma_count_before(v@, byte_offset as int, i as int);
    }
    (line, column)
}

/// Each character takes at most four bytes.
pub proof fn lemma_byte_len_bound(s: Seq<char>)
    ensures
        s.len() <= byte_len(s) <= 4 * s.len(),
    decreases s.len(),
{
    if s.len() > 0 {
        lemma_byte_len_bound(s.drop_last());
    }
}

} // verus!

verus! {

/// A zero-based editor position: line and character within the line.
#[derive(Clone, Copy, Debug, PartialEq, Eq, Structural)]
pub struct Position {
    pub line: u32,
    pub character: u32,
}

/// A zero-based editor range from `start` to `end`.
#[derive(Clone, Copy, Debug, PartialEq, Eq, Structural)]
pub struct Range {
    pub start: Position,
    pub end: Position,
}

impl Position {
    /// A position at `line` and `character`.
    pub fn new(line: u32, character: u32) -> (p: Position)
        ensures
            p.line == line,
            p.character == character,
    {
        Position { line, character }
    }
}

/// The empty range at the start of `line`.
pub fn one_line_range(line: u32) -> (r: Range)
    ensures
        r.start == (Position { line, character: 0 }),
        r.end == (Position { line, character: 0 }),
{
    Range { start: Position { line, character: 0 }, end: Position { line, character: 0 } }
}

/// `left` comes no later than `right` (line first, then character).
pub open spec fn spec_position_le(left: Position, right: Position) -> bool {
    left.line < right.line || (left.line == right.line && left.character <= right.character)
}

/// Whether `left` comes no later than `right`.
pub fn position_le(left: Position, right: Position) -> (r: bool)
    ensures
        r == spec_position_le(left, right),
{
    left.line < right.line || (left.line == right.line && left.character <= right.character)
}

/// `position` lies within `range`, both ends included.
pub open spec fn spec_range_contains(range: Range, position: Position) -> bool {
    spec_position_le(range.start, position) && spec_position_le(position, range.end)
}

/// Whether `range` contains `position` (both ends included).
pub fn range_contains_position(range: &Range, position: Position) -> (r: bool)
    ensures
        r == spec_range_contains(*range, position),
{
    position_le(range.start, position) && position_le(position, range.end)
}

/// Whether two ranges share at least one position (ends included).
pub fn ranges_overlap(left: &Range, right: &Range) -> (r: bool)
    ensures
        r == (spec_position_le(left.start, right.end) && spec_position_le(right.start, left.end)),
{
    position_le(left.start, right.end) && position_le(right.start, left.end)
}

/// The zero-based position of a one-based (line, column) pair.
pub open spec fn zero_based(lc: (nat, nat)) -> Position {
    Position { line: (lc.0 - 1) as u32, character: (lc.1 - 1) as u32 }
}

/// Orders two positions: by line, then by character.
pub fn position_cmp(left: Position, right: Position) -> (r: Ordering)
    ensures
        (r == Ordering::Less) == (left.line < right.line || (left.line == right.line && left.character
            < right.character)),
        (r == Ordering::Equal) == (left.line == right.line && left.character == right.character),
        (r == Ordering::Greater) == (left.line > right.line || (left.line == right.line && left.character
            > right.character)),
{
    if left.line < right.line {
        Ordering::Less
    } else if left.line > right.line {
        Ordering::Greater
    } else if left.character < right.character {
        Ordering::Less
    } else if left.character > right.character {
        Ordering::Greater
    } else {
        Ordering::Equal
    }
}

/// The editor range spanning byte offsets `byte_start..byte_end` of `content`.
pub open spec fn spec_byte_range_to_lsp_range(
    content: Seq<char>,
    byte_start: int,
    byte_end: int,
) -> Range {
    Range {
        start: zero_based(spec_byte_to_line_column(content, byte_start)),
        end: zero_based(spec_byte_to_line_column(content, byte_end)),
    }
}

/// Converts a byte range of `content` to a zero-based editor range.
pub fn byte_range_to_lsp_range(content: &str, byte_start: usize, byte_end: usize) -> (r: Range)
    requires
        content@.len() < u32::MAX,
    ensures
        r == spec_byte_range_to_lsp_range(content@, byte_start as int, byte_end as int),
{
    let (line, column) = byte_to_line_column(content, byte_start);
    let (line_end, column_end) = byte_to_line_column(content, byte_end);
    proof {
        lemma_line_col_bound(content@.take(count_before(content@, byte_start as int) as int));
        lemma_line_col_bound(content@.take(count_before(content@, byte_end as int) as int));
    }
    Range {
        start: Position { line: line - 1, character: column - 1 },
        end: Position { line: line_end - 1, character: column_end - 1 },
    }
}

/// The range from the start of `content` to its end.
pub fn full_document_range(content: &str) -> (r: Range)
    requires
        content@.len() < u32::MAX,
        byte_len(content@) <= usize::MAX,
    ensures
        r.start == (Position { line: 0, character: 0 }),
        r.end == zero_based(line_col(content@)),
{
    proof {
        lemma_byte_len_bound(content@);
        lemma_count_before(content@, byte_len(content@) as int, content@.len() as int);
        assert(content@.take(content@.len() as int) == content@);
        lemma_line_col_bound(content@);
        if content@.len() > 0 {
            lemma_byte_len_take_mono(content@, content@.len() - 1, content@.len() as int);
            assert(content@.take(content@.len() as int) == content@);
            assert(content@.take(content@.len() - 1) == content@.drop_last());
        }
    }
    let n = str_byte_len(content);
    let (line, character) = byte_to_line_column(content, n);
    Range {
        start: Position { line: 0, character: 0 },
        end: Position { line: line - 1, character: character - 1 },
    }
}

} // verus!
