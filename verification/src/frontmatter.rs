//! Frontmatter (`+++`-fenced TOML at the top of a page): locating it,
//! reading its `key = value` entries line by line, checking them against the
//! page schema, and writing new frontmatter.
use vstd::prelude::*;

use crate::cache_bust::is_ascii_alnum;
use crate::text::{
    byte_len, char_width, find_char_from, find_from, first_index, from_chars, is_first_char,
    is_first_occurrence, is_ws, is_ws_exec, occurs_at, push_char, sub_chars, to_chars, trim,
    trim_bounds, ws_prefix_len, ws_prefix_len_exec, ws_suffix_len, ws_suffix_len_exec,
};

verus! {

// ---------------------------------------------------------------------------
// The fences
// ---------------------------------------------------------------------------

/// The opening fence `+++` and its newline.
pub open spec fn open_fence() -> Seq<char> {
    seq!['+', '+', '+', '\n']
}

/// A newline followed by the closing fence `+++`.
pub open spec fn close_fence() -> Seq<char> {
    seq!['\n', '+', '+', '+']
}

/// The character range of the frontmatter body: it starts after the opening
/// fence and ends where the first `\n+++` after it begins.
pub open spec fn spec_fm_block(s: Seq<char>) -> Option<(int, int)> {
    if occurs_at(s, open_fence(), 0) && exists|i: int| is_first_occurrence(s, close_fence(), 4, i) {
        Some((4, choose|i: int| is_first_occurrence(s, close_fence(), 4, i)))
    } else {
        None
    }
}

pub proof fn lemma_first_occurrence_unique(s: Seq<char>, p: Seq<char>, from: int, i: int)
    requires
        is_first_occurrence(s, p, from, i),
    ensures
        (choose|k: int| is_first_occurrence(s, p, from, k)) == i,
{
    let k = choose|k: int| is_first_occurrence(s, p, from, k);
    assert(is_first_occurrence(s, p, from, k));
    if k < i {
        assert(!occurs_at(s, p, k));
    }
    if i < k {
        assert(!occurs_at(s, p, i));
    }
}

/// Byte offsets of the frontmatter body.
#[derive(Clone, Copy, Debug)]
pub struct FrontmatterContentByteRange {
    pub start: usize,
    pub end: usize,
}

pub fn fm_block_chars(v: &[char]) -> (r: Option<(usize, usize)>)
    ensures
        match r {
            Some((a, b)) => spec_fm_block(v@) == Some((a as int, b as int)) && 4 <= b <= v.len(),
            None => spec_fm_block(v@) == None::<(int, int)>,
        },
{
    let open: Vec<char> = vec!['+', '+', '+', '\n'];
    let close: Vec<char> = vec!['\n', '+', '+', '+'];
    assert(open@ == open_fence());
    assert(close@ == close_fence());
    if !crate::text::occurs_at_exec(v, open.as_slice(), 0) {
        return None;
    }
    match find_from(v, close.as_slice(), 4) {
        Some(i) => {
            proof {
                lemma_first_occurrence_unique(v@, close_fence(), 4, i as int);
            }
            Some((4, i))
        },
        None => None,
    }
}

/// Byte offsets `b` such that `b[i]` is the byte offset of character `i`
/// of `v` (for `i` up to and including `v.len()`).
pub fn byte_offsets(v: &[char]) -> (b: Vec<usize>)
    requires
        byte_len(v@) <= usize::MAX,
    ensures
        b.len() == v.len() + 1,
        forall|i: int| 0 <= i <= v.len() ==> #[trigger] b@[i] == byte_len(v@.take(i)),
{
    let mut b: Vec<usize> = Vec::new();
    let mut acc: usize = 0;
    b.push(0);
    let mut i: usize = 0;
    assert(v@.take(0) == Seq::<char>::empty());
    while i < v.len()
        invariant
            i <= v.len(),
            byte_len(v@) <= usize::MAX,
            b.len() == i + 1,
            acc == byte_len(v@.take(i as int)),
            forall|k: int| 0 <= k <= i ==> #[trigger] b@[k] == byte_len(v@.take(k)),
        decreases v.len() - i,
    {
        proof {
            assert(v@.take(i + 1 as int).drop_last() == v@.take(i as int));
            crate::positions::lemma_byte_len_take_mono(v@, i + 1, v.len() as int);
            assert(v@.take(v.len() as int) == v@);
        }
        acc = acc + char_width(v[i]);
        b.push(acc);
        i = i + 1;
    }
    b
}

/// The byte range of the frontmatter body of `content`, if it has one.
pub fn frontmatter_content_byte_range(content: &str) -> (r: Option<FrontmatterContentByteRange>)
    requires
        byte_len(content@) <= usize::MAX,
    ensures
        match r {
            Some(br) => spec_fm_block(content@) matches Some((a, b)) && br.start == byte_len(
                content@.take(a),
            ) && br.end == byte_len(content@.take(b)),
            None => spec_fm_block(content@) is None,
        },
{
    let v = to_chars(content);
    match fm_block_chars(v.as_slice()) {
        Some((a, b)) => {
            let offs = byte_offsets(v.as_slice());
            Some(FrontmatterContentByteRange { start: offs[a], end: offs[b] })
        },
        None => None,
    }
}

/// The editor range of the whole frontmatter block, fences included.
pub fn frontmatter_lsp_range(content: &str) -> (r: Option<crate::positions::Range>)
    requires
        content@.len() < u32::MAX,
        byte_len(content@) <= usize::MAX,
    ensures
        match spec_fm_block(content@) {
            None => r is None,
            Some((a, b)) => r == Some(
                crate::positions::Range {
                    start: crate::positions::Position { line: 0, character: 0 },
                    end: crate::positions::zero_based(
                        crate::positions::spec_byte_to_line_column(
                            content@,
                            byte_len(content@.take(b + 4)) as int,
                        ),
                    ),
                },
            ),
        },
{
    let v = to_chars(content);
    let (_, b) = match fm_block_chars(v.as_slice()) {
        Some(block) => block,
        None => {
            return None;
        },
    };
    proof {
        lemma_first_occurrence_unique(v@, close_fence(), 4, b as int);
        assert(is_first_occurrence(v@, close_fence(), 4, b as int));
    }
    let offs = byte_offsets(v.as_slice());
    let (line, column) = crate::positions::byte_to_line_column(content, offs[b + 4]);
    proof {
        crate::positions::lemma_line_col_bound(
            content@.take(crate::positions::count_before(content@, offs@[b + 4] as int) as int),
        );
    }
    Some(
        crate::positions::Range {
            start: crate::positions::Position { line: 0, character: 0 },
            end: crate::positions::Position { line: line - 1, character: column - 1 },
        },
    )
}

// ---------------------------------------------------------------------------
// Lines of the body
// ---------------------------------------------------------------------------

/// Characters allowed in a frontmatter key.
pub open spec fn is_key_char(c: char) -> bool {
    is_ascii_alnum(c) || c == '_' || c == '-'
}

/// Whether `c` may appear in a frontmatter key.
pub fn is_frontmatter_key_char(c: char) -> (r: bool)
    ensures
        r == is_key_char(c),
{
    ('0' <= c && c <= '9') || ('a' <= c && c <= 'z') || ('A' <= c && c <= 'Z') || c == '_' || c
        == '-'
}

/// The table named by a `[name]` line (already trimmed): the trimmed text
/// between the brackets, when it is not empty.
pub open spec fn spec_table_name(t: Seq<char>) -> Option<Seq<char>> {
    if t.len() >= 2 && t[0] == '[' && t.last() == ']' && trim(t.subrange(1, t.len() - 1)).len()
        > 0 {
        Some(trim(t.subrange(1, t.len() - 1)))
    } else {
        None
    }
}

pub fn table_name_in(v: &[char], from: usize, to: usize) -> (r: Option<Vec<char>>)
    requires
        from <= to <= v.len(),
    ensures
        match r {
            Some(n) => spec_table_name(v@.subrange(from as int, to as int)) == Some(n@),
            None => spec_table_name(v@.subrange(from as int, to as int)) is None,
        },
{
    let ghost t = v@.subrange(from as int, to as int);
    if to - from >= 2 && v[from] == '[' && v[to - 1] == ']' {
        let (a, b) = trim_bounds(v, from + 1, to - 1);
        assert(v@.subrange(from + 1, to - 1) == t.subrange(1, t.len() - 1));
        if b > a {
            Some(sub_chars(v, a, b))
        } else {
            None
        }
    } else {
        None
    }
}

/// The table name declared by a trimmed line such as `[extra]`.
pub fn frontmatter_table_name(trimmed_line: &str) -> (r: Option<String>)
    ensures
        match r {
            Some(n) => spec_table_name(trimmed_line@) == Some(n@),
            None => spec_table_name(trimmed_line@) is None,
        },
{
    let v = to_chars(trimmed_line);
    assert(v@.subrange(0, v@.len() as int) == v@);
    match table_name_in(v.as_slice(), 0, v.len()) {
        Some(n) => Some(from_chars(n.as_slice())),
        None => None,
    }
}

/// Where the line starting at `ls` ends, looking no further than `lim`:
/// the first newline in `s[ls..lim)`, or `lim`.
pub open spec fn line_end_within(s: Seq<char>, ls: int, lim: int) -> int {
    if exists|i: int| is_first_char(s.take(lim), '\n', ls, i) {
        choose|i: int| is_first_char(s.take(lim), '\n', ls, i)
    } else {
        lim
    }
}

/// The last table declared on the lines of `s` from `ls` up to `lim`,
/// line by line, or `acc` when none is.
pub open spec fn last_table_from(s: Seq<char>, ls: int, lim: int, acc: Option<Seq<char>>) -> Option<
    Seq<char>,
>
    decreases lim - ls,
{
    if ls >= lim {
        acc
    } else {
        let le = line_end_within(s, ls, lim);
        let next = match spec_table_name(trim(s.subrange(ls, le))) {
            Some(n) => Some(n),
            None => acc,
        };
        if le < ls || le >= lim {
            next
        } else {
            last_table_from(s, le + 1, lim, next)
        }
    }
}

/// The byte offset where the frontmatter body of `s` ends.
pub open spec fn fm_body_end_byte(s: Seq<char>) -> int {
    match spec_fm_block(s) {
        Some((a, b)) => byte_len(s.take(b)) as int,
        None => 0,
    }
}

/// The frontmatter table in effect at byte `offset`: the last `[table]`
/// line of the frontmatter body before the offset (cut at the body's end).
/// None outside frontmatter tables and for a source without frontmatter.
pub fn frontmatter_table_at_offset(content: &str, offset: usize) -> (r: Option<String>)
    requires
        byte_len(content@) <= usize::MAX,
        spec_fm_block(content@) is Some ==> (offset >= fm_body_end_byte(content@) || exists|k: int|
            0 <= k <= content@.len() && byte_len(content@.take(k)) == offset),
    ensures
        match spec_fm_block(content@) {
            None => r is None,
            Some((a, b)) => forall|k: int|
                0 <= k <= content@.len() && byte_len(content@.take(k)) == (if offset
                    < fm_body_end_byte(content@) {
                    offset as int
                } else {
                    fm_body_end_byte(content@)
                }) ==> match last_table_from(content@, a, k, None) {
                    Some(n) => r matches Some(x) && x@ == n,
                    None => r is None,
                },
        },
{
    let v = to_chars(content);
    let (a, b) = match fm_block_chars(v.as_slice()) {
        Some(block) => block,
        None => {
            return None;
        },
    };
    let offs = byte_offsets(v.as_slice());
    let limit_byte: usize = if offset < offs[b] {
        offset
    } else {
        offs[b]
    };
    let mut k: usize = 0;
    while k < v.len() && offs[k] != limit_byte
        invariant
            k <= v.len(),
            v@ == content@,
            offs@.len() == v@.len() + 1,
            forall|i: int| 0 <= i <= v@.len() ==> #[trigger] offs@[i] == byte_len(v@.take(i)),
            forall|j: int| 0 <= j < k ==> byte_len(v@.take(j)) != limit_byte,
        decreases v.len() - k,
    {
        k = k + 1;
    }
    proof {
        if offs@[k as int] != limit_byte {
            if offset < offs@[b as int] {
                let w = choose|w: int| 0 <= w <= content@.len() && byte_len(content@.take(w)) == offset;
                assert(byte_len(v@.take(w)) == limit_byte);
            } else {
                assert(byte_len(v@.take(b as int)) == limit_byte);
            }
        }
        assert forall|j: int|
            0 <= j <= content@.len() && byte_len(content@.take(j)) == limit_byte implies j == k by {
            if j > k {
                crate::headings::lemma_byte_len_take_strict(content@, k as int, j);
            }
        }
    }
    let mut table: Option<Vec<char>> = None;
    let mut ls: usize = a;
    while ls < k
        invariant
            k <= v@.len(),
            v@ == content@,
            last_table_from(v@, a as int, k as int, None) == last_table_from(
                v@,
                ls as int,
                k as int,
                match table {
                    Some(t) => Some(t@),
                    None => None,
                },
            ),
        decreases k - ls,
    {
        let le: usize = match find_char_from(v.as_slice(), '\n', ls) {
            Some(i) => if i < k {
                i
            } else {
                k
            },
            None => k,
        };
        proof {
            let t = v@.take(k as int);
            if le < k {
                assert(is_first_char(t, '\n', ls as int, le as int));
                lemma_first_char_unique(t, ls as int, le as int);
            } else {
                if exists|i: int| is_first_char(t, '\n', ls as int, i) {
                    let i = choose|i: int| is_first_char(t, '\n', ls as int, i);
                    assert(v@[i] == '\n');
                }
            }
        }
        let (ta, tb) = trim_bounds(v.as_slice(), ls, le);
        match table_name_in(v.as_slice(), ta, tb) {
            Some(n) => {
                table = Some(n);
            },
            None => {},
        }
        if le < k {
            ls = le + 1;
        } else {
            ls = k;
        }
    }
    match table {
        Some(t) => Some(from_chars(t.as_slice())),
        None => None,
    }
}

proof fn lemma_first_char_unique(s: Seq<char>, from: int, i: int)
    requires
        is_first_char(s, '\n', from, i),
    ensures
        (choose|j: int| is_first_char(s, '\n', from, j)) == i,
{
    let j = choose|j: int| is_first_char(s, '\n', from, j);
    assert(is_first_char(s, '\n', from, j));
    if j < i {
        assert(s[j] != '\n');
    }
    if i < j {
        assert(s[i] != '\n');
    }
}

/// Where a `#` comment starts in `s`, scanning from `i` with the given
/// string-literal state (TOML: `"` strings allow `\` escapes, `'` strings
/// do not).
pub open spec fn comment_from(
    s: Seq<char>,
    i: int,
    in_string: bool,
    quote: char,
    escaped: bool,
) -> Option<int>
    decreases s.len() - i,
{
    if i < 0 || i >= s.len() {
        None
    } else {
        let ch = s[i];
        if in_string {
            if escaped {
                comment_from(s, i + 1, true, quote, false)
            } else if ch == '\\' && quote == '"' {
                comment_from(s, i + 1, true, quote, true)
            } else if ch == quote {
                comment_from(s, i + 1, false, quote, false)
            } else {
                comment_from(s, i + 1, true, quote, false)
            }
        } else if ch == '"' || ch == '\'' {
            comment_from(s, i + 1, true, ch, false)
        } else if ch == '#' {
            Some(i)
        } else {
            comment_from(s, i + 1, false, quote, false)
        }
    }
}

/// The index of the first `#` of `s` that is outside a string literal.
pub open spec fn spec_comment_start(s: Seq<char>) -> Option<int> {
    comment_from(s, 0, false, '\0', false)
}

fn comment_start_in(v: &[char], from: usize, to: usize) -> (r: Option<usize>)
    requires
        from <= to <= v.len(),
    ensures
        match r {
            Some(k) => spec_comment_start(v@.subrange(from as int, to as int)) == Some(k as int),
            None => spec_comment_start(v@.subrange(from as int, to as int)) is None,
        },
{
    let ghost s = v@.subrange(from as int, to as int);
    let mut in_string = false;
    let mut quote = '\0';
    let mut escaped = false;
    let mut i: usize = from;
    while i < to
        invariant
            from <= i <= to <= v.len(),
            s == v@.subrange(from as int, to as int),
            spec_comment_start(s) == comment_from(s, i - from, in_string, quote, escaped),
            !in_string ==> !escaped,
        decreases to - i,
    {
        let ch = v[i];
        assert(s[i - from] == ch);
        if in_string {
            if escaped {
                escaped = false;
            } else if ch == '\\' && quote == '"' {
                escaped = true;
            } else if ch == quote {
                in_string = false;
            }
        } else if ch == '"' || ch == '\'' {
            in_string = true;
            quote = ch;
        } else if ch == '#' {
            return Some(i - from);
        }
        i = i + 1;
    }
    None
}

/// The byte index of the first `#` outside a string literal in `input`.
pub fn line_comment_start(input: &str) -> (r: Option<usize>)
    requires
        byte_len(input@) <= usize::MAX,
    ensures
        match r {
            Some(k) => spec_comment_start(input@) matches Some(c) && k == byte_len(
                input@.take(c),
            ),
            None => spec_comment_start(input@) is None,
        },
{
    let v = to_chars(input);
    assert(v@.subrange(0, v@.len() as int) == v@);
    match comment_start_in(v.as_slice(), 0, v.len()) {
        Some(k) => {
            let offs = byte_offsets(v.as_slice());
            proof {
                if spec_comment_start(v@) matches Some(c) {
                    lemma_comment_from_bound(v@, 0, false, '\0', false);
                }
            }
            Some(offs[k])
        },
        None => None,
    }
}

pub proof fn lemma_comment_from_bound(s: Seq<char>, i: int, in_string: bool, quote: char, escaped: bool)
    ensures
        comment_from(s, i, in_string, quote, escaped) matches Some(k) ==> 0 <= k < s.len(),
    decreases s.len() - i,
{
    if 0 <= i < s.len() {
        lemma_comment_from_bound(s, i + 1, true, quote, false);
        lemma_comment_from_bound(s, i + 1, true, quote, true);
        lemma_comment_from_bound(s, i + 1, false, quote, false);
        lemma_comment_from_bound(s, i + 1, true, s[i], false);
    }
}

} // verus!

verus! {

/// `n` is the length of the run of key characters of `l` starting at `a`.
pub open spec fn is_key_run(l: Seq<char>, a: int, n: int) -> bool {
    &&& 0 <= a
    &&& 0 <= n
    &&& a + n <= l.len()
    &&& forall|j: int| a <= j < a + n ==> is_key_char(#[trigger] l[j])
    &&& (a + n == l.len() || !is_key_char(l[a + n]))
}

/// The length of the run of key characters of `l` starting at `a`.
pub open spec fn key_run(l: Seq<char>, a: int) -> int {
    choose|n: int| is_key_run(l, a, n)
}

pub proof fn lemma_key_run(l: Seq<char>, a: int, n: int)
    requires
        is_key_run(l, a, n),
    ensures
        key_run(l, a) == n,
{
    let c = choose|c: int| is_key_run(l, a, c);
    assert(is_key_run(l, a, c));
    if c < n {
        assert(is_key_char(l[a + c]));
    }
    if n < c {
        assert(is_key_char(l[a + n]));
    }
}

/// The entry on the line `s[ls..le]`, as character offsets into `s`:
/// `(key_start, key_end, value_start, value_end)`. A line holds an entry
/// when, after optional whitespace, a non-empty key of key characters is
/// followed by optional whitespace and `=`; the value runs from the first
/// non-whitespace character after `=` to a `#` comment outside strings (or
/// the end of the line), without trailing whitespace.
pub open spec fn spec_entry_for_line(s: Seq<char>, ls: int, le: int) -> Option<(int, int, int, int)> {
    let line = s.subrange(ls, le);
    let k0 = ws_prefix_len(line);
    if k0 >= line.len() {
        None
    } else {
        let n = key_run(line, k0);
        if n == 0 {
            None
        } else {
            let after = k0 + n;
            match first_index(line.skip(after), '=') {
                None => None,
                Some(j) => {
                    let eq = after + j;
                    if !(forall|m: int| after <= m < eq ==> is_ws(#[trigger] line[m])) {
                        None
                    } else {
                        let vs = eq + 1 + ws_prefix_len(line.skip(eq + 1));
                        let ve0 = match spec_comment_start(line.skip(vs)) {
                            Some(o) => vs + o,
                            None => line.len() as int,
                        };
                        let ve1 = ve0 - ws_suffix_len(line.take(ve0));
                        let ve = if ve1 > vs {
                            ve1
                        } else {
                            vs
                        };
                        Some((ls + k0, ls + after, ls + vs, ls + ve))
                    }
                },
            }
        }
    }
}

/// The end of the line that starts at `ls` (the next `\n` before `end`, or
/// `end`).
pub open spec fn line_end(s: Seq<char>, ls: int, end: int) -> int {
    match first_index(s.subrange(ls, end), '\n') {
        Some(j) => ls + j,
        None => end,
    }
}

/// A frontmatter entry as character offsets into the page and the table it
/// belongs to.
pub type EntryView = (int, int, int, int, Option<Seq<char>>);

/// The entries of the lines from `ls` up to `end`, where `table` is the
/// table in effect at `ls`. `[name]` lines switch the table; blank lines,
/// `#` comment lines and lines without an entry are skipped.
pub open spec fn fm_scan(s: Seq<char>, ls: int, end: int, table: Option<Seq<char>>) -> Seq<
    EntryView,
>
    decreases end + 1 - ls,
{
    if ls >= end || ls < 0 || end > s.len() {
        Seq::empty()
    } else {
        let le = line_end(s, ls, end);
        let tr = trim(s.subrange(ls, le));
        if le < ls || le > end {
            Seq::empty()
        } else {
            match spec_table_name(tr) {
                Some(t) => fm_scan(s, le + 1, end, Some(t)),
                None => {
                    let rest = fm_scan(s, le + 1, end, table);
                    if tr.len() > 0 && tr[0] != '#' {
                        match spec_entry_for_line(s, ls, le) {
                            Some(e) => seq![(e.0, e.1, e.2, e.3, table)] + rest,
                            None => rest,
                        }
                    } else {
                        rest
                    }
                },
            }
        }
    }
}

/// All entries of the frontmatter of `s` (none without frontmatter).
pub open spec fn spec_frontmatter_entries(s: Seq<char>) -> Seq<EntryView> {
    match spec_fm_block(s) {
        Some((a, b)) => fm_scan(s, a, b, None),
        None => Seq::empty(),
    }
}

/// One `key = value` entry of the frontmatter, with byte offsets into the
/// page.
#[derive(Debug)]
pub struct FrontmatterEntry {
    pub key: String,
    pub key_start: usize,
    pub key_end: usize,
    pub value: String,
    pub value_start: usize,
    pub value_end: usize,
    pub table: Option<String>,
}

impl FrontmatterEntry {
    /// This entry is the entry `v` of the page `s`.
    pub open spec fn is_view_of(&self, s: Seq<char>, v: EntryView) -> bool {
        &&& 0 <= v.0 <= v.1 <= s.len()
        &&& 0 <= v.2 <= v.3 <= s.len()
        &&& self.key@ == s.subrange(v.0, v.1)
        &&& self.key_start == byte_len(s.take(v.0))
        &&& self.key_end == byte_len(s.take(v.1))
        &&& self.value@ == s.subrange(v.2, v.3)
        &&& self.value_start == byte_len(s.take(v.2))
        &&& self.value_end == byte_len(s.take(v.3))
        &&& match (self.table, v.4) {
            (Some(t), Some(u)) => t@ == u,
            (None, None) => true,
            _ => false,
        }
    }
}

fn key_run_exec(v: &[char], from: usize, to: usize, a: usize) -> (n: usize)
    requires
        from <= to <= v.len(),
        a <= to - from,
    ensures
        n == key_run(v@.subrange(from as int, to as int), a as int),
        a + n <= to - from,
{
    let ghost l = v@.subrange(from as int, to as int);
    let mut i: usize = from + a;
    while i < to && is_frontmatter_key_char(v[i])
        invariant
            from + a <= i <= to <= v.len(),
            l == v@.subrange(from as int, to as int),
            forall|j: int| a <= j < i - from ==> is_key_char(#[trigger] l[j]),
        decreases to - i,
    {
        i = i + 1;
    }
    proof {
        lemma_key_run(l, a as int, i - from - a);
    }
    i - from - a
}

/// The entry of the line `v[ls..le]` (character offsets into `v`).
fn frontmatter_entry_for_line(v: &[char], ls: usize, le: usize) -> (r: Option<
    (usize, usize, usize, usize),
>)
    requires
        ls <= le <= v.len(),
    ensures
        match r {
            Some(e) => spec_entry_for_line(v@, ls as int, le as int) == Some(
                (e.0 as int, e.1 as int, e.2 as int, e.3 as int),
            ) && ls <= e.0 <= e.1 <= le && ls <= e.2 <= e.3 <= le,
            None => spec_entry_for_line(v@, ls as int, le as int) is None,
        },
{
    let ghost line = v@.subrange(ls as int, le as int);
    let k0 = ws_prefix_len_exec(v, ls, le);
    if k0 >= le - ls {
        return None;
    }
    let n = key_run_exec(v, ls, le, k0);
    if n == 0 {
        return None;
    }
    let after = k0 + n;
    let ghost tail = line.skip(after as int);
    let eq_abs = match find_char_from(v, '=', ls + after) {
        Some(i) if i < le => i,
        _ => {
            proof {
                assert forall|j: int| 0 <= j < tail.len() implies tail[j] != '=' by {
                    assert(tail[j] == v@[ls + after + j]);
                }
                crate::text::lemma_no_first_index(tail, '=');
            }
            return None;
        },
    };
    let eq = eq_abs - ls;
    proof {
        assert(crate::text::is_first_char_in(tail, '=', eq - after)) by {
            assert forall|j: int| 0 <= j < eq - after implies tail[j] != '=' by {
                assert(tail[j] == v@[ls + after + j]);
            }
        }
        crate::text::lemma_first_index(tail, '=', eq - after);
    }
    let mut m: usize = after;
    while m < eq
        invariant
            after <= m <= eq,
            eq < le - ls,
            ls <= le <= v.len(),
            line == v@.subrange(ls as int, le as int),
            forall|k: int| after <= k < m ==> is_ws(#[trigger] line[k]),
            k0 == ws_prefix_len(line),
            k0 < line.len(),
            n == key_run(line, k0 as int),
            n > 0,
            after == k0 + n,
            first_index(line.skip(after as int), '=') == Some(eq - after),
        decreases eq - m,
    {
        if !is_ws_exec(v[ls + m]) {
            assert(!is_ws(line[m as int]));
            return None;
        }
        m = m + 1;
    }
    let lead = ws_prefix_len_exec(v, ls + eq + 1, le);
    assert(v@.subrange(ls + eq + 1, le as int) == line.skip(eq + 1));
    let vs = eq + 1 + lead;
    let ve0 = match comment_start_in(v, ls + vs, le) {
        Some(o) => {
            proof {
                lemma_comment_from_bound(v@.subrange(ls + vs, le as int), 0, false, '\0', false);
            }
            vs + o
        },
        None => le - ls,
    };
    assert(v@.subrange(ls + vs, le as int) == line.skip(vs as int));
    let trail = ws_suffix_len_exec(v, ls, ls + ve0);
    assert(v@.subrange(ls as int, ls + ve0) == line.take(ve0 as int));
    let ve1 = ve0 - trail;
    let ve = if ve1 > vs {
        ve1
    } else {
        vs
    };
    Some((ls + k0, ls + after, ls + vs, ls + ve))
}

} // verus!

verus! {

fn line_end_exec(v: &[char], ls: usize, end: usize) -> (le: usize)
    requires
        ls <= end <= v.len(),
    ensures
        le == line_end(v@, ls as int, end as int),
        ls <= le <= end,
{
    let ghost sub = v@.subrange(ls as int, end as int);
    match find_char_from(v, '\n', ls) {
        Some(i) if i < end => {
            proof {
                assert(crate::text::is_first_char_in(sub, '\n', i - ls)) by {
                    assert forall|j: int| 0 <= j < i - ls implies sub[j] != '\n' by {
                        assert(sub[j] == v@[ls + j]);
                    }
                }
                crate::text::lemma_first_index(sub, '\n', i - ls);
            }
            i
        },
        _ => {
            proof {
                assert forall|j: int| 0 <= j < sub.len() implies sub[j] != '\n' by {
                    assert(sub[j] == v@[ls + j]);
                }
                crate::text::lemma_no_first_index(sub, '\n');
            }
            end
        },
    }
}

/// The view of an optional table name.
pub open spec fn opt_view(o: Option<Vec<char>>) -> Option<Seq<char>> {
    match o {
        Some(t) => Some(t@),
        None => None,
    }
}

fn opt_string(o: &Option<Vec<char>>) -> (r: Option<String>)
    ensures
        match (r, opt_view(*o)) {
            (Some(t), Some(u)) => t@ == u,
            (None, None) => true,
            _ => false,
        },
{
    match o {
        Some(t) => Some(from_chars(t.as_slice())),
        None => None,
    }
}

/// The entries of the frontmatter of the page `v` (as characters), with
/// byte offsets taken from `offs`.
fn entries_of_chars(v: &[char], offs: &Vec<usize>) -> (r: Vec<FrontmatterEntry>)
    requires
        offs.len() == v.len() + 1,
        forall|i: int| 0 <= i <= v.len() ==> #[trigger] offs@[i] == byte_len(v@.take(i)),
    ensures
        r.len() == spec_frontmatter_entries(v@).len(),
        forall|i: int|
            0 <= i < r.len() ==> #[trigger] r@[i].is_view_of(v@, spec_frontmatter_entries(v@)[i]),
{
    let mut out: Vec<FrontmatterEntry> = Vec::new();
    let (a, b) = match fm_block_chars(v) {
        Some(ab) => ab,
        None => {
            return out;
        },
    };
    let ghost all = spec_frontmatter_entries(v@);
    let ghost mut done: Seq<EntryView> = Seq::empty();
    let mut table: Option<Vec<char>> = None;
    let mut ls: usize = a;
    while ls < b
        invariant
            a <= ls <= b <= v.len(),
            offs.len() == v.len() + 1,
            forall|i: int| 0 <= i <= v.len() ==> #[trigger] offs@[i] == byte_len(v@.take(i)),
            all == done + fm_scan(v@, ls as int, b as int, opt_view(table)),
            out.len() == done.len(),
            forall|i: int| 0 <= i < out.len() ==> #[trigger] out@[i].is_view_of(v@, done[i]),
        decreases b - ls,
    {
        let le = line_end_exec(v, ls, b);
        let (ta, tb) = trim_bounds(v, ls, le);
        let ghost rest_table = fm_scan(v@, le + 1, b as int, opt_view(table));
        let ghost cur_table = opt_view(table);
        let ghost tr = trim(v@.subrange(ls as int, le as int));
        assert(tr == v@.subrange(ta as int, tb as int));
        match table_name_in(v, ta, tb) {
            Some(t) => {
                assert(spec_table_name(tr) == Some(t@));
                assert(fm_scan(v@, ls as int, b as int, cur_table) == fm_scan(
                    v@,
                    le + 1,
                    b as int,
                    Some(t@),
                ));
                table = Some(t);
            },
            None => {
                if tb > ta && v[ta] != '#' {
                    match frontmatter_entry_for_line(v, ls, le) {
                        Some((ks, ke, vs, ve)) => {
                            let ghost ev: EntryView = (
                                ks as int,
                                ke as int,
                                vs as int,
                                ve as int,
                                opt_view(table),
                            );
                            let e = FrontmatterEntry {
                                key: from_chars(sub_chars(v, ks, ke).as_slice()),
                                key_start: offs[ks],
                                key_end: offs[ke],
                                value: from_chars(sub_chars(v, vs, ve).as_slice()),
                                value_start: offs[vs],
                                value_end: offs[ve],
                                table: opt_string(&table),
                            };
                            out.push(e);
                            proof {
                                assert(out@[out.len() - 1].is_view_of(v@, ev));
                                assert(seq![ev] + rest_table == fm_scan(
                                    v@,
                                    ls as int,
                                    b as int,
                                    opt_view(table),
                                ));
                                assert(done + seq![ev] + rest_table == done + (seq![ev]
                                    + rest_table));
                                done = done.push(ev);
                                assert(done == done.drop_last() + seq![ev]);
                            }
                        },
                        None => {
                            assert(fm_scan(v@, ls as int, b as int, cur_table) == rest_table);
                        },
                    }
                } else {
                    assert(tb > ta ==> tr[0] == v@[ta as int]);
                    assert(fm_scan(v@, ls as int, b as int, cur_table) == rest_table);
                }
            },
        }
        let ghost next_table = opt_view(table);
        if le >= b {
            assert(fm_scan(v@, le + 1, b as int, next_table) == Seq::<EntryView>::empty());
            ls = b;
            assert(fm_scan(v@, ls as int, b as int, next_table) == Seq::<EntryView>::empty());
        } else {
            ls = le + 1;
        }
    }
    assert(done + fm_scan(v@, ls as int, b as int, opt_view(table)) == done);
    out
}

/// The `key = value` entries of the frontmatter of `content`, in order,
/// with the table (`[name]` section) each belongs to.
pub fn frontmatter_entries(content: &str) -> (r: Vec<FrontmatterEntry>)
    requires
        byte_len(content@) <= usize::MAX,
    ensures
        r.len() == spec_frontmatter_entries(content@).len(),
        forall|i: int|
            0 <= i < r.len() ==> #[trigger] r@[i].is_view_of(
                content@,
                spec_frontmatter_entries(content@)[i],
            ),
{
    let v = to_chars(content);
    let offs = byte_offsets(v.as_slice());
    entries_of_chars(v.as_slice(), &offs)
}

} // verus!

verus! {

// ---------------------------------------------------------------------------
// The schema
// ---------------------------------------------------------------------------

/// The kind of value a frontmatter field takes.
#[derive(Clone, Copy, Debug, PartialEq, Eq, Structural)]
pub enum FrontmatterFieldKind {
    String,
    Integer,
    Table,
}

/// How a field kind is described in messages.
pub open spec fn spec_kind_description(kind: FrontmatterFieldKind) -> Seq<char> {
    match kind {
        FrontmatterFieldKind::String => "a string"@,
        FrontmatterFieldKind::Integer => "an integer"@,
        FrontmatterFieldKind::Table => "a table"@,
    }
}

impl FrontmatterFieldKind {
    /// How this kind is described in messages ("a string", ...).
    pub fn description(self) -> (r: &'static str)
        ensures
            r@ == spec_kind_description(self),
    {
        match self {
            FrontmatterFieldKind::String => "a string",
            FrontmatterFieldKind::Integer => "an integer",
            FrontmatterFieldKind::Table => "a table",
        }
    }
}

/// A field of the page frontmatter schema.
#[derive(Clone, Copy, Debug)]
pub struct FrontmatterFieldSpec {
    pub name: &'static str,
    pub kind: FrontmatterFieldKind,
}

/// The page frontmatter schema, in declaration order: the string fields
/// `title`, `description`, `template`, `asset`, `data`, the integer field
/// `weight`, and the `extra` table for custom fields.
pub open spec fn schema() -> Seq<(Seq<char>, FrontmatterFieldKind)> {
    seq![
        ("title"@, FrontmatterFieldKind::String),
        ("weight"@, FrontmatterFieldKind::Integer),
        ("description"@, FrontmatterFieldKind::String),
        ("template"@, FrontmatterFieldKind::String),
        ("asset"@, FrontmatterFieldKind::String),
        ("data"@, FrontmatterFieldKind::String),
        ("extra"@, FrontmatterFieldKind::Table),
    ]
}

/// The fields of the page frontmatter schema.
pub fn frontmatter_field_specs() -> (r: Vec<FrontmatterFieldSpec>)
    ensures
        r.len() == schema().len(),
        forall|i: int|
            0 <= i < r.len() ==> (#[trigger] r@[i]).name@ == schema()[i].0 && r@[i].kind
                == schema()[i].1,
{
    let r = vec![
        FrontmatterFieldSpec { name: "title", kind: FrontmatterFieldKind::String },
        FrontmatterFieldSpec { name: "weight", kind: FrontmatterFieldKind::Integer },
        FrontmatterFieldSpec { name: "description", kind: FrontmatterFieldKind::String },
        FrontmatterFieldSpec { name: "template", kind: FrontmatterFieldKind::String },
        FrontmatterFieldSpec { name: "asset", kind: FrontmatterFieldKind::String },
        FrontmatterFieldSpec { name: "data", kind: FrontmatterFieldKind::String },
        FrontmatterFieldSpec { name: "extra", kind: FrontmatterFieldKind::Table },
    ];
    r
}

/// The kind of the first field of `fields` named `key`, if any.
pub open spec fn lookup_kind(fields: Seq<(Seq<char>, FrontmatterFieldKind)>, key: Seq<char>) -> Option<
    FrontmatterFieldKind,
>
    decreases fields.len(),
{
    if fields.len() == 0 {
        None
    } else if fields[0].0 == key {
        Some(fields[0].1)
    } else {
        lookup_kind(fields.drop_first(), key)
    }
}

/// The kind of the schema field named `key`, if there is one.
pub open spec fn known_kind(key: Seq<char>) -> Option<FrontmatterFieldKind> {
    lookup_kind(schema(), key)
}

fn known_kind_exec(specs: &Vec<FrontmatterFieldSpec>, key: &[char]) -> (r: Option<
    FrontmatterFieldKind,
>)
    requires
        specs.len() == schema().len(),
        forall|i: int|
            0 <= i < specs.len() ==> (#[trigger] specs@[i]).name@ == schema()[i].0 && specs@[i].kind
                == schema()[i].1,
    ensures
        r == known_kind(key@),
{
    let mut i: usize = 0;
    assert(schema().skip(0) == schema());
    while i < specs.len()
        invariant
            i <= specs.len(),
            specs.len() == schema().len(),
            forall|j: int|
                0 <= j < specs.len() ==> (#[trigger] specs@[j]).name@ == schema()[j].0
                    && specs@[j].kind == schema()[j].1,
            known_kind(key@) == lookup_kind(schema().skip(i as int), key@),
        decreases specs.len() - i,
    {
        let name = to_chars(specs[i].name);
        assert(schema().skip(i as int)[0] == schema()[i as int]);
        assert(schema().skip(i as int).drop_first() == schema().skip(i + 1));
        if crate::text::chars_eq(name.as_slice(), key) {
            return Some(specs[i].kind);
        }
        i = i + 1;
    }
    None
}

// ---------------------------------------------------------------------------
// Value checks
// ---------------------------------------------------------------------------

/// ASCII decimal digit.
pub open spec fn is_digit(c: char) -> bool {
    '0' as u32 <= c as u32 && c as u32 <= '9' as u32
}

/// A TOML decimal integer body: digits with single `_` separators between
/// digits.
pub open spec fn is_integer_body(b: Seq<char>) -> bool {
    &&& b.len() > 0
    &&& forall|i: int| 0 <= i < b.len() ==> is_digit(#[trigger] b[i]) || b[i] == '_'
    &&& is_digit(b[0])
    &&& is_digit(b.last())
    &&& forall|i: int| 0 <= i < b.len() - 1 ==> !(#[trigger] b[i] == '_' && b[i + 1] == '_')
}

/// A decimal integer with an optional sign.
pub open spec fn spec_value_is_integer(v: Seq<char>) -> bool {
    if v.len() > 0 && (v[0] == '+' || v[0] == '-') {
        is_integer_body(v.drop_first())
    } else {
        is_integer_body(v)
    }
}

fn is_integer_body_exec(v: &[char], from: usize) -> (r: bool)
    requires
        from <= v.len(),
    ensures
        r == is_integer_body(v@.skip(from as int)),
{
    let ghost b = v@.skip(from as int);
    let mut previous_underscore = false;
    let mut saw_digit = false;
    let mut i: usize = from;
    while i < v.len()
        invariant
            from <= i <= v.len(),
            b == v@.skip(from as int),
            saw_digit == (i > from),
            i > from ==> is_digit(b[0]),
            forall|k: int| 0 <= k < i - from ==> is_digit(#[trigger] b[k]) || b[k] == '_',
            forall|k: int| 0 <= k < i - from - 1 ==> !(#[trigger] b[k] == '_' && b[k + 1] == '_'),
            i > from ==> previous_underscore == (b[i - from - 1] == '_'),
        decreases v.len() - i,
    {
        let ch = v[i];
        assert(b[i - from] == ch);
        let is_d = (ch as u32) >= 48 && (ch as u32) <= 57;
        assert(is_d == is_digit(ch));
        if ch == '_' && saw_digit && !previous_underscore {
            previous_underscore = true;
        } else if is_d {
            saw_digit = true;
            previous_underscore = false;
        } else {
            proof {
                if ch == '_' {
                    if !saw_digit {
                        assert(b[0] == '_');
                    } else {
                        assert(b[i - from - 1] == '_' && b[i - from] == '_');
                    }
                } else {
                    assert(!(is_digit(b[i - from]) || b[i - from] == '_'));
                }
            }
            return false;
        }
        i = i + 1;
    }
    proof {
        if saw_digit && !previous_underscore {
            assert(b.len() == v.len() - from);
            assert(is_digit(b[b.len() - 1]) || b[b.len() - 1] == '_');
        }
    }
    saw_digit && !previous_underscore
}

/// Whether a (trimmed) frontmatter value is a TOML decimal integer.
pub fn frontmatter_value_is_integer(value: &str) -> (r: bool)
    ensures
        r == spec_value_is_integer(value@),
{
    let v = to_chars(value);
    if v.len() > 0 && (v[0] == '+' || v[0] == '-') {
        assert(v@.skip(1) == v@.drop_first());
        is_integer_body_exec(v.as_slice(), 1)
    } else {
        assert(v@.skip(0) == v@);
        is_integer_body_exec(v.as_slice(), 0)
    }
}

/// Whether a value has the syntax of the field kind: strings start with a
/// quote, integers are decimal integers, tables accept anything.
pub open spec fn spec_value_matches_kind(value: Seq<char>, kind: FrontmatterFieldKind) -> bool {
    let v = trim(value);
    match kind {
        FrontmatterFieldKind::String => v.len() > 0 && (v[0] == '"' || v[0] == '\''),
        FrontmatterFieldKind::Integer => spec_value_is_integer(v),
        FrontmatterFieldKind::Table => true,
    }
}

/// A value whose first character after leading whitespace is a quote (a
/// basic string `"..."` or a literal string `'...'`) matches the string kind.
pub proof fn law_quoted_value_matches_string_kind(value: Seq<char>, k: int)
    requires
        0 <= k < value.len(),
        forall|j: int| 0 <= j < k ==> is_ws(#[trigger] value[j]),
        value[k] == '"' || value[k] == '\'',
    ensures
        spec_value_matches_kind(value, FrontmatterFieldKind::String),
{
    assert(!is_ws(value[k]));
    crate::text::lemma_ws_prefix_len(value, k);
    let t = value.skip(k);
    assert(t[0] == value[k]);
    let m = crate::text::lemma_ws_suffix_len_exists(t);
    crate::text::lemma_ws_suffix_len(t, m);
    if m == t.len() {
        assert(is_ws(t[0]));
    }
    assert(trim(value) == t.take(t.len() - m));
    assert(trim(value)[0] == value[k]);
}

/// A value that is, after leading whitespace, an optional `+` or `-` and
/// then one or more ASCII digits matches the integer kind, and does not
/// match the string kind.
pub proof fn law_decimal_value_matches_integer_kind(value: Seq<char>, k: int, sign: bool)
    requires
        0 <= k,
        k + (if sign { 1int } else { 0int }) < value.len(),
        forall|j: int| 0 <= j < k ==> is_ws(#[trigger] value[j]),
        sign ==> value[k] == '+' || value[k] == '-',
        forall|j: int|
            k + (if sign { 1int } else { 0int }) <= j < value.len() ==> '0' <= #[trigger] value[j]
                && value[j] <= '9',
    ensures
        spec_value_matches_kind(value, FrontmatterFieldKind::Integer),
        !spec_value_matches_kind(value, FrontmatterFieldKind::String),
{
    let d = if sign { 1int } else { 0int };
    assert(is_digit(value[k + d]));
    assert(!is_ws(value[k]));
    crate::text::lemma_ws_prefix_len(value, k);
    let t = value.skip(k);
    assert(is_digit(t.last()));
    assert(!is_ws(t.last()));
    crate::text::lemma_ws_suffix_len(t, 0);
    assert(trim(value) =~= t);
    if sign {
        assert(t.drop_first() =~= value.skip(k + 1));
        assert(is_integer_body(t.drop_first()));
    } else {
        assert(is_integer_body(t));
    }
}

/// Whether a frontmatter value fits the field kind.
pub fn frontmatter_value_matches_kind(value: &str, kind: FrontmatterFieldKind) -> (r: bool)
    ensures
        r == spec_value_matches_kind(value@, kind),
{
    let raw = to_chars(value);
    let v = crate::text::trim_chars(raw.as_slice());
    match kind {
        FrontmatterFieldKind::String => v.len() > 0 && (v[0] == '"' || v[0] == '\''),
        FrontmatterFieldKind::Integer => {
            let s = from_chars(v.as_slice());
            frontmatter_value_is_integer(s.as_str())
        },
        FrontmatterFieldKind::Table => true,
    }
}

} // verus!

verus! {

// ---------------------------------------------------------------------------
// Checking frontmatter against the schema
// ---------------------------------------------------------------------------

/// A frontmatter finding: message, the key it concerns, and the character
/// span of the page it points at.
pub type FindingView = (Seq<char>, Seq<char>, int, int);

/// Message for a key that is not in the schema.
pub open spec fn unknown_field_message(key: Seq<char>) -> Seq<char> {
    "unknown Dodeca frontmatter field '"@ + key + "'"@
}

/// Message for a key given twice.
pub open spec fn duplicate_field_message(key: Seq<char>) -> Seq<char> {
    "duplicate Dodeca frontmatter field '"@ + key + "'"@
}

/// Message for a table field written as a plain key.
pub open spec fn table_field_message() -> Seq<char> {
    "frontmatter custom fields belong under an [extra] table"@
}

/// Message for a value of the wrong kind.
pub open spec fn kind_mismatch_message(key: Seq<char>, kind: FrontmatterFieldKind) -> Seq<char> {
    "frontmatter field '"@ + key + "' expects "@ + spec_kind_description(kind)
}

/// The findings for the top-level (table-less) entries of the page `s`,
/// where `seen` holds the schema keys already given: unknown keys, repeated
/// keys, the `extra` table written as a key, and values of the wrong kind.
/// Entries inside a table are not checked.
pub open spec fn fm_findings(s: Seq<char>, entries: Seq<EntryView>, seen: Set<Seq<char>>) -> Seq<
    FindingView,
>
    decreases entries.len(),
{
    if entries.len() == 0 {
        Seq::empty()
    } else {
        let e = entries[0];
        let rest = entries.drop_first();
        if e.4 is Some {
            fm_findings(s, rest, seen)
        } else {
            let key = s.subrange(e.0, e.1);
            match known_kind(key) {
                None => seq![(unknown_field_message(key), key, e.0, e.1)] + fm_findings(
                    s,
                    rest,
                    seen,
                ),
                Some(kind) => {
                    let dup: Seq<FindingView> = if seen.contains(key) {
                        seq![(duplicate_field_message(key), key, e.0, e.1)]
                    } else {
                        Seq::empty()
                    };
                    let check: Seq<FindingView> = if kind == FrontmatterFieldKind::Table {
                        seq![(table_field_message(), key, e.0, e.1)]
                    } else if !spec_value_matches_kind(s.subrange(e.2, e.3), kind) {
                        seq![(kind_mismatch_message(key, kind), key, e.2, e.3)]
                    } else {
                        Seq::empty()
                    };
                    dup + check + fm_findings(s, rest, seen.insert(key))
                },
            }
        }
    }
}

/// All frontmatter findings of the page `s`.
pub open spec fn spec_frontmatter_findings(s: Seq<char>) -> Seq<FindingView> {
    fm_findings(s, spec_frontmatter_entries(s), Set::empty())
}

/// The top-level (table-less) entries of `es`, in order.
pub open spec fn top_level_entries(es: Seq<EntryView>) -> Seq<EntryView>
    decreases es.len(),
{
    if es.len() == 0 {
        Seq::empty()
    } else if es[0].4 is Some {
        top_level_entries(es.drop_first())
    } else {
        seq![es[0]] + top_level_entries(es.drop_first())
    }
}

/// Keys under a `[table]` header never produce frontmatter findings: the
/// findings of any entries are those of their top-level entries alone.
pub proof fn law_table_entries_add_no_findings(s: Seq<char>, es: Seq<EntryView>, seen: Set<Seq<char>>)
    ensures
        fm_findings(s, es, seen) == fm_findings(s, top_level_entries(es), seen),
    decreases es.len(),
{
    if es.len() > 0 {
        let rest = es.drop_first();
        let e = es[0];
        law_table_entries_add_no_findings(s, rest, seen);
        if e.4 is None {
            let key = s.subrange(e.0, e.1);
            law_table_entries_add_no_findings(s, rest, seen.insert(key));
            let tl = top_level_entries(es);
            assert(tl == seq![e] + top_level_entries(rest));
            assert(tl[0] == e);
            assert(tl.drop_first() =~= top_level_entries(rest));
        }
    }
}

/// The findings of a page are those of its top-level entries: nothing
/// written under a `[table]` header adds to them.
pub proof fn law_page_findings_come_from_top_level_entries(s: Seq<char>)
    ensures
        spec_frontmatter_findings(s) == fm_findings(s, top_level_entries(spec_frontmatter_entries(s)), Set::empty()),
{
    law_table_entries_add_no_findings(s, spec_frontmatter_entries(s), Set::empty());
}

/// The diagnostic `d` reports the finding `f` on page `source_file` at
/// `route`, whose content is `s`.
pub open spec fn reports_finding(
    d: crate::diagnostics::AuthoringDiagnostic,
    source_file: Seq<char>,
    route: Seq<char>,
    s: Seq<char>,
    f: FindingView,
) -> bool {
    &&& d.source_file@ == source_file
    &&& d.route@ == route
    &&& d.kind == crate::diagnostics::AuthoringDiagnosticKind::Frontmatter
    &&& d.target@ == f.1
    &&& d.resolved_route is None
    &&& d.message@ == f.0
    &&& d.byte_start == byte_len(s.take(f.2))
    &&& d.byte_end == byte_len(s.take(f.3))
    &&& d.located_in(s)
}

fn literal_then(prefix: &str, middle: &str, suffix: &str) -> (r: String)
    ensures
        r@ == prefix@ + middle@ + suffix@,
{
    let mut r = String::from_str(prefix);
    r.append(middle);
    r.append(suffix);
    r
}

fn seen_contains(seen: &Vec<Vec<char>>, key: &[char]) -> (r: bool)
    ensures
        r == crate::text::views(seen@).contains(key@),
{
    let mut i: usize = 0;
    while i < seen.len()
        invariant
            i <= seen.len(),
            forall|j: int| 0 <= j < i ==> seen@[j]@ != key@,
        decreases seen.len() - i,
    {
        if crate::text::chars_eq(seen[i].as_slice(), key) {
            assert(crate::text::views(seen@)[i as int] == key@);
            return true;
        }
        i = i + 1;
    }
    assert forall|j: int| 0 <= j < crate::text::views(seen@).len() implies crate::text::views(
        seen@,
    )[j] != key@ by {
        assert(crate::text::views(seen@)[j] == seen@[j]@);
    }
    false
}

/// The frontmatter diagnostics of a page: every key that is not in the
/// schema, every schema key given more than once, the `extra` table written
/// as a plain key, and every value whose syntax does not fit its field's
/// kind. Entries inside tables (such as `[extra]`) are not checked.
pub fn frontmatter_diagnostics_for_source(source_file: &str, route: &str, content: &str) -> (r: Vec<
    crate::diagnostics::AuthoringDiagnostic,
>)
    requires
        content@.len() < u32::MAX,
        byte_len(content@) <= usize::MAX,
    ensures
        r.len() == spec_frontmatter_findings(content@).len(),
        forall|i: int|
            0 <= i < r.len() ==> reports_finding(
                #[trigger] r@[i],
                source_file@,
                route@,
                content@,
                spec_frontmatter_findings(content@)[i],
            ),
{
    let entries = frontmatter_entries(content);
    let specs = frontmatter_field_specs();
    let ghost s = content@;
    let ghost ev = spec_frontmatter_entries(s);
    let mut seen: Vec<Vec<char>> = Vec::new();
    let mut out: Vec<crate::diagnostics::AuthoringDiagnostic> = Vec::new();
    let ghost mut done: Seq<FindingView> = Seq::empty();
    let mut i: usize = 0;
    assert(ev.skip(0) == ev);
    assert(crate::text::views(seen@).to_set() =~= Set::<Seq<char>>::empty());
    while i < entries.len()
        invariant
            i <= entries.len(),
            s == content@,
            content@.len() < u32::MAX,
            entries.len() == ev.len(),
            ev == spec_frontmatter_entries(s),
            forall|k: int| 0 <= k < entries.len() ==> #[trigger] entries@[k].is_view_of(s, ev[k]),
            specs.len() == schema().len(),
            forall|k: int|
                0 <= k < specs.len() ==> (#[trigger] specs@[k]).name@ == schema()[k].0
                    && specs@[k].kind == schema()[k].1,
            spec_frontmatter_findings(s) == done + fm_findings(
                s,
                ev.skip(i as int),
                crate::text::views(seen@).to_set(),
            ),
            out.len() == done.len(),
            forall|k: int|
                0 <= k < out.len() ==> reports_finding(
                    #[trigger] out@[k],
                    source_file@,
                    route@,
                    s,
                    done[k],
                ),
        decreases entries.len() - i,
    {
        let e = &entries[i];
        let ghost evi = ev[i as int];
        assert(entries@[i as int].is_view_of(s, evi));
        let ghost seen_before = seen@;
        let ghost seen_set = crate::text::views(seen@).to_set();
        let ghost rest = fm_findings(s, ev.skip(i + 1), seen_set);
        assert(ev.skip(i as int)[0] == evi);
        assert(ev.skip(i as int).drop_first() == ev.skip(i + 1));
        if e.table.is_some() {
            assert(fm_findings(s, ev.skip(i as int), seen_set) == rest);
        } else {
            let key = to_chars(e.key.as_str());
            assert(key@ == s.subrange(evi.0, evi.1));
            match known_kind_exec(&specs, key.as_slice()) {
                None => {
                    let msg = literal_then(
                        "unknown Dodeca frontmatter field '",
                        e.key.as_str(),
                        "'",
                    );
                    let d = crate::diagnostics::frontmatter_diagnostic(
                        source_file,
                        route,
                        content,
                        e.key.as_str(),
                        msg,
                        e.key_start,
                        e.key_end,
                    );
                    out.push(d);
                    proof {
                        let f: FindingView = (unknown_field_message(key@), key@, evi.0, evi.1);
                        assert(reports_finding(out@[out.len() - 1], source_file@, route@, s, f));
                        assert(fm_findings(s, ev.skip(i as int), seen_set) == seq![f] + rest);
                        done = done.push(f);
                        assert(done.drop_last() + (seq![f] + rest) == done + rest);
                    }
                },
                Some(kind) => {
                    let dup = seen_contains(&seen, key.as_slice());
                    let ghost d0 = done;
                    if dup {
                        let msg = literal_then(
                            "duplicate Dodeca frontmatter field '",
                            e.key.as_str(),
                            "'",
                        );
                        let d = crate::diagnostics::frontmatter_diagnostic(
                            source_file,
                            route,
                            content,
                            e.key.as_str(),
                            msg,
                            e.key_start,
                            e.key_end,
                        );
                        out.push(d);
                        proof {
                            let f: FindingView = (duplicate_field_message(key@), key@, evi.0, evi.1);
                            assert(reports_finding(out@[out.len() - 1], source_file@, route@, s, f));
                            done = done.push(f);
                        }
                    }
                    let ghost d1 = done;
                    if kind == FrontmatterFieldKind::Table {
                        let msg = String::from_str(
                            "frontmatter custom fields belong under an [extra] table",
                        );
                        let d = crate::diagnostics::frontmatter_diagnostic(
                            source_file,
                            route,
                            content,
                            e.key.as_str(),
                            msg,
                            e.key_start,
                            e.key_end,
                        );
                        out.push(d);
                        proof {
                            let f: FindingView = (table_field_message(), key@, evi.0, evi.1);
                            assert(reports_finding(out@[out.len() - 1], source_file@, route@, s, f));
                            done = done.push(f);
                        }
                    } else if !frontmatter_value_matches_kind(e.value.as_str(), kind) {
                        let mut msg = literal_then("frontmatter field '", e.key.as_str(), "' expects ");
                        msg.append(kind.description());
                        let d = crate::diagnostics::frontmatter_diagnostic(
                            source_file,
                            route,
                            content,
                            e.key.as_str(),
                            msg,
                            e.value_start,
                            e.value_end,
                        );
                        out.push(d);
                        proof {
                            let f: FindingView = (kind_mismatch_message(key@, kind), key@, evi.2, evi.3);
                            assert(reports_finding(out@[out.len() - 1], source_file@, route@, s, f));
                            done = done.push(f);
                        }
                    }
                    if !dup {
                        seen.push(key);
                    }
                    proof {
                        let new_set = crate::text::views(seen@).to_set();
                        assert(new_set =~= seen_set.insert(key@)) by {
                            if !dup {
                                let old_v = crate::text::views(seen_before);
                                assert(seen@ == seen_before.push(key));
                                assert(crate::text::views(seen@) == old_v.push(key@));
                                assert forall|x: Seq<char>| #[trigger] new_set.contains(x) <==> (
                                seen_set.contains(x) || x == key@) by {
                                    if new_set.contains(x) {
                                        let j = choose|j: int|
                                            0 <= j < old_v.push(key@).len() && old_v.push(
                                                key@,
                                            )[j] == x;
                                        if j < old_v.len() {
                                            assert(old_v[j] == x);
                                        }
                                    }
                                    if seen_set.contains(x) {
                                        let j = choose|j: int|
                                            0 <= j < old_v.len() && old_v[j] == x;
                                        assert(old_v.push(key@)[j] == x);
                                    }
                                    if x == key@ {
                                        assert(old_v.push(key@)[old_v.len() as int] == x);
                                    }
                                }
                            } else {
                                assert(seen_set.contains(key@));
                            }
                        }
                        let dup_part = d1.skip(d0.len() as int);
                        let check_part = done.skip(d1.len() as int);
                        assert(done == d0 + dup_part + check_part);
                        assert(fm_findings(s, ev.skip(i as int), seen_set) == dup_part
                            + check_part + fm_findings(s, ev.skip(i + 1), new_set));
                    }
                },
            }
        }
        i = i + 1;
    }
    out
}

} // verus!

verus! {

// ---------------------------------------------------------------------------
// Writing frontmatter
// ---------------------------------------------------------------------------

/// Unicode control characters (general category `Cc`).
pub open spec fn is_control(c: char) -> bool {
    (c as u32) <= 0x1F || (0x7F <= (c as u32) && (c as u32) <= 0x9F)
}

/// How one character is written inside a TOML basic string.
pub open spec fn escape_char(c: char) -> Seq<char> {
    if c == '"' {
        seq!['\\', '"']
    } else if c == '\\' {
        seq!['\\', '\\']
    } else if c == '\n' {
        seq!['\\', 'n']
    } else if c == '\r' {
        seq!['\\', 'r']
    } else if c == '\t' {
        seq!['\\', 't']
    } else if is_control(c) {
        seq![' ']
    } else {
        seq![c]
    }
}

/// `s` written for a TOML basic string: quotes, backslashes, newlines,
/// carriage returns and tabs escaped; other control characters replaced by
/// spaces.
pub open spec fn spec_toml_escape(s: Seq<char>) -> Seq<char>
    decreases s.len(),
{
    if s.len() == 0 {
        Seq::empty()
    } else {
        spec_toml_escape(s.drop_last()) + escape_char(s.last())
    }
}

/// Escapes `input` for use inside a TOML basic (double-quoted) string.
pub fn toml_basic_string_escape(input: &str) -> (r: String)
    ensures
        r@ == spec_toml_escape(input@),
{
    let v = to_chars(input);
    let mut out = String::new();
    let mut i: usize = 0;
    while i < v.len()
        invariant
            i <= v.len(),
            v@ == input@,
            out@ == spec_toml_escape(v@.take(i as int)),
        decreases v.len() - i,
    {
        let c = v[i];
        let ghost before = out@;
        let u = c as u32;
        if c == '"' {
            push_char(&mut out, '\\');
            push_char(&mut out, '"');
        } else if c == '\\' {
            push_char(&mut out, '\\');
            push_char(&mut out, '\\');
        } else if c == '\n' {
            push_char(&mut out, '\\');
            push_char(&mut out, 'n');
        } else if c == '\r' {
            push_char(&mut out, '\\');
            push_char(&mut out, 'r');
        } else if c == '\t' {
            push_char(&mut out, '\\');
            push_char(&mut out, 't');
        } else if u <= 0x1F || (0x7F <= u && u <= 0x9F) {
            push_char(&mut out, ' ');
        } else {
            push_char(&mut out, c);
        }
        assert(out@ == before + escape_char(c));
        assert(v@.take(i + 1 as int).drop_last() == v@.take(i as int));
        i = i + 1;
    }
    assert(v@.take(v.len() as int) == v@);
    out
}

/// Frontmatter for a new page that sets only its title.
pub open spec fn spec_page_frontmatter(title: Seq<char>) -> Seq<char> {
    "+++\ntitle = \""@ + spec_toml_escape(title) + "\"\n+++\n"@
}

/// The frontmatter of a newly created page: `+++`, the escaped title, `+++`.
pub fn page_frontmatter(title: &str) -> (r: String)
    ensures
        r@ == spec_page_frontmatter(title@),
{
    let escaped = toml_basic_string_escape(title);
    let mut r = String::from_str("+++\ntitle = \"");
    r.append(escaped.as_str());
    r.append("\"\n+++\n");
    r
}

} // verus!
