//! The documents that frontmatter fields point at (`template`, `asset`,
//! `data`), and where in the page they are written.
use vstd::prelude::*;

use crate::completion::{frontmatter_document_kind_for_entry, spec_document_kind_for_entry};
use crate::completion::{
    frontmatter_completion_label, frontmatter_completion_text, frontmatter_has_extra_table,
    spec_completion_text, spec_frontmatter_has_extra_table,
};
use crate::frontmatter::{
    frontmatter_content_byte_range, frontmatter_table_at_offset, last_table_from, spec_fm_block,
};
use crate::headings::{after_lines, position_to_byte_offset, spec_position_to_char};
use crate::model::{contains_str, has_str};
use crate::frontmatter::{frontmatter_entries, spec_frontmatter_entries, EntryView, FrontmatterEntry};
use crate::model::{find_key, str_value, strip_leading_slashes, without_leading_slashes, AuthoringProject};
use crate::positions::{
    byte_range_to_lsp_range, lemma_byte_len_take_mono, range_contains_position, spec_byte_range_to_lsp_range,
    spec_range_contains, Position, Range,
};
use crate::templates::{FrontmatterDocumentKind, FrontmatterDocumentTarget};
use crate::frontmatter::{
    frontmatter_field_specs, is_frontmatter_key_char, is_key_char, schema, spec_kind_description, FrontmatterFieldKind,
};
use crate::headings::{lemma_byte_len_take_strict, lemma_line_end_from, line_end_from};
use crate::text::{
    byte_len, find_char_from, push_str_chars, is_first_char, last_index, rfind_char, from_chars, sub_chars, to_chars, trim, ws_prefix_len, ws_prefix_len_exec, ws_suffix_len_exec,
};

verus! {

// ---------------------------------------------------------------------------
// Quoted values
// ---------------------------------------------------------------------------

/// The characters between the quotes of a frontmatter value, as a range of
/// `value`: the trimmed value must have at least two characters and start
/// and end with the same quote, `"` or `'`.
pub open spec fn quoted_span(value: Seq<char>) -> Option<(int, int)> {
    let a = ws_prefix_len(value);
    let t = trim(value);
    if t.len() >= 2 && (t[0] == '"' || t[0] == '\'') && t.last() == t[0] {
        Some((a + 1, a + t.len() - 1))
    } else {
        None
    }
}

/// The string a frontmatter value written at byte `value_start` of
/// `content` holds, with the editor range of its characters.
pub open spec fn spec_frontmatter_string_value(content: Seq<char>, value: Seq<char>, value_start: int) -> Option<
    (Seq<char>, Range),
> {
    match quoted_span(value) {
        Some((x, y)) => Some(
            (
                value.subrange(x, y),
                spec_byte_range_to_lsp_range(
                    content,
                    value_start + byte_len(value.take(x)),
                    value_start + byte_len(value.take(y)),
                ),
            ),
        ),
        None => None,
    }
}

/// The quoted string of a frontmatter entry and its range in `content`;
/// none for a value that is not a quoted string.
pub fn frontmatter_string_value(content: &str, entry: &FrontmatterEntry) -> (r: Option<(String, Range)>)
    requires
        content@.len() < u32::MAX,
        entry.value_start + byte_len(entry.value@) <= usize::MAX,
    ensures
        match spec_frontmatter_string_value(content@, entry.value@, entry.value_start as int) {
            Some((s, range)) => r matches Some((t, q)) && t@ == s && q == range,
            None => r is None,
        },
{
    let v = to_chars(entry.value.as_str());
    let n = v.len();
    let lead = ws_prefix_len_exec(v.as_slice(), 0, n);
    let trail = ws_suffix_len_exec(v.as_slice(), lead, n);
    let b = n - trail;
    proof {
        assert(v@.subrange(0, n as int) == v@);
        assert(v@.skip(lead as int) == v@.subrange(lead as int, n as int));
        assert(trim(v@) == v@.subrange(lead as int, b as int));
    }
    if b - lead < 2 {
        return None;
    }
    let quote = v[lead];
    if quote != '"' && quote != '\'' {
        return None;
    }
    if v[b - 1] != quote {
        return None;
    }
    let x = lead + 1;
    let y = b - 1;
    proof {
        lemma_byte_len_take_mono(v@, x as int, n as int);
        lemma_byte_len_take_mono(v@, y as int, n as int);
        assert(v@.take(n as int) == v@);
    }
    let offs = crate::frontmatter::byte_offsets(v.as_slice());
    let start = entry.value_start + offs[x];
    let end = entry.value_start + offs[y];
    let inner = from_chars(sub_chars(v.as_slice(), x, y).as_slice());
    Some((inner, byte_range_to_lsp_range(content, start, end)))
}

// ---------------------------------------------------------------------------
// Resolving the paths
// ---------------------------------------------------------------------------

/// Where a frontmatter path resolves in the list `m`: under the path
/// without its leading slashes, else under the path as written.
pub open spec fn spec_frontmatter_path_lookup(m: Seq<(String, String)>, path: Seq<char>) -> Option<Seq<char>> {
    match str_value(m, without_leading_slashes(path)) {
        Some(p) => Some(p),
        None => str_value(m, path),
    }
}

fn lookup_trimmed_then_exact<'a>(m: &'a Vec<(String, String)>, path: &str) -> (r: Option<&'a str>)
    ensures
        match spec_frontmatter_path_lookup(m@, path@) {
            Some(p) => r matches Some(s) && s@ == p,
            None => r is None,
        },
{
    let trimmed = strip_leading_slashes(path);
    match find_key(m, trimmed.as_str()) {
        Some(i) => Some(m[i].1.as_str()),
        None => match find_key(m, path) {
            Some(i) => Some(m[i].1.as_str()),
            None => None,
        },
    }
}

/// The file a frontmatter `asset` path names.
pub fn frontmatter_static_target_path<'a>(project: &'a AuthoringProject, path: &str) -> (r: Option<&'a str>)
    ensures
        match spec_frontmatter_path_lookup(project.static_paths@, path@) {
            Some(p) => r matches Some(s) && s@ == p,
            None => r is None,
        },
{
    lookup_trimmed_then_exact(&project.static_paths, path)
}

/// The file a frontmatter `data` path names.
pub fn frontmatter_data_target_path<'a>(project: &'a AuthoringProject, path: &str) -> (r: Option<&'a str>)
    ensures
        match spec_frontmatter_path_lookup(project.data_paths@, path@) {
            Some(p) => r matches Some(s) && s@ == p,
            None => r is None,
        },
{
    lookup_trimmed_then_exact(&project.data_paths, path)
}

// ---------------------------------------------------------------------------
// Document targets
// ---------------------------------------------------------------------------

/// `byte_len` of a prefix splits at any point inside it.
pub proof fn lemma_byte_len_split(s: Seq<char>, a: int, b: int)
    requires
        0 <= a <= b <= s.len(),
    ensures
        byte_len(s.take(a)) + byte_len(s.subrange(a, b)) == byte_len(s.take(b)),
    decreases b - a,
{
    if a == b {
        assert(s.subrange(a, b) =~= Seq::<char>::empty());
    } else {
        lemma_byte_len_split(s, a, b - 1);
        assert(s.subrange(a, b).drop_last() =~= s.subrange(a, b - 1));
        assert(s.take(b).drop_last() =~= s.take(b - 1));
    }
}

/// The document a frontmatter entry points at: a top-level `template`,
/// `asset` or `data` field whose value is a quoted path that the project
/// knows (templates by their exact path; assets and data files with or
/// without leading slashes).
pub open spec fn spec_target_of_entry(
    project: AuthoringProject,
    content: Seq<char>,
    key: Seq<char>,
    in_table: bool,
    value: Seq<char>,
    value_start: int,
) -> Option<(FrontmatterDocumentKind, Seq<char>, Seq<char>, Range)> {
    match spec_document_kind_for_entry(key, in_table) {
        None => None,
        Some(kind) => match spec_frontmatter_string_value(content, value, value_start) {
            None => None,
            Some((path, range)) => {
                let target = match kind {
                    FrontmatterDocumentKind::Template => str_value(project.template_paths@, path),
                    FrontmatterDocumentKind::StaticAsset => spec_frontmatter_path_lookup(
                        project.static_paths@,
                        path,
                    ),
                    FrontmatterDocumentKind::DataFile => spec_frontmatter_path_lookup(
                        project.data_paths@,
                        path,
                    ),
                };
                match target {
                    Some(t) => Some((kind, path, t, range)),
                    None => None,
                }
            },
        },
    }
}

/// The targets of the frontmatter entries `es` of `content`, in order.
pub open spec fn spec_document_targets(project: AuthoringProject, content: Seq<char>, es: Seq<EntryView>) -> Seq<
    (FrontmatterDocumentKind, Seq<char>, Seq<char>, Range),
>
    decreases es.len(),
{
    if es.len() == 0 {
        Seq::empty()
    } else {
        let prev = spec_document_targets(project, content, es.drop_last());
        let e = es.last();
        match spec_target_of_entry(
            project,
            content,
            content.subrange(e.0, e.1),
            e.4 is Some,
            content.subrange(e.2, e.3),
            byte_len(content.take(e.2)) as int,
        ) {
            Some(t) => prev.push(t),
            None => prev,
        }
    }
}

fn target_of_entry(project: &AuthoringProject, content: &str, entry: &FrontmatterEntry) -> (r: Option<
    FrontmatterDocumentTarget,
>)
    requires
        content@.len() < u32::MAX,
        entry.value_start + byte_len(entry.value@) <= usize::MAX,
    ensures
        match spec_target_of_entry(
            *project,
            content@,
            entry.key@,
            entry.table is Some,
            entry.value@,
            entry.value_start as int,
        ) {
            Some(t) => r matches Some(x) && x@ == t,
            None => r is None,
        },
{
    let kind = match frontmatter_document_kind_for_entry(entry) {
        Some(k) => k,
        None => return None,
    };
    let (path, source_range) = match frontmatter_string_value(content, entry) {
        Some(pr) => pr,
        None => return None,
    };
    let target: Option<&str> = match kind {
        FrontmatterDocumentKind::Template => match find_key(&project.template_paths, path.as_str()) {
            Some(i) => Some(project.template_paths[i].1.as_str()),
            None => None,
        },
        FrontmatterDocumentKind::StaticAsset => frontmatter_static_target_path(project, path.as_str()),
        FrontmatterDocumentKind::DataFile => frontmatter_data_target_path(project, path.as_str()),
    };
    match target {
        Some(t) => Some(
            FrontmatterDocumentTarget {
                kind,
                path,
                target_path: from_chars(to_chars(t).as_slice()),
                source_range,
            },
        ),
        None => None,
    }
}

/// The documents the frontmatter of `content` points at, in the order of
/// its fields.
pub fn frontmatter_document_targets(project: &AuthoringProject, content: &str) -> (r: Vec<
    FrontmatterDocumentTarget,
>)
    requires
        content@.len() < u32::MAX,
        byte_len(content@) <= usize::MAX,
    ensures
        r@.map_values(|t: FrontmatterDocumentTarget| t@) == spec_document_targets(
            *project,
            content@,
            spec_frontmatter_entries(content@),
        ),
{
    let entries = frontmatter_entries(content);
    let ghost es = spec_frontmatter_entries(content@);
    let mut out: Vec<FrontmatterDocumentTarget> = Vec::new();
    let mut i: usize = 0;
    while i < entries.len()
        invariant
            i <= entries.len(),
            content@.len() < u32::MAX,
            byte_len(content@) <= usize::MAX,
            entries.len() == es.len(),
            es == spec_frontmatter_entries(content@),
            forall|j: int| 0 <= j < entries.len() ==> #[trigger] entries@[j].is_view_of(content@, es[j]),
            out@.map_values(|t: FrontmatterDocumentTarget| t@) == spec_document_targets(
                *project,
                content@,
                es.take(i as int),
            ),
        decreases entries.len() - i,
    {
        let entry = &entries[i];
        proof {
            let e = es[i as int];
            assert(entry.is_view_of(content@, e));
            assert(es.take(i + 1 as int).drop_last() == es.take(i as int));
            assert(es.take(i + 1 as int).last() == e);
            lemma_byte_len_split(content@, e.2, e.3);
            lemma_byte_len_take_mono(content@, e.3, content@.len() as int);
            assert(content@.take(content@.len() as int) == content@);
        }
        let ghost before = out@;
        match target_of_entry(project, content, entry) {
            Some(t) => {
                out.push(t);
                assert(out@.map_values(|t: FrontmatterDocumentTarget| t@) == before.map_values(
                    |t: FrontmatterDocumentTarget| t@,
                ).push(out@.last()@));
            },
            None => {},
        }
        i = i + 1;
    }
    assert(es.take(entries.len() as int) == es);
    out
}

/// The first of `ts` whose range holds `position`.
pub open spec fn first_target_at(
    ts: Seq<(FrontmatterDocumentKind, Seq<char>, Seq<char>, Range)>,
    position: Position,
) -> Option<(FrontmatterDocumentKind, Seq<char>, Seq<char>, Range)>
    decreases ts.len(),
{
    if ts.len() == 0 {
        None
    } else if spec_range_contains(ts[0].3, position) {
        Some(ts[0])
    } else {
        first_target_at(ts.drop_first(), position)
    }
}

/// The document the frontmatter field at `position` points at, if any.
pub fn frontmatter_document_target_at_position(project: &AuthoringProject, content: &str, position: Position) -> (r:
    Option<FrontmatterDocumentTarget>)
    requires
        content@.len() < u32::MAX,
        byte_len(content@) <= usize::MAX,
    ensures
        match first_target_at(spec_document_targets(*project, content@, spec_frontmatter_entries(content@)), position) {
            Some(t) => r matches Some(x) && x@ == t,
            None => r is None,
        },
{
    let targets = frontmatter_document_targets(project, content);
    let ghost ts = targets@.map_values(|t: FrontmatterDocumentTarget| t@);
    let mut i: usize = 0;
    assert(ts.skip(0) == ts);
    while i < targets.len()
        invariant
            i <= targets.len(),
            ts == targets@.map_values(|t: FrontmatterDocumentTarget| t@),
            ts == spec_document_targets(*project, content@, spec_frontmatter_entries(content@)),
            first_target_at(ts, position) == first_target_at(ts.skip(i as int), position),
        decreases targets.len() - i,
    {
        assert(ts.skip(i as int).drop_first() == ts.skip(i + 1 as int));
        assert(ts.skip(i as int)[0] == targets@[i as int]@);
        if range_contains_position(&targets[i].source_range, position) {
            let t = &targets[i];
            assert(first_target_at(ts.skip(i as int), position) == Some(targets@[i as int]@));
            return Some(
                FrontmatterDocumentTarget {
                    kind: t.kind,
                    path: from_chars(to_chars(t.path.as_str()).as_slice()),
                    target_path: from_chars(to_chars(t.target_path.as_str()).as_slice()),
                    source_range: t.source_range,
                },
            );
        }
        i = i + 1;
    }
    assert(ts.skip(targets.len() as int) =~= Seq::empty());
    None
}

// ---------------------------------------------------------------------------
// Where the cursor is in the frontmatter
// ---------------------------------------------------------------------------

/// Byte `offset` is where character `k` of `s` starts.
pub open spec fn is_char_offset(s: Seq<char>, k: int, offset: int) -> bool {
    0 <= k <= s.len() && byte_len(s.take(k)) == offset
}

/// Character boundaries are ordered as their byte offsets are.
pub proof fn lemma_char_offsets_ordered(s: Seq<char>, j: int, k: int)
    requires
        0 <= j <= s.len(),
        0 <= k <= s.len(),
    ensures
        j < k <==> byte_len(s.take(j)) < byte_len(s.take(k)),
        j == k <==> byte_len(s.take(j)) == byte_len(s.take(k)),
{
    if j < k {
        lemma_byte_len_take_strict(s, j, k);
    }
    if k < j {
        lemma_byte_len_take_strict(s, k, j);
    }
}

/// The character index `k` of `v` at byte `offset`, given the byte offsets
/// `offs` of its characters.
fn char_index_of_byte(v: &[char], offs: &Vec<usize>, offset: usize) -> (k: usize)
    requires
        offs@.len() == v@.len() + 1,
        forall|i: int| 0 <= i <= v@.len() ==> #[trigger] offs@[i] == byte_len(v@.take(i)),
        exists|w: int| is_char_offset(v@, w, offset as int),
    ensures
        is_char_offset(v@, k as int, offset as int),
        forall|j: int| is_char_offset(v@, j, offset as int) ==> j == k,
{
    let mut k: usize = 0;
    while k < v.len() && offs[k] != offset
        invariant
            k <= v.len(),
            offs@.len() == v@.len() + 1,
            forall|i: int| 0 <= i <= v@.len() ==> #[trigger] offs@[i] == byte_len(v@.take(i)),
            forall|j: int| 0 <= j < k ==> byte_len(v@.take(j)) != offset,
        decreases v.len() - k,
    {
        k = k + 1;
    }
    proof {
        let w = choose|w: int| is_char_offset(v@, w, offset as int);
        if offs@[k as int] != offset {
            assert(byte_len(v@.take(w)) == offset);
        }
        assert forall|j: int| is_char_offset(v@, j, offset as int) implies j == k by {
            lemma_char_offsets_ordered(v@, j, k as int);
        }
    }
    k
}

/// Where the line holding character `k` of `s` starts: just after the last
/// newline before `k`, or at 0.
pub open spec fn line_start_at(s: Seq<char>, k: int) -> int {
    match last_index(s.take(k), '\n') {
        Some(i) => i + 1,
        None => 0,
    }
}

/// The byte bounds of the line holding byte `offset` of `content`: from
/// just after the last newline before it (or 0) to the first newline at or
/// after it (or the end).
fn line_bounds_at_offset(content: &str, offset: usize) -> (r: (usize, usize))
    requires
        byte_len(content@) <= usize::MAX,
        exists|k: int| is_char_offset(content@, k, offset as int),
    ensures
        forall|k: int|
            is_char_offset(content@, k, offset as int) ==> r.0 == byte_len(content@.take(line_start_at(content@, k)))
                && r.1 == byte_len(content@.take(line_end_from(content@, k))),
{
    let v = to_chars(content);
    let offs = crate::frontmatter::byte_offsets(v.as_slice());
    let k = char_index_of_byte(v.as_slice(), &offs, offset);
    let before = sub_chars(v.as_slice(), 0, k);
    let ls: usize = match rfind_char(before.as_slice(), '\n') {
        Some(i) => i + 1,
        None => 0,
    };
    let le: usize = match find_char_from(v.as_slice(), '\n', k) {
        Some(i) => i,
        None => v.len(),
    };
    proof {
        assert(before@ == content@.take(k as int));
        if le < v.len() {
            lemma_line_end_from(content@, k as int, le as int);
        } else {
            if exists|i: int| is_first_char(content@, '\n', k as int, i) {
                let i = choose|i: int| is_first_char(content@, '\n', k as int, i);
                assert(content@[i] == '\n');
            }
        }
    }
    (offs[ls], offs[le])
}

/// Where the run of frontmatter key characters that ends at character `k`
/// starts, looking back no further than `ls`.
pub open spec fn key_run_start(s: Seq<char>, ls: int, k: int) -> int
    decreases k - ls,
{
    if ls < k && k <= s.len() && is_key_char(s[k - 1]) {
        key_run_start(s, ls, k - 1)
    } else {
        k
    }
}

/// Where the run of frontmatter key characters that starts at character `k`
/// ends, looking no further than `le`.
pub open spec fn key_run_end(s: Seq<char>, k: int, le: int) -> int
    decreases le - k,
{
    if k < le && 0 <= k < s.len() && is_key_char(s[k]) {
        key_run_end(s, k + 1, le)
    } else {
        k
    }
}

proof fn lemma_key_run_start_bounds(s: Seq<char>, ls: int, k: int)
    requires
        ls <= k,
    ensures
        ls <= key_run_start(s, ls, k) <= k,
    decreases k - ls,
{
    if ls < k && k <= s.len() && is_key_char(s[k - 1]) {
        lemma_key_run_start_bounds(s, ls, k - 1);
    }
}

proof fn lemma_key_run_end_bounds(s: Seq<char>, k: int, le: int)
    requires
        k <= le,
    ensures
        k <= key_run_end(s, k, le) <= le,
    decreases le - k,
{
    if k < le && 0 <= k < s.len() && is_key_char(s[k]) {
        lemma_key_run_end_bounds(s, k + 1, le);
    }
}

/// Scans back from byte `offset` over frontmatter key characters, not past
/// byte `line_start`.
fn scan_frontmatter_key_start(content: &str, line_start: usize, offset: usize) -> (r: usize)
    requires
        byte_len(content@) <= usize::MAX,
        line_start <= offset,
        exists|a: int| is_char_offset(content@, a, line_start as int),
        exists|k: int| is_char_offset(content@, k, offset as int),
    ensures
        forall|a: int, k: int|
            is_char_offset(content@, a, line_start as int) && is_char_offset(content@, k, offset as int) ==> r
                == byte_len(content@.take(key_run_start(content@, a, k))),
{
    let v = to_chars(content);
    let offs = crate::frontmatter::byte_offsets(v.as_slice());
    let a = char_index_of_byte(v.as_slice(), &offs, line_start);
    let k = char_index_of_byte(v.as_slice(), &offs, offset);
    proof {
        lemma_char_offsets_ordered(v@, k as int, a as int);
    }
    let mut start = k;
    while start > a && is_frontmatter_key_char(v[start - 1])
        invariant
            a <= start <= k <= v@.len(),
            key_run_start(v@, a as int, k as int) == key_run_start(v@, a as int, start as int),
        decreases start,
    {
        start = start - 1;
    }
    offs[start]
}

/// Scans forward from byte `offset` over frontmatter key characters, not
/// past byte `line_end`.
fn scan_frontmatter_key_end(content: &str, offset: usize, line_end: usize) -> (r: usize)
    requires
        byte_len(content@) <= usize::MAX,
        offset <= line_end,
        exists|k: int| is_char_offset(content@, k, offset as int),
        exists|b: int| is_char_offset(content@, b, line_end as int),
    ensures
        forall|k: int, b: int|
            is_char_offset(content@, k, offset as int) && is_char_offset(content@, b, line_end as int) ==> r
                == byte_len(content@.take(key_run_end(content@, k, b))),
{
    let v = to_chars(content);
    let offs = crate::frontmatter::byte_offsets(v.as_slice());
    let k = char_index_of_byte(v.as_slice(), &offs, offset);
    let b = char_index_of_byte(v.as_slice(), &offs, line_end);
    proof {
        lemma_char_offsets_ordered(v@, b as int, k as int);
    }
    let mut end = k;
    while end < b && is_frontmatter_key_char(v[end])
        invariant
            k <= end <= b <= v@.len(),
            key_run_end(v@, k as int, b as int) == key_run_end(v@, end as int, b as int),
        decreases b - end,
    {
        end = end + 1;
    }
    offs[end]
}

// ---------------------------------------------------------------------------
// Completing a frontmatter field
// ---------------------------------------------------------------------------

/// What the editor needs to complete a frontmatter field at the cursor: the
/// range the completion replaces, the top-level fields already present, and
/// the `[table]` the cursor is in.
pub struct FrontmatterCompletionContext {
    pub replace_range: Range,
    /// The top-level fields present (and `extra` when the frontmatter has
    /// an `[extra]` table); a field may be listed more than once.
    pub present_fields: Vec<String>,
    pub current_table: Option<String>,
}

/// Field `x` is present at the top level of the frontmatter of `s`, or is
/// `extra` and the frontmatter has an `[extra]` table.
pub open spec fn field_present(s: Seq<char>, x: Seq<char>) -> bool {
    ||| exists|i: int|
        0 <= i < spec_frontmatter_entries(s).len() && (#[trigger] spec_frontmatter_entries(s)[i]).4 is None
            && s.subrange(spec_frontmatter_entries(s)[i].0, spec_frontmatter_entries(s)[i].1) == x
    ||| spec_frontmatter_has_extra_table(s) && x == "extra"@
}

/// Character `k` of `s` is in the body of its frontmatter, the end
/// included.
pub open spec fn in_frontmatter_body(s: Seq<char>, k: int) -> bool {
    match spec_fm_block(s) {
        Some((a, b)) => a <= k <= b,
        None => false,
    }
}

/// The character range a field completion at character `k` replaces: the
/// run of key characters around `k` on its line.
pub open spec fn replace_bounds(s: Seq<char>, k: int) -> (int, int) {
    (key_run_start(s, line_start_at(s, k), k), key_run_end(s, k, line_end_from(s, k)))
}

/// The `[table]` in effect at character `k` of the frontmatter body of `s`.
pub open spec fn table_at(s: Seq<char>, k: int) -> Option<Seq<char>> {
    match spec_fm_block(s) {
        Some((a, b)) => last_table_from(s, a, k, None),
        None => None,
    }
}

/// The completion context at `position`: present when the position is in
/// the body of the frontmatter.
pub fn frontmatter_completion_context(content: &str, position: Position) -> (r: Option<
    FrontmatterCompletionContext,
>)
    requires
        content@.len() < u32::MAX,
        byte_len(content@) <= usize::MAX,
    ensures
        r is Some <==> (spec_position_to_char(content@, position.line as int, position.character as int) matches Some(
            k,
        ) && in_frontmatter_body(content@, k)),
        r matches Some(ctx) ==> (spec_position_to_char(
            content@,
            position.line as int,
            position.character as int,
        ) matches Some(k) && {
            &&& ctx.replace_range == spec_byte_range_to_lsp_range(
                content@,
                byte_len(content@.take(replace_bounds(content@, k).0)) as int,
                byte_len(content@.take(replace_bounds(content@, k).1)) as int,
            )
            &&& match table_at(content@, k) {
                Some(n) => ctx.current_table matches Some(t) && t@ == n,
                None => ctx.current_table is None,
            }
            &&& forall|x: Seq<char>| has_str(ctx.present_fields@, x) <==> field_present(content@, x)
        }),
{
    let block = match frontmatter_content_byte_range(content) {
        Some(b) => b,
        None => return None,
    };
    let offset = match position_to_byte_offset(content, position) {
        Some(o) => o,
        None => return None,
    };
    let ghost k = spec_position_to_char(content@, position.line as int, position.character as int)->0;
    let ghost ab = spec_fm_block(content@)->0;
    let ghost a = ab.0;
    let ghost b = ab.1;
    proof {
        assert(0 <= a <= b <= content@.len()) by {
            lemma_fm_block_bounds(content@);
        }
        lemma_position_to_char_bounds(content@, position.line as int, position.character as int);
        lemma_char_offsets_ordered(content@, k, a);
        lemma_char_offsets_ordered(content@, k, b);
    }
    if offset < block.start || offset > block.end {
        return None;
    }
    assert(is_char_offset(content@, k, offset as int));
    let (ls, le) = line_bounds_at_offset(content, offset);
    let ghost lsc = line_start_at(content@, k);
    let ghost lec = line_end_from(content@, k);
    proof {
        assert(is_char_offset(content@, k, offset as int));
        lemma_line_bounds(content@, k);
        lemma_char_offsets_ordered(content@, lsc, k);
        lemma_char_offsets_ordered(content@, k, lec);
        assert(is_char_offset(content@, lsc, ls as int));
        assert(is_char_offset(content@, lec, le as int));
    }
    let rs = scan_frontmatter_key_start(content, ls, offset);
    let re = scan_frontmatter_key_end(content, offset, le);
    proof {
        assert(rs == byte_len(content@.take(key_run_start(content@, lsc, k))));
        assert(re == byte_len(content@.take(key_run_end(content@, k, lec))));
    }
    let current_table = frontmatter_table_at_offset(content, offset);
    proof {
        assert(offset <= crate::frontmatter::fm_body_end_byte(content@));
    }
    let entries = frontmatter_entries(content);
    let ghost es = spec_frontmatter_entries(content@);
    let mut present: Vec<String> = Vec::new();
    let mut i: usize = 0;
    while i < entries.len()
        invariant
            i <= entries.len(),
            entries.len() == es.len(),
            es == spec_frontmatter_entries(content@),
            forall|j: int| 0 <= j < entries.len() ==> #[trigger] entries@[j].is_view_of(content@, es[j]),
            forall|x: Seq<char>|
                has_str(present@, x) <==> exists|j: int|
                    0 <= j < i && (#[trigger] es[j]).4 is None && content@.subrange(es[j].0, es[j].1) == x,
        decreases entries.len() - i,
    {
        assert(entries@[i as int].is_view_of(content@, es[i as int]));
        if entries[i].table.is_none() {
            let ghost before = present@;
            present.push(from_chars(to_chars(entries[i].key.as_str()).as_slice()));
            assert forall|x: Seq<char>|
                has_str(present@, x) <== exists|j: int|
                    0 <= j < i + 1 && (#[trigger] es[j]).4 is None && content@.subrange(es[j].0, es[j].1) == x by {
                if exists|j: int|
                    0 <= j < i + 1 && (#[trigger] es[j]).4 is None && content@.subrange(es[j].0, es[j].1) == x {
                    let j = choose|j: int|
                        0 <= j < i + 1 && (#[trigger] es[j]).4 is None && content@.subrange(es[j].0, es[j].1) == x;
                    if j < i {
                        assert(has_str(before, x));
                        let w = choose|w: int| 0 <= w < before.len() && #[trigger] before[w]@ == x;
                        assert(present@[w] == before[w]);
                    } else {
                        assert(present@[before.len() as int]@ == x);
                    }
                }
            }
            assert forall|x: Seq<char>|
                has_str(present@, x) ==> exists|j: int|
                    0 <= j < i + 1 && (#[trigger] es[j]).4 is None && content@.subrange(es[j].0, es[j].1) == x by {
                if has_str(present@, x) {
                    let w = choose|w: int| 0 <= w < present@.len() && #[trigger] present@[w]@ == x;
                    if w < before.len() {
                        assert(before[w]@ == x);
                        assert(has_str(before, x));
                    } else {
                        assert(es[i as int].4 is None);
                        assert(content@.subrange(es[i as int].0, es[i as int].1) == x);
                    }
                }
            }
        }
        i = i + 1;
    }
    let ghost p0 = present@;
    let extra = frontmatter_has_extra_table(content);
    if extra {
        present.push(from_chars(to_chars("extra").as_slice()));
    }
    proof {
        reveal_strlit("extra");
        assert forall|x: Seq<char>| has_str(present@, x) <==> field_present(content@, x) by {
            assert(has_str(p0, x) <==> exists|j: int|
                0 <= j < es.len() && (#[trigger] es[j]).4 is None && content@.subrange(es[j].0, es[j].1) == x);
            if extra {
                if has_str(present@, x) {
                    let w = choose|w: int| 0 <= w < present@.len() && #[trigger] present@[w]@ == x;
                    if w < p0.len() {
                        assert(p0[w]@ == x);
                    }
                }
                if has_str(p0, x) {
                    let w = choose|w: int| 0 <= w < p0.len() && #[trigger] p0[w]@ == x;
                    assert(present@[w]@ == x);
                }
                if x == "extra"@ {
                    assert(present@[p0.len() as int]@ == x);
                }
            } else {
                assert(present@ == p0);
            }
        }
    }
    Some(
        FrontmatterCompletionContext {
            replace_range: byte_range_to_lsp_range(content, rs, re),
            present_fields: present,
            current_table,
        },
    )
}

/// The line bounds around character `k` hold it.
proof fn lemma_line_bounds(s: Seq<char>, k: int)
    requires
        0 <= k <= s.len(),
    ensures
        0 <= line_start_at(s, k) <= k <= line_end_from(s, k) <= s.len(),
{
    if exists|i: int| is_first_char(s, '\n', k, i) {
        let i = choose|i: int| is_first_char(s, '\n', k, i);
        assert(is_first_char(s, '\n', k, i));
    }
}

proof fn lemma_fm_block_bounds(s: Seq<char>)
    ensures
        spec_fm_block(s) matches Some((a, b)) ==> 0 <= a <= b <= s.len(),
{
}

proof fn lemma_after_lines_nonneg(s: Seq<char>, from: int, k: nat)
    requires
        from >= 0,
    ensures
        after_lines(s, from, k) >= 0,
    decreases k,
{
    if k > 0 {
        if exists|i: int| is_first_char(s, '\n', from, i) {
            let i = choose|i: int| is_first_char(s, '\n', from, i);
            lemma_after_lines_nonneg(s, i + 1, (k - 1) as nat);
        }
    }
}

pub proof fn lemma_position_to_char_bounds(s: Seq<char>, line: int, character: int)
    requires
        line >= 0,
        character >= 0,
    ensures
        spec_position_to_char(s, line, character) matches Some(i) ==> 0 <= i <= s.len(),
{
    lemma_after_lines_nonneg(s, 0, line as nat);
    let ls = after_lines(s, 0, line as nat);
    if exists|i: int| is_first_char(s, '\n', ls, i) {
        let i = choose|i: int| is_first_char(s, '\n', ls, i);
        assert(is_first_char(s, '\n', ls, i));
    }
}

/// How a frontmatter completion is shown: as a table or as a field.
#[derive(Clone, Copy, Debug, PartialEq, Eq, Structural)]
pub enum FrontmatterCompletionKind {
    Table,
    Field,
}

/// A completion for a missing frontmatter field.
pub struct FrontmatterCompletion {
    pub label: String,
    pub kind: FrontmatterCompletionKind,
    pub detail: String,
    /// The range the completion replaces.
    pub range: Range,
    pub new_text: String,
}

impl View for FrontmatterCompletion {
    type V = (Seq<char>, FrontmatterCompletionKind, Seq<char>, Range, Seq<char>);

    open spec fn view(&self) -> Self::V {
        (self.label@, self.kind, self.detail@, self.range, self.new_text@)
    }
}

/// The completion offered for the schema field `f`.
pub open spec fn field_completion(
    f: (Seq<char>, FrontmatterFieldKind),
    default_title: Seq<char>,
    section_index: bool,
    range: Range,
) -> (Seq<char>, FrontmatterCompletionKind, Seq<char>, Range, Seq<char>) {
    (
        if f.1 == FrontmatterFieldKind::Table {
            "[extra]"@
        } else {
            f.0
        },
        if f.1 == FrontmatterFieldKind::Table {
            FrontmatterCompletionKind::Table
        } else {
            FrontmatterCompletionKind::Field
        },
        "Dodeca frontmatter "@ + spec_kind_description(f.1),
        range,
        spec_completion_text(f.0, f.1, default_title, section_index),
    )
}

/// The completions for the fields of `fields` that are not `present`, in
/// order.
pub open spec fn field_completions(
    fields: Seq<(Seq<char>, FrontmatterFieldKind)>,
    present: Seq<String>,
    default_title: Seq<char>,
    section_index: bool,
    range: Range,
) -> Seq<(Seq<char>, FrontmatterCompletionKind, Seq<char>, Range, Seq<char>)>
    decreases fields.len(),
{
    if fields.len() == 0 {
        Seq::empty()
    } else {
        let prev = field_completions(fields.drop_last(), present, default_title, section_index, range);
        if has_str(present, fields.last().0) {
            prev
        } else {
            prev.push(field_completion(fields.last(), default_title, section_index, range))
        }
    }
}

/// The completions for the schema fields a page's frontmatter lacks; none
/// inside a `[table]`. `default_title` and `section_index` describe the
/// page, for the `title` and `template` fields.
pub fn completion_items_for_frontmatter(
    default_title: &str,
    section_index: bool,
    context: &FrontmatterCompletionContext,
) -> (r: Vec<FrontmatterCompletion>)
    ensures
        r@.map_values(|c: FrontmatterCompletion| c@) == if context.current_table is Some {
            Seq::empty()
        } else {
            field_completions(
                schema(),
                context.present_fields@,
                default_title@,
                section_index,
                context.replace_range,
            )
        },
{
    let mut out: Vec<FrontmatterCompletion> = Vec::new();
    if context.current_table.is_some() {
        assert(out@.map_values(|c: FrontmatterCompletion| c@) =~= Seq::empty());
        return out;
    }
    let specs = frontmatter_field_specs();
    let ghost fields = schema();
    let mut i: usize = 0;
    while i < specs.len()
        invariant
            i <= specs.len(),
            specs.len() == fields.len(),
            fields == schema(),
            forall|j: int| 0 <= j < specs.len() ==> (#[trigger] specs@[j]).name@ == fields[j].0 && specs@[j].kind
                == fields[j].1,
            out@.map_values(|c: FrontmatterCompletion| c@) == field_completions(
                fields.take(i as int),
                context.present_fields@,
                default_title@,
                section_index,
                context.replace_range,
            ),
        decreases specs.len() - i,
    {
        let spec = specs[i];
        assert(fields.take(i + 1 as int).drop_last() == fields.take(i as int));
        assert(fields.take(i + 1 as int).last() == fields[i as int]);
        assert(specs@[i as int].name@ == fields[i as int].0);
        if !contains_str(&context.present_fields, spec.name) {
            let label = frontmatter_completion_label(spec);
            let kind = match spec.kind {
                FrontmatterFieldKind::Table => FrontmatterCompletionKind::Table,
                _ => FrontmatterCompletionKind::Field,
            };
            let mut detail = to_chars("Dodeca frontmatter ");
            push_str_chars(&mut detail, spec.kind.description());
            proof {
                reveal_strlit("Dodeca frontmatter ");
                reveal_strlit("[extra]");
            }
            let item = FrontmatterCompletion {
                label: from_chars(to_chars(label).as_slice()),
                kind,
                detail: from_chars(detail.as_slice()),
                range: context.replace_range,
                new_text: frontmatter_completion_text(default_title, section_index, spec),
            };
            let ghost before = out@;
            out.push(item);
            assert(out@.map_values(|c: FrontmatterCompletion| c@) == before.map_values(
                |c: FrontmatterCompletion| c@,
            ).push(field_completion(fields[i as int], default_title@, section_index, context.replace_range)));
        }
        i = i + 1;
    }
    assert(fields.take(specs.len() as int) == fields);
    out
}

} // verus!
