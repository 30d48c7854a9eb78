//! Frontmatter completions and document links: what the editor offers for
//! a missing field, and which fields point at other documents.
use vstd::prelude::*;

use crate::frontmatter::{
    fm_block_chars, spec_fm_block, spec_table_name, spec_toml_escape, table_name_in,
    toml_basic_string_escape, FrontmatterEntry, FrontmatterFieldKind, FrontmatterFieldSpec,
};
use crate::templates::FrontmatterDocumentKind;
use crate::text::{from_chars, push_str_chars, split, str_eq, to_chars, trim, views};

verus! {

/// The kind of document a top-level frontmatter field points at: `template`
/// a template, `asset` a static asset, `data` a data file; none for other
/// keys and for keys inside a table.
pub open spec fn spec_document_kind_for_entry(key: Seq<char>, in_table: bool) -> Option<FrontmatterDocumentKind> {
    if in_table {
        None
    } else if key == "template"@ {
        Some(FrontmatterDocumentKind::Template)
    } else if key == "asset"@ {
        Some(FrontmatterDocumentKind::StaticAsset)
    } else if key == "data"@ {
        Some(FrontmatterDocumentKind::DataFile)
    } else {
        None
    }
}

/// The kind of document a frontmatter entry points at, if any.
pub fn frontmatter_document_kind_for_entry(entry: &FrontmatterEntry) -> (r: Option<
    FrontmatterDocumentKind,
>)
    ensures
        r == spec_document_kind_for_entry(entry.key@, entry.table is Some),
{
    if entry.table.is_some() {
        return None;
    }
    let k = entry.key.as_str();
    if str_eq(k, "template") {
        Some(FrontmatterDocumentKind::Template)
    } else if str_eq(k, "asset") {
        Some(FrontmatterDocumentKind::StaticAsset)
    } else if str_eq(k, "data") {
        Some(FrontmatterDocumentKind::DataFile)
    } else {
        None
    }
}

/// The label a field is offered under: `[extra]` for a table, else its name.
pub fn frontmatter_completion_label(spec: FrontmatterFieldSpec) -> (r: &'static str)
    ensures
        r@ == if spec.kind == FrontmatterFieldKind::Table {
            "[extra]"@
        } else {
            spec.name@
        },
{
    match spec.kind {
        FrontmatterFieldKind::Table => "[extra]",
        _ => spec.name,
    }
}

/// The text inserted for a missing field: `title` with the page's default
/// title as a TOML string; empty strings for `description`, `asset` and
/// `data`; `template` with `section.html` for a section index and
/// `page.html` otherwise; `weight = 0`; an `[extra]` table header; the bare
/// name for anything else.
pub open spec fn spec_completion_text(
    name: Seq<char>,
    kind: FrontmatterFieldKind,
    default_title: Seq<char>,
    section_index: bool,
) -> Seq<char> {
    if name == "title"@ && kind == FrontmatterFieldKind::String {
        "title = \""@ + spec_toml_escape(default_title) + "\""@
    } else if name == "description"@ && kind == FrontmatterFieldKind::String {
        "description = \"\""@
    } else if name == "template"@ && kind == FrontmatterFieldKind::String {
        if section_index {
            "template = \"section.html\""@
        } else {
            "template = \"page.html\""@
        }
    } else if name == "asset"@ && kind == FrontmatterFieldKind::String {
        "asset = \"\""@
    } else if name == "data"@ && kind == FrontmatterFieldKind::String {
        "data = \"\""@
    } else if name == "weight"@ && kind == FrontmatterFieldKind::Integer {
        "weight = 0"@
    } else if name == "extra"@ && kind == FrontmatterFieldKind::Table {
        "[extra]\n"@
    } else {
        name
    }
}

/// The text inserted to complete a missing frontmatter field of a page whose
/// default title is `default_title` (and which is a section index or not).
pub fn frontmatter_completion_text(default_title: &str, section_index: bool, spec: FrontmatterFieldSpec) -> (r:
    String)
    ensures
        r@ == spec_completion_text(spec.name@, spec.kind, default_title@, section_index),
{
    let name = spec.name;
    let string = spec.kind == FrontmatterFieldKind::String;
    let text: &str = if str_eq(name, "title") && string {
        let mut out = to_chars("title = \"");
        let escaped = toml_basic_string_escape(default_title);
        push_str_chars(&mut out, escaped.as_str());
        push_str_chars(&mut out, "\"");
        return from_chars(out.as_slice());
    } else if str_eq(name, "description") && string {
        "description = \"\""
    } else if str_eq(name, "template") && string {
        if section_index {
            "template = \"section.html\""
        } else {
            "template = \"page.html\""
        }
    } else if str_eq(name, "asset") && string {
        "asset = \"\""
    } else if str_eq(name, "data") && string {
        "data = \"\""
    } else if str_eq(name, "weight") && spec.kind == FrontmatterFieldKind::Integer {
        "weight = 0"
    } else if str_eq(name, "extra") && spec.kind == FrontmatterFieldKind::Table {
        "[extra]\n"
    } else {
        name
    };
    from_chars(to_chars(text).as_slice())
}

/// The frontmatter of `content` declares an `[extra]` table: some line of
/// its body, trimmed, is a table header named `extra`.
pub open spec fn spec_frontmatter_has_extra_table(content: Seq<char>) -> bool {
    match spec_fm_block(content) {
        None => false,
        Some((a, b)) => exists|k: int|
            0 <= k < split(content.subrange(a, b), '\n').len() && spec_table_name(
                trim(#[trigger] split(content.subrange(a, b), '\n')[k]),
            ) == Some("extra"@),
    }
}

/// Whether the frontmatter of `content` declares an `[extra]` table.
pub fn frontmatter_has_extra_table(content: &str) -> (r: bool)
    ensures
        r == spec_frontmatter_has_extra_table(content@),
{
    let v = to_chars(content);
    let (a, b) = match fm_block_chars(v.as_slice()) {
        Some(ab) => ab,
        None => return false,
    };
    let body = crate::text::sub_chars(v.as_slice(), a, b);
    let lines = crate::routes::split_pieces(body.as_slice(), '\n');
    let mut k: usize = 0;
    while k < lines.len()
        invariant
            k <= lines.len(),
            spec_fm_block(content@) == Some((a as int, b as int)),
            a <= b <= content@.len(),
            body@ == content@.subrange(a as int, b as int),
            views(lines@) == split(body@, '\n'),
            forall|j: int|
                0 <= j < k ==> spec_table_name(trim(#[trigger] split(body@, '\n')[j])) != Some(
                    "extra"@,
                ),
        decreases lines.len() - k,
    {
        let line = &lines[k];
        let (x, y) = crate::text::trim_bounds(line.as_slice(), 0, line.len());
        assert(line@.subrange(0, line@.len() as int) == line@);
        match table_name_in(line.as_slice(), x, y) {
            Some(n) => {
                let ns = from_chars(n.as_slice());
                if str_eq(ns.as_str(), "extra") {
                    assert(split(body@, '\n')[k as int] == line@);
                    return true;
                }
            },
            None => {},
        }
        assert(split(body@, '\n')[k as int] == line@);
        k = k + 1;
    }
    false
}

} // verus!
