//! What the editor shows for a page: its metadata tables on hover, the
//! build chain it goes through, and where site-graph findings about it are
//! reported.
use vstd::prelude::*;

use crate::diagnostics::{AuthoringDiagnostic, AuthoringDiagnosticKind};
use crate::editing::{first_occurrence_from, lemma_first_occurrence_from};
use crate::model::{AuthoringPage, AuthoringPageKind};
use crate::positions::byte_to_line_column;
use crate::text::{byte_len, find_char, find_from, first_index, from_chars, is_first_occurrence, occurs_at, push_str_chars, to_chars};

verus! {

// ---------------------------------------------------------------------------
// Decimal numbers
// ---------------------------------------------------------------------------

/// The decimal digit character for `d`.
pub open spec fn digit_char(d: int) -> char {
    if d == 0 {
        '0'
    } else if d == 1 {
        '1'
    } else if d == 2 {
        '2'
    } else if d == 3 {
        '3'
    } else if d == 4 {
        '4'
    } else if d == 5 {
        '5'
    } else if d == 6 {
        '6'
    } else if d == 7 {
        '7'
    } else if d == 8 {
        '8'
    } else {
        '9'
    }
}

fn digit_char_exec(d: usize) -> (c: char)
    requires
        d < 10,
    ensures
        c == digit_char(d as int),
{
    if d == 0 {
        '0'
    } else if d == 1 {
        '1'
    } else if d == 2 {
        '2'
    } else if d == 3 {
        '3'
    } else if d == 4 {
        '4'
    } else if d == 5 {
        '5'
    } else if d == 6 {
        '6'
    } else if d == 7 {
        '7'
    } else if d == 8 {
        '8'
    } else {
        '9'
    }
}

/// The decimal representation of `n`, without leading zeros.
pub open spec fn decimal(n: nat) -> Seq<char>
    decreases n,
{
    if n < 10 {
        seq![digit_char(n as int)]
    } else {
        decimal(n / 10) + seq![digit_char((n % 10) as int)]
    }
}

fn push_decimal(out: &mut Vec<char>, n: usize)
    ensures
        final(out)@ == old(out)@ + decimal(n as nat),
    decreases n,
{
    if n >= 10 {
        push_decimal(out, n / 10);
    }
    out.push(digit_char_exec(n % 10));
}

/// `n` written in decimal.
pub fn usize_to_decimal(n: usize) -> (r: String)
    ensures
        r@ == decimal(n as nat),
{
    let mut out: Vec<char> = Vec::new();
    push_decimal(&mut out, n);
    assert(Seq::<char>::empty() + decimal(n as nat) == decimal(n as nat));
    from_chars(out.as_slice())
}

// ---------------------------------------------------------------------------
// Hover tables
// ---------------------------------------------------------------------------

/// The page's route, source, template and output as a Markdown table.
pub open spec fn spec_page_hover_metadata_table(page: AuthoringPage) -> Seq<char> {
    "| route | source | template | output |\n| --- | --- | --- | --- |\n| `"@ + page.route@ + "` | `"@
        + page.source_file@ + "` | `"@ + page.template@ + "` | `"@ + page.output_path@ + "` |"@
}

/// The page's metadata table for hovers.
pub fn page_hover_metadata_table(page: &AuthoringPage) -> (r: String)
    ensures
        r@ == spec_page_hover_metadata_table(*page),
{
    let mut out: Vec<char> = Vec::new();
    push_str_chars(
        &mut out,
        "| route | source | template | output |\n| --- | --- | --- | --- |\n| `",
    );
    push_str_chars(&mut out, page.route.as_str());
    push_str_chars(&mut out, "` | `");
    push_str_chars(&mut out, page.source_file.as_str());
    push_str_chars(&mut out, "` | `");
    push_str_chars(&mut out, page.template.as_str());
    push_str_chars(&mut out, "` | `");
    push_str_chars(&mut out, page.output_path.as_str());
    push_str_chars(&mut out, "` |");
    from_chars(out.as_slice())
}

/// The page's route, source, heading count and backlink count as a
/// Markdown table.
pub open spec fn spec_frontmatter_hover_metadata_table(page: AuthoringPage, backlinks: nat) -> Seq<char> {
    "| route | source | headings | backlinks |\n| --- | --- | ---: | ---: |\n| `"@ + page.route@
        + "` | `"@ + page.source_file@ + "` | `"@ + decimal(page.heading_ids@.len()) + "` | `"@
        + decimal(backlinks) + "` |"@
}

/// The metadata table shown when hovering a page's frontmatter.
pub fn frontmatter_hover_metadata_table(page: &AuthoringPage, backlink_count: usize) -> (r: String)
    ensures
        r@ == spec_frontmatter_hover_metadata_table(*page, backlink_count as nat),
{
    let mut out: Vec<char> = Vec::new();
    push_str_chars(
        &mut out,
        "| route | source | headings | backlinks |\n| --- | --- | ---: | ---: |\n| `",
    );
    push_str_chars(&mut out, page.route.as_str());
    push_str_chars(&mut out, "` | `");
    push_str_chars(&mut out, page.source_file.as_str());
    push_str_chars(&mut out, "` | `");
    let headings = usize_to_decimal(page.heading_ids.len());
    push_str_chars(&mut out, headings.as_str());
    push_str_chars(&mut out, "` | `");
    let backlinks = usize_to_decimal(backlink_count);
    push_str_chars(&mut out, backlinks.as_str());
    push_str_chars(&mut out, "` |");
    from_chars(out.as_slice())
}

/// The build steps a page goes through, by kind.
pub open spec fn spec_page_transform_chain(kind: AuthoringPageKind) -> Seq<char> {
    match kind {
        AuthoringPageKind::Page => "markdown -> page template -> html postprocess -> output"@,
        AuthoringPageKind::Section => "markdown -> section template -> html postprocess -> output"@,
    }
}

/// The build steps a page goes through.
pub fn page_transform_chain(page: &AuthoringPage) -> (r: &'static str)
    ensures
        r@ == spec_page_transform_chain(page.kind),
{
    match page.kind {
        AuthoringPageKind::Page => "markdown -> page template -> html postprocess -> output",
        AuthoringPageKind::Section => "markdown -> section template -> html postprocess -> output",
    }
}

/// An ASCII letter.
pub open spec fn is_ascii_alpha(c: char) -> bool {
    ('a' <= c && c <= 'z') || ('A' <= c && c <= 'Z')
}

/// A name a template symbol may be renamed to: an ASCII letter or `_`,
/// then ASCII letters, digits and `_`.
pub open spec fn spec_is_valid_template_rename_name(name: Seq<char>) -> bool {
    &&& name.len() > 0
    &&& (name[0] == '_' || is_ascii_alpha(name[0]))
    &&& forall|i: int|
        1 <= i < name.len() ==> (#[trigger] name[i] == '_' || is_ascii_alpha(name[i]) || ('0'
            <= name[i] && name[i] <= '9'))
}

/// Whether `name` is a valid new name for a template symbol.
pub fn is_valid_template_rename_name(name: &str) -> (r: bool)
    ensures
        r == spec_is_valid_template_rename_name(name@),
{
    let v = to_chars(name);
    if v.len() == 0 {
        return false;
    }
    let c0 = v[0];
    if !(c0 == '_' || ('a' <= c0 && c0 <= 'z') || ('A' <= c0 && c0 <= 'Z')) {
        return false;
    }
    let mut i: usize = 1;
    while i < v.len()
        invariant
            1 <= i <= v.len(),
            v@ == name@,
            forall|k: int|
                1 <= k < i ==> (#[trigger] v@[k] == '_' || is_ascii_alpha(v@[k]) || ('0' <= v@[k]
                    && v@[k] <= '9')),
        decreases v.len() - i,
    {
        let c = v[i];
        if !(c == '_' || ('a' <= c && c <= 'z') || ('A' <= c && c <= 'Z') || ('0' <= c && c <= '9')) {
            return false;
        }
        i = i + 1;
    }
    true
}

// ---------------------------------------------------------------------------
// Where site-graph findings about a page are shown
// ---------------------------------------------------------------------------

/// The byte range that stands for a page as a whole: its frontmatter block
/// (through the closing `+++`, or the whole source when it is not closed),
/// else its first line.
pub open spec fn spec_site_graph_page_identity_byte_range(content: Seq<char>) -> (int, int) {
    if crate::text::starts_with(content, "+++\n"@) {
        match first_occurrence_from(content, "\n+++"@, 4) {
            Some(i) => (0, byte_len(content.take(i + 4)) as int),
            None => (0, byte_len(content) as int),
        }
    } else {
        match first_index(content, '\n') {
            Some(e) => (0, byte_len(content.take(e)) as int),
            None => (0, byte_len(content) as int),
        }
    }
}

/// The byte range that stands for a page as a whole.
pub fn site_graph_page_identity_byte_range(content: &str) -> (r: (usize, usize))
    requires
        byte_len(content@) <= usize::MAX,
    ensures
        r.0 == spec_site_graph_page_identity_byte_range(content@).0,
        r.1 == spec_site_graph_page_identity_byte_range(content@).1,
{
    let v = to_chars(content);
    let offsets = crate::frontmatter::byte_offsets(v.as_slice());
    assert(v@.take(v.len() as int) == v@);
    let open = to_chars("+++\n");
    let close = to_chars("\n+++");
    proof {
        reveal_strlit("+++\n");
        reveal_strlit("\n+++");
    }
    if crate::text::starts_with_exec(v.as_slice(), open.as_slice()) {
        match find_from(v.as_slice(), close.as_slice(), 4) {
            Some(i) => {
                proof {
                    lemma_first_occurrence_from(content@, "\n+++"@, 4, i as int);
                }
                assert(i + 4 <= v.len());
                (0, offsets[i + 4])
            },
            None => {
                proof {
                    if exists|i: int| is_first_occurrence(content@, "\n+++"@, 4, i) {
                        let i = choose|i: int| is_first_occurrence(content@, "\n+++"@, 4, i);
                        assert(occurs_at(content@, "\n+++"@, i));
                    }
                }
                (0, offsets[v.len()])
            },
        }
    } else {
        match find_char(v.as_slice(), '\n') {
            Some(e) => (0, offsets[e]),
            None => (0, offsets[v.len()]),
        }
    }
}

/// A site-graph finding about a whole page (a duplicate title, an orphan,
/// no inbound links): reported against the page's identity range, with the
/// page's route as the resolved route.
pub fn site_graph_diagnostic_for_page(
    page: &AuthoringPage,
    content: &str,
    kind: AuthoringDiagnosticKind,
    target: &str,
    message: String,
) -> (d: AuthoringDiagnostic)
    requires
        byte_len(content@) <= usize::MAX,
        content@.len() < u32::MAX,
    ensures
        d.source_file@ == page.source_file@,
        d.route@ == page.route@,
        d.kind == kind,
        d.target@ == target@,
        d.resolved_route matches Some(r) && r@ == page.route@,
        d.message == message,
        d.byte_start == spec_site_graph_page_identity_byte_range(content@).0,
        d.byte_end == spec_site_graph_page_identity_byte_range(content@).1,
        d.located_in(content@),
{
    let (byte_start, byte_end) = site_graph_page_identity_byte_range(content);
    let (line, column) = byte_to_line_column(content, byte_start);
    let (line_end, column_end) = byte_to_line_column(content, byte_end);
    AuthoringDiagnostic {
        source_file: page.source_file.clone(),
        route: page.route.clone(),
        kind,
        target: from_chars(to_chars(target).as_slice()),
        resolved_route: Some(page.route.clone()),
        message,
        line,
        column,
        line_end,
        column_end,
        byte_start,
        byte_end,
    }
}

} // verus!
