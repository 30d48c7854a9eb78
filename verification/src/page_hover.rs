//! The hover over a page's own frontmatter (its identity, metadata and how
//! it is built), and which hover a Markdown page shows at a position.
use vstd::prelude::*;

use crate::build_steps::lex_le;
use crate::editing::{markdown_content_excerpt, spec_markdown_content_excerpt};
use crate::frontmatter::{frontmatter_lsp_range, spec_fm_block, spec_frontmatter_entries};
use crate::frontmatter_links::{first_target_at, frontmatter_document_target_at_position, spec_document_targets};
use crate::graph::{reference_view, spec_markdown_references};
use crate::hover::{
    frontmatter_hover_metadata_table, page_transform_chain, spec_frontmatter_hover_metadata_table,
    spec_page_transform_chain,
};
use crate::link_completion::position_byte;
use crate::link_hover::{asset_candidates, link_hover_markdown, reference_at_position, spec_link_hover, static_asset_references};
use crate::model::{AuthoringPage, AuthoringPageKind, AuthoringProject};
use crate::positions::{
    byte_range_to_lsp_range, range_contains_position, spec_byte_range_to_lsp_range, spec_byte_to_line_column,
    spec_range_contains, zero_based, Position, Range,
};
use crate::text::{byte_len, from_chars, join, join_exec, push_str_chars, to_chars, views};

verus! {

/// The strings as plain values.
pub open spec fn string_views(v: Seq<String>) -> Seq<Seq<char>> {
    v.map_values(|s: String| s@)
}

/// `v` joined with `sep` in between, as characters.
pub fn join_strings(v: &Vec<String>, sep: &str) -> (r: Vec<char>)
    ensures
        r@ == join(string_views(v@), sep@),
{
    let mut parts: Vec<Vec<char>> = Vec::new();
    let mut i: usize = 0;
    while i < v.len()
        invariant
            i <= v.len(),
            views(parts@) == string_views(v@).take(i as int),
        decreases v.len() - i,
    {
        let ghost before = parts@;
        parts.push(to_chars(v[i].as_str()));
        assert(views(parts@) == views(before).push(v@[i as int]@));
        assert(string_views(v@).take(i + 1 as int) == string_views(v@).take(i as int).push(v@[i as int]@));
        i = i + 1;
    }
    assert(string_views(v@).take(v.len() as int) == string_views(v@));
    join_exec(&parts, to_chars(sep).as_slice())
}

/// `r` lists the assets `cands` holds, each once, in order.
pub open spec fn is_sorted_asset_list(r: Seq<Seq<char>>, cands: Seq<Seq<char>>) -> bool {
    &&& forall|i: int, j: int| 0 <= i < j < r.len() ==> lex_le(#[trigger] r[i], #[trigger] r[j]) && r[i] != r[j]
    &&& forall|x: Seq<char>| cands.contains(x) <==> r.contains(x)
}

/// The rows of a table, one per nonempty list.
pub open spec fn list_row(label: Seq<char>, items: Seq<Seq<char>>) -> Seq<char> {
    "| "@ + label + " | `"@ + join(items, "`, `"@) + "` |"@
}

/// How a page is built, as a Markdown table: its transform chain, then the
/// templates it renders with, the static assets it uses and the project's
/// data keys, each row only when its list is not empty.
pub open spec fn spec_provenance_table(
    kind: AuthoringPageKind,
    templates: Seq<Seq<char>>,
    assets: Seq<Seq<char>>,
    data_keys: Seq<Seq<char>>,
) -> Seq<char> {
    let rows0 = seq![
        "| build | value |"@,
        "| --- | --- |"@,
        "| transforms | `"@ + spec_page_transform_chain(kind) + "` |"@,
    ];
    let rows1 = if templates.len() > 0 {
        rows0.push(list_row("templates"@, templates))
    } else {
        rows0
    };
    let rows2 = if assets.len() > 0 {
        rows1.push(list_row("static assets"@, assets))
    } else {
        rows1
    };
    let rows3 = if data_keys.len() > 0 {
        rows2.push(list_row("data keys"@, data_keys))
    } else {
        rows2
    };
    join(rows3, "\n"@)
}

fn push_list_row(rows: &mut Vec<Vec<char>>, label: &str, items: &Vec<String>)
    ensures
        views(final(rows)@) == if items@.len() > 0 {
            views(old(rows)@).push(list_row(label@, string_views(items@)))
        } else {
            views(old(rows)@)
        },
{
    if items.len() > 0 {
        let mut row = to_chars("| ");
        push_str_chars(&mut row, label);
        push_str_chars(&mut row, " | `");
        let joined = join_strings(items, "`, `");
        push_str_chars(&mut row, from_chars(joined.as_slice()).as_str());
        push_str_chars(&mut row, "` |");
        let ghost before = rows@;
        rows.push(row);
        assert(views(rows@) == views(before).push(row@));
    }
}

/// The provenance table of `page` (whose source is `content`);
/// `templates` are the templates it renders with, in the order they are
/// reached from its own.
pub fn build_provenance_hover_table(
    project: &AuthoringProject,
    page: &AuthoringPage,
    content: &str,
    templates: &Vec<String>,
) -> (r: String)
    requires
        byte_len(content@) <= usize::MAX,
    ensures
        exists|assets: Seq<Seq<char>>|
            is_sorted_asset_list(assets, asset_candidates(*project, *page, spec_markdown_references(content@)))
                && r@ == spec_provenance_table(page.kind, string_views(templates@), assets, string_views(
                project.data_keys@,
            )),
{
    let mut rows: Vec<Vec<char>> = Vec::new();
    rows.push(to_chars("| build | value |"));
    rows.push(to_chars("| --- | --- |"));
    let mut transforms = to_chars("| transforms | `");
    push_str_chars(&mut transforms, page_transform_chain(page));
    push_str_chars(&mut transforms, "` |");
    rows.push(transforms);
    proof {
        reveal_strlit("| build | value |");
        reveal_strlit("| --- | --- |");
        reveal_strlit("| transforms | `");
        reveal_strlit("` |");
        assert(views(rows@) =~= seq![
            "| build | value |"@,
            "| --- | --- |"@,
            "| transforms | `"@ + spec_page_transform_chain(page.kind) + "` |"@,
        ]);
    }
    push_list_row(&mut rows, "templates", templates);
    let assets = static_asset_references(project, page, content);
    push_list_row(&mut rows, "static assets", &assets);
    push_list_row(&mut rows, "data keys", &project.data_keys);
    let ghost av = string_views(assets@);
    proof {
        let cands = asset_candidates(*project, *page, spec_markdown_references(content@));
        assert forall|i: int, j: int| 0 <= i < j < av.len() implies lex_le(#[trigger] av[i], #[trigger] av[j])
            && av[i] != av[j] by {
            assert(av[i] == assets@[i]@);
            assert(av[j] == assets@[j]@);
        }
        assert forall|x: Seq<char>| cands.contains(x) <==> av.contains(x) by {
            if cands.contains(x) {
                let i = choose|i: int| 0 <= i < assets@.len() && (#[trigger] assets@[i])@ == x;
                assert(av[i] == x);
            }
            if av.contains(x) {
                let i = choose|i: int| 0 <= i < av.len() && av[i] == x;
                assert(assets@[i]@ == x);
            }
        }
        assert(is_sorted_asset_list(av, cands));
    }
    let out = join_exec(&rows, to_chars("\n").as_slice());
    let r = from_chars(out.as_slice());
    assert(r@ == spec_provenance_table(page.kind, string_views(templates@), av, string_views(project.data_keys@)));
    r
}

/// The sections of the hover over a page's frontmatter: its kind and title,
/// its description when not empty, an excerpt of its body, its metadata
/// table and its provenance table.
pub open spec fn frontmatter_hover_sections(
    page: AuthoringPage,
    content: Seq<char>,
    backlinks: nat,
    provenance: Seq<char>,
) -> Seq<Seq<char>> {
    let kind = match page.kind {
        AuthoringPageKind::Page => "page"@,
        AuthoringPageKind::Section => "section"@,
    };
    let s0 = seq!["**Dodeca "@ + kind + ": "@ + page.title@ + "**"@];
    let s1 = match page.description {
        Some(d) => if d@.len() > 0 {
            s0.push(d@)
        } else {
            s0
        },
        None => s0,
    };
    let s2 = match spec_markdown_content_excerpt(content) {
        Some(e) => s1.push(e),
        None => s1,
    };
    s2.push(spec_frontmatter_hover_metadata_table(page, backlinks)).push(provenance)
}

/// The hover over a page's frontmatter, given how many links lead to it
/// and the templates it renders with.
pub fn frontmatter_hover_markdown(
    project: &AuthoringProject,
    page: &AuthoringPage,
    content: &str,
    backlink_count: usize,
    templates: &Vec<String>,
) -> (r: String)
    requires
        byte_len(content@) <= usize::MAX,
    ensures
        exists|assets: Seq<Seq<char>>|
            is_sorted_asset_list(assets, asset_candidates(*project, *page, spec_markdown_references(content@)))
                && r@ == join(
                frontmatter_hover_sections(
                    *page,
                    content@,
                    backlink_count as nat,
                    spec_provenance_table(page.kind, string_views(templates@), assets, string_views(
                        project.data_keys@,
                    )),
                ),
                "\n\n"@,
            ),
{
    let kind = match page.kind {
        AuthoringPageKind::Page => "page",
        AuthoringPageKind::Section => "section",
    };
    let mut sections: Vec<Vec<char>> = Vec::new();
    let mut first = to_chars("**Dodeca ");
    push_str_chars(&mut first, kind);
    push_str_chars(&mut first, ": ");
    push_str_chars(&mut first, page.title.as_str());
    push_str_chars(&mut first, "**");
    sections.push(first);
    match &page.description {
        Some(d) => {
            let dv = to_chars(d.as_str());
            if dv.len() > 0 {
                sections.push(dv);
            }
        },
        None => {},
    }
    match markdown_content_excerpt(content) {
        Some(e) => {
            sections.push(to_chars(e.as_str()));
        },
        None => {},
    }
    let table = frontmatter_hover_metadata_table(page, backlink_count);
    sections.push(to_chars(table.as_str()));
    let provenance = build_provenance_hover_table(project, page, content, templates);
    sections.push(to_chars(provenance.as_str()));
    let ghost assets = choose|assets: Seq<Seq<char>>|
        is_sorted_asset_list(assets, asset_candidates(*project, *page, spec_markdown_references(content@)))
            && provenance@ == spec_provenance_table(page.kind, string_views(templates@), assets, string_views(
            project.data_keys@,
        ));
    proof {
        reveal_strlit("**Dodeca ");
        reveal_strlit(": ");
        reveal_strlit("**");
        reveal_strlit("page");
        reveal_strlit("section");
        assert(views(sections@) =~= frontmatter_hover_sections(
            *page,
            content@,
            backlink_count as nat,
            provenance@,
        ));
    }
    let out = join_exec(&sections, to_chars("\n\n").as_slice());
    from_chars(out.as_slice())
}

/// A hover as plain values: its Markdown and its range.
pub open spec fn hover_view(r: Option<(String, Range)>) -> Option<(Seq<char>, Range)> {
    match r {
        Some((m, rg)) => Some((m@, rg)),
        None => None,
    }
}

/// The hover over a document that a frontmatter field points at.
pub open spec fn spec_target_hover(t: (crate::templates::FrontmatterDocumentKind, Seq<char>, Seq<char>, Range)) -> Seq<
    char,
> {
    "**Dodeca "@ + t.0.spec_label() + "**\n\n`"@ + t.1 + "`\n\nSource: `"@ + t.2 + "`"@
}

/// The editor range of the frontmatter block of `s`, fences included.
pub open spec fn spec_frontmatter_lsp_range(s: Seq<char>) -> Option<Range> {
    match spec_fm_block(s) {
        None => None,
        Some((a, b)) => Some(
            Range {
                start: Position { line: 0, character: 0 },
                end: zero_based(spec_byte_to_line_column(s, byte_len(s.take(b + 4)) as int)),
            },
        ),
    }
}

/// Reference `k` of `refs` is the first whose byte span holds byte `b`.
pub open spec fn is_first_reference_at(refs: Seq<(crate::graph::MarkdownReferenceKind, Seq<char>, int, int)>, b: int, k: int) -> bool {
    &&& 0 <= k < refs.len()
    &&& refs[k].2 <= b <= refs[k].3
    &&& forall|j: int| 0 <= j < k ==> !(#[trigger] refs[j].2 <= b && b <= refs[j].3)
}

/// `h` is the hover over the first link or image at `position`: the link
/// hover over the span of that reference, or none when no reference holds
/// the position.
pub open spec fn is_reference_hover(
    project: AuthoringProject,
    page: AuthoringPage,
    content: Seq<char>,
    position: Position,
    h: Option<(Seq<char>, Range)>,
) -> bool {
    let refs = spec_markdown_references(content);
    match position_byte(content, position) {
        None => h is None,
        Some(b) => match h {
            Some((m, rg)) => exists|k: int|
                is_first_reference_at(refs, b, k) && m == spec_link_hover(project, page, refs[k].0, refs[k].1)
                    && rg == spec_byte_range_to_lsp_range(content, refs[k].2, refs[k].3),
            None => forall|k: int| 0 <= k < refs.len() ==> !(#[trigger] refs[k].2 <= b && b <= refs[k].3),
        },
    }
}

/// `h` is the hover over the frontmatter block `fr` of `page`.
pub open spec fn is_frontmatter_hover(
    project: AuthoringProject,
    page: AuthoringPage,
    content: Seq<char>,
    backlinks: nat,
    templates: Seq<Seq<char>>,
    fr: Range,
    h: Option<(Seq<char>, Range)>,
) -> bool {
    h matches Some((m, rg)) && rg == fr && exists|assets: Seq<Seq<char>>|
        is_sorted_asset_list(assets, asset_candidates(project, page, spec_markdown_references(content)))
            && m == join(
            frontmatter_hover_sections(
                page,
                content,
                backlinks,
                spec_provenance_table(page.kind, templates, assets, string_views(project.data_keys@)),
            ),
            "\n\n"@,
        )
}

/// What hovering `position` of the Markdown page `page` (whose source is
/// `content`) shows, first match wins: the document a frontmatter field
/// there points at; the page's own frontmatter summary anywhere in the
/// frontmatter block; the link or image under the cursor. `backlink_count`
/// is how many links lead to the page and `templates` the templates it
/// renders with.
pub fn markdown_document_hover(
    project: &AuthoringProject,
    page: &AuthoringPage,
    content: &str,
    position: Position,
    backlink_count: usize,
    templates: &Vec<String>,
) -> (r: Option<(String, Range)>)
    requires
        content@.len() < u32::MAX,
        byte_len(content@) <= usize::MAX,
    ensures
        match first_target_at(
            spec_document_targets(*project, content@, spec_frontmatter_entries(content@)),
            position,
        ) {
            Some(t) => hover_view(r) == Some((spec_target_hover(t), t.3)),
            None => match spec_frontmatter_lsp_range(content@) {
                Some(fr) => if spec_range_contains(fr, position) {
                    is_frontmatter_hover(
                        *project,
                        *page,
                        content@,
                        backlink_count as nat,
                        string_views(templates@),
                        fr,
                        hover_view(r),
                    )
                } else {
                    is_reference_hover(*project, *page, content@, position, hover_view(r))
                },
                None => is_reference_hover(*project, *page, content@, position, hover_view(r)),
            },
        },
{
    match frontmatter_document_target_at_position(project, content, position) {
        Some(target) => {
            let m = target.hover_markdown();
            return Some((m, target.source_range));
        },
        None => {},
    }
    match frontmatter_lsp_range(content) {
        Some(fr) => {
            if range_contains_position(&fr, position) {
                let m = frontmatter_hover_markdown(project, page, content, backlink_count, templates);
                return Some((m, fr));
            }
        },
        None => {},
    }
    match reference_at_position(content, position) {
        Some(reference) => {
            let m = link_hover_markdown(project, page, content, &reference);
            let range = byte_range_to_lsp_range(content, reference.byte_start, reference.byte_end);
            proof {
                let refs = spec_markdown_references(content@);
                let b = position_byte(content@, position)->0;
                let k = choose|k: int|
                    0 <= k < refs.len() && reference_view(reference) == refs[k] && refs[k].2 <= b <= refs[k].3
                        && forall|j: int| 0 <= j < k ==> !(#[trigger] refs[j].2 <= b && b <= refs[j].3);
                assert(is_first_reference_at(refs, b, k));
            }
            Some((m, range))
        },
        None => None,
    }
}

} // verus!
