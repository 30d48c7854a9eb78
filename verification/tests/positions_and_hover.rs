use dodeca::diagnostics::{AuthoringDiagnostic, AuthoringDiagnosticKind};
use dodeca::frontmatter::frontmatter_lsp_range;
use dodeca::graph::{MarkdownReference, MarkdownReferenceKind};
use dodeca::headings::{lsp_position_to_byte_offset, position_to_byte_offset};
use dodeca::link_completion::{
    fragment_range_for_target_context, markdown_target_context_at_position,
    markdown_target_contexts, target_context_for_diagnostic,
};
use dodeca::link_hover::{link_hover_markdown, page_link_hover_markdown, reference_at_position};
use dodeca::model::{AuthoringHeading, AuthoringPage, AuthoringPageKind, AuthoringProject};
use dodeca::positions::{byte_to_line_column, one_line_range, Position, Range};

fn s(x: &str) -> String {
    x.to_string()
}

fn pos(line: u32, character: u32) -> Position {
    Position { line, character }
}

#[test]
fn positions_to_byte_offsets() {
    let content = "ab\ncdé\n\nx";
    assert_eq!(position_to_byte_offset(content, pos(0, 0)), Some(0));
    assert_eq!(position_to_byte_offset(content, pos(0, 2)), Some(2));
    assert_eq!(position_to_byte_offset(content, pos(0, 3)), None);
    assert_eq!(position_to_byte_offset(content, pos(1, 3)), Some(7));
    assert_eq!(position_to_byte_offset(content, pos(2, 0)), Some(8));
    assert_eq!(position_to_byte_offset(content, pos(3, 1)), Some(10));
    assert_eq!(position_to_byte_offset(content, pos(4, 0)), None);
    assert_eq!(lsp_position_to_byte_offset("line\n", pos(1, 0)), None);
}

#[test]
fn positions_round_trip_through_byte_offsets() {
    let content = "ab\ncdé\n\nxy";
    for (b, _) in content.char_indices().chain(std::iter::once((content.len(), ' '))) {
        let (line, column) = byte_to_line_column(content, b);
        assert_eq!(position_to_byte_offset(content, pos(line - 1, column - 1)), Some(b));
    }
}

#[test]
fn frontmatter_and_line_ranges() {
    let content = "+++\ntitle = \"x\"\n+++\nbody";
    assert_eq!(
        frontmatter_lsp_range(content),
        Some(Range { start: pos(0, 0), end: pos(2, 3) })
    );
    assert_eq!(frontmatter_lsp_range("body"), None);
    assert_eq!(one_line_range(4), Range { start: pos(4, 0), end: pos(4, 0) });
}

#[test]
fn finding_references_and_targets_at_positions() {
    let content = "See [api](/docs/api#calls?x=1) now";
    let reference = reference_at_position(content, pos(0, 6)).unwrap();
    assert_eq!(reference.target, "/docs/api#calls?x=1");
    assert!(reference_at_position(content, pos(0, 1)).is_none());

    let context = markdown_target_context_at_position(content, pos(0, 12)).unwrap();
    assert_eq!(context.target, "/docs/api#calls?x=1");
    assert!(markdown_target_context_at_position(content, pos(0, 2)).is_none());

    let range = fragment_range_for_target_context(content, &context, "calls").unwrap();
    assert_eq!(range, Range { start: pos(0, 20), end: pos(0, 25) });
    assert!(fragment_range_for_target_context(content, &context, "other").is_none());

    let diagnostic = AuthoringDiagnostic {
        source_file: s("a.md"),
        route: s("/a"),
        kind: AuthoringDiagnosticKind::Anchor,
        target: s("/docs/api#calls?x=1"),
        resolved_route: None,
        message: s("m"),
        line: 1,
        column: 5,
        line_end: 1,
        column_end: 31,
        byte_start: 4,
        byte_end: 30,
    };
    let found = target_context_for_diagnostic(content, &diagnostic).unwrap();
    assert_eq!(found.byte_start, markdown_target_contexts(content)[0].byte_start);
}

fn page(route: &str, source: &str, title: &str) -> AuthoringPage {
    AuthoringPage {
        kind: AuthoringPageKind::Page,
        route: s(route),
        source_file: s(source),
        title: s(title),
        description: Some(s("All calls.")),
        template: s("page.html"),
        output_path: s("docs/api/index.html"),
        headings: vec![AuthoringHeading { id: s("calls"), title: s("Calls"), level: 2 }],
        heading_ids: vec![s("calls")],
        link_base_route: s("/docs/"),
    }
}

fn site() -> AuthoringProject {
    AuthoringProject {
        pages: vec![page("/docs/api", "docs/api.md", "API")],
        known_routes: vec![s("/docs/api")],
        headings_by_route: vec![(s("/docs/api"), vec![s("calls")])],
        source_to_route: vec![(s("docs/api.md"), s("/docs/api"))],
        route_to_source: vec![(s("/docs/api"), s("docs/api.md"))],
        source_contents: vec![],
        template_paths: vec![],
        template_contents: vec![],
        static_paths: vec![(s("logo.png"), s("/abs/logo.png"))],
        data_paths: vec![],
        data_keys: vec![],
        template_semantics: vec![],
        rendered_hrefs_by_route: vec![],
    }
}

fn link(kind: MarkdownReferenceKind, target: &str) -> MarkdownReference {
    MarkdownReference { kind, target: s(target), byte_start: 0, byte_end: 1 }
}

#[test]
fn link_hovers() {
    let p = site();
    let here = &p.pages[0];
    let table = "| route | source | template | output |\n| --- | --- | --- | --- |\n| `/docs/api` | `docs/api.md` | `page.html` | `docs/api/index.html` |";
    assert_eq!(
        page_link_hover_markdown(&p, here, Some("calls")),
        format!("**Dodeca API**\n\nAll calls.\n\n**Heading**: H2 `Calls` (`#calls`)\n\n{table}")
    );
    assert_eq!(
        page_link_hover_markdown(&p, here, None),
        format!("**Dodeca API**\n\nAll calls.\n\n{table}")
    );
    assert_eq!(
        link_hover_markdown(&p, here, "x", &link(MarkdownReferenceKind::Link, "https://e.com")),
        "**Dodeca link**\n\nSpecial target: `https://e.com`"
    );
    assert_eq!(
        link_hover_markdown(&p, here, "x", &link(MarkdownReferenceKind::Link, "/nope")),
        "**Dodeca link**\n\nroute '/nope' not found\n\nTarget: `/nope`"
    );
    assert_eq!(
        link_hover_markdown(&p, here, "x", &link(MarkdownReferenceKind::Image, "/logo.png")),
        "**Dodeca static asset**\n\nURL: `/logo.png`\n\nFile: `/abs/logo.png`"
    );
    assert!(link_hover_markdown(&p, here, "x", &link(MarkdownReferenceKind::Link, "@/docs/api.md"))
        .starts_with("**Dodeca API**"));
}

use dodeca::editing::anchor_suggestion_score;
use dodeca::headings::{create_missing_anchor_heading_edit, missing_anchor_heading_insertion, MarkdownHeading};

#[test]
fn anchor_suggestion_scores() {
    assert_eq!(anchor_suggestion_score("Install", "install", "install"), usize::MAX);
    assert_eq!(anchor_suggestion_score("setup--instal", "setup--install", "install"), 181);
    assert_eq!(anchor_suggestion_score("zzz", "abc", "abc"), 0);
    assert_eq!(anchor_suggestion_score("x--started", "other", "Getting Started"), 50);
    assert_eq!(anchor_suggestion_score("started", "other", "Started"), 50);
}

#[test]
fn missing_anchor_heading_edits() {
    let mut p = page("/g", "g.md", "Guide");
    p.heading_ids = vec![s("guide")];
    let content = "# Guide\n\nText\n";
    let headings = vec![MarkdownHeading {
        id: s("guide"),
        title: s("Guide"),
        level: 1,
        line: 1,
        title_range: Range { start: pos(0, 2), end: pos(0, 7) },
    }];
    assert_eq!(
        missing_anchor_heading_insertion(&p, content, &headings, "guide--next-steps"),
        Some((pos(1, 0), 2, s("Next Steps")))
    );
    let edit = create_missing_anchor_heading_edit(&p, content, "guide--next-steps").unwrap();
    assert_eq!(edit.new_text, "\n\n## Next Steps\n");
    assert_eq!(edit.range, Range { start: pos(1, 0), end: pos(1, 0) });
    let edit = create_missing_anchor_heading_edit(&p, content, "faq").unwrap();
    assert_eq!(edit.new_text, "\n\n# Faq\n");
    assert_eq!(edit.range.start, pos(3, 0));
    assert!(create_missing_anchor_heading_edit(&p, content, "--").is_none());
    assert_eq!(
        missing_anchor_heading_insertion(&p, content, &headings, "other--x").map(|x| x.0),
        Some(pos(3, 0))
    );
}

use dodeca::link_hover::static_asset_references;

#[test]
fn static_assets_of_a_page_are_sorted_and_unique() {
    let mut p = site();
    p.static_paths.push((s("docs/diagram.svg"), s("/abs/docs/diagram.svg")));
    let here = p.pages[0].clone();
    let content = "![a](/logo.png) [b](diagram.svg#x) ![c](/logo.png) [d](/missing.png) [e](/docs/api)";
    assert_eq!(
        static_asset_references(&p, &here, content),
        vec![s("diagram.svg"), s("logo.png")]
    );
    assert!(static_asset_references(&p, &here, "no links here").is_empty());
}
