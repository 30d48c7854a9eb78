use dodeca::diagnostics::AuthoringDiagnosticKind;
use dodeca::model::{
    AuthoringPage, AuthoringPageKind, AuthoringProject, RenderedHref,
};
use dodeca::site_graph::{
    duplicate_route_diagnostics, duplicate_title_diagnostics, inbound_link_counts,
    inbound_link_diagnostics, is_section_landing_with_children, site_graph_diagnostics,
};

fn s(x: &str) -> String {
    x.to_string()
}

fn page(kind: AuthoringPageKind, route: &str, source: &str, title: &str) -> AuthoringPage {
    AuthoringPage {
        kind,
        route: s(route),
        source_file: s(source),
        title: s(title),
        description: None,
        template: s("page.html"),
        output_path: s("index.html"),
        headings: vec![],
        heading_ids: vec![],
        link_base_route: s("/"),
    }
}

fn project(pages: Vec<AuthoringPage>, contents: Vec<(&str, &str)>, rendered: Vec<(&str, Vec<&str>)>) -> AuthoringProject {
    let known_routes: Vec<String> = pages.iter().map(|p| p.route.clone()).collect();
    let source_to_route: Vec<(String, String)> =
        pages.iter().map(|p| (p.source_file.clone(), p.route.clone())).collect();
    let route_to_source: Vec<(String, String)> =
        pages.iter().map(|p| (p.route.clone(), p.source_file.clone())).collect();
    AuthoringProject {
        pages,
        known_routes,
        headings_by_route: vec![],
        source_to_route,
        route_to_source,
        source_contents: contents.into_iter().map(|(a, b)| (s(a), s(b))).collect(),
        template_paths: vec![],
        template_contents: vec![],
        static_paths: vec![],
        data_paths: vec![],
        data_keys: vec![],
        template_semantics: vec![],
        rendered_hrefs_by_route: rendered
            .into_iter()
            .map(|(r, hs)| {
                (
                    s(r),
                    hs.into_iter()
                        .map(|h| RenderedHref { href: s(h), origin: None })
                        .collect(),
                )
            })
            .collect(),
    }
}

fn sample() -> AuthoringProject {
    project(
        vec![
            page(AuthoringPageKind::Section, "/", "_index.md", "Home"),
            page(AuthoringPageKind::Page, "/a", "a.md", "Same"),
            page(AuthoringPageKind::Page, "/b", "b.md", "Same"),
            page(AuthoringPageKind::Page, "/c", "c.md", "  "),
            page(AuthoringPageKind::Page, "/d", "d.md", "  "),
        ],
        vec![
            ("_index.md", "+++\ntitle = \"Home\"\n+++\n\n[a](/a) [self](/)\n"),
            ("a.md", "+++\ntitle = \"Same\"\n+++\n\n[home](/) [a again](/a)\n"),
            ("b.md", "+++\ntitle = \"Same\"\n+++\nbody\n"),
            ("c.md", "no frontmatter\n"),
            ("d.md", "plain\n"),
        ],
        vec![("/a", vec!["/b", "/a", "https://example.com"])],
    )
}

fn count_of(counts: &[(String, usize)], route: &str) -> usize {
    counts.iter().find(|(r, _)| r == route).map(|(_, c)| *c).unwrap_or(0)
}

#[test]
fn inbound_counts_skip_self_links_and_unknown_routes() {
    let counts = inbound_link_counts(&sample());
    assert_eq!(count_of(&counts, "/a"), 1);
    assert_eq!(count_of(&counts, "/"), 1);
    assert_eq!(count_of(&counts, "/b"), 1);
    assert_eq!(count_of(&counts, "/c"), 0);
    assert!(counts.iter().all(|(_, c)| *c > 0));
}

#[test]
fn unlinked_pages_are_reported_except_root() {
    let diags = inbound_link_diagnostics(&sample());
    let routes: Vec<&str> = diags.iter().map(|d| d.route.as_str()).collect();
    assert_eq!(routes, vec!["/c", "/d"]);
    assert_eq!(diags[0].kind, AuthoringDiagnosticKind::OrphanPage);
    assert_eq!(diags[0].message, "/c has no inbound links");
    assert_eq!(diags[0].target, "/c");
    assert_eq!(diags[0].resolved_route.as_deref(), Some("/c"));
}

#[test]
fn duplicate_titles_ignore_blank_titles() {
    let diags = duplicate_title_diagnostics(&sample());
    let files: Vec<&str> = diags.iter().map(|d| d.source_file.as_str()).collect();
    assert_eq!(files, vec!["a.md", "b.md"]);
    assert_eq!(diags[0].kind, AuthoringDiagnosticKind::DuplicateTitle);
    assert_eq!(diags[0].message, "title 'Same' is used by multiple pages");
    assert_eq!(diags[0].line, 1);
    assert_eq!(diags[0].byte_start, 0);
    assert_eq!(diags[0].byte_end, "+++\ntitle = \"Same\"\n+++".len());
}

#[test]
fn duplicate_routes_are_reported_per_page() {
    let p = project(
        vec![
            page(AuthoringPageKind::Page, "/x", "x.md", "X"),
            page(AuthoringPageKind::Page, "/y", "y.md", "Y"),
            page(AuthoringPageKind::Page, "/x", "x2.md", "X2"),
        ],
        vec![("x.md", "one\n"), ("y.md", "two\n"), ("x2.md", "three\nmore\n")],
        vec![],
    );
    let diags = duplicate_route_diagnostics(&p);
    let files: Vec<&str> = diags.iter().map(|d| d.source_file.as_str()).collect();
    assert_eq!(files, vec!["x.md", "x2.md"]);
    assert_eq!(diags[1].message, "route '/x' is produced by multiple source files");
    assert_eq!(diags[1].byte_end, 5);
    assert!(duplicate_title_diagnostics(&p).is_empty());
}

#[test]
fn section_landing_with_children_is_not_an_orphan() {
    let p = project(
        vec![
            page(AuthoringPageKind::Section, "/", "_index.md", "Home"),
            page(AuthoringPageKind::Section, "/docs/", "docs/_index.md", "Docs"),
            page(AuthoringPageKind::Page, "/docs/intro", "docs/intro.md", "Intro"),
        ],
        vec![
            ("_index.md", "home\n"),
            ("docs/_index.md", "docs\n"),
            ("docs/intro.md", "[docs](/docs/)\n"),
        ],
        vec![],
    );
    assert!(is_section_landing_with_children(&p, &p.pages[1]));
    assert!(!is_section_landing_with_children(&p, &p.pages[2]));
    let diags = inbound_link_diagnostics(&p);
    let routes: Vec<&str> = diags.iter().map(|d| d.route.as_str()).collect();
    assert_eq!(routes, vec!["/docs/intro"]);
    let all = site_graph_diagnostics(&p);
    assert_eq!(all.len(), 1);
}

use dodeca::diagnostics::AuthoringDiagnostic;
use dodeca::site_graph::load_authoring_diagnostics;

#[test]
fn all_site_diagnostics_sorted_by_file_offset_and_target() {
    let template = AuthoringDiagnostic {
        source_file: s("templates/page.html"),
        route: s(""),
        kind: AuthoringDiagnosticKind::MissingBlock,
        target: s("content"),
        resolved_route: None,
        message: s("block 'content' not found"),
        line: 1,
        column: 1,
        line_end: 1,
        column_end: 2,
        byte_start: 0,
        byte_end: 1,
    };
    let diags = load_authoring_diagnostics(&sample(), vec![template]);
    let files: Vec<&str> = diags.iter().map(|d| d.source_file.as_str()).collect();
    assert_eq!(files, vec!["a.md", "b.md", "c.md", "d.md", "templates/page.html"]);
    assert_eq!(diags[0].kind, AuthoringDiagnosticKind::DuplicateTitle);
    assert_eq!(diags[2].kind, AuthoringDiagnosticKind::OrphanPage);
}
