use dodeca::dead_links::{diagnostic_for_reference, diagnostics_for_page, missing_anchor_message};
use dodeca::diagnostics::AuthoringDiagnosticKind;
use dodeca::graph::{markdown_references, MarkdownReference, MarkdownReferenceKind};
use dodeca::model::{AuthoringPage, AuthoringPageKind, AuthoringProject};

fn s(x: &str) -> String {
    x.to_string()
}

fn page(route: &str, source: &str) -> AuthoringPage {
    AuthoringPage {
        kind: AuthoringPageKind::Page,
        route: s(route),
        source_file: s(source),
        title: s("T"),
        description: None,
        template: s("page.html"),
        output_path: s("index.html"),
        headings: vec![],
        heading_ids: vec![],
        link_base_route: s("/"),
    }
}

fn site() -> AuthoringProject {
    AuthoringProject {
        pages: vec![page("/a", "a.md"), page("/b", "b.md")],
        known_routes: vec![s("/a"), s("/b")],
        headings_by_route: vec![(s("/a"), vec![]), (s("/b"), vec![s("usage")])],
        source_to_route: vec![(s("a.md"), s("/a")), (s("b.md"), s("/b"))],
        route_to_source: vec![(s("/a"), s("a.md")), (s("/b"), s("b.md"))],
        source_contents: vec![],
        template_paths: vec![],
        template_contents: vec![],
        static_paths: vec![(s("img/logo.png"), s("/site/static/img/logo.png"))],
        data_paths: vec![],
        data_keys: vec![],
        template_semantics: vec![],
        rendered_hrefs_by_route: vec![],
    }
}

fn link(target: &str) -> MarkdownReference {
    MarkdownReference {
        kind: MarkdownReferenceKind::Link,
        target: s(target),
        byte_start: 0,
        byte_end: 3,
    }
}

#[test]
fn anchor_messages() {
    let p = site();
    assert_eq!(missing_anchor_message(&p, "/b", Some("usage")), None);
    assert_eq!(
        missing_anchor_message(&p, "/b", Some("install")),
        Some(s("anchor '#install' not found on target page"))
    );
    assert_eq!(missing_anchor_message(&p, "/b", Some("")), None);
    assert_eq!(missing_anchor_message(&p, "/b", None), None);
    assert_eq!(missing_anchor_message(&p, "/nowhere", Some("x")), None);
}

#[test]
fn reference_findings_by_kind() {
    let p = site();
    let a = &p.pages[0];
    let content = "[x](y)\n";
    assert!(diagnostic_for_reference(&p, a, content, link("/b")).is_none());
    assert!(diagnostic_for_reference(&p, a, content, link("/b#usage")).is_none());
    assert!(diagnostic_for_reference(&p, a, content, link("https://example.com")).is_none());

    let d = diagnostic_for_reference(&p, a, content, link("/missing")).unwrap();
    assert_eq!(d.kind, AuthoringDiagnosticKind::Route);
    assert_eq!(d.message, "route '/missing' not found");
    assert_eq!(d.resolved_route.as_deref(), Some("/missing"));
    assert_eq!((d.line, d.column, d.line_end, d.column_end), (1, 1, 1, 4));

    let d = diagnostic_for_reference(&p, a, content, link("/b#install")).unwrap();
    assert_eq!(d.kind, AuthoringDiagnosticKind::Anchor);
    assert_eq!(d.message, "anchor '#install' not found on target page");

    let d = diagnostic_for_reference(&p, a, content, link("@/c.md")).unwrap();
    assert_eq!(d.kind, AuthoringDiagnosticKind::Source);
    assert_eq!(d.message, "source file 'c.md' not found");
    assert_eq!(d.resolved_route, None);

    let d = diagnostic_for_reference(&p, a, content, link("@/b.md#nope")).unwrap();
    assert_eq!(d.kind, AuthoringDiagnosticKind::Anchor);
    assert_eq!(d.resolved_route.as_deref(), Some("/b"));
    assert!(diagnostic_for_reference(&p, a, content, link("@/b.md")).is_none());

    let d = diagnostic_for_reference(&p, a, content, link("/img/missing.png")).unwrap();
    assert_eq!(d.kind, AuthoringDiagnosticKind::StaticAsset);
    assert_eq!(d.message, "static asset '/img/missing.png' not found");
    assert!(diagnostic_for_reference(&p, a, content, link("/img/logo.png")).is_none());
}

#[test]
fn page_diagnostics_list_dead_links_in_order() {
    let p = site();
    let a = &p.pages[0];
    let content = "[ok](/b) [bad](/zzz)\n\n[anchor](/b#gone)\n";
    assert_eq!(markdown_references(content).len(), 3);
    let diags = diagnostics_for_page(&p, a, content);
    let kinds: Vec<AuthoringDiagnosticKind> = diags.iter().map(|d| d.kind).collect();
    assert_eq!(kinds, vec![AuthoringDiagnosticKind::Route, AuthoringDiagnosticKind::Anchor]);
    assert_eq!(diags[0].target, "/zzz");
    assert_eq!(diags[1].line, 3);
}
