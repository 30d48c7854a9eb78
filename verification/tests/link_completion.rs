use dodeca::graph::MarkdownReferenceKind;
use dodeca::link_completion::{
    completion_items_for_markdown_target, heading_completion_items, markdown_reference_kind_before_link_close,
    markdown_target_contexts, route_completion_items, source_completion_items,
    static_completion_items, LinkCompletionKind, MarkdownTargetContext,
};
use dodeca::model::{AuthoringPage, AuthoringPageKind, AuthoringProject};
use dodeca::positions::{Position, Range};

fn s(x: &str) -> String {
    x.to_string()
}

fn page(route: &str, source: &str, title: &str, headings: &[&str]) -> AuthoringPage {
    AuthoringPage {
        kind: AuthoringPageKind::Page,
        route: s(route),
        source_file: s(source),
        title: s(title),
        description: None,
        template: s("page.html"),
        output_path: s("index.html"),
        headings: vec![],
        heading_ids: headings.iter().map(|h| s(h)).collect(),
        link_base_route: s("/docs/"),
    }
}

fn site() -> AuthoringProject {
    AuthoringProject {
        pages: vec![
            page("/docs/intro", "docs/intro.md", "Intro", &["setup"]),
            page("/docs/api", "docs/api.md", "API", &["calls", "errors"]),
        ],
        known_routes: vec![s("/docs/intro"), s("/docs/api")],
        headings_by_route: vec![],
        source_to_route: vec![(s("docs/intro.md"), s("/docs/intro")), (s("docs/api.md"), s("/docs/api"))],
        route_to_source: vec![(s("/docs/intro"), s("docs/intro.md")), (s("/docs/api"), s("docs/api.md"))],
        source_contents: vec![],
        template_paths: vec![],
        template_contents: vec![],
        static_paths: vec![(s("logo.png"), s("/abs/logo.png")), (s("css/site.css"), s("/abs/site.css"))],
        data_paths: vec![],
        data_keys: vec![],
        template_semantics: vec![],
        rendered_hrefs_by_route: vec![],
    }
}

fn context(kind: MarkdownReferenceKind, target: &str) -> MarkdownTargetContext {
    let zero = Position { line: 0, character: 0 };
    MarkdownTargetContext {
        kind,
        target: s(target),
        range: Range { start: zero, end: zero },
        byte_start: 0,
        byte_end: target.len(),
    }
}

#[test]
fn target_contexts_of_a_source() {
    let content = "See [a](/docs/api) and ![logo](/logo.png)\n[open](unfinished\n[esc](a\\)b)";
    let contexts = markdown_target_contexts(content);
    let targets: Vec<&str> = contexts.iter().map(|c| c.target.as_str()).collect();
    assert_eq!(targets, vec!["/docs/api", "/logo.png", "unfinished", "a\\)b"]);
    assert_eq!(contexts[0].kind, MarkdownReferenceKind::Link);
    assert_eq!(contexts[1].kind, MarkdownReferenceKind::Image);
    assert_eq!(contexts[0].byte_start, 8);
    assert_eq!(contexts[0].byte_end, 17);
    assert_eq!(contexts[2].range.start, Position { line: 1, character: 7 });
}

#[test]
fn image_detection_before_link_close() {
    let content = "x ![alt](a.png) [t](b)";
    let first_close = content.find("](").unwrap();
    assert_eq!(markdown_reference_kind_before_link_close(content, first_close), MarkdownReferenceKind::Image);
    let second_close = content.rfind("](").unwrap();
    assert_eq!(markdown_reference_kind_before_link_close(content, second_close), MarkdownReferenceKind::Link);
}

#[test]
fn route_and_file_completions() {
    let p = site();
    let here = &p.pages[0];
    let routes = route_completion_items(&p, here, &context(MarkdownReferenceKind::Link, "/d"));
    let labels: Vec<&str> = routes.iter().map(|c| c.label.as_str()).collect();
    assert_eq!(labels, vec!["/docs/intro", "/docs/api"]);
    assert_eq!(routes[1].detail, "API (docs/api.md)");
    let relative = route_completion_items(&p, here, &context(MarkdownReferenceKind::Link, "a"));
    assert_eq!(relative[1].label, "api");

    let sources = source_completion_items(&p, &context(MarkdownReferenceKind::Link, "@"));
    let labels: Vec<&str> = sources.iter().map(|c| c.label.as_str()).collect();
    assert_eq!(labels, vec!["@/docs/api.md", "@/docs/intro.md"]);
    assert_eq!(sources[0].detail, "Dodeca source route /docs/api");
    assert_eq!(sources[0].kind, LinkCompletionKind::File);

    let statics = static_completion_items(&p, &context(MarkdownReferenceKind::Image, ""));
    let labels: Vec<&str> = statics.iter().map(|c| c.label.as_str()).collect();
    assert_eq!(labels, vec!["/css/site.css", "/logo.png"]);
}

#[test]
fn heading_completions() {
    let p = site();
    let here = &p.pages[0];
    let items = heading_completion_items(&p, here, &context(MarkdownReferenceKind::Link, "/docs/api#"));
    let labels: Vec<&str> = items.iter().map(|c| c.label.as_str()).collect();
    assert_eq!(labels, vec!["/docs/api#calls", "/docs/api#errors"]);
    assert_eq!(items[0].detail, "Heading on /docs/api");
    let local = heading_completion_items(&p, here, &context(MarkdownReferenceKind::Link, "#se"));
    let labels: Vec<&str> = local.iter().map(|c| c.label.as_str()).collect();
    assert_eq!(labels, vec!["#setup"]);
    let by_source = heading_completion_items(&p, here, &context(MarkdownReferenceKind::Link, "@/docs/api.md#"));
    assert_eq!(by_source.len(), 2);
    assert!(heading_completion_items(&p, here, &context(MarkdownReferenceKind::Link, "@/nope.md#")).is_empty());
}

#[test]
fn completion_dispatch() {
    let p = site();
    let here = &p.pages[0];
    assert!(completion_items_for_markdown_target(&p, here, &context(MarkdownReferenceKind::Link, "https://x")).is_empty());
    assert_eq!(completion_items_for_markdown_target(&p, here, &context(MarkdownReferenceKind::Link, "@/d")).len(), 2);
    assert_eq!(completion_items_for_markdown_target(&p, here, &context(MarkdownReferenceKind::Image, "x")).len(), 2);
    assert_eq!(completion_items_for_markdown_target(&p, here, &context(MarkdownReferenceKind::Link, "/")).len(), 4);
    assert_eq!(completion_items_for_markdown_target(&p, here, &context(MarkdownReferenceKind::Link, "a")).len(), 2);
    assert_eq!(completion_items_for_markdown_target(&p, here, &context(MarkdownReferenceKind::Link, "a#")).len(), 0);
}
