use dodeca::link_completion::markdown_target_contexts;
use dodeca::model::{
    AuthoringInputPath, AuthoringPage, AuthoringPageKind, AuthoringProject, RenderedHref,
    RenderedHrefOrigin,
};
use dodeca::positions::{Position, Range};
use dodeca::route_rename::{
    page_route_link_edit, page_route_rename_plan, page_route_rendered_href_edit, rendered_href_origin_range,
    sort_and_dedup_edits, PageRouteRenameTarget, PageRouteTextEdit,
};

fn s(x: &str) -> String {
    x.to_string()
}

fn page(route: &str, source: &str) -> AuthoringPage {
    AuthoringPage {
        kind: AuthoringPageKind::Page,
        route: s(route),
        source_file: s(source),
        title: s("T"),
        description: None,
        template: s("page.html"),
        output_path: s("index.html"),
        headings: vec![],
        heading_ids: vec![],
        link_base_route: s("/docs/"),
    }
}

const INTRO: &str = "[a](/docs/api#calls) [b](api.md) [c](@/docs/api.md) [d](api) [e](/docs/other)";

fn site() -> AuthoringProject {
    AuthoringProject {
        pages: vec![page("/docs/intro", "docs/intro.md"), page("/docs/api", "docs/api.md"), page("/docs/other", "docs/other.md")],
        known_routes: vec![s("/docs/intro"), s("/docs/api"), s("/docs/other")],
        headings_by_route: vec![],
        source_to_route: vec![
            (s("docs/intro.md"), s("/docs/intro")),
            (s("docs/api.md"), s("/docs/api")),
            (s("docs/other.md"), s("/docs/other")),
        ],
        route_to_source: vec![
            (s("/docs/intro"), s("docs/intro.md")),
            (s("/docs/api"), s("docs/api.md")),
            (s("/docs/other"), s("docs/other.md")),
        ],
        source_contents: vec![(s("docs/intro.md"), s(INTRO))],
        template_paths: vec![],
        template_contents: vec![(s("page.html"), s("<a href=\"/docs/api\">"))],
        static_paths: vec![],
        data_paths: vec![],
        data_keys: vec![],
        template_semantics: vec![],
        rendered_hrefs_by_route: vec![],
    }
}

fn target() -> PageRouteRenameTarget {
    PageRouteRenameTarget { route: s("/docs/reference"), source_file: s("docs/reference.md") }
}

#[test]
fn markdown_links_follow_a_renamed_page() {
    let p = site();
    let contexts = markdown_target_contexts(INTRO);
    let new_targets: Vec<Option<String>> = contexts
        .into_iter()
        .map(|c| page_route_link_edit(&p, &p.pages[0], &p.pages[1], &target(), c).map(|e| e.new_target))
        .collect();
    assert_eq!(
        new_targets,
        vec![
            Some(s("/docs/reference#calls")),
            Some(s("reference.md")),
            Some(s("@/docs/reference.md")),
            Some(s("reference")),
            None,
        ]
    );
    let c = markdown_target_contexts(INTRO).remove(0);
    let range = c.range;
    let edit = page_route_link_edit(&p, &p.pages[0], &p.pages[1], &target(), c).unwrap();
    assert_eq!(edit.range, range);
    assert!(matches!(edit.path, AuthoringInputPath::Source(ref f) if f == "docs/intro.md"));
}

#[test]
fn rendered_links_follow_a_renamed_page() {
    let p = site();
    let origin = RenderedHrefOrigin { path: AuthoringInputPath::Template(s("page.html")), byte_start: 9, byte_end: 18 };
    assert_eq!(
        rendered_href_origin_range(&p, &origin),
        Some(Range { start: Position { line: 0, character: 9 }, end: Position { line: 0, character: 18 } })
    );
    let href = RenderedHref { href: s("/docs/api"), origin: Some(origin) };
    let edit = page_route_rendered_href_edit(&p, &p.pages[0], &p.pages[1], &target(), &href).unwrap();
    assert_eq!(edit.new_target, "/docs/reference");
    assert!(matches!(edit.path, AuthoringInputPath::Template(ref f) if f == "page.html"));
    let relative = RenderedHref { href: s("api"), origin: href.origin.clone() };
    assert!(page_route_rendered_href_edit(&p, &p.pages[0], &p.pages[1], &target(), &relative).is_none());
    let unknown = RenderedHrefOrigin { path: AuthoringInputPath::Static(s("x")), byte_start: 0, byte_end: 1 };
    assert_eq!(rendered_href_origin_range(&p, &unknown), None);
}

fn edit(path: AuthoringInputPath, line: u32, new_target: &str) -> PageRouteTextEdit {
    let p = Position { line, character: 0 };
    PageRouteTextEdit { path, range: Range { start: p, end: p }, new_target: s(new_target) }
}

#[test]
fn rename_edits_are_sorted_and_deduplicated() {
    let edits = vec![
        edit(AuthoringInputPath::Template(s("a.html")), 0, "/x"),
        edit(AuthoringInputPath::Source(s("b.md")), 3, "/x"),
        edit(AuthoringInputPath::Source(s("b.md")), 1, "/x"),
        edit(AuthoringInputPath::Source(s("b.md")), 3, "/x"),
    ];
    let sorted = sort_and_dedup_edits(edits);
    let keys: Vec<(String, u32)> = sorted
        .iter()
        .map(|e| match &e.path {
            AuthoringInputPath::Source(f) => (format!("source:{f}"), e.range.start.line),
            AuthoringInputPath::Template(f) => (format!("template:{f}"), e.range.start.line),
            _ => (s("?"), 0),
        })
        .collect();
    assert_eq!(
        keys,
        vec![(s("source:b.md"), 1), (s("source:b.md"), 3), (s("template:a.html"), 0)]
    );
}

fn plan_site() -> AuthoringProject {
    let mut p = site();
    let origin = RenderedHrefOrigin { path: AuthoringInputPath::Template(s("page.html")), byte_start: 9, byte_end: 18 };
    p.rendered_hrefs_by_route = vec![(
        s("/docs/other"),
        vec![
            RenderedHref { href: s("/docs/api"), origin: Some(origin.clone()) },
            RenderedHref { href: s("/docs/api"), origin: Some(origin) },
            RenderedHref { href: s("/docs/intro"), origin: None },
        ],
    )];
    p
}

#[test]
fn rename_plans_collect_every_link_to_the_page() {
    let p = plan_site();
    let plan = page_route_rename_plan(&p, &p.pages[1], &target(), false).expect("plan");
    assert_eq!(plan.old_route, "/docs/api");
    assert_eq!(plan.new_route, "/docs/reference");
    assert_eq!(plan.old_source_file, "docs/api.md");
    assert_eq!(plan.new_source_file, "docs/reference.md");
    let edits: Vec<(String, u32, String)> = plan
        .text_edits
        .iter()
        .map(|e| match &e.path {
            AuthoringInputPath::Source(f) => (format!("source:{f}"), e.range.start.character, e.new_target.clone()),
            AuthoringInputPath::Template(f) => (format!("template:{f}"), e.range.start.character, e.new_target.clone()),
            _ => (s("?"), 0, s("?")),
        })
        .collect();
    assert_eq!(
        edits,
        vec![
            (s("source:docs/intro.md"), 4, s("/docs/reference#calls")),
            (s("source:docs/intro.md"), 25, s("reference.md")),
            (s("source:docs/intro.md"), 37, s("@/docs/reference.md")),
            (s("source:docs/intro.md"), 56, s("reference")),
            (s("template:page.html"), 9, s("/docs/reference")),
        ]
    );
}

#[test]
fn rename_plans_are_refused_when_nothing_changes_or_the_target_is_taken() {
    let p = plan_site();
    let same = PageRouteRenameTarget { route: s("/docs/api"), source_file: s("docs/api.md") };
    assert!(page_route_rename_plan(&p, &p.pages[1], &same, false).is_none());
    let taken_route = PageRouteRenameTarget { route: s("/docs/other"), source_file: s("docs/other2.md") };
    assert!(page_route_rename_plan(&p, &p.pages[1], &taken_route, false).is_none());
    let taken_source = PageRouteRenameTarget { route: s("/docs/new"), source_file: s("docs/intro.md") };
    assert!(page_route_rename_plan(&p, &p.pages[1], &taken_source, false).is_none());
    assert!(page_route_rename_plan(&p, &p.pages[1], &target(), true).is_none());
    let same_file = PageRouteRenameTarget { route: s("/docs/api2"), source_file: s("docs/api.md") };
    assert!(page_route_rename_plan(&p, &p.pages[1], &same_file, true).is_some());
}
