use dodeca::graph::{
    markdown_references, reference_target_route, rendered_href_target_route,
    route_for_link_target, route_graph_for_project, source_target_for_relative_markdown_link,
    MarkdownReference, MarkdownReferenceKind, RouteGraphEdgeKind,
};
use dodeca::model::{
    AuthoringHeading, AuthoringPage, AuthoringPageKind, AuthoringProject, RenderedHref,
};

fn s(x: &str) -> String {
    x.to_string()
}

fn page(kind: AuthoringPageKind, route: &str, source: &str, base: &str) -> AuthoringPage {
    AuthoringPage {
        kind,
        route: s(route),
        source_file: s(source),
        title: s(route),
        description: None,
        template: s("page.html"),
        output_path: s("index.html"),
        headings: vec![AuthoringHeading {
            id: s("intro"),
            title: s("Intro"),
            level: 2,
        }],
        heading_ids: vec![s("intro")],
        link_base_route: s(base),
    }
}

fn href(h: &str) -> RenderedHref {
    RenderedHref {
        href: s(h),
        origin: None,
    }
}

fn site() -> AuthoringProject {
    let pages = vec![
        page(AuthoringPageKind::Section, "/", "_index.md", "/"),
        page(AuthoringPageKind::Page, "/guide", "guide.md", "/"),
        page(AuthoringPageKind::Page, "/rendered", "rendered.md", "/"),
    ];
    AuthoringProject {
        known_routes: vec![s("/"), s("/guide"), s("/rendered")],
        headings_by_route: vec![
            (s("/"), vec![s("intro")]),
            (s("/guide"), vec![s("intro")]),
            (s("/rendered"), vec![s("intro")]),
        ],
        source_to_route: vec![
            (s("_index.md"), s("/")),
            (s("guide.md"), s("/guide")),
            (s("rendered.md"), s("/rendered")),
        ],
        route_to_source: vec![
            (s("/"), s("_index.md")),
            (s("/guide"), s("guide.md")),
            (s("/rendered"), s("rendered.md")),
        ],
        source_contents: vec![
            (
                s("_index.md"),
                s("+++\ntitle = \"Home\"\n+++\n\n[guide](/guide)\n"),
            ),
            (s("guide.md"), s("+++\ntitle = \"Guide\"\n+++\n\n[home](/)\n")),
            (s("rendered.md"), s("+++\ntitle = \"Rendered\"\n+++\n")),
        ],
        template_paths: vec![],
        template_contents: vec![],
        static_paths: vec![(s("img/logo.png"), s("/site/static/img/logo.png"))],
        data_paths: vec![],
        data_keys: vec![],
        template_semantics: vec![],
        rendered_hrefs_by_route: vec![
            (s("/"), vec![href("/rendered"), href("/guide")]),
            (s("/guide"), vec![href("/")]),
            (s("/rendered"), vec![]),
        ],
        pages,
    }
}

#[test]
fn exposes_route_graph_edges() {
    let project = site();
    let graph = route_graph_for_project(&project);
    assert_eq!(graph.len(), 3);
    let home = graph.iter().find(|n| n.route == "/").expect("home node");
    let guide = graph.iter().find(|n| n.route == "/guide").expect("guide node");
    let rendered = graph.iter().find(|n| n.route == "/rendered").expect("rendered node");

    assert!(home
        .outgoing
        .iter()
        .any(|e| e.kind == RouteGraphEdgeKind::Markdown && e.target_route == "/guide"));
    assert!(home
        .outgoing
        .iter()
        .any(|e| e.kind == RouteGraphEdgeKind::RenderedHtml && e.target_route == "/rendered"));
    assert_eq!(guide.incoming.len(), 1);
    assert_eq!(guide.incoming[0].source_route, "/");
    assert_eq!(guide.outgoing.len(), 1);
    assert_eq!(guide.outgoing[0].target_route, "/");
    assert_eq!(rendered.incoming.len(), 1);
    assert_eq!(rendered.incoming[0].kind, RouteGraphEdgeKind::RenderedHtml);
    assert_eq!(RouteGraphEdgeKind::RenderedHtml.label(), "renderedHtml");
    assert_eq!(RouteGraphEdgeKind::Markdown.label(), "markdown");
}

#[test]
fn markdown_edges_carry_line_and_column() {
    let project = site();
    let graph = route_graph_for_project(&project);
    let home = graph.iter().find(|n| n.route == "/").expect("home node");
    let edge = home
        .outgoing
        .iter()
        .find(|e| e.kind == RouteGraphEdgeKind::Markdown)
        .expect("markdown edge");
    assert_eq!(edge.line, Some(5));
    assert_eq!(edge.column, Some(1));
    assert_eq!(edge.target, "/guide");
    assert_eq!(edge.source_file, "_index.md");
}

#[test]
fn graph_links_are_held_by_both_ends() {
    let project = site();
    let graph = route_graph_for_project(&project);
    for node in &graph {
        for edge in &node.outgoing {
            assert_eq!(edge.source_route, node.route);
            let target = graph
                .iter()
                .find(|n| n.route == edge.target_route)
                .expect("target node");
            assert!(target.incoming.iter().any(|e| e.kind == edge.kind
                && e.source_route == edge.source_route
                && e.target_route == edge.target_route
                && e.target == edge.target));
        }
        for edge in &node.incoming {
            assert_eq!(edge.target_route, node.route);
        }
    }
}

#[test]
fn markdown_references_finds_links_and_images() {
    let refs = markdown_references("See [a](/a#x) and ![i](/img.png).\n");
    assert_eq!(refs.len(), 2);
    assert_eq!(refs[0].kind, MarkdownReferenceKind::Link);
    assert_eq!(refs[0].target, "/a#x");
    assert_eq!(refs[0].byte_start, 4);
    assert_eq!(refs[1].kind, MarkdownReferenceKind::Image);
    assert_eq!(refs[1].target, "/img.png");
}

#[test]
fn link_targets_resolve_to_routes() {
    let project = site();
    let guide = &project.pages[1];
    assert_eq!(route_for_link_target(&project, guide, ""), "/guide");
    assert_eq!(route_for_link_target(&project, guide, "/a/../b/"), "/b");
    assert_eq!(route_for_link_target(&project, guide, "rendered"), "/rendered");
    assert_eq!(route_for_link_target(&project, guide, "rendered.md"), "/rendered");
    assert_eq!(
        source_target_for_relative_markdown_link(guide, "sub/../rendered.md"),
        Some(s("rendered.md"))
    );
    assert_eq!(source_target_for_relative_markdown_link(guide, "rendered"), None);

    let link = |kind, target: &str| MarkdownReference {
        kind,
        target: s(target),
        byte_start: 0,
        byte_end: 0,
    };
    assert_eq!(
        reference_target_route(&project, guide, &link(MarkdownReferenceKind::Link, "@/guide.md#x")),
        Some(s("/guide"))
    );
    assert_eq!(
        reference_target_route(&project, guide, &link(MarkdownReferenceKind::Link, "https://x.y")),
        None
    );
    assert_eq!(
        reference_target_route(&project, guide, &link(MarkdownReferenceKind::Image, "/pic")),
        None
    );
    assert_eq!(
        reference_target_route(&project, guide, &link(MarkdownReferenceKind::Link, "/nope")),
        Some(s("/nope"))
    );
    assert_eq!(rendered_href_target_route(&project, guide, "/nope"), None);
    assert_eq!(
        rendered_href_target_route(&project, guide, "/guide/#intro"),
        Some(s("/guide"))
    );
    assert_eq!(rendered_href_target_route(&project, guide, "/style.css"), None);
}

#[test]
fn project_lookups_tolerate_trailing_slashes() {
    let project = site();
    assert!(project.route_exists("/guide"));
    assert!(project.route_exists("/guide/"));
    assert!(project.route_exists("/guide//"));
    assert!(!project.route_exists("/missing"));
    assert_eq!(project.source_file_for_route("/guide/"), Some("guide.md"));
    assert_eq!(
        project.page_for_route("/rendered").map(|p| p.route.as_str()),
        Some("/rendered")
    );
    assert_eq!(project.heading_exists("/guide/", "intro"), Some(true));
    assert_eq!(project.heading_exists("/guide", "outro"), Some(false));
    assert_eq!(project.heading_exists("/missing", "intro"), None);
    assert_eq!(
        project.heading_for_route("/guide", "intro").map(|h| h.title.as_str()),
        Some("Intro")
    );
    assert!(project.routes_refer_to_same_page("/guide", "/guide/"));
    assert!(project.routes_refer_to_same_page("/x/../y", "/y"));
    assert!(!project.routes_refer_to_same_page("/guide", "/rendered"));
    assert_eq!(
        project.page_for_source_file("guide.md").map(|p| p.route.as_str()),
        Some("/guide")
    );
    assert!(project.page_for_source_file("nope.md").is_none());
}

#[test]
fn static_targets_resolve_against_the_source_directory() {
    let project = site();
    assert_eq!(
        project.static_target_path("guide.md", "/img/logo.png?v=1"),
        Some("/site/static/img/logo.png")
    );
    assert_eq!(
        project.static_target_path("guide.md", "img/logo.png"),
        Some("/site/static/img/logo.png")
    );
    assert_eq!(
        project.static_target_path("docs/guide.md", "../img/logo.png"),
        None
    );
    assert!(project.static_target_exists("x.md", "img/logo.png"));
    assert!(!project.static_target_exists("x.md", ""));
}
