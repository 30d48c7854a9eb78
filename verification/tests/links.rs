use dodeca::links::{
    link_base_route_for_route, relative_route_from_base, route_completion_text, route_parent,
    route_segments, source_file_for_new_section_route, source_file_for_page_route,
    target_base_and_suffix, validate_markdown_source_file, validate_route_relative_path,
};
use dodeca::model::{AuthoringPage, AuthoringPageKind};

#[test]
fn route_segments_and_parents() {
    assert_eq!(route_segments("/a//b/"), vec!["a", "b"]);
    assert!(route_segments("/").is_empty());
    assert_eq!(route_parent("/a/b/c"), "/a/b");
    assert_eq!(route_parent("/a"), "/");
    assert_eq!(route_parent("/"), "/");
    assert_eq!(route_parent("a/./b/../c/"), "/a");
    assert_eq!(link_base_route_for_route("/docs/intro", AuthoringPageKind::Page), "/docs");
    assert_eq!(link_base_route_for_route("/docs/", AuthoringPageKind::Section), "/docs");
}

#[test]
fn relative_routes() {
    assert_eq!(relative_route_from_base("/docs", "/"), "/");
    assert_eq!(relative_route_from_base("/docs", "/docs/intro"), "intro");
    assert_eq!(relative_route_from_base("/docs/a", "/blog/post"), "../../blog/post");
    assert_eq!(relative_route_from_base("/docs", "/docs"), ".");
    assert_eq!(relative_route_from_base("/", "/x/y"), "x/y");
}

#[test]
fn completion_text_follows_the_typed_link() {
    let page = AuthoringPage {
        kind: AuthoringPageKind::Page,
        route: "/docs/intro".into(),
        source_file: "docs/intro.md".into(),
        title: "Intro".into(),
        description: None,
        template: "page.html".into(),
        output_path: "docs/intro/index.html".into(),
        headings: vec![],
        heading_ids: vec![],
        link_base_route: "/docs".into(),
    };
    assert_eq!(route_completion_text(&page, "/d", "/docs/setup"), "/docs/setup");
    assert_eq!(route_completion_text(&page, "se", "/docs/setup"), "setup");
}

#[test]
fn source_files_for_new_routes() {
    assert_eq!(source_file_for_new_section_route("/guides/"), Some("guides/_index.md".into()));
    assert_eq!(source_file_for_new_section_route("/"), None);
    assert_eq!(source_file_for_new_section_route("/a:b"), None);
    assert_eq!(
        source_file_for_page_route("/ops/deploy", AuthoringPageKind::Page),
        Some("ops/deploy.md".into())
    );
    assert_eq!(
        source_file_for_page_route("/ops", AuthoringPageKind::Section),
        Some("ops/_index.md".into())
    );
}

#[test]
fn path_validation() {
    assert_eq!(validate_route_relative_path("a/b"), Some(()));
    assert_eq!(validate_route_relative_path(""), None);
    assert_eq!(validate_route_relative_path("a//b"), None);
    assert_eq!(validate_route_relative_path("a/../b"), None);
    assert_eq!(validate_route_relative_path("a\\b"), None);
    assert_eq!(validate_markdown_source_file("docs/a.md"), Some(()));
    assert_eq!(validate_markdown_source_file("/docs/a.md"), None);
    assert_eq!(validate_markdown_source_file("docs/a.txt"), None);
    assert_eq!(validate_markdown_source_file(".md"), None);
}

#[test]
fn target_suffixes() {
    assert_eq!(
        target_base_and_suffix("/a?x=1#frag"),
        ("/a".to_string(), "?x=1#frag".to_string())
    );
    assert_eq!(
        target_base_and_suffix("/a#f?q"),
        ("/a".to_string(), "#f?q".to_string())
    );
    assert_eq!(target_base_and_suffix("/a"), ("/a".to_string(), "".to_string()));
}

use dodeca::routes::{ensure_trailing_slash, normalize_route};

#[test]
fn relative_routes_resolve_back_to_their_target() {
    let cases = [("/docs//guide/", "docs/api/"), ("/docs/guide", "/docs/guide/intro"), ("/", "/blog//post"), ("/a/b", "//")];
    for (base, target) in cases {
        let rel = relative_route_from_base(base, target);
        let resolved = if rel.starts_with('/') {
            normalize_route(&rel)
        } else {
            normalize_route(&format!("{}{}", ensure_trailing_slash(base), rel))
        };
        assert_eq!(resolved, normalize_route(target), "{base} -> {target} via {rel}");
    }
    assert_eq!(relative_route_from_base("/docs//guide/", "docs/api/"), "../api");
}
