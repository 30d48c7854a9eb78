use dodeca::frontmatter::frontmatter_entries;
use dodeca::frontmatter_links::{
    completion_items_for_frontmatter, frontmatter_completion_context, frontmatter_data_target_path,
    frontmatter_document_target_at_position, frontmatter_document_targets, frontmatter_static_target_path,
    frontmatter_string_value, FrontmatterCompletionKind,
};
use dodeca::model::{AuthoringProject};
use dodeca::positions::{range_contains_position, Position};
use dodeca::templates::FrontmatterDocumentKind;

fn s(x: &str) -> String {
    x.to_string()
}

fn project() -> AuthoringProject {
    AuthoringProject {
        pages: vec![],
        known_routes: vec![],
        headings_by_route: vec![],
        source_to_route: vec![],
        route_to_source: vec![],
        source_contents: vec![],
        template_paths: vec![(s("custom.html"), s("/site/templates/custom.html"))],
        template_contents: vec![],
        static_paths: vec![(s("logo.png"), s("/site/static/logo.png"))],
        data_paths: vec![(s("versions.toml"), s("/site/data/versions.toml"))],
        data_keys: vec![],
        template_semantics: vec![],
        rendered_hrefs_by_route: vec![],
    }
}

fn position_for(content: &str, needle: &str) -> Position {
    let offset = content.find(needle).expect("needle");
    let before = &content[..offset];
    let line = before.matches('\n').count() as u32;
    let line_start = before.rfind('\n').map(|i| i + 1).unwrap_or(0);
    Position { line, character: before[line_start..].chars().count() as u32 }
}

#[test]
fn completes_missing_frontmatter_fields_from_schema() {
    let content = "+++\ntitle = \"Guide\"\n\n+++\n";
    let context = frontmatter_completion_context(content, Position::new(2, 0)).expect("context");
    let items = completion_items_for_frontmatter("Guide", false, &context);
    let labels = items.iter().map(|item| item.label.as_str()).collect::<Vec<_>>();

    assert!(!labels.contains(&"title"));
    assert!(labels.contains(&"description"));
    assert!(labels.contains(&"weight"));
    assert!(labels.contains(&"template"));
    assert!(labels.contains(&"[extra]"));
    assert!(items.iter().any(|item| item.new_text == "template = \"page.html\""));
}

#[test]
fn frontmatter_completion_items_describe_each_field() {
    let content = "+++\ntitle = \"Guide\"\nwei\n[extra]\nx = 1\n+++\n";
    let context = frontmatter_completion_context(content, Position::new(2, 2)).expect("context");
    assert_eq!(context.replace_range.start, Position::new(2, 0));
    assert_eq!(context.replace_range.end, Position::new(2, 3));
    assert!(context.current_table.is_none());
    let items = completion_items_for_frontmatter("Guide", true, &context);
    let labels = items.iter().map(|item| item.label.as_str()).collect::<Vec<_>>();
    assert_eq!(labels, vec!["weight", "description", "template", "asset", "data"]);
    assert_eq!(items[0].detail, "Dodeca frontmatter an integer");
    assert_eq!(items[0].kind, FrontmatterCompletionKind::Field);
    assert_eq!(items[0].new_text, "weight = 0");
    assert_eq!(items[2].new_text, "template = \"section.html\"");

    let in_table = frontmatter_completion_context(content, Position::new(4, 0)).expect("context");
    assert_eq!(in_table.current_table.as_deref(), Some("extra"));
    assert!(completion_items_for_frontmatter("Guide", false, &in_table).is_empty());

    assert!(frontmatter_completion_context(content, Position::new(7, 0)).is_none());
    assert!(frontmatter_completion_context("# no frontmatter\n", Position::new(0, 0)).is_none());

    let fresh = frontmatter_completion_context("+++\n\n+++\n", Position::new(1, 0)).expect("context");
    let items = completion_items_for_frontmatter("New \"Page\"", false, &fresh);
    assert_eq!(items[0].new_text, "title = \"New \\\"Page\\\"\"");
    assert_eq!(items[6].label, "[extra]");
    assert_eq!(items[6].kind, FrontmatterCompletionKind::Table);
    assert_eq!(items[6].new_text, "[extra]\n");
}

#[test]
fn resolves_frontmatter_document_targets() {
    let p = project();
    let content = "+++\ntitle = \"Guide\"\ntemplate = \"custom.html\"\nasset = \"/logo.png\"\ndata = \"versions.toml\"\n+++\n";
    let targets = frontmatter_document_targets(&p, content);
    assert_eq!(targets.len(), 3);

    assert_eq!(targets[0].kind, FrontmatterDocumentKind::Template);
    assert_eq!(targets[0].path, "custom.html");
    assert_eq!(targets[0].target_path, "/site/templates/custom.html");
    assert!(range_contains_position(&targets[0].source_range, position_for(content, "custom.html")));

    assert_eq!(targets[1].kind, FrontmatterDocumentKind::StaticAsset);
    assert_eq!(targets[1].path, "/logo.png");
    assert_eq!(targets[1].target_path, "/site/static/logo.png");
    assert!(range_contains_position(&targets[1].source_range, position_for(content, "logo.png")));

    assert_eq!(targets[2].kind, FrontmatterDocumentKind::DataFile);
    assert_eq!(targets[2].path, "versions.toml");
    assert_eq!(targets[2].target_path, "/site/data/versions.toml");

    let target = frontmatter_document_target_at_position(&p, content, position_for(content, "custom.html"))
        .expect("target");
    assert_eq!(target.kind, FrontmatterDocumentKind::Template);
    assert!(frontmatter_document_target_at_position(&p, content, Position::new(1, 0)).is_none());
}

#[test]
fn frontmatter_string_values_need_matching_quotes() {
    let content = "+++\na = \"x\"\nb = 'y'\nc = 3\nd = \"z'\ne = \"\"\n+++\n";
    let entries = frontmatter_entries(content);
    let (value, range) = frontmatter_string_value(content, &entries[0]).expect("quoted");
    assert_eq!(value, "x");
    assert_eq!(range.start, Position::new(1, 5));
    assert_eq!(range.end, Position::new(1, 6));
    assert_eq!(frontmatter_string_value(content, &entries[1]).expect("quoted").0, "y");
    assert!(frontmatter_string_value(content, &entries[2]).is_none());
    assert!(frontmatter_string_value(content, &entries[3]).is_none());
    assert_eq!(frontmatter_string_value(content, &entries[4]).expect("empty").0, "");
}

#[test]
fn frontmatter_paths_resolve_with_or_without_leading_slashes() {
    let p = project();
    assert_eq!(frontmatter_static_target_path(&p, "/logo.png"), Some("/site/static/logo.png"));
    assert_eq!(frontmatter_static_target_path(&p, "logo.png"), Some("/site/static/logo.png"));
    assert_eq!(frontmatter_static_target_path(&p, "nope.png"), None);
    assert_eq!(frontmatter_data_target_path(&p, "//versions.toml"), Some("/site/data/versions.toml"));
    assert_eq!(frontmatter_data_target_path(&p, "logo.png"), None);
}

#[test]
fn recognizes_frontmatter_as_page_identity_range() {
    let content = "+++\ntitle = \"Guide\"\n+++\n\nBody\n";
    let range = dodeca::frontmatter::frontmatter_lsp_range(content).expect("frontmatter range");

    assert!(range_contains_position(&range, position_for(content, "title")));
    assert!(!range_contains_position(&range, position_for(content, "Body")));
}
