use dodeca::completion::{
    frontmatter_completion_label, frontmatter_completion_text, frontmatter_document_kind_for_entry,
    frontmatter_has_extra_table,
};
use dodeca::editing::{
    fuzzy_contains, markdown_content_excerpt, title_from_selection, title_from_slug,
    workspace_heading_matches, workspace_page_matches,
};
use dodeca::frontmatter::{frontmatter_entries, FrontmatterFieldKind, FrontmatterFieldSpec};
use dodeca::hover::{
    frontmatter_hover_metadata_table, is_valid_template_rename_name, page_hover_metadata_table,
    page_transform_chain, site_graph_diagnostic_for_page, site_graph_page_identity_byte_range,
    usize_to_decimal,
};
use dodeca::diagnostics::AuthoringDiagnosticKind;
use dodeca::html_links::{literal_anchor_hrefs, scan_html_attr_value, scan_html_name, scan_html_tag_end};
use dodeca::model::{
    data_completion_key, route_output_path, section_template_name, AuthoringHeading,
    AuthoringPage, AuthoringPageKind,
};
use dodeca::templates::FrontmatterDocumentKind;

fn page() -> AuthoringPage {
    AuthoringPage {
        kind: AuthoringPageKind::Page,
        route: "/docs/intro".into(),
        source_file: "docs/intro.md".into(),
        title: "Getting Started".into(),
        description: None,
        template: "page.html".into(),
        output_path: "docs/intro/index.html".into(),
        headings: vec![],
        heading_ids: vec!["a".into(), "b".into()],
        link_base_route: "/docs".into(),
    }
}

#[test]
fn decimals() {
    assert_eq!(usize_to_decimal(0), "0");
    assert_eq!(usize_to_decimal(7), "7");
    assert_eq!(usize_to_decimal(1203), "1203");
    assert_eq!(usize_to_decimal(usize::MAX), usize::MAX.to_string());
}

#[test]
fn hover_tables() {
    let p = page();
    assert_eq!(
        page_hover_metadata_table(&p),
        "| route | source | template | output |\n| --- | --- | --- | --- |\n| `/docs/intro` | `docs/intro.md` | `page.html` | `docs/intro/index.html` |"
    );
    assert_eq!(
        frontmatter_hover_metadata_table(&p, 12),
        "| route | source | headings | backlinks |\n| --- | --- | ---: | ---: |\n| `/docs/intro` | `docs/intro.md` | `2` | `12` |"
    );
    assert_eq!(
        page_transform_chain(&p),
        "markdown -> page template -> html postprocess -> output"
    );
}

#[test]
fn rename_names() {
    assert!(is_valid_template_rename_name("_x1"));
    assert!(is_valid_template_rename_name("abc"));
    assert!(!is_valid_template_rename_name("1abc"));
    assert!(!is_valid_template_rename_name(""));
    assert!(!is_valid_template_rename_name("a-b"));
}

#[test]
fn page_identity_ranges() {
    assert_eq!(site_graph_page_identity_byte_range("+++\ntitle = \"é\"\n+++\nbody"), (0, 20));
    assert_eq!(site_graph_page_identity_byte_range("+++\nopen"), (0, 8));
    assert_eq!(site_graph_page_identity_byte_range("# Héllo\nbody"), (0, 8));
    assert_eq!(site_graph_page_identity_byte_range("one line"), (0, 8));
    let d = site_graph_diagnostic_for_page(
        &page(),
        "# T\nbody",
        AuthoringDiagnosticKind::OrphanPage,
        "/docs/intro",
        "orphan".into(),
    );
    assert_eq!(d.byte_start, 0);
    assert_eq!(d.byte_end, 3);
    assert_eq!((d.line, d.column, d.line_end, d.column_end), (1, 1, 1, 4));
    assert_eq!(d.resolved_route.as_deref(), Some("/docs/intro"));
}

#[test]
fn titles_and_search() {
    assert_eq!(title_from_slug("getting-started"), Some("Getting Started".to_string()));
    assert_eq!(title_from_slug("--a--b"), Some("A B".to_string()));
    assert_eq!(title_from_slug("---"), None);
    assert_eq!(title_from_slug("ßig"), Some("SSig".to_string()));
    assert!(fuzzy_contains("Getting Started Guide", "start GUIDE"));
    assert!(!fuzzy_contains("Getting Started", "missing"));
    assert!(fuzzy_contains("anything", "   "));
    let p = page();
    assert!(workspace_page_matches(&p, ""));
    assert!(workspace_page_matches(&p, "intro getting"));
    assert!(!workspace_page_matches(&p, "blog"));
    let h = AuthoringHeading {
        id: "install".into(),
        title: "Install".into(),
        level: 2,
    };
    assert!(workspace_heading_matches(&p, &h, "install docs"));
    assert!(!workspace_heading_matches(&p, &h, "uninstall"));
    assert_eq!(title_from_selection("\n\n  ## Setup: the *basics*, quickly! now really here\nmore"), "Setup the basics quickly now");
    assert_eq!(title_from_selection("   \n  "), "Extracted page");
    assert_eq!(title_from_selection("### ..."), "Extracted page");
}

#[test]
fn excerpts() {
    assert_eq!(
        markdown_content_excerpt("+++\ntitle = \"x\"\n+++\n\n# Title\n\nFirst   para\nline two\n\nthird\nfourth\nfifth\n"),
        Some("> # Title First para line two third".to_string())
    );
    assert_eq!(markdown_content_excerpt("+++\ntitle = \"x\"\n+++\n   \n"), None);
    let long = "word ".repeat(100);
    let e = markdown_content_excerpt(&long).expect("excerpt");
    assert!(e.starts_with("> word"));
    assert!(e.ends_with("..."));
    assert_eq!(e.chars().count(), 2 + 257 + 3);
}

#[test]
fn frontmatter_completions() {
    let title = FrontmatterFieldSpec { name: "title", kind: FrontmatterFieldKind::String };
    let extra = FrontmatterFieldSpec { name: "extra", kind: FrontmatterFieldKind::Table };
    let template = FrontmatterFieldSpec { name: "template", kind: FrontmatterFieldKind::String };
    let weight = FrontmatterFieldSpec { name: "weight", kind: FrontmatterFieldKind::Integer };
    assert_eq!(frontmatter_completion_label(title), "title");
    assert_eq!(frontmatter_completion_label(extra), "[extra]");
    assert_eq!(frontmatter_completion_text("My \"Page\"", false, title), "title = \"My \\\"Page\\\"\"");
    assert_eq!(frontmatter_completion_text("x", true, template), "template = \"section.html\"");
    assert_eq!(frontmatter_completion_text("x", false, template), "template = \"page.html\"");
    assert_eq!(frontmatter_completion_text("x", false, weight), "weight = 0");
    assert_eq!(frontmatter_completion_text("x", false, extra), "[extra]\n");
    assert!(frontmatter_has_extra_table("+++\ntitle = \"t\"\n  [ extra ]  \nk = 1\n+++\n"));
    assert!(!frontmatter_has_extra_table("+++\ntitle = \"t\"\n+++\n[extra]\n"));
    assert!(!frontmatter_has_extra_table("no frontmatter"));
    let entries = frontmatter_entries("+++\ntemplate = \"x.html\"\nasset = \"a\"\n[extra]\ndata = \"d\"\n+++\n");
    let kinds: Vec<Option<FrontmatterDocumentKind>> =
        entries.iter().map(frontmatter_document_kind_for_entry).collect();
    assert_eq!(
        kinds,
        vec![
            Some(FrontmatterDocumentKind::Template),
            Some(FrontmatterDocumentKind::StaticAsset),
            None
        ]
    );
}

#[test]
fn html_literal_links() {
    let text = "<nav><a href=\"/rendered\">Rendered</a> <A class=x HREF='/two'>t</A><!-- <a href=\"/no\"> --></nav><a href=/three title=\"a>b\">";
    let hrefs = literal_anchor_hrefs(text, 100);
    let got: Vec<&str> = hrefs.iter().map(|h| h.href.as_str()).collect();
    assert_eq!(got, vec!["/rendered", "/two", "/no", "/three"]);
    let start = text.find("/rendered").unwrap();
    assert_eq!(hrefs[0].byte_start, 100 + start);
    assert_eq!(hrefs[0].byte_end, 100 + start + "/rendered".len());
    assert!(literal_anchor_hrefs("<a href=\"/open", 0).is_empty());
    assert!(literal_anchor_hrefs("<div href=\"/x\">", 0).is_empty());
    let b = b"ab-c:d x";
    assert_eq!(scan_html_name(b, 0), 6);
    assert_eq!(scan_html_tag_end(b"a='>'>", 0), Some(5));
    assert_eq!(scan_html_tag_end(b"a='>", 0), None);
    assert_eq!(scan_html_attr_value(b"\"v\" x>", 0, 5), Some((1, 2, 3)));
    assert_eq!(scan_html_attr_value(b"v x>", 0, 3), Some((0, 1, 1)));
    assert_eq!(scan_html_attr_value(b">", 0, 0), None);
}

#[test]
fn derived_page_fields() {
    assert_eq!(section_template_name("/", &None), "index.html");
    assert_eq!(section_template_name("/docs", &None), "section.html");
    assert_eq!(section_template_name("/", &Some("home.html".into())), "home.html");
    assert_eq!(route_output_path("/"), "index.html");
    assert_eq!(route_output_path("/docs/intro/"), "docs/intro/index.html");
    assert_eq!(data_completion_key("team/members.toml"), "members");
    assert_eq!(data_completion_key(""), "");
}

use dodeca::positions::{position_cmp, Position};
use std::cmp::Ordering;

#[test]
fn positions_order_by_line_then_character() {
    assert_eq!(position_cmp(Position::new(1, 9), Position::new(2, 0)), Ordering::Less);
    assert_eq!(position_cmp(Position::new(2, 3), Position::new(2, 1)), Ordering::Greater);
    assert_eq!(position_cmp(Position::new(2, 3), Position::new(2, 3)), Ordering::Equal);
}
