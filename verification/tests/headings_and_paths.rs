use dodeca::cells::{event_summary, DevtoolsEventInfo};
use dodeca::frontmatter::frontmatter_table_at_offset;
use dodeca::headings::{heading_title_range, insertion_position_after_line};
use dodeca::links::relative_source_path_from_source;
use dodeca::model::{page_route_text_edit_sort_key, AuthoringInputPath};
use dodeca::positions::{Position, Range};

fn range(l0: u32, c0: u32, l1: u32, c1: u32) -> Range {
    Range {
        start: Position { line: l0, character: c0 },
        end: Position { line: l1, character: c1 },
    }
}

#[test]
fn heading_title_range_covers_atx_title() {
    let content = "intro\n## Getting Started ##  \nbody\n";
    assert_eq!(heading_title_range(content, 6), Some(range(1, 3, 1, 18)));
}

#[test]
fn heading_title_range_keeps_hashes_not_after_blank() {
    let content = "# C#\n";
    assert_eq!(heading_title_range(content, 0), Some(range(0, 2, 0, 4)));
    let content = "   ###   Title\t\n";
    assert_eq!(heading_title_range(content, 0), Some(range(0, 9, 0, 14)));
}

#[test]
fn heading_title_range_for_setext_line() {
    let content = "Title here  \n=====\n";
    assert_eq!(heading_title_range(content, 0), Some(range(0, 0, 0, 10)));
}

#[test]
fn insertion_position_after_lines() {
    let content = "# A\nbody\n## B\n";
    assert_eq!(insertion_position_after_line(content, 1), Position { line: 1, character: 0 });
    assert_eq!(insertion_position_after_line(content, 0), Position { line: 1, character: 0 });
    assert_eq!(insertion_position_after_line(content, 3), Position { line: 3, character: 0 });
    assert_eq!(insertion_position_after_line(content, 9), Position { line: 3, character: 0 });
    assert_eq!(insertion_position_after_line("no newline", 1), Position { line: 0, character: 10 });
}

#[test]
fn relative_source_paths() {
    assert_eq!(relative_source_path_from_source("guide/intro.md", "guide/setup.md"), "setup.md");
    assert_eq!(relative_source_path_from_source("guide/intro.md", "api/index.md"), "../api/index.md");
    assert_eq!(relative_source_path_from_source("index.md", "a/b.md"), "a/b.md");
    assert_eq!(relative_source_path_from_source("a/b/c.md", "a"), "..");
    assert_eq!(relative_source_path_from_source("a/c.md", "a"), ".");
}

#[test]
fn frontmatter_table_in_effect_at_offset() {
    let content = "+++\ntitle = \"x\"\n[extra]\nk = 1\n[taxonomies]\nt = 2\n+++\nbody\n";
    let at = |needle: &str| content.find(needle).unwrap();
    assert_eq!(frontmatter_table_at_offset(content, at("title")), None);
    assert_eq!(frontmatter_table_at_offset(content, at("k = 1")), Some("extra".to_string()));
    assert_eq!(frontmatter_table_at_offset(content, at("t = 2")), Some("taxonomies".to_string()));
    assert_eq!(frontmatter_table_at_offset(content, at("body")), Some("taxonomies".to_string()));
    assert_eq!(frontmatter_table_at_offset("no frontmatter", 3), None);
}

#[test]
fn route_edit_sort_keys() {
    assert_eq!(
        page_route_text_edit_sort_key(&AuthoringInputPath::Source("a.md".to_string())),
        "source:a.md"
    );
    assert_eq!(
        page_route_text_edit_sort_key(&AuthoringInputPath::Data("d.toml".to_string())),
        "data:d.toml"
    );
}

#[test]
fn devtools_event_summaries() {
    assert_eq!(event_summary(&DevtoolsEventInfo::Reload), "Reload");
    assert_eq!(
        event_summary(&DevtoolsEventInfo::CssChanged { path: "a.css".to_string() }),
        "CssChanged(a.css)"
    );
    assert_eq!(
        event_summary(&DevtoolsEventInfo::Patches { route: "/x".to_string(), count: 12 }),
        "Patches(route=/x, count=12)"
    );
    let long = "x".repeat(60);
    assert_eq!(
        event_summary(&DevtoolsEventInfo::Error { route: "/".to_string(), message: long }),
        format!("Error(route=/, msg={}…)", "x".repeat(50))
    );
    assert_eq!(
        event_summary(&DevtoolsEventInfo::Error { route: "/".to_string(), message: "short".to_string() }),
        "Error(route=/, msg=short)"
    );
    assert_eq!(
        event_summary(&DevtoolsEventInfo::ErrorResolved { route: "/y".to_string() }),
        "ErrorResolved(route=/y)"
    );
}
