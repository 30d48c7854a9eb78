use dodeca::anchor_fixes::existing_anchor_code_actions;
use dodeca::model::{AuthoringHeading, AuthoringPage, AuthoringPageKind};
use dodeca::positions::{Position, Range};

fn s(x: &str) -> String {
    x.to_string()
}

fn page(ids: &[&str]) -> AuthoringPage {
    AuthoringPage {
        kind: AuthoringPageKind::Page,
        route: s("/guide"),
        source_file: s("guide.md"),
        title: s("Guide"),
        description: None,
        template: s("page.html"),
        output_path: s("guide/index.html"),
        headings: ids.iter().map(|id| AuthoringHeading { id: s(id), title: s(id), level: 2 }).collect(),
        heading_ids: ids.iter().map(|id| s(id)).collect(),
        link_base_route: s("/guide/"),
    }
}

fn range() -> Range {
    Range { start: Position::new(3, 10), end: Position::new(3, 16) }
}

#[test]
fn anchor_fixes_rank_headings_by_match_then_id() {
    let ids = ["usage", "intro", "beta", "setup--install", "alpha", "install"];
    let p = page(&ids);
    let fixes = existing_anchor_code_actions(&p, range(), "instal");
    let new_texts = fixes.iter().map(|f| f.new_text.as_str()).collect::<Vec<_>>();
    assert_eq!(new_texts, vec!["install", "setup--install", "intro", "alpha", "beta"]);
    assert_eq!(fixes[0].title, "Change anchor to '#install'");
    assert!(fixes[0].is_preferred);
    assert!(fixes[1..].iter().all(|f| !f.is_preferred));
    assert!(fixes.iter().all(|f| f.range == range()));
}

#[test]
fn anchor_fixes_skip_the_missing_anchor_itself() {
    let ids = ["usage", "instal", "intro", "install"];
    let p = page(&ids);
    let fixes = existing_anchor_code_actions(&p, range(), "instal");
    let new_texts = fixes.iter().map(|f| f.new_text.as_str()).collect::<Vec<_>>();
    assert_eq!(new_texts, vec!["install", "intro", "usage"]);
    assert!(fixes.iter().all(|f| !f.is_preferred));
    assert!(existing_anchor_code_actions(&page(&[]), range(), "x").is_empty());
}

#[test]
fn anchor_fixes_compare_titles_by_their_slugs() {
    let mut p = page(&["a1", "b2"]);
    p.headings[1].title = s("Getting Started!");
    let fixes = existing_anchor_code_actions(&p, range(), "started");
    assert_eq!(fixes[0].new_text, "b2");
}
