use dodeca::markdown_headings::{heading_id_at_position, heading_rename_target_at_position, markdown_headings};
use dodeca::model::{AuthoringHeading, AuthoringPage, AuthoringPageKind};
use dodeca::positions::{Position, Range};

fn s(x: &str) -> String {
    x.to_string()
}

const CONTENT: &str = "# Intro\n\n## Details\n\nText\n\n### Deep `code` dive\n\n# Other *x*\n";

fn page() -> AuthoringPage {
    AuthoringPage {
        kind: AuthoringPageKind::Page,
        route: s("/intro"),
        source_file: s("intro.md"),
        title: s("Intro"),
        description: None,
        template: s("page.html"),
        output_path: s("intro/index.html"),
        headings: vec![AuthoringHeading { id: s("intro--details"), title: s("Details"), level: 2 }],
        heading_ids: vec![s("intro"), s("intro--details")],
        link_base_route: s("/"),
    }
}

#[test]
fn headings_carry_the_slugs_of_their_parents() {
    let hs = markdown_headings(CONTENT);
    let got = hs.iter().map(|h| (h.id.as_str(), h.title.as_str(), h.level, h.line)).collect::<Vec<_>>();
    assert_eq!(
        got,
        vec![
            ("intro", "Intro", 1, 1),
            ("intro--details", "Details", 2, 3),
            ("intro--details--deep-code-dive", "Deep code dive", 3, 7),
            ("other-x", "Other x", 1, 9),
        ]
    );
    assert_eq!(hs[0].title_range, Range { start: Position::new(0, 2), end: Position::new(0, 7) });
    assert_eq!(hs[1].title_range, Range { start: Position::new(2, 3), end: Position::new(2, 10) });
    assert!(markdown_headings("no headings here\n").is_empty());
}

#[test]
fn headings_are_found_at_positions() {
    let p = page();
    assert_eq!(heading_id_at_position(&p, CONTENT, Position::new(2, 0)).as_deref(), Some("intro--details"));
    assert_eq!(heading_id_at_position(&p, CONTENT, Position::new(0, 0)).as_deref(), Some("intro"));
    assert_eq!(heading_id_at_position(&p, CONTENT, Position::new(8, 0)), None);
    let target = heading_rename_target_at_position(&p, CONTENT, Position::new(2, 5)).expect("target");
    assert_eq!(target.heading_id, "intro--details");
    assert_eq!(target.title, "Details");
    assert_eq!(target.line, 3);
    assert!(heading_rename_target_at_position(&p, CONTENT, Position::new(0, 3)).is_none());
    assert!(heading_rename_target_at_position(&p, CONTENT, Position::new(2, 0)).is_none());
}

use dodeca::editing::extracted_page_content;
use dodeca::markdown_headings::heading_id_after_rename;

#[test]
fn renamed_headings_get_their_new_ids() {
    let p = page();
    let target = heading_rename_target_at_position(&p, CONTENT, Position::new(2, 5)).expect("target");
    assert_eq!(heading_id_after_rename(CONTENT, &target, "More Info").as_deref(), Some("intro--more-info"));
}

#[test]
fn extracted_pages_take_their_title_and_slug_from_the_selection() {
    let e = extracted_page_content("## Setup Guide\n\nDo it.\n");
    assert_eq!((e.title.as_str(), e.slug.as_str(), e.body.as_str()), ("Setup Guide", "setup-guide", "\nDo it.\n"));
    let e = extracted_page_content("Some words here.");
    assert_eq!(e.slug, "some-words-here");
}
