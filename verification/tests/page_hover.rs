use dodeca::model::{AuthoringHeading, AuthoringPage, AuthoringPageKind, AuthoringProject};
use dodeca::page_hover::{build_provenance_hover_table, frontmatter_hover_markdown, markdown_document_hover};
use dodeca::positions::Position;

fn s(x: &str) -> String {
    x.to_string()
}

const SOURCE: &str = "+++\ntitle = \"Source\"\ntemplate = \"custom.html\"\n+++\n\n[intro](/guide/intro#intro--details)\n[missing](/missing)\n![logo](/logo.png)\n";
const INTRO: &str = "+++\ntitle = \"Intro\"\n+++\n\n# Intro\n\n## Details\n";

fn page(route: &str, source: &str, title: &str, headings: Vec<AuthoringHeading>) -> AuthoringPage {
    AuthoringPage {
        kind: AuthoringPageKind::Page,
        route: s(route),
        source_file: s(source),
        title: s(title),
        description: None,
        template: s("page.html"),
        output_path: format!("{}/index.html", route.trim_start_matches('/')),
        heading_ids: headings.iter().map(|h| h.id.clone()).collect(),
        headings,
        link_base_route: s(route),
    }
}

fn project() -> AuthoringProject {
    let intro_headings = vec![
        AuthoringHeading { id: s("intro"), title: s("Intro"), level: 1 },
        AuthoringHeading { id: s("intro--details"), title: s("Details"), level: 2 },
    ];
    AuthoringProject {
        pages: vec![
            page("/guide/source", "guide/source.md", "Source", vec![]),
            page("/guide/intro", "guide/intro.md", "Intro", intro_headings),
        ],
        known_routes: vec![s("/guide/source"), s("/guide/intro")],
        headings_by_route: vec![(s("/guide/intro"), vec![s("intro"), s("intro--details")])],
        source_to_route: vec![(s("guide/source.md"), s("/guide/source")), (s("guide/intro.md"), s("/guide/intro"))],
        route_to_source: vec![(s("/guide/source"), s("guide/source.md")), (s("/guide/intro"), s("guide/intro.md"))],
        source_contents: vec![(s("guide/source.md"), s(SOURCE)), (s("guide/intro.md"), s(INTRO))],
        template_paths: vec![(s("custom.html"), s("/site/templates/custom.html"))],
        template_contents: vec![],
        static_paths: vec![(s("logo.png"), s("/site/static/logo.png"))],
        data_paths: vec![],
        data_keys: vec![s("versions")],
        template_semantics: vec![],
        rendered_hrefs_by_route: vec![],
    }
}

#[test]
fn hovers_links_and_frontmatter_of_a_markdown_page() {
    let p = project();
    let here = p.pages[0].clone();
    let none: Vec<String> = vec![];

    let (intro_hover, range) =
        markdown_document_hover(&p, &here, SOURCE, Position::new(5, 10), 3, &none).expect("intro hover");
    assert!(intro_hover.contains("**Dodeca Intro**"));
    assert!(intro_hover.contains("> # Intro ## Details"));
    assert!(intro_hover.contains("**Heading**: H2 `Details` (`#intro--details`)"));
    assert!(intro_hover.contains("| `/guide/intro` | `guide/intro.md` |"));
    assert_eq!(range.start, Position::new(5, 0));
    assert_eq!(range.end, Position::new(5, 36));

    let (missing_hover, _) =
        markdown_document_hover(&p, &here, SOURCE, Position::new(6, 12), 3, &none).expect("missing hover");
    assert!(missing_hover.contains("route '/missing' not found"));

    let (logo_hover, _) =
        markdown_document_hover(&p, &here, SOURCE, Position::new(7, 10), 3, &none).expect("logo hover");
    assert!(logo_hover.contains("Dodeca static asset"));
    assert!(logo_hover.contains("static/logo.png"));

    let (template_hover, range) =
        markdown_document_hover(&p, &here, SOURCE, Position::new(2, 15), 3, &none).expect("template hover");
    assert_eq!(
        template_hover,
        "**Dodeca template**\n\n`custom.html`\n\nSource: `/site/templates/custom.html`"
    );
    assert_eq!(range.start, Position::new(2, 12));
    assert_eq!(range.end, Position::new(2, 23));

    let (frontmatter_hover, range) =
        markdown_document_hover(&p, &here, SOURCE, Position::new(1, 0), 3, &none).expect("frontmatter hover");
    assert!(frontmatter_hover.contains("**Dodeca page: Source**"));
    assert!(frontmatter_hover.contains("> [intro](/guide/intro#intro--details)"));
    assert!(frontmatter_hover.contains("| route | source | headings | backlinks |"));
    assert!(frontmatter_hover.contains("| `/guide/source` | `guide/source.md` |"));
    assert!(frontmatter_hover.contains("| transforms | `markdown -> page template"));
    assert!(frontmatter_hover.contains("| static assets | `logo.png` |"));
    assert!(frontmatter_hover.contains("| `0` | `3` |"));
    assert_eq!(range.start, Position::new(0, 0));
    assert_eq!(range.end, Position::new(3, 3));

    assert!(markdown_document_hover(&p, &here, SOURCE, Position::new(4, 0), 3, &none).is_none());
}

#[test]
fn provenance_tables_list_templates_assets_and_data() {
    let p = project();
    let here = p.pages[0].clone();
    let templates = vec![s("page.html"), s("base.html")];
    assert_eq!(
        build_provenance_hover_table(&p, &here, SOURCE, &templates),
        "| build | value |\n| --- | --- |\n| transforms | `markdown -> page template -> html postprocess -> output` |\n| templates | `page.html`, `base.html` |\n| static assets | `logo.png` |\n| data keys | `versions` |"
    );
    let mut bare = project();
    bare.data_keys.clear();
    assert_eq!(
        build_provenance_hover_table(&bare, &here, "no links", &vec![]),
        "| build | value |\n| --- | --- |\n| transforms | `markdown -> page template -> html postprocess -> output` |"
    );
    let hover = frontmatter_hover_markdown(&bare, &here, "", 0, &vec![]);
    assert_eq!(
        hover,
        "**Dodeca page: Source**\n\n| route | source | headings | backlinks |\n| --- | --- | ---: | ---: |\n| `/guide/source` | `guide/source.md` | `0` | `0` |\n\n| build | value |\n| --- | --- |\n| transforms | `markdown -> page template -> html postprocess -> output` |"
    );
}
