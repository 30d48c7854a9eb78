use dodeca::model::{AuthoringHeading, AuthoringPageKind};
use dodeca::project_pages::{
    assemble_authoring_pages, project_data_keys, project_route_indexes, SitePageRecord, SiteSectionRecord,
    SourceRoute,
};

fn s(x: &str) -> String {
    x.to_string()
}

fn heading(id: &str, title: &str, level: u8) -> AuthoringHeading {
    AuthoringHeading { id: s(id), title: s(title), level }
}

fn entry(source: &str, route: &str, section: bool) -> SourceRoute {
    SourceRoute { source_file: s(source), route: s(route), is_section_index: section }
}

#[test]
fn pages_are_assembled_from_sections_and_pages_in_route_order() {
    let sources = vec![
        entry("guide/intro.md", "/guide/intro", false),
        entry("_index.md", "/", true),
        entry("guide/_index.md", "/guide", true),
        entry("orphan.md", "/orphan", false),
    ];
    let sections = vec![
        (
            s("/"),
            SiteSectionRecord { route: s("/"), title: s("Home"), description: Some(s("Welcome")), template: None, headings: vec![] },
        ),
        (
            s("/guide"),
            SiteSectionRecord {
                route: s("/guide"),
                title: s("Guide"),
                description: None,
                template: Some(s("guide.html")),
                headings: vec![heading("start", "Start", 1)],
            },
        ),
    ];
    let pages = vec![(
        s("/guide/intro"),
        SitePageRecord {
            route: s("/guide/intro"),
            title: s("Intro"),
            template: None,
            headings: vec![heading("intro", "Intro", 1), heading("intro--details", "Details", 2)],
            section_route: s("/guide"),
        },
    )];
    let out = assemble_authoring_pages(&sources, &sections, &pages);
    let routes = out.iter().map(|p| p.route.as_str()).collect::<Vec<_>>();
    assert_eq!(routes, vec!["/", "/guide", "/guide/intro"]);

    let home = &out[0];
    assert_eq!(home.kind, AuthoringPageKind::Section);
    assert_eq!(home.template, "index.html");
    assert_eq!(home.output_path, "index.html");
    assert_eq!(home.description.as_deref(), Some("Welcome"));

    let guide = &out[1];
    assert_eq!(guide.template, "guide.html");
    assert_eq!(guide.output_path, "guide/index.html");
    assert_eq!(guide.heading_ids, vec![s("start")]);
    assert_eq!(guide.link_base_route, "/guide");

    let intro = &out[2];
    assert_eq!(intro.kind, AuthoringPageKind::Page);
    assert_eq!(intro.source_file, "guide/intro.md");
    assert_eq!(intro.template, "page.html");
    assert_eq!(intro.output_path, "guide/intro/index.html");
    assert!(intro.description.is_none());
    assert_eq!(intro.heading_ids, vec![s("intro"), s("intro--details")]);
    assert_eq!(intro.headings[1].title, "Details");
    assert_eq!(intro.link_base_route, "/guide");

    let (known, headings) = project_route_indexes(&out);
    assert_eq!(known, vec![s("/"), s("/guide"), s("/guide/intro")]);
    assert_eq!(headings[2], (s("/guide/intro"), vec![s("intro"), s("intro--details")]));
}

#[test]
fn data_keys_are_file_stems_sorted_once_each() {
    let files = vec![s("versions.toml"), s("team/people.yaml"), s("versions.json"), s("README")];
    assert_eq!(project_data_keys(&files), vec![s("README"), s("people"), s("versions")]);
}

#[test]
fn route_to_source_index_turns_each_pair_round() {
    let source_to_route = vec![(s("guide.md"), s("/guide/")), (s("_index.md"), s("/"))];
    let index = dodeca::project_pages::route_to_source_index(&source_to_route);
    assert_eq!(index, vec![(s("/guide/"), s("guide.md")), (s("/"), s("_index.md"))]);
    assert!(dodeca::project_pages::route_to_source_index(&vec![]).is_empty());
}

#[test]
fn authoring_project_is_assembled_from_its_parts() {
    let sources = vec![entry("guide.md", "/guide", false), entry("_index.md", "/", true)];
    let sections = vec![(
        s("/"),
        SiteSectionRecord { route: s("/"), title: s("Home"), description: None, template: None, headings: vec![] },
    )];
    let pages = vec![(
        s("/guide"),
        SitePageRecord {
            route: s("/guide"),
            title: s("Guide"),
            template: None,
            headings: vec![heading("setup", "Setup", 2)],
            section_route: s("/"),
        },
    )];
    let templates = vec![(s("base.html"), s("{% block main %}{% endblock %}"))];
    let project = dodeca::project_pages::authoring_project_from_parts(
        &sources,
        &sections,
        &pages,
        vec![(s("guide.md"), s("# Guide\n"))],
        templates,
        &vec![s("now")],
        "/site",
        vec![(s("logo.png"), s("/site/static/logo.png"))],
        &vec![s("versions.toml"), s("team.json"), s("nested/versions.yaml")],
        vec![],
    );
    let routes = project.pages.iter().map(|p| p.route.as_str()).collect::<Vec<_>>();
    assert_eq!(routes, vec!["/", "/guide"]);
    assert_eq!(project.known_routes, vec![s("/"), s("/guide")]);
    assert_eq!(project.headings_by_route[1], (s("/guide"), vec![s("setup")]));
    assert_eq!(project.source_to_route, vec![(s("guide.md"), s("/guide")), (s("_index.md"), s("/"))]);
    assert_eq!(project.route_to_source, vec![(s("/guide"), s("guide.md")), (s("/"), s("_index.md"))]);
    assert_eq!(project.template_paths, vec![(s("base.html"), s("/site/templates/base.html"))]);
    assert_eq!(project.template_contents[0].1, "{% block main %}{% endblock %}");
    assert_eq!(project.template_semantics.len(), 1);
    assert_eq!(project.template_semantics[0].0, "base.html");
    assert_eq!(project.data_keys, vec![s("team"), s("versions")]);
    assert_eq!(project.data_paths[0], (s("versions.toml"), s("/site/data/versions.toml")));
    assert_eq!(project.static_paths.len(), 1);
}

#[test]
fn template_context_roots_are_the_site_variables() {
    assert_eq!(
        dodeca::project_pages::template_context_roots(),
        vec![s("config"), s("page"), s("section"), s("current_path"), s("root"), s("data")]
    );
}
