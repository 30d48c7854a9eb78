use dodeca::diagnostics::{AuthoringDiagnostic, AuthoringDiagnosticKind};
use dodeca::model::AuthoringProject;
use dodeca::positions::Position;
use dodeca::template_definitions::{
    builtin_template_definition_range, template_definition_targets, TemplateDefinitionKind,
};
use dodeca::template_macro_calls::template_macro_call_occurrences;
use dodeca::template_syntax::{TemplateBranch, TemplateExpr, TemplateIdent, TemplateNode};
use dodeca::template_diagnostics::{
    template_block_definition, template_content, template_diagnostics, template_extends_path,
    template_import_aliases, template_macro_definition,
};

fn s(x: &str) -> String {
    x.to_string()
}

fn ident(text: &str) -> TemplateIdent {
    TemplateIdent { text: s(text), offset: 0, len: text.len() }
}

const BASE: &str = "{% block title %}Title{% endblock %}\n";
const MACROS: &str = "{% macro card(title) %}{{ title }}{% endmacro %}\n";
const CHILD: &str = "{% extends \"base.html\" %}\n{% include \"missing.html\" %}\n{% import \"macros.html\" as macros %}\n{% block content %}{{ macros::missing(\"Hi\") | nope }}{% if title is frobnicate %}ok{% endif %}{% endblock %}\n";

fn project() -> AuthoringProject {
    AuthoringProject {
        pages: vec![],
        known_routes: vec![],
        headings_by_route: vec![],
        source_to_route: vec![],
        route_to_source: vec![],
        source_contents: vec![],
        template_paths: vec![
            (s("base.html"), s("/site/templates/base.html")),
            (s("macros.html"), s("/site/templates/macros.html")),
            (s("child.html"), s("/site/templates/child.html")),
        ],
        template_contents: vec![
            (s("base.html"), s(BASE)),
            (s("macros.html"), s(MACROS)),
            (s("child.html"), s(CHILD)),
        ],
        static_paths: vec![],
        data_paths: vec![],
        data_keys: vec![],
        template_semantics: vec![],
        rendered_hrefs_by_route: vec![],
    }
}

fn find<'a>(
    diagnostics: &'a [AuthoringDiagnostic],
    kind: AuthoringDiagnosticKind,
) -> Option<&'a AuthoringDiagnostic> {
    diagnostics.iter().find(|d| d.kind == kind)
}

#[test]
fn reports_template_diagnostics_from_authoring_model() {
    let project = project();
    let diagnostics = template_diagnostics(&project, "child.html", CHILD);
    let kinds = diagnostics.iter().map(|d| d.kind).collect::<Vec<_>>();

    assert!(kinds.contains(&AuthoringDiagnosticKind::MissingTemplate));
    assert!(kinds.contains(&AuthoringDiagnosticKind::MissingBlock));
    assert!(kinds.contains(&AuthoringDiagnosticKind::UnknownMacro));
    assert!(kinds.contains(&AuthoringDiagnosticKind::UnknownFilter));
    assert!(kinds.contains(&AuthoringDiagnosticKind::UnknownTest));
    assert!(diagnostics.iter().any(|d| {
        d.kind == AuthoringDiagnosticKind::MissingTemplate && d.target == "missing.html"
    }));
    assert!(diagnostics
        .iter()
        .any(|d| d.kind == AuthoringDiagnosticKind::MissingBlock && d.target == "content"));
    assert!(diagnostics
        .iter()
        .any(|d| d.kind == AuthoringDiagnosticKind::UnknownMacro && d.target == "missing"));
    assert!(diagnostics
        .iter()
        .any(|d| d.kind == AuthoringDiagnosticKind::UnknownFilter && d.target == "nope"));
    assert!(diagnostics
        .iter()
        .any(|d| d.kind == AuthoringDiagnosticKind::UnknownTest && d.target == "frobnicate"));
}

#[test]
fn template_diagnostics_come_in_source_order_with_messages() {
    let project = project();
    let diagnostics = template_diagnostics(&project, "child.html", CHILD);
    let kinds = diagnostics.iter().map(|d| d.kind).collect::<Vec<_>>();
    assert_eq!(
        kinds,
        vec![
            AuthoringDiagnosticKind::MissingTemplate,
            AuthoringDiagnosticKind::MissingBlock,
            AuthoringDiagnosticKind::UnknownMacro,
            AuthoringDiagnosticKind::UnknownFilter,
            AuthoringDiagnosticKind::UnknownTest,
        ]
    );
    let missing = find(&diagnostics, AuthoringDiagnosticKind::MissingTemplate).unwrap();
    assert_eq!(missing.message, "template include 'missing.html' not found");
    assert_eq!(missing.source_file, "child.html");
    assert_eq!(missing.route, "");
    assert_eq!(missing.resolved_route, None);
    assert_eq!(missing.line, 2);
    let block = find(&diagnostics, AuthoringDiagnosticKind::MissingBlock).unwrap();
    assert_eq!(block.message, "parent block 'content' not found");
    assert_eq!(&CHILD[block.byte_start..block.byte_end], "content");
    let mac = find(&diagnostics, AuthoringDiagnosticKind::UnknownMacro).unwrap();
    assert_eq!(mac.message, "macro 'macros::missing' not found");
    assert_eq!(&CHILD[mac.byte_start..mac.byte_end], "missing");
    let filter = find(&diagnostics, AuthoringDiagnosticKind::UnknownFilter).unwrap();
    assert_eq!(filter.message, "filter 'nope' not found");
    assert_eq!(&CHILD[filter.byte_start..filter.byte_end], "nope");
    let test = find(&diagnostics, AuthoringDiagnosticKind::UnknownTest).unwrap();
    assert_eq!(test.message, "test 'frobnicate' not found");
    assert_eq!(test.line, 4);
}

#[test]
fn well_formed_template_has_no_diagnostics() {
    let project = project();
    let content = "{% extends \"base.html\" %}\n{% import \"macros.html\" as ui %}\n{% block title %}{{ ui::card(\"Hi\") | upper }}{% if x is defined %}{% endif %}{% endblock %}\n";
    assert!(template_diagnostics(&project, "page.html", content).is_empty());
}

#[test]
fn template_that_does_not_parse_has_no_diagnostics() {
    let project = project();
    assert!(template_diagnostics(&project, "broken.html", "{% block %}{{ | }}").is_empty());
}

#[test]
fn missing_extends_reports_the_path_and_no_blocks() {
    let project = project();
    let content = "{% extends \"nowhere.html\" %}{% block x %}{% endblock %}";
    let diagnostics = template_diagnostics(&project, "page.html", content);
    assert_eq!(diagnostics.len(), 1);
    assert_eq!(diagnostics[0].kind, AuthoringDiagnosticKind::MissingTemplate);
    assert_eq!(diagnostics[0].message, "template extends 'nowhere.html' not found");
}

#[test]
fn self_macros_resolve_in_the_current_text() {
    let project = project();
    let content = "{% macro box() %}x{% endmacro %}{{ self::box() }}{{ self::gone() }}";
    let diagnostics = template_diagnostics(&project, "child.html", content);
    assert_eq!(diagnostics.len(), 1);
    assert_eq!(diagnostics[0].target, "gone");
    // A template the project does not list has no macros to call.
    let unlisted = template_diagnostics(&project, "page.html", content);
    assert_eq!(unlisted.len(), 2);
}

#[test]
fn blocks_resolve_up_the_chain_of_extends() {
    let mut project = project();
    let mid = "{% extends \"base.html\" %}{% block middle %}{% endblock %}";
    project.template_paths.push((s("mid.html"), s("/site/templates/mid.html")));
    project.template_contents.push((s("mid.html"), s(mid)));
    let content = "{% extends \"mid.html\" %}{% block title %}{% endblock %}{% block middle %}{% endblock %}{% block other %}{% endblock %}";
    let diagnostics = template_diagnostics(&project, "leaf.html", content);
    assert_eq!(diagnostics.len(), 1);
    assert_eq!(diagnostics[0].target, "other");

    let found = template_block_definition(&project, "mid.html", "leaf.html", content, "title")
        .expect("title in base");
    assert_eq!(found.0, "base.html");
    assert_eq!(found.1, BASE);
    assert_eq!(found.2.text, "title");
    assert!(template_block_definition(&project, "mid.html", "leaf.html", content, "other").is_none());
}

#[test]
fn cyclic_extends_find_no_block() {
    let mut project = project();
    project.template_paths.push((s("a.html"), s("/t/a.html")));
    project.template_paths.push((s("b.html"), s("/t/b.html")));
    project.template_contents.push((s("a.html"), s("{% extends \"b.html\" %}")));
    project.template_contents.push((s("b.html"), s("{% extends \"a.html\" %}")));
    assert!(template_block_definition(&project, "a.html", "c.html", "", "x").is_none());
}

#[test]
fn import_aliases_keep_known_templates_in_order() {
    let project = project();
    let import = |path: &str, alias: &str| TemplateNode::Import { path: ident(path), alias: ident(alias) };
    let nodes = vec![
        import("macros.html", "a"),
        TemplateNode::If {
            branches: vec![TemplateBranch {
                condition: TemplateExpr::Plain { operands: vec![] },
                body: vec![import("gone.html", "b"), import("base.html", "c")],
            }],
            else_body: None,
        },
    ];
    let aliases = template_import_aliases(&project, &nodes);
    assert_eq!(aliases, vec![(s("a"), s("macros.html")), (s("c"), s("base.html"))]);
}

#[test]
fn extends_path_skips_blank_text_only() {
    assert_eq!(template_extends_path("t.html", "\n  {% extends \"base.html\" %}"), Some(s("base.html")));
    assert_eq!(template_extends_path("t.html", "x{% extends \"base.html\" %}"), None);
    assert_eq!(template_extends_path("t.html", "{{ a }}"), None);
}

#[test]
fn template_content_prefers_the_current_text() {
    let project = project();
    assert_eq!(template_content(&project, "base.html", "base.html", "live"), Some(s("live")));
    assert_eq!(template_content(&project, "base.html", "other.html", "live"), Some(s(BASE)));
    assert_eq!(template_content(&project, "none.html", "other.html", "live"), None);
}

#[test]
fn macro_definitions_follow_import_aliases() {
    let project = project();
    let imports = vec![(s("ui"), s("macros.html"))];
    let found = template_macro_definition(&project, "page.html", "", &imports, "ui", "card")
        .expect("card");
    assert_eq!(found.0, "macros.html");
    assert_eq!(found.1, MACROS);
    assert_eq!(found.2.text, "card");
    assert_eq!(&MACROS[found.2.offset..found.2.offset + found.2.len], "card");
    assert!(template_macro_definition(&project, "page.html", "", &imports, "kit", "card").is_none());
    assert!(template_macro_definition(&project, "page.html", "", &imports, "ui", "missing").is_none());
}

fn parsed(content: &str) -> Vec<TemplateNode> {
    // The walks take parsed nodes; the diagnostics entry point parses. Build
    // the same nodes by hand for a call of `ui::card` and of `self::box`.
    let _ = content;
    let call = |ns: &str, name: &str, offset: usize| TemplateExpr::MacroCall {
        operands: vec![],
        namespace: ident(ns),
        macro_name: TemplateIdent { text: s(name), offset, len: name.len() },
    };
    vec![
        TemplateNode::Import { path: ident("macros.html"), alias: ident("ui") },
        TemplateNode::Print { expr: call("ui", "card", 40) },
        TemplateNode::SetExpr { value: call("self", "box", 60) },
        TemplateNode::Print { expr: call("other", "thing", 80) },
        TemplateNode::Macro {
            name: ident("m"),
            defaults: vec![Some(call("ui", "inside_default", 0))],
            body: vec![TemplateNode::Print { expr: call("ui", "nested", 0) }],
        },
    ]
}

#[test]
fn macro_call_occurrences_resolve_namespaces() {
    let content = "x".repeat(100);
    let nodes = parsed(&content);
    let imports = vec![(s("ui"), s("macros.html"))];
    let calls = template_macro_call_occurrences("page.html", &content, &imports, &nodes);
    let found = calls
        .iter()
        .map(|c| (c.target_template_file.as_str(), c.macro_name.as_str()))
        .collect::<Vec<_>>();
    assert_eq!(found, vec![("macros.html", "card"), ("page.html", "box"), ("macros.html", "nested")]);
    assert_eq!(calls[0].source_range.start, Position { line: 0, character: 40 });
    assert_eq!(calls[0].source_range.end, Position { line: 0, character: 44 });
}

#[test]
fn macro_calls_come_before_the_calls_in_their_arguments() {
    let content = "{{ ui::outer(ui::inner()) }}";
    let inner = TemplateExpr::MacroCall {
        operands: vec![],
        namespace: ident("ui"),
        macro_name: TemplateIdent { text: s("inner"), offset: 13, len: 5 },
    };
    let outer = TemplateExpr::MacroCall {
        operands: vec![inner],
        namespace: ident("ui"),
        macro_name: TemplateIdent { text: s("outer"), offset: 7, len: 5 },
    };
    let nodes = vec![TemplateNode::Print { expr: outer }];
    let imports = vec![(s("ui"), s("a.html")), (s("ui"), s("b.html"))];
    let calls = template_macro_call_occurrences("page.html", content, &imports, &nodes);
    assert_eq!(calls.len(), 2);
    assert_eq!(calls[0].macro_name, "outer");
    assert_eq!(calls[1].macro_name, "inner");
    // The last import under an alias wins.
    assert_eq!(calls[0].target_template_file, "b.html");
}

const ENGINE: &str = "fn filters() {\n    Ok(match name {\n        \"trim\" => 1,\n    })\n}\nfn tests() {\n    let result = match test.test_name.name.as_str() {\n        \"string\" => 2,\n    };\n}\n";

#[test]
fn resolves_template_definition_targets() {
    let project = project();
    let content = "{% extends \"base.html\" %}{% import \"macros.html\" as m %}{% block title %}{{ m::card(\"x\") | trim }}{% if a is string %}{% endif %}{% endblock %}";
    let mut project = project;
    project.template_contents.push((s("page.html"), s(content)));
    let engine = Some((s("/engine/eval.rs"), s(ENGINE)));
    let targets = template_definition_targets(&project, "page.html", content, &engine);
    let kinds = targets.iter().map(|t| (t.kind, t.name.as_str())).collect::<Vec<_>>();
    assert_eq!(
        kinds,
        vec![
            (TemplateDefinitionKind::Block, "title"),
            (TemplateDefinitionKind::Macro, "m::card"),
            (TemplateDefinitionKind::Filter, "trim"),
            (TemplateDefinitionKind::Test, "string"),
        ]
    );
    assert_eq!(targets[0].target_path, "/site/templates/base.html");
    assert_eq!(targets[0].target_range.start, Position { line: 0, character: 9 });
    assert_eq!(targets[1].target_path, "/site/templates/macros.html");
    assert_eq!(targets[2].target_path, "/engine/eval.rs");
    assert_eq!(targets[2].target_range.start, Position { line: 2, character: 9 });
    assert_eq!(targets[2].target_range.end, Position { line: 2, character: 13 });
    assert_eq!(targets[3].target_range.start, Position { line: 7, character: 9 });
}

#[test]
fn definition_targets_need_a_known_template_and_an_engine_source() {
    let project = project();
    let content = "{{ a | trim }}";
    assert!(template_definition_targets(&project, "page.html", content, &None).is_empty());
    let mut project = project;
    project.template_contents.push((s("page.html"), s(content)));
    assert!(template_definition_targets(&project, "page.html", content, &None).is_empty());
    let engine = Some((s("/engine/eval.rs"), s(ENGINE)));
    assert_eq!(template_definition_targets(&project, "page.html", content, &engine).len(), 1);
}

#[test]
fn builtin_definition_range_finds_the_quoted_name_after_the_marker() {
    let range = builtin_template_definition_range(ENGINE, TemplateDefinitionKind::Test, "string")
        .expect("string test");
    assert_eq!(range.start, Position { line: 7, character: 9 });
    assert!(builtin_template_definition_range(ENGINE, TemplateDefinitionKind::Filter, "missing").is_none());
    assert!(builtin_template_definition_range(ENGINE, TemplateDefinitionKind::Block, "trim").is_none());
    assert_eq!(TemplateDefinitionKind::Filter.label(), "filter");
}

#[test]
fn template_ident_range_is_the_zero_based_span() {
    let content = "{% block\n  intro %}";
    let ident = TemplateIdent { text: s("intro"), offset: 11, len: 5 };
    let range = dodeca::template_definitions::template_ident_range(content, &ident);
    assert_eq!(range.start, Position { line: 1, character: 2 });
    assert_eq!(range.end, Position { line: 1, character: 7 });
    assert_eq!(dodeca::template_definitions::template_string_range(content, &ident), range);
}

#[test]
fn a_macro_call_has_a_target_exactly_when_it_is_not_reported() {
    let project = project();
    let content = "{% import \"macros.html\" as m %}{{ m::card() }}{{ m::gone() }}";
    let targets = template_definition_targets(&project, "child.html", content, &None);
    let names = targets.iter().map(|t| t.name.as_str()).collect::<Vec<_>>();
    assert_eq!(names, vec!["m::card"]);
    let diagnostics = template_diagnostics(&project, "child.html", content);
    let unknown = diagnostics
        .iter()
        .filter(|d| d.kind == AuthoringDiagnosticKind::UnknownMacro)
        .map(|d| d.target.as_str())
        .collect::<Vec<_>>();
    assert_eq!(unknown, vec!["gone"]);
}

#[test]
fn template_index_records_each_parsed_template() {
    let mut project = project();
    let grandchild = "{% extends \"child.html\" %}{% block content %}{% macro m() %}{% endmacro %}{% endblock %}";
    project.template_paths.push((s("grandchild.html"), s("/site/templates/grandchild.html")));
    project.template_contents.push((s("grandchild.html"), s(grandchild)));
    project.template_paths.push((s("nowhere.html"), s("/site/templates/nowhere.html")));
    let index = dodeca::template_index::template_index(&project);
    let files = index.templates.iter().map(|t| t.file.as_str()).collect::<Vec<_>>();
    assert_eq!(files, vec!["base.html", "macros.html", "child.html", "grandchild.html"]);
    let child = &index.templates[2];
    assert_eq!(child.extends.as_deref(), Some("base.html"));
    assert_eq!(child.path, "/site/templates/child.html");
    assert_eq!(child.blocks.iter().map(|b| b.name.as_str()).collect::<Vec<_>>(), vec!["content"]);
    assert_eq!(child.macro_calls.len(), 1);
    assert_eq!(child.macro_calls[0].target_template_file, "macros.html");
    let macros = &index.templates[1];
    assert_eq!(macros.macros.iter().map(|m| m.name.as_str()).collect::<Vec<_>>(), vec!["card"]);
    assert_eq!(macros.macros[0].source_range.start, Position { line: 0, character: 9 });
    let gc = &index.templates[3];
    assert_eq!(gc.blocks.len(), 1);
    assert_eq!(gc.macros.iter().map(|m| m.name.as_str()).collect::<Vec<_>>(), vec!["m"]);

    let mut parents = index.children_by_parent.clone();
    parents.sort();
    assert_eq!(
        parents,
        vec![(s("base.html"), vec![s("child.html")]), (s("child.html"), vec![s("grandchild.html")])]
    );
}

#[test]
fn children_of_a_parent_are_sorted() {
    let mut project = project();
    for name in ["z.html", "a.html"] {
        project.template_paths.push((s(name), format!("/t/{name}")));
        project.template_contents.push((s(name), s("{% extends \"base.html\" %}")));
    }
    let index = dodeca::template_index::template_index(&project);
    let base = index.children_by_parent.iter().find(|(p, _)| p == "base.html").expect("base");
    assert_eq!(base.1, vec![s("a.html"), s("child.html"), s("z.html")]);
}

fn family_project() -> AuthoringProject {
    let mut project = project();
    project.template_paths.clear();
    project.template_contents.clear();
    let files = [
        ("base.html", "{% block breadcrumbs %}Base{% endblock %}\n"),
        ("child.html", "{% extends \"base.html\" %}\n{% block breadcrumbs %}Child{% endblock %}\n"),
        ("grandchild.html", "{% extends \"child.html\" %}\n{% block breadcrumbs %}Grandchild{% endblock %}\n"),
        ("other-base.html", "{% block breadcrumbs %}Other base{% endblock %}\n"),
        ("macros.html", MACROS),
        ("page.html", "{% import \"macros.html\" as ui %}\n{{ ui::card(\"Hi\") }}\n"),
        ("other.html", "{% import \"macros.html\" as kit %}\n{% set rendered = kit::card(\"Yo\") %}\n"),
    ];
    for (name, text) in files {
        project.template_paths.push((s(name), format!("/t/{name}")));
        project.template_contents.push((s(name), s(text)));
    }
    project
}

#[test]
fn resolves_template_block_references_by_inheritance_tree() {
    let project = family_project();
    let index = dodeca::template_index::template_index(&project);
    let refs = index.block_reference_targets("child.html", "breadcrumbs");
    let paths = refs.iter().map(|r| r.path.as_str()).collect::<Vec<_>>();
    assert_eq!(paths, vec!["/t/base.html", "/t/child.html", "/t/grandchild.html"]);
    let other = index.block_reference_targets("other-base.html", "breadcrumbs");
    assert_eq!(other.len(), 1);
    assert!(index.block_reference_targets("page.html", "breadcrumbs").is_empty());
}

#[test]
fn block_definition_target_finds_the_overridden_block() {
    let project = family_project();
    let index = dodeca::template_index::template_index(&project);
    let occurrence = index
        .block_occurrence_at_position("grandchild.html", Position { line: 1, character: 12 })
        .expect("block under the cursor");
    assert_eq!(occurrence.name, "breadcrumbs");
    let target = index.block_definition_target("grandchild.html", &occurrence).expect("parent block");
    assert_eq!(target.target_path, "/t/child.html");
    assert_eq!(target.target_range.start, Position { line: 1, character: 9 });
    assert!(index.block_definition_target("base.html", &occurrence).is_none());
    assert!(index.block_occurrence_at_position("grandchild.html", Position { line: 0, character: 0 }).is_none());
}

#[test]
fn finds_imported_template_macro_references() {
    let project = family_project();
    let index = dodeca::template_index::template_index(&project);
    let query = index
        .macro_reference_query("page.html", Position { line: 1, character: 8 })
        .expect("call under the cursor");
    assert_eq!(query.target_template_file, "macros.html");
    assert_eq!(query.macro_name, "card");
    let from_definition = index
        .macro_reference_query("macros.html", Position { line: 0, character: 10 })
        .expect("definition under the cursor");
    assert_eq!(from_definition.target_template_file, "macros.html");
    let refs = index.macro_reference_targets("macros.html", "card");
    let paths = refs.iter().map(|r| r.path.as_str()).collect::<Vec<_>>();
    assert_eq!(paths, vec!["/t/macros.html", "/t/other.html", "/t/page.html"]);
    assert!(index.macro_reference_targets("macros.html", "missing").is_empty());
}

#[test]
fn cyclic_extends_end_the_upward_searches() {
    let mut project = project();
    project.template_paths.clear();
    project.template_contents.clear();
    for (name, parent) in [("a.html", "b.html"), ("b.html", "a.html")] {
        project.template_paths.push((s(name), format!("/t/{name}")));
        project
            .template_contents
            .push((s(name), format!("{{% extends \"{parent}\" %}}{{% block x %}}{{% endblock %}}")));
    }
    let index = dodeca::template_index::template_index(&project);
    let occurrence = index.templates[0].blocks[0].clone();
    let target = index.block_definition_target("a.html", &occurrence).expect("b declares x");
    assert_eq!(target.target_path, "/t/b.html");
    let refs = index.block_reference_targets("a.html", "x");
    assert_eq!(refs.len(), 2);
}
