use dodeca::diagnostics::AuthoringDiagnosticKind;
use dodeca::frontmatter::{
    frontmatter_diagnostics_for_source, frontmatter_entries, frontmatter_value_is_integer,
    page_frontmatter, toml_basic_string_escape,
};

#[test]
fn creates_pages_with_frontmatter_only() {
    assert_eq!(
        page_frontmatter("New \"Page\""),
        "+++\ntitle = \"New \\\"Page\\\"\"\n+++\n"
    );
}

#[test]
fn validates_frontmatter_against_typed_fields() {
    let content = "+++\ntitl = \"Typo\"\ntitle = \"Guide\"\ntitle = \"Duplicate\"\nweight = \"heavy\"\ntemplate = 42\n[extra]\ncustom = true\n+++\n";
    let diagnostics = frontmatter_diagnostics_for_source("guide.md", "/guide", content);
    let messages = diagnostics
        .iter()
        .map(|diagnostic| diagnostic.message.as_str())
        .collect::<Vec<_>>();

    assert!(messages.contains(&"unknown Dodeca frontmatter field 'titl'"));
    assert!(messages.contains(&"duplicate Dodeca frontmatter field 'title'"));
    assert!(messages.contains(&"frontmatter field 'weight' expects an integer"));
    assert!(messages.contains(&"frontmatter field 'template' expects a string"));
    assert!(!messages.iter().any(|message| message.contains("custom")));
    assert!(
        diagnostics
            .iter()
            .all(|diagnostic| diagnostic.kind == AuthoringDiagnosticKind::Frontmatter)
    );
}

#[test]
fn frontmatter_entries_have_byte_offsets_and_tables() {
    let content = "+++\ntitle = \"Ünï\" # comment\nweight=3\n[extra]\nk = 'v'\n+++\nbody";
    let entries = frontmatter_entries(content);
    assert_eq!(entries.len(), 3);
    assert_eq!(entries[0].key, "title");
    assert_eq!(entries[0].value, "\"Ünï\"");
    assert_eq!(&content[entries[0].value_start..entries[0].value_end], "\"Ünï\"");
    assert_eq!(entries[1].key, "weight");
    assert_eq!(entries[1].value, "3");
    assert_eq!(entries[2].table.as_deref(), Some("extra"));
    assert_eq!(&content[entries[2].key_start..entries[2].key_end], "k");
}

#[test]
fn no_frontmatter_means_no_entries() {
    assert!(frontmatter_entries("# Title\n").is_empty());
    assert!(frontmatter_entries("+++\ntitle = \"x\"\n").is_empty());
}

#[test]
fn integer_values() {
    assert!(frontmatter_value_is_integer("42"));
    assert!(frontmatter_value_is_integer("-1_000"));
    assert!(!frontmatter_value_is_integer("1__0"));
    assert!(!frontmatter_value_is_integer("_1"));
    assert!(!frontmatter_value_is_integer("1_"));
    assert!(!frontmatter_value_is_integer("\"heavy\""));
    assert!(!frontmatter_value_is_integer("+"));
}

#[test]
fn toml_escapes() {
    assert_eq!(toml_basic_string_escape("a\\b\n\t\u{1}"), "a\\\\b\\n\\t ");
}

#[test]
fn diagnostics_point_at_the_value() {
    let content = "+++\nweight = \"heavy\"\n+++\n";
    let diagnostics = frontmatter_diagnostics_for_source("a.md", "/a", content);
    assert_eq!(diagnostics.len(), 1);
    let d = &diagnostics[0];
    assert_eq!(&content[d.byte_start..d.byte_end], "\"heavy\"");
    assert_eq!((d.line, d.column, d.line_end, d.column_end), (2, 10, 2, 17));
    assert_eq!(d.target, "weight");
    assert_eq!(d.route, "/a");
}

fn described(content: &str) -> Vec<(String, usize, usize)> {
    frontmatter_diagnostics_for_source("guide.md", "/guide", content)
        .into_iter()
        .map(|d| (d.message, d.byte_start, d.byte_end))
        .collect()
}

#[test]
fn keys_under_a_table_header_add_no_diagnostics() {
    let content = "+++\ntitle = \"Guide\"\nweight = \"x\"\n+++\nBody\n";
    let with_table = "+++\ntitle = \"Guide\"\nweight = \"x\"\n[extra]\ncustom = true\ntitl = 1\n+++\nBody\n";
    assert_eq!(described(content).len(), 1);
    assert_eq!(described(content), described(with_table));
}
