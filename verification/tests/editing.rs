use dodeca::editing::{
    collapse_whitespace, common_prefix_len, extract_leading_heading, markdown_body_without_frontmatter,
    missing_anchor_fragment, missing_anchor_parent_and_leaf, normalize_extracted_body,
    title_from_atx_heading_line,
};

#[test]
fn common_prefixes() {
    assert_eq!(common_prefix_len("install-guide", "install-notes"), 8);
    assert_eq!(common_prefix_len("", "x"), 0);
    assert_eq!(common_prefix_len("same", "same"), 4);
}

#[test]
fn anchors() {
    assert_eq!(missing_anchor_fragment("/a#b"), Some("b"));
    assert_eq!(missing_anchor_fragment("/a#"), None);
    assert_eq!(missing_anchor_fragment("/a"), None);
    assert_eq!(
        missing_anchor_parent_and_leaf("setup--linux--arm"),
        (Some("setup--linux".to_string()), "arm".to_string())
    );
    assert_eq!(missing_anchor_parent_and_leaf("setup"), (None, "setup".to_string()));
}

#[test]
fn bodies_without_frontmatter() {
    assert_eq!(
        markdown_body_without_frontmatter("+++\ntitle = \"x\"\n+++\n# Body\n"),
        "# Body\n"
    );
    assert_eq!(markdown_body_without_frontmatter("# No frontmatter"), "# No frontmatter");
    assert_eq!(markdown_body_without_frontmatter("+++\nunclosed"), "+++\nunclosed");
}

#[test]
fn whitespace_collapses() {
    assert_eq!(collapse_whitespace("  a \t b\n\nc  "), "a b c");
    assert_eq!(collapse_whitespace("   "), "");
}

#[test]
fn atx_headings() {
    assert_eq!(title_from_atx_heading_line("## Title ##"), Some("Title".to_string()));
    assert_eq!(title_from_atx_heading_line("  # Spaced  "), Some("Spaced".to_string()));
    assert_eq!(title_from_atx_heading_line("#NoSpace"), None);
    assert_eq!(title_from_atx_heading_line("####### seven"), None);
    assert_eq!(title_from_atx_heading_line("# ###"), Some("###".to_string()));
    assert_eq!(title_from_atx_heading_line("#"), None);
}

#[test]
fn leading_headings_are_extracted() {
    assert_eq!(
        extract_leading_heading("\n\n# Title\nbody text\n"),
        Some(("Title".to_string(), "body text\n".to_string()))
    );
    assert_eq!(extract_leading_heading("plain\n"), None);
    assert_eq!(
        extract_leading_heading("## Only"),
        Some(("Only".to_string(), "".to_string()))
    );
}

#[test]
fn extracted_bodies_are_normalised() {
    assert_eq!(normalize_extracted_body("\n\n  text  \n\r\n"), "\ntext\n");
    assert_eq!(normalize_extracted_body("\n \n"), "\n");
}
