use dodeca::build_steps::interpolate_params;
use dodeca::config::normalize_mount;
use dodeca::positions::byte_to_line_column;
use dodeca::routes::{
    ensure_trailing_slash, is_likely_static_file, is_special_target, normalize_relative_path,
    normalize_route, source_file_for_new_route, split_fragment, strip_query,
};

#[test]
fn maps_missing_route_to_new_page_source_file() {
    assert_eq!(source_file_for_new_route("/ij"), Some("ij.md".to_string()));
    assert_eq!(
        source_file_for_new_route("/ops/deploy"),
        Some("ops/deploy.md".to_string())
    );
    assert_eq!(source_file_for_new_route("/"), None);
    assert_eq!(source_file_for_new_route("/bad:route"), None);
}

#[test]
fn normalize_mount_canonicalizes() {
    assert_eq!(normalize_mount("/"), "/");
    assert_eq!(normalize_mount(""), "/");
    assert_eq!(normalize_mount("spec/build"), "/spec/build/");
    assert_eq!(normalize_mount("/spec/build"), "/spec/build/");
    assert_eq!(normalize_mount("/spec/build/"), "/spec/build/");
}

#[test]
fn test_interpolate_params() {
    let params = vec![
        ("file".to_string(), "test.txt".to_string()),
        ("width".to_string(), "100".to_string()),
    ];

    assert_eq!(interpolate_params("{file}", &params), "test.txt");
    assert_eq!(
        interpolate_params("convert {file} -resize {width}x", &params),
        "convert test.txt -resize 100x"
    );
    assert_eq!(
        interpolate_params("no params here", &params),
        "no params here"
    );
}

#[test]
fn normalize_route_resolves_dots() {
    assert_eq!(normalize_route(""), "/");
    assert_eq!(normalize_route("a/./b/../c/"), "/a/c");
    assert_eq!(normalize_route("/../x"), "/x");
    assert_eq!(normalize_route("//guide//intro"), "/guide/intro");
    assert_eq!(normalize_relative_path("guide/../a/./b.md"), "a/b.md");
    assert_eq!(normalize_relative_path("../.."), "");
}

#[test]
fn link_target_parts() {
    assert_eq!(strip_query("/a?x=1#f"), "/a");
    assert_eq!(split_fragment("/a#sec?q"), ("/a", Some("sec")));
    assert_eq!(split_fragment("/a?q#sec"), ("/a", None));
    assert_eq!(split_fragment("page"), ("page", None));
    assert!(is_special_target("https://x"));
    assert!(is_special_target("/__dodeca"));
    assert!(!is_special_target("/guide"));
    assert!(is_likely_static_file("logo.png"));
    assert!(!is_likely_static_file("/guide"));
    assert_eq!(ensure_trailing_slash("/a"), "/a/");
    assert_eq!(ensure_trailing_slash("/"), "/");
}

#[test]
fn line_columns() {
    let s = "ab\ncé\nd";
    assert_eq!(byte_to_line_column(s, 0), (1, 1));
    assert_eq!(byte_to_line_column(s, 2), (1, 3));
    assert_eq!(byte_to_line_column(s, 3), (2, 1));
    // 'é' is two bytes: offset 6 is the newline after it.
    assert_eq!(byte_to_line_column(s, 6), (2, 3));
    assert_eq!(byte_to_line_column(s, 100), (3, 2));
}
