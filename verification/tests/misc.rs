use dodeca::annotations::{comment_spans, AnnotationIndex, AnnotationThread};
use dodeca::boot_state::{BootPhase, BootState, ErrorKind};
use dodeca::browser_assets::{
    devtools_runtime_candidates, devtools_ui_dir_candidates, is_devtools_runtime_asset,
    is_safe_ui_asset_path, is_search_runtime_asset, search_packaged_candidates,
    search_source_path,
};
use dodeca::cells::{find_cell_path, next_devtools_browser_id, MarkdownParseError};
use dodeca::positions::{Position, Range};
use dodeca::templates::{
    FrontmatterDocumentKind, FrontmatterDocumentTarget, TemplateDocumentKind,
    TemplateDocumentTarget,
};

fn range() -> Range {
    Range {
        start: Position { line: 0, character: 0 },
        end: Position { line: 0, character: 1 },
    }
}

#[test]
fn template_document_texts() {
    assert_eq!(TemplateDocumentKind::Extends.label(), "extends");
    assert_eq!(TemplateDocumentKind::Include.label(), "include");
    assert_eq!(TemplateDocumentKind::Import.label(), "import");
    let t = TemplateDocumentTarget {
        kind: TemplateDocumentKind::Extends,
        path: "base.html".into(),
        target_path: "/p/templates/base.html".into(),
        source_range: range(),
    };
    assert_eq!(t.tooltip(), "Open Dodeca template extends `base.html`");
    assert_eq!(
        t.hover_markdown(),
        "**Dodeca template extends**\n\n`base.html`\n\nSource: `/p/templates/base.html`"
    );
}

#[test]
fn frontmatter_document_texts() {
    assert_eq!(FrontmatterDocumentKind::Template.label(), "template");
    assert_eq!(FrontmatterDocumentKind::StaticAsset.label(), "static asset");
    assert_eq!(FrontmatterDocumentKind::DataFile.label(), "data file");
    let t = FrontmatterDocumentTarget {
        kind: FrontmatterDocumentKind::DataFile,
        path: "team.toml".into(),
        target_path: "/p/data/team.toml".into(),
        source_range: range(),
    };
    assert_eq!(t.tooltip(), "Open Dodeca data file `team.toml`");
    assert_eq!(
        t.hover_markdown(),
        "**Dodeca data file**\n\n`team.toml`\n\nSource: `/p/data/team.toml`"
    );
}

#[test]
fn boot_states() {
    let b = BootState::booting();
    assert!(matches!(b, BootState::Booting { phase: BootPhase::LoadingCells, .. }));
    assert!(!b.is_ready());
    assert!(!b.is_fatal());
    let r = BootState::ready(7);
    assert!(r.is_ready());
    assert!(matches!(r, BootState::Ready { generation: 7, .. }));
    let f = BootState::fatal(ErrorKind::MissingCell, "no cell".to_string());
    assert!(f.is_fatal());
    assert!(!f.is_ready());
    assert!(f.elapsed() < std::time::Duration::from_secs(60));
}

fn thread(id: &str, resolved: bool) -> AnnotationThread {
    AnnotationThread {
        id: id.into(),
        route: "/".into(),
        title: "Home".into(),
        source_file: "_index.md".into(),
        line: 1,
        quote: String::new(),
        resolved,
        kind: "note".into(),
        author: String::new(),
        created: String::new(),
        comments: vec![],
    }
}

#[test]
fn annotation_counts() {
    let index = AnnotationIndex::from_threads(vec![thread("a", true), thread("b", false), thread("c", false)]);
    assert_eq!(index.total, 3);
    assert_eq!(index.resolved, 1);
    assert_eq!(index.open, 2);
    assert_eq!(index.threads.len(), 3);
}

#[test]
fn html_comments_are_found_in_order() {
    let content = "# T\n\nPara.\n\n<!-- note\n+++\nid = \"a\"\n+++\nfirst\n-->\n\n<!-- nope -->\n<!-- open";
    let spans = comment_spans(content);
    assert_eq!(spans.len(), 2);
    let chars: Vec<char> = content.chars().collect();
    let first: String = chars[spans[0].0..spans[0].1].iter().collect();
    assert!(first.starts_with("<!-- note"));
    assert!(first.ends_with("-->"));
    let second: String = chars[spans[1].0..spans[1].1].iter().collect();
    assert_eq!(second, "<!-- nope -->");
}

#[test]
fn browser_asset_names_and_paths() {
    assert!(is_devtools_runtime_asset("dodeca_devtools.js"));
    assert!(!is_devtools_runtime_asset("evil.js"));
    assert!(is_search_runtime_asset("search.css"));
    assert!(!is_search_runtime_asset("search.html"));
    let roots = vec!["/opt/ddc/dodeca-assets".to_string()];
    assert_eq!(
        devtools_runtime_candidates("dodeca_devtools.js", &roots, "/repo"),
        Some(vec![
            "/opt/ddc/dodeca-assets/devtools-runtime/dodeca_devtools.js".to_string(),
            "/repo/crates/dodeca-devtools/pkg/dodeca_devtools.js".to_string(),
        ])
    );
    assert_eq!(devtools_runtime_candidates("x.js", &roots, "/repo"), None);
    assert_eq!(
        devtools_ui_dir_candidates(&roots, "/repo"),
        vec![
            "/opt/ddc/dodeca-assets/devtools-ui".to_string(),
            "/repo/crates/dodeca/devtools-ui/dist".to_string(),
        ]
    );
    assert_eq!(
        search_source_path("/repo", "search.js"),
        Some("/repo/crates/dodeca-search-wasm/ui/search.js".to_string())
    );
    assert_eq!(
        search_source_path("/repo", "dodeca_search_wasm_bg.wasm"),
        Some("/repo/crates/dodeca-search-wasm/pkg/dodeca_search_wasm_bg.wasm".to_string())
    );
    assert_eq!(search_source_path("/repo", "x"), None);
    assert_eq!(
        search_packaged_candidates("search.js", &roots),
        vec!["/opt/ddc/dodeca-assets/search/search.js".to_string()]
    );
    assert!(is_safe_ui_asset_path("assets/app.js"));
    assert!(!is_safe_ui_asset_path(""));
    assert!(!is_safe_ui_asset_path("/etc/passwd"));
    assert!(!is_safe_ui_asset_path("a/../b"));
    assert!(!is_safe_ui_asset_path("a//b"));
    assert!(!is_safe_ui_asset_path("./a"));
}

#[test]
fn cell_bits() {
    assert_eq!(find_cell_path(), "ddc-cell-http");
    let mut counter = 1u64;
    assert_eq!(next_devtools_browser_id(&mut counter), 1);
    assert_eq!(next_devtools_browser_id(&mut counter), 2);
    assert_eq!(counter, 3);
    let mut top = u64::MAX;
    assert_eq!(next_devtools_browser_id(&mut top), u64::MAX);
    assert_eq!(top, 0);
    let e = MarkdownParseError { message: "bad".into() };
    assert_eq!(e.to_display_string(), "bad");
}

use dodeca::cells::devtools_browser_id_counter;

#[test]
fn devtools_browser_ids_start_at_one_and_increase() {
    let mut counter = devtools_browser_id_counter();
    let ids: Vec<u64> = (0..5).map(|_| next_devtools_browser_id(&mut counter)).collect();
    assert_eq!(ids, vec![1, 2, 3, 4, 5]);
}
