use dodeca::config::{
    config_file_path, merge_page_types, resolve_mount_location, resolve_sources,
    union_skip_domains, ConfigError, ImplDef, MountDef, ResolvedSource, SourceConfig,
};

fn src_cfg(content: Option<&str>) -> SourceConfig {
    SourceConfig {
        content: content.map(str::to_string),
        repo: None,
        impls: Vec::new(),
        skip_domains: Vec::new(),
        page_types: Vec::new(),
        build_steps: Vec::new(),
    }
}

fn mount(name: &str, path: &str, local: Option<&str>) -> MountDef {
    MountDef {
        name: name.to_string(),
        path: path.to_string(),
        local: local.map(str::to_string),
        checkout: None,
        content: None,
        git: None,
        repo: None,
    }
}

fn resolve(
    source: Option<SourceConfig>,
    mounts: Option<Vec<MountDef>>,
) -> Result<Vec<ResolvedSource>, ConfigError> {
    let n = mounts.as_ref().map(|m| m.len()).unwrap_or(0);
    let composed: Vec<Option<(String, SourceConfig)>> = (0..n).map(|_| None).collect();
    resolve_sources("/proj", source.as_ref(), mounts.as_ref(), &composed)
}

fn source_with_page_types(mount: &str, type_names: &[&str]) -> ResolvedSource {
    ResolvedSource {
        name: mount.trim_matches('/').to_string(),
        mount: mount.to_string(),
        content_dir: "/proj/content".to_string(),
        checkout_dir: None,
        git: None,
        repo: None,
        impls: Vec::new(),
        skip_domains: Vec::new(),
        project_dir: "/proj".to_string(),
        page_types: type_names.iter().map(|n| n.to_string()).collect(),
        build_steps: Vec::new(),
    }
}

#[test]
fn merge_page_types_unions_across_sources() {
    let sources = vec![
        source_with_page_types("/", &["Decision"]),
        source_with_page_types("/wiki/", &["Vision"]),
    ];
    let merged = match merge_page_types(&sources) {
        Ok(Some(m)) => m,
        _ => panic!("expected merged page types"),
    };
    assert_eq!(merged.len(), 2);
    assert!(merged.iter().any(|n| n == "Decision"));
    assert!(merged.iter().any(|n| n == "Vision"));
}

#[test]
fn merge_page_types_rejects_duplicate_name_across_sources() {
    let sources = vec![
        source_with_page_types("/", &["Decision"]),
        source_with_page_types("/wiki/", &["Decision"]),
    ];
    match merge_page_types(&sources) {
        Err(ConfigError::DuplicatePageType { name, first, second }) => {
            assert_eq!(name, "Decision");
            assert_eq!(first, "the root source");
            assert_eq!(second, "mount `wiki` (at `/wiki/`)");
        }
        _ => panic!("expected a duplicate page type error"),
    }
}

#[test]
fn merge_page_types_is_none_when_no_source_declares_any() {
    let sources = vec![source_with_page_types("/", &[])];
    assert!(matches!(merge_page_types(&sources), Ok(None)));
}

#[test]
fn root_source_carries_impls() {
    let mut src = src_cfg(Some("docs/content"));
    src.impls = vec![ImplDef {
        name: "rust".into(),
        include_globs: vec!["rust/**/src/**/*.rs".into()],
        exclude: vec!["**/target/**".into()],
        test_include: vec!["rust/**/tests/**/*.rs".into()],
    }];
    let sources = resolve(Some(src), None).ok().expect("resolves");
    assert_eq!(sources.len(), 1);
    assert_eq!(sources[0].mount, "/");
    assert_eq!(sources[0].impls.len(), 1);
    assert_eq!(sources[0].impls[0].include_globs, vec!["rust/**/src/**/*.rs"]);
}

#[test]
fn root_mount_path_is_rejected() {
    assert!(resolve(None, Some(vec![mount("x", "/", Some("content"))])).is_err());
}

#[test]
fn root_source_yields_one_source_at_slash() {
    let sources = resolve(Some(src_cfg(Some("content"))), None).ok().expect("resolves");
    assert_eq!(sources.len(), 1);
    assert_eq!(sources[0].mount, "/");
    assert_eq!(sources[0].content_dir, "/proj/content");
}

#[test]
fn root_source_defaults_content_to_content_dir() {
    let sources = resolve(Some(src_cfg(None)), None).ok().expect("resolves");
    assert_eq!(sources[0].content_dir, "/proj/content");
}

#[test]
fn root_source_plus_mount_resolve() {
    let sources = resolve(
        Some(src_cfg(Some("content"))),
        Some(vec![mount("build", "/spec/build", Some("../vixen/docs/content"))]),
    )
    .ok()
    .expect("resolves");
    assert_eq!(sources.len(), 2);
    assert_eq!(sources[0].name, "");
    assert_eq!(sources[0].mount, "/");
    assert_eq!(sources[0].content_dir, "/proj/content");
    assert_eq!(sources[1].name, "build");
    assert_eq!(sources[1].mount, "/spec/build/");
    assert_eq!(sources[1].content_dir, "/proj/../vixen/docs/content");
}

#[test]
fn mounts_alone_resolve() {
    let sources = resolve(
        None,
        Some(vec![mount("build", "/spec/build", Some("../vixen/content"))]),
    )
    .ok()
    .expect("resolves");
    assert_eq!(sources.len(), 1);
    assert_eq!(sources[0].name, "build");
    assert_eq!(sources[0].mount, "/spec/build/");
}

#[test]
fn neither_source_nor_mounts_is_an_error() {
    assert!(matches!(resolve(None, None), Err(ConfigError::NoSources)));
}

#[test]
fn no_source_and_empty_mounts_is_an_error() {
    assert!(resolve(None, Some(vec![])).is_err());
}

#[test]
fn git_only_mount_is_rejected_for_now() {
    assert!(matches!(
        resolve(None, Some(vec![mount("build", "/spec/build", None)])),
        Err(ConfigError::NoMountLocation { .. })
    ));
}

#[test]
fn mount_without_name_is_rejected() {
    assert!(matches!(
        resolve(None, Some(vec![mount("", "/spec/build", Some("../vixen/content"))])),
        Err(ConfigError::EmptyMountName { .. })
    ));
}

#[test]
fn checkout_mount_resolves_content_subpath_and_checkout_dir() {
    let def = MountDef {
        name: "build".into(),
        path: "/spec/build".into(),
        local: None,
        checkout: Some("../vixen".into()),
        content: Some("docs/content".into()),
        git: Some("g.git".into()),
        repo: None,
    };
    let sources = resolve(None, Some(vec![def])).ok().expect("resolves");
    assert_eq!(sources[0].content_dir, "/proj/../vixen/docs/content");
    assert_eq!(sources[0].checkout_dir.as_deref(), Some("/proj/../vixen"));
    assert_eq!(sources[0].git.as_deref(), Some("g.git"));
    assert_eq!(sources[0].project_dir, "/proj/../vixen");
}

#[test]
fn mount_repo_is_carried_through() {
    let mut m = mount("x", "/x", Some("content"));
    m.repo = Some("https://example.com/x".into());
    let sources = resolve(None, Some(vec![m])).ok().expect("resolves");
    assert_eq!(sources[0].repo.as_deref(), Some("https://example.com/x"));
}

#[test]
fn local_and_checkout_together_is_an_error() {
    let def = MountDef {
        name: "x".into(),
        path: "/x".into(),
        local: Some("content".into()),
        checkout: Some("../x".into()),
        content: None,
        git: None,
        repo: None,
    };
    assert!(matches!(
        resolve(None, Some(vec![def])),
        Err(ConfigError::LocalAndCheckout { .. })
    ));
}

#[test]
fn composed_config_supplies_behaviour_and_project_dir() {
    let mut composed_src = src_cfg(None);
    composed_src.repo = Some("https://example.com/w".into());
    composed_src.skip_domains = vec!["a.example".into()];
    let mounts = vec![mount("w", "wiki", Some("wiki/content"))];
    let composed = vec![Some(("/proj/wiki".to_string(), composed_src))];
    let sources = resolve_sources("/proj", None, Some(&mounts), &composed)
        .ok()
        .expect("resolves");
    assert_eq!(sources[0].mount, "/wiki/");
    assert_eq!(sources[0].project_dir, "/proj/wiki");
    assert_eq!(sources[0].repo.as_deref(), Some("https://example.com/w"));
    assert_eq!(sources[0].skip_domains, vec!["a.example".to_string()]);
}

#[test]
fn mount_location_errors_come_in_order() {
    match resolve_mount_location("/proj", &mount("  ", "/", None)) {
        Err(ConfigError::EmptyMountName { path }) => assert_eq!(path, "/"),
        _ => panic!("expected an empty-name error"),
    }
    match resolve_mount_location("/proj", &mount("root", "//", Some("c"))) {
        Err(ConfigError::RootMount { name }) => assert_eq!(name, "root"),
        _ => panic!("expected a root-mount error"),
    }
    match resolve_mount_location("/proj", &mount("n", "docs", None)) {
        Err(ConfigError::NoMountLocation { name, mount }) => {
            assert_eq!(name, "n");
            assert_eq!(mount, "/docs/");
        }
        _ => panic!("expected a no-location error"),
    }
}

#[test]
fn skip_domains_are_unioned_without_repeats() {
    let base = vec!["a.example".to_string(), "b.example".to_string(), "a.example".to_string()];
    let mut s1 = source_with_page_types("/", &[]);
    s1.skip_domains = vec!["b.example".to_string(), "c.example".to_string()];
    let mut s2 = source_with_page_types("/w/", &[]);
    s2.skip_domains = vec!["c.example".to_string(), "d.example".to_string()];
    let merged = union_skip_domains(Some(&base), &vec![s1, s2]);
    assert_eq!(merged, vec!["a.example", "b.example", "c.example", "d.example"]);
    assert!(union_skip_domains(None, &vec![]).is_empty());
}

#[test]
fn config_file_lives_under_dot_config() {
    assert_eq!(config_file_path("/proj"), "/proj/.config/dodeca.styx");
}
