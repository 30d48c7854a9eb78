use dodeca::world_cache::{built_state, prepared_state, world_step, WorldAction, WorldCacheState};

fn fresh(revision: u64) -> WorldCacheState {
    WorldCacheState { cached: None, workspace_dir: None, applied_revision: None, input_revision: revision }
}

#[test]
fn first_request_builds_a_workspace_and_applies_overlays() {
    let state = fresh(3);
    let action = world_step(&state, "/site/content");
    assert_eq!(action, WorldAction::Build { new_workspace: true, apply_overlays: true, revision: 3 });
    let prepared = prepared_state(state, "/site/content", &action);
    assert_eq!(prepared.workspace_dir.as_deref(), Some("/site/content"));
    assert_eq!(prepared.applied_revision, Some(3));
    let built = built_state(prepared, "/site/content", 3);
    assert_eq!(world_step(&built, "/site/content"), WorldAction::UseCached);
}

#[test]
fn a_moved_revision_is_not_cached_and_overlays_are_reapplied() {
    let mut state = fresh(3);
    let action = world_step(&state, "/c");
    state = prepared_state(state, "/c", &action);
    state.input_revision = 4;
    let built = built_state(state, "/c", 3);
    assert!(built.cached.is_none());
    assert_eq!(
        world_step(&built, "/c"),
        WorldAction::Build { new_workspace: false, apply_overlays: true, revision: 4 }
    );
}

#[test]
fn another_directory_needs_a_new_workspace() {
    let mut state = fresh(1);
    let action = world_step(&state, "/a");
    state = prepared_state(state, "/a", &action);
    state = built_state(state, "/a", 1);
    let action = world_step(&state, "/b");
    assert_eq!(action, WorldAction::Build { new_workspace: true, apply_overlays: true, revision: 1 });
    let prepared = prepared_state(state, "/b", &action);
    assert!(prepared.cached.is_none());
}
