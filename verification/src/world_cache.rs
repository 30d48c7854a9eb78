//! The decisions of the language server about its authoring world: serve
//! the cached world, or bring the workspace up to date and build a new one,
//! and whether to cache what was built.
use vstd::prelude::*;

use crate::text::str_eq;

verus! {

/// What the server remembers between requests: the directory and input
/// revision of the cached world (if any), the directory of its workspace (if
/// any), the revision whose editor overlays the workspace holds (if any),
/// and the current input revision.
#[derive(Clone, Debug)]
pub struct WorldCacheState {
    pub cached: Option<(String, u64)>,
    pub workspace_dir: Option<String>,
    pub applied_revision: Option<u64>,
    pub input_revision: u64,
}

/// What to do for a request about `content_dir`.
#[derive(Clone, Debug, PartialEq, Eq)]
pub enum WorldAction {
    /// Serve the cached world.
    UseCached,
    /// Build the world at `revision`: first make a new workspace for the
    /// directory where `new_workspace`, and apply the editor overlays where
    /// `apply_overlays`.
    Build { new_workspace: bool, apply_overlays: bool, revision: u64 },
}

pub open spec fn opt_view(o: Option<String>) -> Option<Seq<char>> {
    match o {
        Some(s) => Some(s@),
        None => None,
    }
}

/// The cache serves a request about `dir` exactly when it holds a world of
/// that directory at the current input revision.
pub open spec fn cache_hit(state: WorldCacheState, dir: Seq<char>) -> bool {
    state.cached matches Some((d, rev)) && d@ == dir && rev == state.input_revision
}

/// The action for a request about `content_dir`.
pub fn world_step(state: &WorldCacheState, content_dir: &str) -> (r: WorldAction)
    ensures
        r == WorldAction::UseCached <==> cache_hit(*state, content_dir@),
        match r {
            WorldAction::UseCached => true,
            WorldAction::Build { new_workspace, apply_overlays, revision } => {
                &&& new_workspace == (opt_view(state.workspace_dir) != Some(content_dir@))
                &&& apply_overlays == (new_workspace || state.applied_revision != Some(
                    state.input_revision,
                ))
                &&& revision == state.input_revision
            },
        },
{
    let hit = match &state.cached {
        Some((d, rev)) => str_eq(d.as_str(), content_dir) && *rev == state.input_revision,
        None => false,
    };
    if hit {
        return WorldAction::UseCached;
    }
    let new_workspace = match &state.workspace_dir {
        Some(d) => !str_eq(d.as_str(), content_dir),
        None => true,
    };
    let applied = match state.applied_revision {
        Some(rev) => rev == state.input_revision,
        None => false,
    };
    WorldAction::Build {
        new_workspace,
        apply_overlays: new_workspace || !applied,
        revision: state.input_revision,
    }
}

/// The state once the workspace is ready for a build at `revision` of
/// `content_dir`: a new workspace forgets the overlays and the cached world;
/// applying the overlays records the revision.
pub fn prepared_state(state: WorldCacheState, content_dir: &str, action: &WorldAction) -> (r:
    WorldCacheState)
    ensures
        match *action {
            WorldAction::UseCached => r == state,
            WorldAction::Build { new_workspace, apply_overlays, revision } => {
                &&& r.input_revision == state.input_revision
                &&& (new_workspace ==> opt_view(r.workspace_dir) == Some(content_dir@)
                    && r.cached is None)
                &&& (!new_workspace ==> opt_view(r.workspace_dir) == opt_view(state.workspace_dir)
                    && r.cached == state.cached)
                &&& r.applied_revision == if apply_overlays {
                    Some(revision)
                } else if new_workspace {
                    None
                } else {
                    state.applied_revision
                }
            },
        },
{
    match action {
        WorldAction::UseCached => state,
        WorldAction::Build { new_workspace, apply_overlays, revision } => {
            let mut next = state;
            if *new_workspace {
                next.workspace_dir = Some(content_dir.to_owned());
                next.applied_revision = None;
                next.cached = None;
            }
            if *apply_overlays {
                next.applied_revision = Some(*revision);
            }
            next
        },
    }
}

/// The state once a world of `content_dir` is built at `revision`: it is
/// cached only when the input revision has not moved meanwhile.
pub fn built_state(state: WorldCacheState, content_dir: &str, revision: u64) -> (r: WorldCacheState)
    ensures
        r.workspace_dir == state.workspace_dir,
        r.applied_revision == state.applied_revision,
        r.input_revision == state.input_revision,
        state.input_revision == revision ==> (r.cached matches Some((d, rev)) && d@ == content_dir@
            && rev == revision),
        state.input_revision != revision ==> r.cached == state.cached,
{
    let mut next = state;
    if next.input_revision == revision {
        next.cached = Some((content_dir.to_owned(), revision));
    }
    next
}

/// Building and caching a world answers the next request about the same
/// directory from the cache, as long as the input revision has not moved.
pub proof fn law_built_world_is_served_from_cache(
    state: WorldCacheState,
    built: WorldCacheState,
    dir: Seq<char>,
    revision: u64,
)
    requires
        state.input_revision == revision,
        built.input_revision == state.input_revision,
        built.cached matches Some((d, rev)) && d@ == dir && rev == revision,
    ensures
        cache_hit(built, dir),
{
}

} // verus!
