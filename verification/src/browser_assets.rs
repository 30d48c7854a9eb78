//! Which browser bundles (devtools and search runtimes, devtools UI files)
//! the server hands out, and where on disk each is looked for. Reading the
//! files happens at the edge; this module decides names and paths.
use vstd::prelude::*;

use crate::paths::{camino_join, path_join};
use crate::text::{split, str_eq, to_chars};

verus! {

/// A named browser asset and its bytes.
pub struct BrowserAsset {
    pub name: String,
    pub bytes: Vec<u8>,
}

/// The directory, next to the binary or one level above it, that packaged
/// installs ship the assets in.
pub open spec fn asset_dir_name() -> Seq<char> {
    "dodeca-assets"@
}

/// The devtools runtime files: its script and its WebAssembly module.
pub open spec fn is_devtools_runtime_name(name: Seq<char>) -> bool {
    name == "dodeca_devtools.js"@ || name == "dodeca_devtools_bg.wasm"@
}

/// Whether `name` is a file of the devtools runtime.
pub fn is_devtools_runtime_asset(name: &str) -> (r: bool)
    ensures
        r == is_devtools_runtime_name(name@),
{
    str_eq(name, "dodeca_devtools.js") || str_eq(name, "dodeca_devtools_bg.wasm")
}

/// The search runtime files: its script and stylesheet, and the bindings
/// and module of its WebAssembly part.
pub open spec fn is_search_runtime_name(name: Seq<char>) -> bool {
    ||| name == "search.js"@
    ||| name == "search.css"@
    ||| name == "dodeca_search_wasm.js"@
    ||| name == "dodeca_search_wasm_bg.wasm"@
}

/// Whether `name` is a file of the search runtime.
pub fn is_search_runtime_asset(name: &str) -> (r: bool)
    ensures
        r == is_search_runtime_name(name@),
{
    str_eq(name, "search.js") || str_eq(name, "search.css") || str_eq(name, "dodeca_search_wasm.js")
        || str_eq(name, "dodeca_search_wasm_bg.wasm")
}

/// The places a devtools runtime file is looked for, in order: the
/// `devtools-runtime` directory of each packaged asset root, then the
/// package output in the source checkout. None for other names.
pub fn devtools_runtime_candidates(name: &str, packaged_roots: &Vec<String>, repo_root: &str) -> (r:
    Option<Vec<String>>)
    ensures
        match r {
            Some(v) => {
                &&& is_devtools_runtime_name(name@)
                &&& v@.len() == packaged_roots@.len() + 1
                &&& forall|i: int|
                    0 <= i < packaged_roots@.len() ==> (#[trigger] v@[i])@ == camino_join(
                        camino_join(packaged_roots@[i]@, "devtools-runtime"@),
                        name@,
                    )
                &&& v@[packaged_roots@.len() as int]@ == camino_join(
                    camino_join(repo_root@, "crates/dodeca-devtools/pkg"@),
                    name@,
                )
            },
            None => !is_devtools_runtime_name(name@),
        },
{
    if !is_devtools_runtime_asset(name) {
        return None;
    }
    let mut out: Vec<String> = Vec::new();
    let mut i: usize = 0;
    while i < packaged_roots.len()
        invariant
            i <= packaged_roots.len(),
            out@.len() == i,
            forall|k: int|
                0 <= k < i ==> (#[trigger] out@[k])@ == camino_join(
                    camino_join(packaged_roots@[k]@, "devtools-runtime"@),
                    name@,
                ),
        decreases packaged_roots.len() - i,
    {
        let dir = path_join(packaged_roots[i].as_str(), "devtools-runtime");
        out.push(path_join(dir.as_str(), name));
        i = i + 1;
    }
    let dir = path_join(repo_root, "crates/dodeca-devtools/pkg");
    out.push(path_join(dir.as_str(), name));
    Some(out)
}

/// The places the devtools UI directory is looked for, in order: the
/// `devtools-ui` directory of each packaged asset root, then the built UI in
/// the source checkout.
pub fn devtools_ui_dir_candidates(packaged_roots: &Vec<String>, repo_root: &str) -> (r: Vec<String>)
    ensures
        r@.len() == packaged_roots@.len() + 1,
        forall|i: int|
            0 <= i < packaged_roots@.len() ==> (#[trigger] r@[i])@ == camino_join(
                packaged_roots@[i]@,
                "devtools-ui"@,
            ),
        r@[packaged_roots@.len() as int]@ == camino_join(repo_root@, "crates/dodeca/devtools-ui/dist"@),
{
    let mut out: Vec<String> = Vec::new();
    let mut i: usize = 0;
    while i < packaged_roots.len()
        invariant
            i <= packaged_roots.len(),
            out@.len() == i,
            forall|k: int|
                0 <= k < i ==> (#[trigger] out@[k])@ == camino_join(
                    packaged_roots@[k]@,
                    "devtools-ui"@,
                ),
        decreases packaged_roots.len() - i,
    {
        out.push(path_join(packaged_roots[i].as_str(), "devtools-ui"));
        i = i + 1;
    }
    out.push(path_join(repo_root, "crates/dodeca/devtools-ui/dist"));
    out
}

/// A path inside the devtools UI directory may be served: it is not empty,
/// not absolute, and none of its `/`-separated parts is empty, `.` or `..`.
pub open spec fn is_safe_ui_path(rel: Seq<char>) -> bool {
    &&& rel.len() > 0
    &&& rel[0] != '/'
    &&& forall|k: int|
        0 <= k < split(rel, '/').len() ==> {
            let part = #[trigger] split(rel, '/')[k];
            part.len() > 0 && part != seq!['.'] && part != seq!['.', '.']
        }
}

/// Whether a path inside the devtools UI directory may be served.
pub fn is_safe_ui_asset_path(rel: &str) -> (r: bool)
    ensures
        r == is_safe_ui_path(rel@),
{
    let v = to_chars(rel);
    if v.len() == 0 || v[0] == '/' {
        return false;
    }
    let parts = crate::routes::split_pieces(v.as_slice(), '/');
    let mut k: usize = 0;
    while k < parts.len()
        invariant
            k <= parts.len(),
            v@ == rel@,
            crate::text::views(parts@) == split(rel@, '/'),
            forall|j: int|
                0 <= j < k ==> {
                    let part = #[trigger] split(rel@, '/')[j];
                    part.len() > 0 && part != seq!['.'] && part != seq!['.', '.']
                },
        decreases parts.len() - k,
    {
        let p = &parts[k];
        assert(p@ == split(rel@, '/')[k as int]);
        if p.len() == 0 {
            return false;
        }
        if p.len() == 1 && p[0] == '.' {
            assert(p@ =~= seq!['.']);
            return false;
        }
        if p.len() == 2 && p[0] == '.' && p[1] == '.' {
            assert(p@ =~= seq!['.', '.']);
            return false;
        }
        k = k + 1;
    }
    true
}

/// Where a search runtime file lives in the source checkout: the UI files
/// under the search crate's `ui`, the WebAssembly files under its `pkg`.
pub open spec fn search_source_dir(name: Seq<char>) -> Option<Seq<char>> {
    if name == "search.js"@ || name == "search.css"@ {
        Some("crates/dodeca-search-wasm/ui"@)
    } else if name == "dodeca_search_wasm.js"@ || name == "dodeca_search_wasm_bg.wasm"@ {
        Some("crates/dodeca-search-wasm/pkg"@)
    } else {
        None
    }
}

/// The path of a search runtime file in the source checkout.
pub fn search_source_path(repo_root: &str, name: &str) -> (r: Option<String>)
    ensures
        match search_source_dir(name@) {
            Some(d) => r matches Some(p) && p@ == camino_join(camino_join(repo_root@, d), name@),
            None => r is None,
        },
{
    let dir = if str_eq(name, "search.js") || str_eq(name, "search.css") {
        "crates/dodeca-search-wasm/ui"
    } else if str_eq(name, "dodeca_search_wasm.js") || str_eq(name, "dodeca_search_wasm_bg.wasm") {
        "crates/dodeca-search-wasm/pkg"
    } else {
        return None;
    };
    let base = path_join(repo_root, dir);
    Some(path_join(base.as_str(), name))
}

/// The packaged places a search runtime file is looked for: the `search`
/// directory of each packaged asset root.
pub fn search_packaged_candidates(name: &str, packaged_roots: &Vec<String>) -> (r: Vec<String>)
    ensures
        r@.len() == packaged_roots@.len(),
        forall|i: int|
            0 <= i < r@.len() ==> (#[trigger] r@[i])@ == camino_join(
                camino_join(packaged_roots@[i]@, "search"@),
                name@,
            ),
{
    let mut out: Vec<String> = Vec::new();
    let mut i: usize = 0;
    while i < packaged_roots.len()
        invariant
            i <= packaged_roots.len(),
            out@.len() == i,
            forall|k: int|
                0 <= k < i ==> (#[trigger] out@[k])@ == camino_join(
                    camino_join(packaged_roots@[k]@, "search"@),
                    name@,
                ),
        decreases packaged_roots.len() - i,
    {
        let dir = path_join(packaged_roots[i].as_str(), "search");
        out.push(path_join(dir.as_str(), name));
        i = i + 1;
    }
    out
}

} // verus!
