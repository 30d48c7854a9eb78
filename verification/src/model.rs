//! The authoring model of a site: its pages with their routes, source files
//! and headings, the links found in their rendered HTML, and the lookups the
//! editor tooling runs against it.
//!
//! The project's maps are association lists (`Vec<(key, value)>`) looked up
//! by the first entry with a matching key; a project built from a map holds
//! each key once, so that is the map's lookup.
use vstd::prelude::*;

use crate::config::{is_lead_run, lemma_lead_run, trim_end_char, trim_end_len};
use crate::paths::{camino_join, camino_parent, path_join, path_parent};
use crate::routes::{normalize_route, spec_normalize_route, spec_strip_query, strip_query};
use crate::text::{from_chars, str_eq, sub_chars, to_chars};
use gingembre::semantic::TemplateSemanticIndex;

verus! {

/// Whether a page is an ordinary page or a section index.
#[derive(Clone, Copy, Debug, PartialEq, Eq, Structural)]
pub enum AuthoringPageKind {
    Page,
    Section,
}

/// A heading of a page: its anchor id, its text and its level.
#[derive(Clone, Debug)]
pub struct AuthoringHeading {
    pub id: String,
    pub title: String,
    pub level: u8,
}

/// A page or section of the site as the editor sees it.
#[derive(Clone, Debug)]
pub struct AuthoringPage {
    pub kind: AuthoringPageKind,
    pub route: String,
    pub source_file: String,
    pub title: String,
    pub description: Option<String>,
    pub template: String,
    pub output_path: String,
    pub headings: Vec<AuthoringHeading>,
    pub heading_ids: Vec<String>,
    pub link_base_route: String,
}

/// An input file of the build, by kind and path.
#[derive(Clone, Debug)]
pub enum AuthoringInputPath {
    Source(String),
    Template(String),
    Sass(String),
    Static(String),
    Dist(String),
    Data(String),
}

impl AuthoringInputPath {
    /// The kind of input, as a prefix word.
    pub open spec fn kind_word(self) -> Seq<char> {
        match self {
            AuthoringInputPath::Source(_) => "source"@,
            AuthoringInputPath::Template(_) => "template"@,
            AuthoringInputPath::Sass(_) => "sass"@,
            AuthoringInputPath::Static(_) => "static"@,
            AuthoringInputPath::Dist(_) => "dist"@,
            AuthoringInputPath::Data(_) => "data"@,
        }
    }

    /// The path itself.
    pub open spec fn path_view(self) -> Seq<char> {
        match self {
            AuthoringInputPath::Source(p) => p@,
            AuthoringInputPath::Template(p) => p@,
            AuthoringInputPath::Sass(p) => p@,
            AuthoringInputPath::Static(p) => p@,
            AuthoringInputPath::Dist(p) => p@,
            AuthoringInputPath::Data(p) => p@,
        }
    }
}

/// The key that orders the edits of a route rename by file: the input's
/// kind, a colon, and its path.
pub fn page_route_text_edit_sort_key(path: &AuthoringInputPath) -> (r: String)
    ensures
        r@ == path.kind_word() + ":"@ + path.path_view(),
{
    let mut out: Vec<char> = Vec::new();
    let p = match path {
        AuthoringInputPath::Source(p) => {
            crate::text::push_str_chars(&mut out, "source");
            p
        },
        AuthoringInputPath::Template(p) => {
            crate::text::push_str_chars(&mut out, "template");
            p
        },
        AuthoringInputPath::Sass(p) => {
            crate::text::push_str_chars(&mut out, "sass");
            p
        },
        AuthoringInputPath::Static(p) => {
            crate::text::push_str_chars(&mut out, "static");
            p
        },
        AuthoringInputPath::Dist(p) => {
            crate::text::push_str_chars(&mut out, "dist");
            p
        },
        AuthoringInputPath::Data(p) => {
            crate::text::push_str_chars(&mut out, "data");
            p
        },
    };
    crate::text::push_str_chars(&mut out, ":");
    crate::text::push_str_chars(&mut out, p.as_str());
    from_chars(out.as_slice())
}

/// Where in an input file a rendered link was written.
#[derive(Clone, Debug)]
pub struct RenderedHrefOrigin {
    pub path: AuthoringInputPath,
    pub byte_start: usize,
    pub byte_end: usize,
}

/// A link found in a page's rendered HTML, with its origin when known.
#[derive(Clone, Debug)]
pub struct RenderedHref {
    pub href: String,
    pub origin: Option<RenderedHrefOrigin>,
}

/// Everything the editor tooling knows of a site.
pub struct AuthoringProject {
    pub pages: Vec<AuthoringPage>,
    pub known_routes: Vec<String>,
    pub headings_by_route: Vec<(String, Vec<String>)>,
    pub source_to_route: Vec<(String, String)>,
    pub route_to_source: Vec<(String, String)>,
    pub source_contents: Vec<(String, String)>,
    pub template_paths: Vec<(String, String)>,
    pub template_contents: Vec<(String, String)>,
    pub static_paths: Vec<(String, String)>,
    pub data_paths: Vec<(String, String)>,
    pub data_keys: Vec<String>,
    pub rendered_hrefs_by_route: Vec<(String, Vec<RenderedHref>)>,
    pub template_semantics: Vec<(String, TemplateSemanticIndex)>,
}

// ---------------------------------------------------------------------------
// Association lists
// ---------------------------------------------------------------------------

/// Entry `i` is the first entry of `m` whose key is `k`.
pub open spec fn is_first_key<V>(m: Seq<(String, V)>, k: Seq<char>, i: int) -> bool {
    &&& 0 <= i < m.len()
    &&& m[i].0@ == k
    &&& forall|j: int| 0 <= j < i ==> #[trigger] m[j].0@ != k
}

/// The index of the first entry of `m` whose key is `k`, if any.
pub open spec fn key_index<V>(m: Seq<(String, V)>, k: Seq<char>) -> Option<int> {
    if exists|i: int| is_first_key(m, k, i) {
        Some(choose|i: int| is_first_key(m, k, i))
    } else {
        None
    }
}

/// The value stored under `k` in a string-valued list.
pub open spec fn str_value(m: Seq<(String, String)>, k: Seq<char>) -> Option<Seq<char>> {
    match key_index(m, k) {
        Some(i) => Some(m[i].1@),
        None => None,
    }
}

pub proof fn lemma_key_index<V>(m: Seq<(String, V)>, k: Seq<char>, i: int)
    requires
        is_first_key(m, k, i),
    ensures
        key_index(m, k) == Some(i),
{
    let j = choose|j: int| is_first_key(m, k, j);
    assert(is_first_key(m, k, j));
    if j < i {
        assert(m[j].0@ != k);
    }
    if i < j {
        assert(m[i].0@ != k);
    }
}

pub proof fn lemma_no_key_index<V>(m: Seq<(String, V)>, k: Seq<char>)
    requires
        forall|j: int| 0 <= j < m.len() ==> #[trigger] m[j].0@ != k,
    ensures
        key_index(m, k) is None,
{
    if exists|i: int| is_first_key(m, k, i) {
        let i = choose|i: int| is_first_key(m, k, i);
        assert(m[i].0@ == k);
    }
}

/// The index of the first entry of `m` whose key is `k`.
pub fn find_key<V>(m: &Vec<(String, V)>, k: &str) -> (r: Option<usize>)
    ensures
        match r {
            Some(i) => key_index(m@, k@) == Some(i as int),
            None => key_index(m@, k@) is None,
        },
{
    let mut i: usize = 0;
    while i < m.len()
        invariant
            i <= m.len(),
            forall|j: int| 0 <= j < i ==> #[trigger] m@[j].0@ != k@,
        decreases m.len() - i,
    {
        if str_eq(m[i].0.as_str(), k) {
            proof {
                lemma_key_index(m@, k@, i as int);
            }
            return Some(i);
        }
        i = i + 1;
    }
    proof {
        lemma_no_key_index(m@, k@);
    }
    None
}

/// `v` holds a string equal to `s`.
pub open spec fn has_str(v: Seq<String>, s: Seq<char>) -> bool {
    exists|i: int| 0 <= i < v.len() && #[trigger] v[i]@ == s
}

/// Whether `v` holds a string equal to `s`.
pub fn contains_str(v: &Vec<String>, s: &str) -> (r: bool)
    ensures
        r == has_str(v@, s@),
{
    let mut i: usize = 0;
    while i < v.len()
        invariant
            i <= v.len(),
            forall|j: int| 0 <= j < i ==> #[trigger] v@[j]@ != s@,
        decreases v.len() - i,
    {
        if str_eq(v[i].as_str(), s) {
            assert(v@[i as int]@ == s@);
            return true;
        }
        i = i + 1;
    }
    false
}

// ---------------------------------------------------------------------------
// Routes with and without a trailing slash
// ---------------------------------------------------------------------------

/// A route without its trailing slashes.
pub open spec fn without_trailing_slashes(r: Seq<char>) -> Seq<char> {
    trim_end_char(r, '/')
}

/// A route with exactly one trailing slash.
pub open spec fn with_one_trailing_slash(r: Seq<char>) -> Seq<char> {
    trim_end_char(r, '/').push('/')
}

/// The entry for route `r`: its exact key, else the key without trailing
/// slashes, else the key with exactly one.
pub open spec fn route_key_index<V>(m: Seq<(String, V)>, r: Seq<char>) -> Option<int> {
    match key_index(m, r) {
        Some(i) => Some(i),
        None => match key_index(m, without_trailing_slashes(r)) {
            Some(i) => Some(i),
            None => key_index(m, with_one_trailing_slash(r)),
        },
    }
}

/// `route` without its trailing slashes, and with exactly one.
pub(crate) fn slash_variants(route: &str) -> (r: (String, String))
    ensures
        r.0@ == without_trailing_slashes(route@),
        r.1@ == with_one_trailing_slash(route@),
        r.0@.len() <= route@.len(),
        r.0@ == route@.take(r.0@.len() as int),
{
    let v = to_chars(route);
    let n = trim_end_len(v.as_slice(), '/');
    let mut t = sub_chars(v.as_slice(), 0, n);
    assert(t@ == v@.take(n as int));
    let bare = from_chars(t.as_slice());
    t.push('/');
    (bare, from_chars(t.as_slice()))
}

/// The entry of `m` for route `route`, tolerant of trailing slashes.
pub fn find_route_key<V>(m: &Vec<(String, V)>, route: &str) -> (r: Option<usize>)
    ensures
        match r {
            Some(i) => route_key_index(m@, route@) == Some(i as int),
            None => route_key_index(m@, route@) is None,
        },
{
    match find_key(m, route) {
        Some(i) => Some(i),
        None => {
            let (bare, slashed) = slash_variants(route);
            match find_key(m, bare.as_str()) {
                Some(i) => Some(i),
                None => find_key(m, slashed.as_str()),
            }
        },
    }
}

/// `route` names a known route, exactly, without its trailing slashes
/// (when that leaves something and changes the route), or with exactly one.
pub open spec fn spec_route_exists(known: Seq<String>, route: Seq<char>) -> bool {
    let bare = without_trailing_slashes(route);
    ||| has_str(known, route)
    ||| (bare.len() > 0 && bare != route && has_str(known, bare))
    ||| has_str(known, with_one_trailing_slash(route))
}

// ---------------------------------------------------------------------------
// Pages
// ---------------------------------------------------------------------------

/// Page `i` is the first page whose source file is `sf`.
pub open spec fn is_first_page_for_source(pages: Seq<AuthoringPage>, sf: Seq<char>, i: int) -> bool {
    &&& 0 <= i < pages.len()
    &&& pages[i].source_file@ == sf
    &&& forall|j: int| 0 <= j < i ==> #[trigger] pages[j].source_file@ != sf
}

/// The index of the first page whose source file is `sf`, if any.
pub open spec fn page_index_for_source(pages: Seq<AuthoringPage>, sf: Seq<char>) -> Option<int> {
    if exists|i: int| is_first_page_for_source(pages, sf, i) {
        Some(choose|i: int| is_first_page_for_source(pages, sf, i))
    } else {
        None
    }
}

proof fn lemma_page_index_for_source(pages: Seq<AuthoringPage>, sf: Seq<char>, i: int)
    requires
        is_first_page_for_source(pages, sf, i),
    ensures
        page_index_for_source(pages, sf) == Some(i),
{
    let j = choose|j: int| is_first_page_for_source(pages, sf, j);
    assert(is_first_page_for_source(pages, sf, j));
    if j < i {
        assert(pages[j].source_file@ != sf);
    }
    if i < j {
        assert(pages[i].source_file@ != sf);
    }
}

/// Heading `i` is the first heading whose id is `id`.
pub open spec fn is_first_heading(hs: Seq<AuthoringHeading>, id: Seq<char>, i: int) -> bool {
    &&& 0 <= i < hs.len()
    &&& hs[i].id@ == id
    &&& forall|j: int| 0 <= j < i ==> #[trigger] hs[j].id@ != id
}

/// The index of the first heading whose id is `id`, if any.
pub open spec fn heading_index(hs: Seq<AuthoringHeading>, id: Seq<char>) -> Option<int> {
    if exists|i: int| is_first_heading(hs, id, i) {
        Some(choose|i: int| is_first_heading(hs, id, i))
    } else {
        None
    }
}

proof fn lemma_heading_index(hs: Seq<AuthoringHeading>, id: Seq<char>, i: int)
    requires
        is_first_heading(hs, id, i),
    ensures
        heading_index(hs, id) == Some(i),
{
    let j = choose|j: int| is_first_heading(hs, id, j);
    assert(is_first_heading(hs, id, j));
    if j < i {
        assert(hs[j].id@ != id);
    }
    if i < j {
        assert(hs[i].id@ != id);
    }
}

/// A path without its leading slashes.
pub open spec fn without_leading_slashes(p: Seq<char>) -> Seq<char> {
    p.skip(choose|k: int| is_lead_run(p, '/', k))
}

pub fn strip_leading_slashes(p: &str) -> (r: String)
    ensures
        r@ == without_leading_slashes(p@),
{
    let v = to_chars(p);
    let mut a: usize = 0;
    while a < v.len() && v[a] == '/'
        invariant
            a <= v.len(),
            forall|j: int| 0 <= j < a ==> #[trigger] v@[j] == '/',
        decreases v.len() - a,
    {
        a = a + 1;
    }
    proof {
        lemma_lead_run(v@, '/', a as int);
    }
    let t = sub_chars(v.as_slice(), a, v.len());
    assert(t@ == v@.skip(a as int));
    from_chars(t.as_slice())
}

/// No two entries of `m` have the same key.
pub open spec fn keys_unique<V>(m: Seq<(String, V)>) -> bool {
    forall|i: int, j: int| 0 <= i < j < m.len() ==> (#[trigger] m[i]).0@ != (#[trigger] m[j]).0@
}

impl AuthoringProject {
    /// The project is well formed: each of its maps holds a key once; the
    /// route-to-source index turns each (source, route) pair round; the known
    /// routes and the heading index follow the pages; the semantic index has
    /// one entry per template text; the data keys are strictly increasing.
    pub open spec fn wf(&self) -> bool {
        &&& keys_unique(self.source_to_route@)
        &&& self.route_to_source@.len() == self.source_to_route@.len()
        &&& forall|i: int|
            0 <= i < self.route_to_source@.len() ==> (#[trigger] self.route_to_source@[i]).0@
                == self.source_to_route@[i].1@ && self.route_to_source@[i].1@
                == self.source_to_route@[i].0@
        &&& keys_unique(self.source_contents@)
        &&& keys_unique(self.template_paths@)
        &&& keys_unique(self.template_contents@)
        &&& keys_unique(self.template_semantics@)
        &&& self.template_semantics@.len() == self.template_contents@.len()
        &&& forall|i: int|
            0 <= i < self.template_semantics@.len() ==> (#[trigger] self.template_semantics@[i]).0@
                == self.template_contents@[i].0@
        &&& keys_unique(self.static_paths@)
        &&& keys_unique(self.data_paths@)
        &&& self.known_routes@.len() == self.pages@.len()
        &&& forall|i: int|
            0 <= i < self.pages@.len() ==> (#[trigger] self.known_routes@[i])@
                == self.pages@[i].route@
        &&& self.headings_by_route@.len() == self.pages@.len()
        &&& forall|i: int|
            0 <= i < self.pages@.len() ==> (#[trigger] self.headings_by_route@[i]).0@
                == self.pages@[i].route@ && self.headings_by_route@[i].1@.map_values(
                |s: String| s@,
            ) == self.pages@[i].heading_ids@.map_values(|s: String| s@)
        &&& forall|i: int, j: int|
            0 <= i < j < self.data_keys@.len() ==> crate::build_steps::lex_le(
                #[trigger] self.data_keys@[i]@,
                #[trigger] self.data_keys@[j]@,
            ) && self.data_keys@[i]@ != self.data_keys@[j]@
    }

    /// The source file serving `route`, tolerant of trailing slashes.
    pub open spec fn spec_source_file_for_route(&self, route: Seq<char>) -> Option<Seq<char>> {
        match route_key_index(self.route_to_source@, route) {
            Some(i) => Some(self.route_to_source@[i].1@),
            None => None,
        }
    }

    /// The index of the page for `route`: the first page whose source file
    /// is the one serving the route.
    pub open spec fn spec_page_for_route(&self, route: Seq<char>) -> Option<int> {
        match self.spec_source_file_for_route(route) {
            Some(sf) => page_index_for_source(self.pages@, sf),
            None => None,
        }
    }

    /// The first page whose source file is `source_file`.
    pub fn page_for_source_file(&self, source_file: &str) -> (r: Option<&AuthoringPage>)
        ensures
            match page_index_for_source(self.pages@, source_file@) {
                Some(i) => r == Some(&self.pages@[i]),
                None => r is None,
            },
    {
        let mut i: usize = 0;
        while i < self.pages.len()
            invariant
                i <= self.pages.len(),
                forall|j: int| 0 <= j < i ==> #[trigger] self.pages@[j].source_file@ != source_file@,
            decreases self.pages.len() - i,
        {
            if str_eq(self.pages[i].source_file.as_str(), source_file) {
                proof {
                    lemma_page_index_for_source(self.pages@, source_file@, i as int);
                }
                return Some(&self.pages[i]);
            }
            i = i + 1;
        }
        proof {
            if exists|k: int| is_first_page_for_source(self.pages@, source_file@, k) {
                let k = choose|k: int| is_first_page_for_source(self.pages@, source_file@, k);
                assert(self.pages@[k].source_file@ == source_file@);
            }
        }
        None
    }

    /// The page served at `route`.
    pub fn page_for_route(&self, target_route: &str) -> (r: Option<&AuthoringPage>)
        ensures
            match self.spec_page_for_route(target_route@) {
                Some(i) => r == Some(&self.pages@[i]),
                None => r is None,
            },
    {
        match self.source_file_for_route(target_route) {
            Some(sf) => self.page_for_source_file(sf),
            None => None,
        }
    }

    /// The source file serving `route`, tolerant of trailing slashes.
    pub fn source_file_for_route(&self, target_route: &str) -> (r: Option<&str>)
        ensures
            match self.spec_source_file_for_route(target_route@) {
                Some(sf) => r matches Some(s) && s@ == sf,
                None => r is None,
            },
    {
        match find_route_key(&self.route_to_source, target_route) {
            Some(i) => Some(self.route_to_source[i].1.as_str()),
            None => None,
        }
    }

    /// Whether `route` is a known route, tolerant of trailing slashes.
    pub fn route_exists(&self, target_route: &str) -> (r: bool)
        ensures
            r == spec_route_exists(self.known_routes@, target_route@),
    {
        if contains_str(&self.known_routes, target_route) {
            return true;
        }
        let (bare, slashed) = slash_variants(target_route);
        let bare_len = bare.as_str().unicode_len();
        let route_len = target_route.unicode_len();
        if bare_len > 0 && bare_len != route_len && contains_str(&self.known_routes, bare.as_str()) {
            return true;
        }
        proof {
            if bare@.len() == target_route@.len() {
                assert(target_route@.take(target_route@.len() as int) =~= target_route@);
            }
        }
        contains_str(&self.known_routes, slashed.as_str())
    }

    /// The heading ids of the page at `route`, tolerant of trailing slashes.
    pub open spec fn spec_heading_ids_for_route(&self, route: Seq<char>) -> Option<Seq<String>> {
        match route_key_index(self.headings_by_route@, route) {
            Some(i) => Some(self.headings_by_route@[i].1@),
            None => None,
        }
    }

    /// Whether the page at `route` has a heading `heading_id`; none when
    /// the route is unknown.
    pub fn heading_exists(&self, target_route: &str, heading_id: &str) -> (r: Option<bool>)
        ensures
            match self.spec_heading_ids_for_route(target_route@) {
                Some(ids) => r == Some(has_str(ids, heading_id@)),
                None => r is None,
            },
    {
        match self.heading_ids_for_route(target_route) {
            Some(ids) => Some(contains_str(ids, heading_id)),
            None => None,
        }
    }

    /// The heading ids of the page at `route`: under the route as given,
    /// without its trailing slashes, or with one.
    pub fn heading_ids_for_route(&self, target_route: &str) -> (r: Option<&Vec<String>>)
        ensures
            match self.spec_heading_ids_for_route(target_route@) {
                Some(ids) => r matches Some(v) && v@ == ids,
                None => r is None,
            },
    {
        match find_route_key(&self.headings_by_route, target_route) {
            Some(i) => Some(&self.headings_by_route[i].1),
            None => None,
        }
    }

    /// The first heading `heading_id` of the page at `route`.
    pub fn heading_for_route(&self, target_route: &str, heading_id: &str) -> (r: Option<
        &AuthoringHeading,
    >)
        ensures
            match self.spec_page_for_route(target_route@) {
                Some(p) => match heading_index(self.pages@[p].headings@, heading_id@) {
                    Some(h) => r == Some(&self.pages@[p].headings@[h]),
                    None => r is None,
                },
                None => r is None,
            },
    {
        let page = match self.page_for_route(target_route) {
            Some(page) => page,
            None => return None,
        };
        let mut i: usize = 0;
        while i < page.headings.len()
            invariant
                i <= page.headings.len(),
                forall|j: int| 0 <= j < i ==> #[trigger] page.headings@[j].id@ != heading_id@,
                match self.spec_page_for_route(target_route@) {
                    Some(p) => *page == self.pages@[p],
                    None => false,
                },
            decreases page.headings.len() - i,
        {
            if str_eq(page.headings[i].id.as_str(), heading_id) {
                proof {
                    lemma_heading_index(page.headings@, heading_id@, i as int);
                }
                return Some(&page.headings[i]);
            }
            i = i + 1;
        }
        proof {
            if exists|k: int| is_first_heading(page.headings@, heading_id@, k) {
                let k = choose|k: int| is_first_heading(page.headings@, heading_id@, k);
                assert(page.headings@[k].id@ == heading_id@);
            }
        }
        None
    }

    /// Two routes name the same page: both are served by the same source
    /// file or, when either is not served, they normalise to the same route.
    pub open spec fn spec_routes_refer_to_same_page(&self, left: Seq<char>, right: Seq<char>) -> bool {
        match (self.spec_source_file_for_route(left), self.spec_source_file_for_route(right)) {
            (Some(a), Some(b)) => a == b,
            _ => spec_normalize_route(left) == spec_normalize_route(right),
        }
    }

    /// Whether two routes name the same page.
    pub fn routes_refer_to_same_page(&self, left_route: &str, right_route: &str) -> (r: bool)
        ensures
            r == self.spec_routes_refer_to_same_page(left_route@, right_route@),
    {
        match (self.source_file_for_route(left_route), self.source_file_for_route(right_route)) {
            (Some(a), Some(b)) => str_eq(a, b),
            _ => {
                let l = normalize_route(left_route);
                let r = normalize_route(right_route);
                str_eq(l.as_str(), r.as_str())
            },
        }
    }

    /// The on-disk path of a static asset linked as `target` from
    /// `source_file`: the query is dropped; a target starting with `/` is
    /// looked up without its leading slashes; any other is looked up
    /// relative to the source file's directory, then as written.
    pub open spec fn spec_static_target_path(&self, source_file: Seq<char>, target: Seq<char>) -> Option<Seq<char>> {
        let t = spec_strip_query(target);
        if t.len() == 0 {
            None
        } else if t[0] == '/' {
            str_value(self.static_paths@, without_leading_slashes(t))
        } else {
            let parent = match camino_parent(source_file) {
                Some(p) => p,
                None => Seq::empty(),
            };
            match str_value(self.static_paths@, camino_join(parent, t)) {
                Some(p) => Some(p),
                None => str_value(self.static_paths@, t),
            }
        }
    }

    /// The on-disk path of the static asset that `target` names from
    /// `source_file`, if there is one.
    pub fn static_target_path(&self, source_file: &str, target: &str) -> (r: Option<&str>)
        ensures
            match self.spec_static_target_path(source_file@, target@) {
                Some(p) => r matches Some(s) && s@ == p,
                None => r is None,
            },
    {
        let t = strip_query(target);
        let tv = to_chars(t);
        if tv.len() == 0 {
            return None;
        }
        if tv[0] == '/' {
            let path = strip_leading_slashes(t);
            return match find_key(&self.static_paths, path.as_str()) {
                Some(i) => Some(self.static_paths[i].1.as_str()),
                None => None,
            };
        }
        let parent = match path_parent(source_file) {
            Some(p) => p,
            None => String::new(),
        };
        let content_relative = path_join(parent.as_str(), t);
        match find_key(&self.static_paths, content_relative.as_str()) {
            Some(i) => Some(self.static_paths[i].1.as_str()),
            None => match find_key(&self.static_paths, t) {
                Some(i) => Some(self.static_paths[i].1.as_str()),
                None => None,
            },
        }
    }

    /// Whether `target` names a static asset from `source_file`.
    pub fn static_target_exists(&self, source_file: &str, target: &str) -> (r: bool)
        ensures
            r == self.spec_static_target_path(source_file@, target@) is Some,
    {
        self.static_target_path(source_file, target).is_some()
    }
}

// ---------------------------------------------------------------------------
// Derived page fields
// ---------------------------------------------------------------------------

/// The template a section renders with: the one its frontmatter names, else
/// `index.html` for the root section and `section.html` for the others.
pub open spec fn spec_section_template_name(route: Seq<char>, template: Option<Seq<char>>) -> Seq<char> {
    match template {
        Some(t) => t,
        None => if route == seq!['/'] {
            "index.html"@
        } else {
            "section.html"@
        },
    }
}

/// The template a section renders with.
pub fn section_template_name(route: &str, template: &Option<String>) -> (r: String)
    ensures
        r@ == spec_section_template_name(
            route@,
            match template {
                Some(t) => Some(t@),
                None => None,
            },
        ),
{
    match template {
        Some(t) => t.clone(),
        None => {
            let v = to_chars(route);
            if v.len() == 1 && v[0] == '/' {
                assert(v@ =~= seq!['/']);
                from_chars(to_chars("index.html").as_slice())
            } else {
                from_chars(to_chars("section.html").as_slice())
            }
        },
    }
}

/// Where a route's page is written: `index.html` in the directory named by
/// the route without its surrounding slashes (the output root for `/`).
pub open spec fn spec_route_output_path(route: Seq<char>) -> Seq<char> {
    let r = crate::config::trim_char(route, '/');
    if r.len() == 0 {
        "index.html"@
    } else {
        r + "/index.html"@
    }
}

/// Where a route's page is written, relative to the output directory.
pub fn route_output_path(route: &str) -> (r: String)
    ensures
        r@ == spec_route_output_path(route@),
{
    let v = to_chars(route);
    let mut r = crate::config::trim_char_exec(v.as_slice(), '/');
    if r.len() == 0 {
        from_chars(to_chars("index.html").as_slice())
    } else {
        crate::text::push_str_chars(&mut r, "/index.html");
        from_chars(r.as_slice())
    }
}

/// The key a data file is completed as: its file stem, or its whole path
/// when it has none.
pub open spec fn spec_data_completion_key(path: Seq<char>) -> Seq<char> {
    match crate::paths::camino_file_stem(path) {
        Some(stem) => stem,
        None => path,
    }
}

/// The key a data file is completed as.
pub fn data_completion_key(path: &str) -> (r: String)
    ensures
        r@ == spec_data_completion_key(path@),
{
    match crate::paths::path_file_stem(path) {
        Some(stem) => stem,
        None => from_chars(to_chars(path).as_slice()),
    }
}

} // verus!
