//! Configuration resolution: mount prefixes, content sources and the
//! site-wide settings derived from them. Reading and parsing the config file
//! happens at the edge; this module decides what a parsed config means.
use vstd::prelude::*;

use crate::build_steps::{clone_steps, steps_view, BuildStepDef};
use crate::paths::{camino_join, path_join};
use crate::text::{extend_chars, from_chars, push_str_chars, str_eq, sub_chars, to_chars, trim, trim_chars};

verus! {

/// `k` is the length of the run of `c` at the start of `s`.
pub open spec fn is_lead_run(s: Seq<char>, c: char, k: int) -> bool {
    &&& 0 <= k <= s.len()
    &&& forall|j: int| 0 <= j < k ==> #[trigger] s[j] == c
    &&& (k == s.len() || s[k] != c)
}

/// `k` is the length of the run of `c` at the end of `s`.
pub open spec fn is_trail_run(s: Seq<char>, c: char, k: int) -> bool {
    &&& 0 <= k <= s.len()
    &&& forall|j: int| s.len() - k <= j < s.len() ==> #[trigger] s[j] == c
    &&& (k == s.len() || s[s.len() - k - 1] != c)
}

/// `s` without all leading and all trailing `c` (like `trim_matches(c)`).
pub open spec fn trim_char(s: Seq<char>, c: char) -> Seq<char> {
    let a = choose|k: int| is_lead_run(s, c, k);
    let t = s.skip(a);
    t.take(t.len() - choose|k: int| is_trail_run(t, c, k))
}

pub proof fn lemma_lead_run(s: Seq<char>, c: char, k: int)
    requires
        is_lead_run(s, c, k),
    ensures
        (choose|j: int| is_lead_run(s, c, j)) == k,
{
    let j = choose|j: int| is_lead_run(s, c, j);
    assert(is_lead_run(s, c, j));
    if j < k {
        assert(s[j] == c);
    }
    if k < j {
        assert(s[k] == c);
    }
}

pub proof fn lemma_trail_run(s: Seq<char>, c: char, k: int)
    requires
        is_trail_run(s, c, k),
    ensures
        (choose|j: int| is_trail_run(s, c, j)) == k,
{
    let j = choose|j: int| is_trail_run(s, c, j);
    assert(is_trail_run(s, c, j));
    if j < k {
        assert(s[s.len() - j - 1] == c);
    }
    if k < j {
        assert(s[s.len() - k - 1] == c);
    }
}

pub fn trim_char_exec(v: &[char], c: char) -> (r: Vec<char>)
    ensures
        r@ == trim_char(v@, c),
{
    let mut a: usize = 0;
    while a < v.len() && v[a] == c
        invariant
            a <= v.len(),
            forall|j: int| 0 <= j < a ==> #[trigger] v@[j] == c,
        decreases v.len() - a,
    {
        a = a + 1;
    }
    proof {
        lemma_lead_run(v@, c, a as int);
    }
    let ghost t = v@.skip(a as int);
    let mut b: usize = v.len();
    while b > a && v[b - 1] == c
        invariant
            a <= b <= v.len(),
            t == v@.skip(a as int),
            forall|j: int| b - a <= j < t.len() ==> #[trigger] t[j] == c,
        decreases b,
    {
        assert(t[b - 1 - a] == v@[b - 1]);
        b = b - 1;
    }
    proof {
        lemma_trail_run(t, c, v.len() - b);
        assert(b == a || t[(b - a - 1) as int] == v@[b - 1]);
    }
    sub_chars(v, a, b)
}

/// `s` without all trailing `c` (like `trim_end_matches(c)`).
pub open spec fn trim_end_char(s: Seq<char>, c: char) -> Seq<char> {
    s.take(s.len() - choose|k: int| is_trail_run(s, c, k))
}

/// Length of `v` once all trailing `c` are removed.
pub fn trim_end_len(v: &[char], c: char) -> (n: usize)
    ensures
        n <= v.len(),
        v@.take(n as int) == trim_end_char(v@, c),
{
    let mut b: usize = v.len();
    while b > 0 && v[b - 1] == c
        invariant
            b <= v.len(),
            forall|j: int| b <= j < v.len() ==> #[trigger] v@[j] == c,
        decreases b,
    {
        b = b - 1;
    }
    proof {
        lemma_trail_run(v@, c, v.len() - b);
    }
    b
}

/// The canonical form of a mount prefix: `/` for the root, otherwise the
/// prefix without surrounding slashes between a leading and a trailing `/`.
pub open spec fn spec_normalize_mount(raw: Seq<char>) -> Seq<char> {
    let trimmed = trim_char(raw, '/');
    if trimmed.len() == 0 {
        seq!['/']
    } else {
        seq!['/'] + trimmed + seq!['/']
    }
}

/// Normalises a mount prefix (`spec/build` → `/spec/build/`, `/` → `/`).
pub fn normalize_mount(raw: &str) -> (r: String)
    ensures
        r@ == spec_normalize_mount(raw@),
{
    let v = to_chars(raw);
    let trimmed = trim_char_exec(v.as_slice(), '/');
    let mut out: Vec<char> = Vec::new();
    out.push('/');
    if trimmed.len() > 0 {
        extend_chars(&mut out, trimmed.as_slice());
        out.push('/');
    }
    from_chars(out.as_slice())
}

/// Every sequence starts with some run of `c`.
pub proof fn lemma_lead_run_exists(s: Seq<char>, c: char)
    ensures
        exists|k: int| is_lead_run(s, c, k),
    decreases s.len(),
{
    if s.len() == 0 || s[0] != c {
        assert(is_lead_run(s, c, 0));
    } else {
        lemma_lead_run_exists(s.skip(1), c);
        let k = choose|k: int| is_lead_run(s.skip(1), c, k);
        assert forall|j: int| 0 <= j < k + 1 implies #[trigger] s[j] == c by {
            if j > 0 {
                assert(s[j] == s.skip(1)[j - 1]);
            }
        }
        assert(k + 1 == s.len() || s[k + 1] == s.skip(1)[k]);
        assert(is_lead_run(s, c, k + 1));
    }
}

/// Every sequence ends with some run of `c`.
pub proof fn lemma_trail_run_exists(s: Seq<char>, c: char)
    ensures
        exists|k: int| is_trail_run(s, c, k),
    decreases s.len(),
{
    if s.len() == 0 || s.last() != c {
        assert(is_trail_run(s, c, 0));
    } else {
        let t = s.drop_last();
        lemma_trail_run_exists(t, c);
        let k = choose|k: int| is_trail_run(t, c, k);
        assert forall|j: int| s.len() - (k + 1) <= j < s.len() implies #[trigger] s[j] == c by {
            if j < s.len() - 1 {
                assert(s[j] == t[j]);
            }
        }
        if k + 1 < s.len() {
            assert(s[s.len() - (k + 1) - 1] == t[t.len() - k - 1]);
        }
        assert(is_trail_run(s, c, k + 1));
    }
}

/// A mount prefix in canonical form stays as it is when normalised again.
pub proof fn law_normalize_mount_idempotent(raw: Seq<char>)
    ensures
        spec_normalize_mount(spec_normalize_mount(raw)) == spec_normalize_mount(raw),
{
    let c = '/';
    lemma_lead_run_exists(raw, c);
    let a = choose|k: int| is_lead_run(raw, c, k);
    lemma_lead_run(raw, c, a);
    let u = raw.skip(a);
    lemma_trail_run_exists(u, c);
    let b = choose|k: int| is_trail_run(u, c, k);
    lemma_trail_run(u, c, b);
    let t = trim_char(raw, c);
    assert(t == u.take(u.len() - b));
    let m = spec_normalize_mount(raw);
    if t.len() == 0 {
        assert(m == seq!['/']);
        assert(is_lead_run(m, c, 1));
        lemma_lead_run(m, c, 1);
        let u2 = m.skip(1);
        assert(u2 =~= Seq::<char>::empty());
        assert(is_trail_run(u2, c, 0));
        lemma_trail_run(u2, c, 0);
        assert(trim_char(m, c) =~= Seq::<char>::empty());
    } else {
        // The trimmed prefix neither starts nor ends with `/`.
        assert(t[0] == u[0]);
        assert(u[0] == raw[a]);
        assert(t[0] != c);
        assert(t.last() == u[u.len() - b - 1]);
        assert(t.last() != c);
        assert(m == seq!['/'] + t + seq!['/']);
        assert(is_lead_run(m, c, 1)) by {
            assert(m[1] == t[0]);
        }
        lemma_lead_run(m, c, 1);
        let u2 = m.skip(1);
        assert(u2 =~= t + seq!['/']);
        assert(is_trail_run(u2, c, 1)) by {
            assert(u2[u2.len() - 2] == t.last());
        }
        lemma_trail_run(u2, c, 1);
        assert(trim_char(m, c) =~= t);
    }
}

// ---------------------------------------------------------------------------
// Content sources
// ---------------------------------------------------------------------------

/// The strings as plain values.
pub open spec fn str_views(v: Seq<String>) -> Seq<Seq<char>> {
    v.map_values(|x: String| x@)
}

/// A copy of a list of strings.
pub fn clone_strings(v: &Vec<String>) -> (r: Vec<String>)
    ensures
        str_views(r@) == str_views(v@),
{
    let mut out: Vec<String> = Vec::new();
    let mut i: usize = 0;
    while i < v.len()
        invariant
            i <= v.len(),
            str_views(out@) == str_views(v@).take(i as int),
        decreases v.len() - i,
    {
        let ghost before = out@;
        out.push(v[i].clone());
        assert(str_views(out@) == str_views(before).push(v@[i as int]@));
        assert(str_views(v@).take(i + 1 as int) == str_views(v@).take(i as int).push(v@[i as int]@));
        i = i + 1;
    }
    assert(str_views(v@).take(v.len() as int) == str_views(v@));
    out
}

/// A code implementation to scan for requirement references, as configured.
pub struct ImplDef {
    pub name: String,
    pub include_globs: Vec<String>,
    pub exclude: Vec<String>,
    pub test_include: Vec<String>,
}

/// A code implementation to scan for requirement references: its name and
/// the project-relative globs of its sources, exclusions and tests.
pub struct ResolvedImpl {
    pub name: String,
    pub include_globs: Vec<String>,
    pub exclude: Vec<String>,
    pub test_include: Vec<String>,
}

/// The resolved implementations carry the configured ones field for field.
pub open spec fn impls_resolved(r: Seq<ResolvedImpl>, d: Seq<ImplDef>) -> bool {
    &&& r.len() == d.len()
    &&& forall|i: int|
        0 <= i < r.len() ==> {
            &&& (#[trigger] r[i]).name@ == d[i].name@
            &&& str_views(r[i].include_globs@) == str_views(d[i].include_globs@)
            &&& str_views(r[i].exclude@) == str_views(d[i].exclude@)
            &&& str_views(r[i].test_include@) == str_views(d[i].test_include@)
        }
}

/// Resolves configured implementations, one for one.
pub fn resolve_impls(impls: &Vec<ImplDef>) -> (r: Vec<ResolvedImpl>)
    ensures
        impls_resolved(r@, impls@),
{
    let mut out: Vec<ResolvedImpl> = Vec::new();
    let mut i: usize = 0;
    while i < impls.len()
        invariant
            i <= impls.len(),
            impls_resolved(out@, impls@.take(i as int)),
        decreases impls.len() - i,
    {
        let d = &impls[i];
        out.push(
            ResolvedImpl {
                name: d.name.clone(),
                include_globs: clone_strings(&d.include_globs),
                exclude: clone_strings(&d.exclude),
                test_include: clone_strings(&d.test_include),
            },
        );
        assert forall|k: int| 0 <= k < out@.len() implies {
            &&& (#[trigger] out@[k]).name@ == impls@.take(i + 1 as int)[k].name@
            &&& str_views(out@[k].include_globs@) == str_views(impls@.take(i + 1 as int)[k].include_globs@)
            &&& str_views(out@[k].exclude@) == str_views(impls@.take(i + 1 as int)[k].exclude@)
            &&& str_views(out@[k].test_include@) == str_views(
                impls@.take(i + 1 as int)[k].test_include@,
            )
        } by {
            if k < i {
                assert(impls@.take(i + 1 as int)[k] == impls@.take(i as int)[k]);
            }
        }
        i = i + 1;
    }
    assert(impls@.take(impls.len() as int) == impls@);
    out
}

/// The `source {}` section of a config: where its content lives and how it
/// behaves. Page types are listed by name.
pub struct SourceConfig {
    pub content: Option<String>,
    pub repo: Option<String>,
    pub impls: Vec<ImplDef>,
    pub skip_domains: Vec<String>,
    pub page_types: Vec<String>,
    /// Named build steps (none when the config defines none).
    pub build_steps: Vec<(String, BuildStepDef)>,
}

/// A `mounts` entry of a config: a source served under a URL prefix.
pub struct MountDef {
    pub name: String,
    pub path: String,
    pub local: Option<String>,
    pub checkout: Option<String>,
    pub content: Option<String>,
    pub git: Option<String>,
    pub repo: Option<String>,
}

/// A resolved content source: its name, its normalised mount prefix, its
/// directories, where it came from, and its behaviour.
pub struct ResolvedSource {
    pub name: String,
    pub mount: String,
    pub content_dir: String,
    pub checkout_dir: Option<String>,
    pub git: Option<String>,
    pub repo: Option<String>,
    pub impls: Vec<ResolvedImpl>,
    pub skip_domains: Vec<String>,
    pub project_dir: String,
    pub page_types: Vec<String>,
    pub build_steps: Vec<(String, BuildStepDef)>,
}

/// Why a configuration does not resolve.
pub enum ConfigError {
    /// A mount has a blank `name`.
    EmptyMountName { path: String },
    /// A mount's path normalises to `/`, which belongs to the root source.
    RootMount { name: String },
    /// A mount sets both `local` and `checkout`.
    LocalAndCheckout { name: String },
    /// A mount sets neither `local` nor `checkout`.
    NoMountLocation { name: String, mount: String },
    /// The config has neither a root `source` nor any mount.
    NoSources,
    /// Two sources define the same page type.
    DuplicatePageType { name: String, first: String, second: String },
}

/// The optional string as a plain value.
pub open spec fn opt_view(o: Option<String>) -> Option<Seq<char>> {
    match o {
        Some(s) => Some(s@),
        None => None,
    }
}

fn clone_opt(o: &Option<String>) -> (r: Option<String>)
    ensures
        opt_view(r) == opt_view(*o),
{
    match o {
        Some(s) => Some(s.clone()),
        None => None,
    }
}

/// Where a mount's content lives: its prefix, its content directory and
/// the checkout it sits in (for a `checkout` mount).
pub struct MountLocation {
    pub mount: String,
    pub content_dir: String,
    pub checkout_dir: Option<String>,
}

/// The error a mount entry fails with, as plain values: which check failed
/// and the strings it reports.
pub open spec fn mount_error_matches(e: ConfigError, root: Seq<char>, def: MountDef) -> bool {
    let mount = spec_normalize_mount(def.path@);
    match e {
        ConfigError::EmptyMountName { path } => trim(def.name@).len() == 0 && path@ == def.path@,
        ConfigError::RootMount { name } => trim(def.name@).len() != 0 && mount == seq!['/'] && name@
            == def.name@,
        ConfigError::LocalAndCheckout { name } => trim(def.name@).len() != 0 && mount != seq!['/']
            && def.local is Some && def.checkout is Some && name@ == def.name@,
        ConfigError::NoMountLocation { name, mount: m } => trim(def.name@).len() != 0 && mount
            != seq!['/'] && def.local is None && def.checkout is None && name@ == def.name@ && m@
            == mount,
        _ => false,
    }
}

/// A mount entry resolves exactly when its name is not blank, its path does
/// not normalise to `/`, and it sets exactly one of `local` and `checkout`.
pub open spec fn mount_resolves(def: MountDef) -> bool {
    &&& trim(def.name@).len() != 0
    &&& spec_normalize_mount(def.path@) != seq!['/']
    &&& (def.local is Some) != (def.checkout is Some)
}

/// The content directory of a mount that resolves.
pub open spec fn mount_content_dir(root: Seq<char>, def: MountDef) -> Seq<char> {
    match def.local {
        Some(local) => camino_join(root, local@),
        None => match def.content {
            Some(c) => camino_join(camino_join(root, def.checkout->0@), c@),
            None => camino_join(root, def.checkout->0@),
        },
    }
}

/// The checkout directory of a mount that resolves.
pub open spec fn mount_checkout_dir(root: Seq<char>, def: MountDef) -> Option<Seq<char>> {
    match def.local {
        Some(_) => None,
        None => Some(camino_join(root, def.checkout->0@)),
    }
}

/// Resolves where a mount entry's content lives.
pub fn resolve_mount_location(root: &str, def: &MountDef) -> (r: Result<MountLocation, ConfigError>)
    ensures
        r is Ok <==> mount_resolves(*def),
        match r {
            Ok(loc) => loc.mount@ == spec_normalize_mount(def.path@) && loc.content_dir@
                == mount_content_dir(root@, *def) && opt_view(loc.checkout_dir) == mount_checkout_dir(
                root@,
                *def,
            ),
            Err(e) => mount_error_matches(e, root@, *def),
        },
{
    let name = to_chars(def.name.as_str());
    let trimmed = trim_chars(name.as_slice());
    if trimmed.len() == 0 {
        return Err(ConfigError::EmptyMountName { path: def.path.clone() });
    }
    let mount = normalize_mount(def.path.as_str());
    if str_eq(mount.as_str(), "/") {
        proof {
            reveal_strlit("/");
            assert(mount@ =~= seq!['/']);
        }
        return Err(ConfigError::RootMount { name: def.name.clone() });
    }
    proof {
        reveal_strlit("/");
        assert("/"@ =~= seq!['/']);
    }
    match (&def.local, &def.checkout) {
        (Some(_), Some(_)) => Err(ConfigError::LocalAndCheckout { name: def.name.clone() }),
        (Some(local), None) => Ok(
            MountLocation {
                mount,
                content_dir: path_join(root, local.as_str()),
                checkout_dir: None,
            },
        ),
        (None, Some(checkout)) => {
            let checkout_dir = path_join(root, checkout.as_str());
            let content_dir = match &def.content {
                Some(c) => path_join(checkout_dir.as_str(), c.as_str()),
                None => checkout_dir.clone(),
            };
            Ok(MountLocation { mount, content_dir, checkout_dir: Some(checkout_dir) })
        },
        (None, None) => Err(ConfigError::NoMountLocation { name: def.name.clone(), mount }),
    }
}

/// `r` is the root source of a config with `source {}` section `src` in
/// project `root`: unnamed, at `/`, its content under the root (`content`
/// by default), running in the root, with the section's behaviour.
pub open spec fn is_root_source(r: ResolvedSource, root: Seq<char>, src: SourceConfig) -> bool {
    &&& r.name@ == Seq::<char>::empty()
    &&& r.mount@ == seq!['/']
    &&& r.content_dir@ == camino_join(
        root,
        match src.content {
            Some(c) => c@,
            None => "content"@,
        },
    )
    &&& r.checkout_dir is None
    &&& r.git is None
    &&& opt_view(r.repo) == opt_view(src.repo)
    &&& impls_resolved(r.impls@, src.impls@)
    &&& str_views(r.skip_domains@) == str_views(src.skip_domains@)
    &&& r.project_dir@ == root
    &&& str_views(r.page_types@) == str_views(src.page_types@)
    &&& steps_view(r.build_steps@) == steps_view(src.build_steps@)
}

/// The root source of a config.
pub fn root_source(root: &str, src: &SourceConfig) -> (r: ResolvedSource)
    ensures
        is_root_source(r, root@, *src),
{
    let content_dir = match &src.content {
        Some(c) => path_join(root, c.as_str()),
        None => path_join(root, "content"),
    };
    let slash: Vec<char> = vec!['/'];
    assert(slash@ == seq!['/']);
    let name = String::new();
    assert(name@ == Seq::<char>::empty());
    ResolvedSource {
        name,
        mount: from_chars(slash.as_slice()),
        content_dir,
        checkout_dir: None,
        git: None,
        repo: clone_opt(&src.repo),
        impls: resolve_impls(&src.impls),
        skip_domains: clone_strings(&src.skip_domains),
        project_dir: from_chars(to_chars(root).as_slice()),
        page_types: clone_strings(&src.page_types),
        build_steps: clone_steps(&src.build_steps),
    }
}

/// `r` is the source of mount `def`, at location `loc`, composed with the
/// `source {}` of the config that owns its content (with that config's
/// directory), if one was found: named and placed as the mount says, its
/// `repo` the mount's own or else the composed one, its behaviour the
/// composed config's, and running in the composed config's directory, else
/// the checkout, else the content directory.
pub open spec fn is_mount_source(
    r: ResolvedSource,
    def: MountDef,
    loc: MountLocation,
    composed: Option<(String, SourceConfig)>,
) -> bool {
    &&& r.name@ == def.name@
    &&& r.mount@ == loc.mount@
    &&& r.content_dir@ == loc.content_dir@
    &&& opt_view(r.checkout_dir) == opt_view(loc.checkout_dir)
    &&& opt_view(r.git) == opt_view(def.git)
    &&& opt_view(r.repo) == match def.repo {
        Some(x) => Some(x@),
        None => match composed {
            Some(c) => opt_view(c.1.repo),
            None => None,
        },
    }
    &&& match composed {
        Some(c) => {
            &&& impls_resolved(r.impls@, c.1.impls@)
            &&& str_views(r.skip_domains@) == str_views(c.1.skip_domains@)
            &&& str_views(r.page_types@) == str_views(c.1.page_types@)
            &&& steps_view(r.build_steps@) == steps_view(c.1.build_steps@)
            &&& r.project_dir@ == c.0@
        },
        None => {
            &&& r.impls@.len() == 0
            &&& r.skip_domains@.len() == 0
            &&& r.page_types@.len() == 0
            &&& r.build_steps@.len() == 0
            &&& r.project_dir@ == match loc.checkout_dir {
                Some(d) => d@,
                None => loc.content_dir@,
            }
        },
    }
}

/// The source of a mount, composed with the config found for its content.
pub fn compose_mount(def: &MountDef, loc: MountLocation, composed: &Option<(String, SourceConfig)>) -> (r:
    ResolvedSource)
    ensures
        is_mount_source(r, *def, loc, *composed),
{
    let repo = match &def.repo {
        Some(x) => Some(x.clone()),
        None => match composed {
            Some(c) => clone_opt(&c.1.repo),
            None => None,
        },
    };
    match composed {
        Some(c) => ResolvedSource {
            name: def.name.clone(),
            mount: loc.mount,
            content_dir: loc.content_dir,
            checkout_dir: loc.checkout_dir,
            git: clone_opt(&def.git),
            repo,
            impls: resolve_impls(&c.1.impls),
            skip_domains: clone_strings(&c.1.skip_domains),
            project_dir: c.0.clone(),
            page_types: clone_strings(&c.1.page_types),
            build_steps: clone_steps(&c.1.build_steps),
        },
        None => {
            let project_dir = match &loc.checkout_dir {
                Some(d) => d.clone(),
                None => loc.content_dir.clone(),
            };
            ResolvedSource {
                name: def.name.clone(),
                mount: loc.mount,
                content_dir: loc.content_dir,
                checkout_dir: loc.checkout_dir,
                git: clone_opt(&def.git),
                repo,
                impls: Vec::new(),
                skip_domains: Vec::new(),
                project_dir,
                page_types: Vec::new(),
                build_steps: Vec::new(),
            }
        },
    }
}

/// The index of the first mount entry that does not resolve, if any.
pub open spec fn first_failing_mount(mounts: Seq<MountDef>) -> Option<int> {
    if exists|i: int| 0 <= i < mounts.len() && !mount_resolves(#[trigger] mounts[i]) {
        Some(
            choose|i: int|
                0 <= i < mounts.len() && !mount_resolves(#[trigger] mounts[i]) && forall|j: int|
                    0 <= j < i ==> mount_resolves(#[trigger] mounts[j]),
        )
    } else {
        None
    }
}

/// The mount entries of a config (none when it has no `mounts`).
pub open spec fn mount_list(mounts: Option<&Vec<MountDef>>) -> Seq<MountDef> {
    match mounts {
        Some(m) => m@,
        None => Seq::empty(),
    }
}

/// The sources at `off..` of `v` are those of the mount entries `ms`, in
/// order: named, placed and composed as each entry says.
pub open spec fn mount_sources(
    v: Seq<ResolvedSource>,
    off: int,
    root: Seq<char>,
    ms: Seq<MountDef>,
    composed: Seq<Option<(String, SourceConfig)>>,
    n: int,
) -> bool {
    forall|i: int|
        0 <= i < n ==> {
            let s = #[trigger] v[off + i];
            &&& s.name@ == ms[i].name@
            &&& s.mount@ == spec_normalize_mount(ms[i].path@)
            &&& s.content_dir@ == mount_content_dir(root, ms[i])
            &&& opt_view(s.checkout_dir) == mount_checkout_dir(root, ms[i])
            &&& exists|loc: MountLocation| is_mount_source(s, ms[i], loc, composed[i])
        }
}

/// How many sources come before the mounts: one when there is a root source.
pub open spec fn root_count(source: Option<&SourceConfig>) -> int {
    if source is Some {
        1
    } else {
        0
    }
}

/// Resolves the sources of a config: its root `source` at `/` (if any),
/// then each mount entry in order, composed with the config found for its
/// content (`composed[i]` for mount `i`, with that config's directory).
/// Fails with the first mount entry that does not resolve, or when there is
/// no source at all.
pub fn resolve_sources(
    root: &str,
    source: Option<&SourceConfig>,
    mounts: Option<&Vec<MountDef>>,
    composed: &Vec<Option<(String, SourceConfig)>>,
) -> (r: Result<Vec<ResolvedSource>, ConfigError>)
    requires
        mount_list(mounts).len() <= composed@.len(),
    ensures
        match r {
            Ok(v) => {
                &&& forall|i: int|
                    0 <= i < mount_list(mounts).len() ==> mount_resolves(
                        #[trigger] mount_list(mounts)[i],
                    )
                &&& v@.len() == root_count(source) + mount_list(mounts).len()
                &&& v@.len() > 0
                &&& source matches Some(src) ==> is_root_source(v@[0], root@, *src)
                &&& mount_sources(
                    v@,
                    root_count(source),
                    root@,
                    mount_list(mounts),
                    composed@,
                    mount_list(mounts).len() as int,
                )
            },
            Err(e) => match first_failing_mount(mount_list(mounts)) {
                Some(i) => mount_error_matches(e, root@, mount_list(mounts)[i]),
                None => e is NoSources && source is None && mount_list(mounts).len() == 0,
            },
        },
{
    let ghost ms = mount_list(mounts);
    let ghost off: int = root_count(source);
    let mut resolved: Vec<ResolvedSource> = Vec::new();
    match source {
        Some(src) => resolved.push(root_source(root, src)),
        None => {},
    }
    let empty: Vec<MountDef> = Vec::new();
    let list: &Vec<MountDef> = match mounts {
        Some(m) => m,
        None => &empty,
    };
    assert(list@ == ms);
    let mut i: usize = 0;
    while i < list.len()
        invariant
            i <= list.len(),
            list@ == ms,
            ms == mount_list(mounts),
            ms.len() <= composed@.len(),
            resolved@.len() == off + i,
            off == root_count(source),
            source matches Some(src) ==> is_root_source(resolved@[0], root@, *src),
            forall|j: int| 0 <= j < i ==> mount_resolves(#[trigger] ms[j]),
            mount_sources(resolved@, off, root@, ms, composed@, i as int),
        decreases list.len() - i,
    {
        let def = &list[i];
        let loc = match resolve_mount_location(root, def) {
            Ok(loc) => loc,
            Err(e) => {
                proof {
                    let k = i as int;
                    assert(!mount_resolves(ms[k]));
                    assert(0 <= k < ms.len() && !mount_resolves(ms[k]) && forall|j: int|
                        0 <= j < k ==> mount_resolves(#[trigger] ms[j]));
                    let f = choose|f: int|
                        0 <= f < ms.len() && !mount_resolves(#[trigger] ms[f]) && forall|j: int|
                            0 <= j < f ==> mount_resolves(#[trigger] ms[j]);
                    if f < k {
                        assert(mount_resolves(ms[f]));
                    }
                    if k < f {
                        assert(mount_resolves(ms[k]));
                    }
                }
                return Err(e);
            },
        };
        let ghost loc_copy = loc;
        let src = compose_mount(def, loc, &composed[i]);
        let ghost before = resolved@;
        resolved.push(src);
        proof {
            assert(resolved@[off + i] == src);
            assert(is_mount_source(src, ms[i as int], loc_copy, composed@[i as int]));
            assert forall|j: int| 0 <= j < i + 1 implies {
                let s = #[trigger] resolved@[off + j];
                &&& s.name@ == ms[j].name@
                &&& s.mount@ == spec_normalize_mount(ms[j].path@)
                &&& s.content_dir@ == mount_content_dir(root@, ms[j])
                &&& opt_view(s.checkout_dir) == mount_checkout_dir(root@, ms[j])
                &&& exists|loc: MountLocation| is_mount_source(s, ms[j], loc, composed@[j])
            } by {
                if j < i {
                    assert(resolved@[off + j] == before[off + j]);
                }
            }
            assert(mount_sources(resolved@, off, root@, ms, composed@, i + 1));
            if source is Some {
                assert(resolved@[0] == before[0]);
            }
        }
        i = i + 1;
    }
    if resolved.len() == 0 {
        proof {
            if exists|k: int| 0 <= k < ms.len() && !mount_resolves(#[trigger] ms[k]) {
                let k = choose|k: int| 0 <= k < ms.len() && !mount_resolves(#[trigger] ms[k]);
                assert(mount_resolves(ms[k]));
            }
        }
        return Err(ConfigError::NoSources);
    }
    Ok(resolved)
}

// ---------------------------------------------------------------------------
// Site-wide settings merged from the sources
// ---------------------------------------------------------------------------

/// How errors name a source: the root source, or a mount by name and prefix.
pub open spec fn source_label(s: ResolvedSource) -> Seq<char> {
    if s.mount@ == seq!['/'] {
        "the root source"@
    } else {
        "mount `"@ + s.name@ + "` (at `"@ + s.mount@ + "`)"@
    }
}

fn source_label_exec(s: &ResolvedSource) -> (r: String)
    ensures
        r@ == source_label(*s),
{
    let slash: Vec<char> = vec!['/'];
    assert(slash@ == seq!['/']);
    let m = to_chars(s.mount.as_str());
    let mut out: Vec<char> = Vec::new();
    if crate::text::chars_eq(m.as_slice(), slash.as_slice()) {
        push_str_chars(&mut out, "the root source");
    } else {
        push_str_chars(&mut out, "mount `");
        push_str_chars(&mut out, s.name.as_str());
        push_str_chars(&mut out, "` (at `");
        push_str_chars(&mut out, s.mount.as_str());
        push_str_chars(&mut out, "`)");
    }
    from_chars(out.as_slice())
}

/// Every page type of the sources, in order, with the label of its source.
pub open spec fn labeled_page_types(sources: Seq<ResolvedSource>) -> Seq<(Seq<char>, Seq<char>)>
    decreases sources.len(),
{
    if sources.len() == 0 {
        Seq::empty()
    } else {
        let s = sources.last();
        labeled_page_types(sources.drop_last()) + s.page_types@.map_values(
            |n: String| (n@, source_label(s)),
        )
    }
}

/// Entry `k` repeats the name of an earlier entry.
pub open spec fn repeats_earlier(t: Seq<(Seq<char>, Seq<char>)>, k: int) -> bool {
    exists|j: int| 0 <= j < k && t[j].0 == t[k].0
}

/// Entry `k` is the first entry that repeats an earlier name.
pub open spec fn is_first_repeat(t: Seq<(Seq<char>, Seq<char>)>, k: int) -> bool {
    &&& 0 <= k < t.len()
    &&& repeats_earlier(t, k)
    &&& forall|m: int| 0 <= m < k ==> !repeats_earlier(t, m)
}

/// Entry `j` is the first entry with the name of entry `k`.
pub open spec fn is_first_with_name(t: Seq<(Seq<char>, Seq<char>)>, k: int, j: int) -> bool {
    &&& 0 <= j < k
    &&& t[j].0 == t[k].0
    &&& forall|m: int| 0 <= m < j ==> t[m].0 != t[k].0
}

/// Merges the page types of all sources into one site-wide list: none when
/// no source declares any; an error naming the type and both sources when a
/// type is declared a second time.
pub fn merge_page_types(sources: &Vec<ResolvedSource>) -> (r: Result<Option<Vec<String>>, ConfigError>)
    ensures
        ({
            let t = labeled_page_types(sources@);
            match r {
                Ok(None) => t.len() == 0,
                Ok(Some(names)) => {
                    &&& t.len() > 0
                    &&& forall|k: int| 0 <= k < t.len() ==> !repeats_earlier(t, k)
                    &&& str_views(names@) == t.map_values(|e: (Seq<char>, Seq<char>)| e.0)
                },
                Err(e) => e matches ConfigError::DuplicatePageType { name, first, second }
                    && exists|k: int, j: int|
                    is_first_repeat(t, k) && is_first_with_name(t, k, j) && name@ == t[k].0
                        && first@ == t[j].1 && second@ == t[k].1,
            }
        }),
{
    let ghost t = labeled_page_types(sources@);
    // The labelled list of page types, source by source.
    let mut names: Vec<String> = Vec::new();
    let mut labels: Vec<String> = Vec::new();
    let mut i: usize = 0;
    while i < sources.len()
        invariant
            i <= sources.len(),
            names@.len() == labels@.len(),
            labeled_page_types(sources@.take(i as int)).len() == names@.len(),
            forall|k: int|
                0 <= k < names@.len() ==> labeled_page_types(sources@.take(i as int))[k] == (
                #[trigger] names@[k]@,
                labels@[k]@,
            ),
        decreases sources.len() - i,
    {
        let src = &sources[i];
        let label = source_label_exec(src);
        let ghost prev = labeled_page_types(sources@.take(i as int));
        let ghost added = src.page_types@.map_values(|n: String| (n@, source_label(*src)));
        assert(sources@.take(i + 1 as int).drop_last() == sources@.take(i as int));
        assert(labeled_page_types(sources@.take(i + 1 as int)) == prev + added);
        let ghost base = names@.len();
        let mut k: usize = 0;
        while k < src.page_types.len()
            invariant
                k <= src.page_types.len(),
                names@.len() == labels@.len(),
                base == prev.len(),
                names@.len() == base + k,
                label@ == source_label(*src),
                added == src.page_types@.map_values(|n: String| (n@, source_label(*src))),
                forall|m: int|
                    0 <= m < names@.len() ==> (prev + added)[m] == (
                    #[trigger] names@[m]@,
                    labels@[m]@,
                ),
            decreases src.page_types.len() - k,
        {
            let ghost before_n = names@;
            let ghost before_l = labels@;
            names.push(src.page_types[k].clone());
            labels.push(label.clone());
            assert forall|m: int| 0 <= m < names@.len() implies (prev + added)[m] == (
                #[trigger] names@[m]@,
                labels@[m]@,
            ) by {
                if m < before_n.len() {
                    assert(names@[m] == before_n[m]);
                    assert(labels@[m] == before_l[m]);
                }
            }
            k = k + 1;
        }
        i = i + 1;
    }
    assert(sources@.take(sources.len() as int) == sources@);
    assert(t.len() == names@.len());
    if names.len() == 0 {
        return Ok(None);
    }
    // The first entry whose name was declared before it.
    let mut k: usize = 0;
    while k < names.len()
        invariant
            k <= names@.len(),
            t == labeled_page_types(sources@),
            t.len() == names@.len(),
            labels@.len() == names@.len(),
            forall|m: int| 0 <= m < names@.len() ==> t[m] == (#[trigger] names@[m]@, labels@[m]@),
            forall|m: int| 0 <= m < k ==> !repeats_earlier(t, m),
        decreases names.len() - k,
    {
        let mut j: usize = 0;
        while j < k
            invariant
                j <= k < names@.len(),
                t == labeled_page_types(sources@),
                t.len() == names@.len(),
                labels@.len() == names@.len(),
                forall|m: int| 0 <= m < names@.len() ==> t[m] == (#[trigger] names@[m]@, labels@[m]@),
                forall|m: int| 0 <= m < k ==> !repeats_earlier(t, m),
                forall|m: int| 0 <= m < j ==> t[m].0 != t[k as int].0,
            decreases k - j,
        {
            if str_eq(names[j].as_str(), names[k].as_str()) {
                assert(t[j as int] == (names@[j as int]@, labels@[j as int]@));
                assert(t[k as int] == (names@[k as int]@, labels@[k as int]@));
                assert(is_first_repeat(t, k as int));
                assert(is_first_with_name(t, k as int, j as int));
                let name = names[k].clone();
                let first = labels[j].clone();
                let second = labels[k].clone();
                assert(exists|kk: int, jj: int|
                    is_first_repeat(t, kk) && is_first_with_name(t, kk, jj) && name@ == t[kk].0
                        && first@ == t[jj].1 && second@ == t[kk].1) by {
                    assert(is_first_repeat(t, k as int) && is_first_with_name(t, k as int, j as int)
                        && name@ == t[k as int].0 && first@ == t[j as int].1 && second@ == t[k as int].1);
                }
                return Err(ConfigError::DuplicatePageType { name, first, second });
            }
            j = j + 1;
        }
        assert(!repeats_earlier(t, k as int)) by {
            if repeats_earlier(t, k as int) {
                let w = choose|w: int| 0 <= w < k && t[w].0 == t[k as int].0;
                assert(t[w].0 != t[k as int].0);
            }
        }
        k = k + 1;
    }
    assert(str_views(names@) == t.map_values(|e: (Seq<char>, Seq<char>)| e.0));
    Ok(Some(names))
}

/// `s` with every entry that already occurred dropped, first occurrences
/// kept in order.
pub open spec fn dedup_first(s: Seq<Seq<char>>) -> Seq<Seq<char>>
    decreases s.len(),
{
    if s.len() == 0 {
        Seq::empty()
    } else {
        let d = dedup_first(s.drop_last());
        if d.contains(s.last()) {
            d
        } else {
            d.push(s.last())
        }
    }
}

/// The skip-domain lists as one list: the site's base list, then each
/// source's, in order.
pub open spec fn all_skip_domains(base: Seq<String>, sources: Seq<ResolvedSource>) -> Seq<Seq<char>>
    decreases sources.len(),
{
    if sources.len() == 0 {
        str_views(base)
    } else {
        all_skip_domains(base, sources.drop_last()) + str_views(sources.last().skip_domains@)
    }
}

fn push_unique(out: &mut Vec<String>, d: &String)
    ensures
        str_views(final(out)@) == if str_views(old(out)@).contains(d@) {
            str_views(old(out)@)
        } else {
            str_views(old(out)@).push(d@)
        },
{
    let mut i: usize = 0;
    while i < out.len()
        invariant
            i <= out.len(),
            out@ == old(out)@,
            forall|k: int| 0 <= k < i ==> #[trigger] out@[k]@ != d@,
        decreases out.len() - i,
    {
        if str_eq(out[i].as_str(), d.as_str()) {
            assert(str_views(out@)[i as int] == d@);
            return;
        }
        i = i + 1;
    }
    proof {
        if str_views(out@).contains(d@) {
            let k = choose|k: int| 0 <= k < str_views(out@).len() && str_views(out@)[k] == d@;
            assert(out@[k]@ == d@);
        }
    }
    let ghost before = out@;
    out.push(d.clone());
    assert(str_views(out@) == str_views(before).push(d@));
}

fn push_all_unique(out: &mut Vec<String>, ds: &Vec<String>, Ghost(pre): Ghost<Seq<Seq<char>>>)
    requires
        str_views(old(out)@) == dedup_first(pre),
    ensures
        str_views(final(out)@) == dedup_first(pre + str_views(ds@)),
{
    let mut i: usize = 0;
    assert(pre + str_views(ds@).take(0) == pre);
    while i < ds.len()
        invariant
            i <= ds.len(),
            str_views(out@) == dedup_first(pre + str_views(ds@).take(i as int)),
        decreases ds.len() - i,
    {
        let ghost a = pre + str_views(ds@).take(i as int);
        let ghost b = pre + str_views(ds@).take(i + 1 as int);
        push_unique(out, &ds[i]);
        assert(b.drop_last() == a);
        assert(b.last() == ds@[i as int]@);
        i = i + 1;
    }
    assert(str_views(ds@).take(ds.len() as int) == str_views(ds@));
}

/// The domains the link checker skips: the site's base list and every
/// source's list, each domain once, in order of first mention.
pub fn union_skip_domains(base: Option<&Vec<String>>, sources: &Vec<ResolvedSource>) -> (r: Vec<String>)
    ensures
        str_views(r@) == dedup_first(
            all_skip_domains(
                match base {
                    Some(b) => b@,
                    None => Seq::empty(),
                },
                sources@,
            ),
        ),
{
    let ghost b: Seq<String> = match base {
        Some(b) => b@,
        None => Seq::empty(),
    };
    let mut out: Vec<String> = Vec::new();
    assert(str_views(out@) == dedup_first(Seq::<Seq<char>>::empty()));
    match base {
        Some(v) => {
            push_all_unique(&mut out, v, Ghost(Seq::<Seq<char>>::empty()));
            assert(Seq::<Seq<char>>::empty() + str_views(v@) == str_views(v@));
        },
        None => {
            assert(str_views(b) == Seq::<Seq<char>>::empty());
        },
    }
    assert(str_views(out@) == dedup_first(all_skip_domains(b, sources@.take(0))));
    let mut i: usize = 0;
    while i < sources.len()
        invariant
            i <= sources.len(),
            str_views(out@) == dedup_first(all_skip_domains(b, sources@.take(i as int))),
        decreases sources.len() - i,
    {
        let ghost pre = all_skip_domains(b, sources@.take(i as int));
        push_all_unique(&mut out, &sources[i].skip_domains, Ghost(pre));
        assert(sources@.take(i + 1 as int).drop_last() == sources@.take(i as int));
        assert(all_skip_domains(b, sources@.take(i + 1 as int)) == pre + str_views(
            sources@[i as int].skip_domains@,
        ));
        i = i + 1;
    }
    assert(sources@.take(sources.len() as int) == sources@);
    out
}

/// No entry of `dedup_first(s)` occurs twice, and it holds exactly the
/// entries of `s`.
pub proof fn law_dedup_first(s: Seq<Seq<char>>)
    ensures
        forall|i: int, j: int|
            0 <= i < j < dedup_first(s).len() ==> dedup_first(s)[i] != dedup_first(s)[j],
        forall|x: Seq<char>| dedup_first(s).contains(x) <==> s.contains(x),
    decreases s.len(),
{
    if s.len() > 0 {
        let p = s.drop_last();
        law_dedup_first(p);
        let d = dedup_first(p);
        assert forall|x: Seq<char>| dedup_first(s).contains(x) <==> s.contains(x) by {
            if s.contains(x) {
                let k = choose|k: int| 0 <= k < s.len() && s[k] == x;
                if k < s.len() - 1 {
                    assert(p[k] == x);
                    assert(p.contains(x));
                }
            }
            if p.contains(x) {
                let k = choose|k: int| 0 <= k < p.len() && p[k] == x;
                assert(s[k] == x);
            }
            if dedup_first(s).contains(x) && !d.contains(x) {
                assert(dedup_first(s) == d.push(s.last()));
                let k = choose|k: int| 0 <= k < dedup_first(s).len() && dedup_first(s)[k] == x;
                assert(x == s.last());
                assert(s[s.len() - 1] == x);
            }
            if d.contains(x) {
                let k = choose|k: int| 0 <= k < d.len() && d[k] == x;
                if !d.contains(s.last()) {
                    assert(dedup_first(s)[k] == x);
                }
            }
            if x == s.last() && !d.contains(x) {
                assert(dedup_first(s)[d.len() as int] == x);
            }
        }
    }
}

/// The site's skip-domain list never names a domain twice, and names
/// exactly the domains of the base list and of the sources' lists.
pub proof fn law_skip_domains_are_a_set(base: Seq<String>, sources: Seq<ResolvedSource>)
    ensures
        forall|i: int, j: int|
            0 <= i < j < dedup_first(all_skip_domains(base, sources)).len() ==> dedup_first(
                all_skip_domains(base, sources),
            )[i] != dedup_first(all_skip_domains(base, sources))[j],
        forall|x: Seq<char>|
            dedup_first(all_skip_domains(base, sources)).contains(x) <==> all_skip_domains(
                base,
                sources,
            ).contains(x),
{
    law_dedup_first(all_skip_domains(base, sources));
}

/// The project's config file: `.config/dodeca.styx` under the root.
pub fn config_file_path(root: &str) -> (r: String)
    ensures
        r@ == camino_join(camino_join(root@, ".config"@), "dodeca.styx"@),
{
    let dir = path_join(root, ".config");
    path_join(dir.as_str(), "dodeca.styx")
}

} // verus!
