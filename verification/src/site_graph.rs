//! Site-graph findings: how many links reach each page, and the pages that
//! share a title or a route or that nothing links to.
use vstd::prelude::*;

use crate::dead_links::{diagnostics_for_page, is_page_diagnostics};
use crate::diagnostics::{diags_sorted, sort_diagnostics, AuthoringDiagnostic, AuthoringDiagnosticKind};
use crate::graph::{
    markdown_references, reference_target_route, reference_view, reference_views,
    rendered_href_target_route, spec_markdown_references, spec_reference_target_route,
    spec_rendered_href_target_route, MarkdownReferenceKind,
};
use crate::model::{
    find_key, slash_variants, spec_route_exists, str_value, with_one_trailing_slash,
    AuthoringPage, AuthoringPageKind, AuthoringProject, RenderedHref,
};
use crate::hover::{site_graph_diagnostic_for_page, spec_site_graph_page_identity_byte_range};
use crate::text::{
    byte_len, from_chars, push_str_chars, starts_with, starts_with_exec, str_eq, to_chars, trim,
    trim_chars,
};

verus! {

// ---------------------------------------------------------------------------
// Inbound links
// ---------------------------------------------------------------------------

/// The routes that the references `refs` of `page` link to, counting only
/// links to a known route other than the page's own, in order.
pub open spec fn reference_inbound(
    project: AuthoringProject,
    page: AuthoringPage,
    refs: Seq<(MarkdownReferenceKind, Seq<char>, int, int)>,
) -> Seq<Seq<char>>
    decreases refs.len(),
{
    if refs.len() == 0 {
        Seq::empty()
    } else {
        let prev = reference_inbound(project, page, refs.drop_last());
        let r = refs.last();
        match spec_reference_target_route(project, page, r.0, r.1) {
            Some(t) => if spec_route_exists(project.known_routes@, t) && t != page.route@ {
                prev.push(t)
            } else {
                prev
            },
            None => prev,
        }
    }
}

/// The routes the Markdown source of `page` links to (none when its source
/// is not loaded).
pub open spec fn page_inbound(project: AuthoringProject, page: AuthoringPage) -> Seq<Seq<char>> {
    match str_value(project.source_contents@, page.source_file@) {
        Some(c) => reference_inbound(project, page, spec_markdown_references(c)),
        None => Seq::empty(),
    }
}

/// The routes the Markdown sources of the first `n` pages link to.
pub open spec fn markdown_inbound(project: AuthoringProject, n: nat) -> Seq<Seq<char>>
    decreases n,
{
    if n == 0 {
        Seq::empty()
    } else {
        markdown_inbound(project, (n - 1) as nat) + page_inbound(project, project.pages@[n - 1])
    }
}

/// The routes the rendered links `hrefs` of `page` lead to, counting only
/// links to a known route other than the page's own.
pub open spec fn href_inbound(project: AuthoringProject, page: AuthoringPage, hrefs: Seq<RenderedHref>) -> Seq<
    Seq<char>,
>
    decreases hrefs.len(),
{
    if hrefs.len() == 0 {
        Seq::empty()
    } else {
        let prev = href_inbound(project, page, hrefs.drop_last());
        match spec_rendered_href_target_route(project, page, hrefs.last().href@) {
            Some(t) => if spec_route_exists(project.known_routes@, t) && t != page.route@ {
                prev.push(t)
            } else {
                prev
            },
            None => prev,
        }
    }
}

/// The routes the rendered links of the first `n` entries of
/// `rendered_hrefs_by_route` lead to (entries whose route no page serves
/// count for nothing).
pub open spec fn rendered_inbound(project: AuthoringProject, n: nat) -> Seq<Seq<char>>
    decreases n,
{
    if n == 0 {
        Seq::empty()
    } else {
        let prev = rendered_inbound(project, (n - 1) as nat);
        let entry = project.rendered_hrefs_by_route@[n - 1];
        match project.spec_page_for_route(entry.0@) {
            Some(p) => prev + href_inbound(project, project.pages@[p], entry.1@),
            None => prev,
        }
    }
}

/// Every inbound link of the site, as the route it reaches: one per
/// Markdown reference and one per rendered link that reaches another known
/// page.
pub open spec fn inbound_targets(project: AuthoringProject) -> Seq<Seq<char>> {
    markdown_inbound(project, project.pages@.len()) + rendered_inbound(
        project,
        project.rendered_hrefs_by_route@.len(),
    )
}

/// How often `x` occurs in `s`.
pub open spec fn occurrences(s: Seq<Seq<char>>, x: Seq<char>) -> nat
    decreases s.len(),
{
    if s.len() == 0 {
        0
    } else {
        occurrences(s.drop_last(), x) + if s.last() == x {
            1nat
        } else {
            0nat
        }
    }
}

proof fn lemma_occurrences_concat(a: Seq<Seq<char>>, b: Seq<Seq<char>>, x: Seq<char>)
    ensures
        occurrences(a + b, x) == occurrences(a, x) + occurrences(b, x),
    decreases b.len(),
{
    if b.len() == 0 {
        assert(a + b == a);
    } else {
        lemma_occurrences_concat(a, b.drop_last(), x);
        assert((a + b).drop_last() == a + b.drop_last());
    }
}

proof fn lemma_occurrences_bound(s: Seq<Seq<char>>, x: Seq<char>)
    ensures
        occurrences(s, x) <= s.len(),
    decreases s.len(),
{
    if s.len() > 0 {
        lemma_occurrences_bound(s.drop_last(), x);
    }
}

/// The number of inbound links of `route`.
pub open spec fn inbound_count(project: AuthoringProject, route: Seq<char>) -> nat {
    occurrences(inbound_targets(project), route)
}

/// The strings as plain values.
pub open spec fn route_views(v: Seq<String>) -> Seq<Seq<char>> {
    v.map_values(|s: String| s@)
}

fn push_page_inbound(project: &AuthoringProject, page: &AuthoringPage, out: &mut Vec<String>)
    ensures
        route_views(final(out)@) == route_views(old(out)@) + page_inbound(*project, *page),
{
    let ci = match find_key(&project.source_contents, page.source_file.as_str()) {
        Some(ci) => ci,
        None => {
            assert(route_views(out@) + Seq::<Seq<char>>::empty() == route_views(out@));
            return;
        },
    };
    let content = project.source_contents[ci].1.as_str();
    let refs = markdown_references(content);
    let ghost rv = reference_views(refs@);
    let ghost start = route_views(out@);
    let mut k: usize = 0;
    assert(start + Seq::<Seq<char>>::empty() == start);
    while k < refs.len()
        invariant
            k <= refs.len(),
            rv == reference_views(refs@),
            rv == spec_markdown_references(content@),
            str_value(project.source_contents@, page.source_file@) == Some(content@),
            route_views(out@) == start + reference_inbound(*project, *page, rv.take(k as int)),
        decreases refs.len() - k,
    {
        assert(rv.take(k + 1 as int).drop_last() == rv.take(k as int));
        assert(rv.take(k + 1 as int).last() == reference_view(refs@[k as int]));
        match reference_target_route(project, page, &refs[k]) {
            Some(t) => {
                if project.route_exists(t.as_str()) && !str_eq(t.as_str(), page.route.as_str()) {
                    let ghost before = out@;
                    out.push(t);
                    assert(route_views(out@) == route_views(before).push(out@.last()@));
                }
            },
            None => {},
        }
        k = k + 1;
    }
    assert(rv.take(refs.len() as int) == rv);
}

fn push_href_inbound(
    project: &AuthoringProject,
    page: &AuthoringPage,
    hrefs: &Vec<RenderedHref>,
    out: &mut Vec<String>,
)
    ensures
        route_views(final(out)@) == route_views(old(out)@) + href_inbound(*project, *page, hrefs@),
{
    let ghost start = route_views(out@);
    let mut k: usize = 0;
    assert(start + Seq::<Seq<char>>::empty() == start);
    while k < hrefs.len()
        invariant
            k <= hrefs.len(),
            route_views(out@) == start + href_inbound(*project, *page, hrefs@.take(k as int)),
        decreases hrefs.len() - k,
    {
        assert(hrefs@.take(k + 1 as int).drop_last() == hrefs@.take(k as int));
        assert(hrefs@.take(k + 1 as int).last() == hrefs@[k as int]);
        match rendered_href_target_route(project, page, hrefs[k].href.as_str()) {
            Some(t) => {
                if project.route_exists(t.as_str()) && !str_eq(t.as_str(), page.route.as_str()) {
                    let ghost before = out@;
                    out.push(t);
                    assert(route_views(out@) == route_views(before).push(out@.last()@));
                }
            },
            None => {},
        }
        k = k + 1;
    }
    assert(hrefs@.take(hrefs.len() as int) == hrefs@);
}

fn collect_inbound_targets(project: &AuthoringProject) -> (r: Vec<String>)
    ensures
        route_views(r@) == inbound_targets(*project),
{
    let mut out: Vec<String> = Vec::new();
    let mut i: usize = 0;
    assert(route_views(out@) == Seq::<Seq<char>>::empty());
    while i < project.pages.len()
        invariant
            i <= project.pages.len(),
            route_views(out@) == markdown_inbound(*project, i as nat),
        decreases project.pages.len() - i,
    {
        push_page_inbound(project, &project.pages[i], &mut out);
        i = i + 1;
    }
    let ghost md = route_views(out@);
    let mut n: usize = 0;
    assert(md + Seq::<Seq<char>>::empty() == md);
    while n < project.rendered_hrefs_by_route.len()
        invariant
            n <= project.rendered_hrefs_by_route.len(),
            md == markdown_inbound(*project, project.pages@.len()),
            route_views(out@) == md + rendered_inbound(*project, n as nat),
        decreases project.rendered_hrefs_by_route.len() - n,
    {
        let entry = &project.rendered_hrefs_by_route[n];
        let ghost before = route_views(out@);
        match project.page_for_route(entry.0.as_str()) {
            Some(page) => {
                push_href_inbound(project, page, &entry.1, &mut out);
                assert(md + rendered_inbound(*project, (n + 1) as nat) == before + href_inbound(
                    *project,
                    *page,
                    entry.1@,
                ));
            },
            None => {},
        }
        n = n + 1;
    }
    out
}

/// The number of inbound links of each route that has any: one per
/// Markdown reference of a page's source and one per link in a page's
/// rendered HTML that reaches a known route other than that page's own.
/// Each route appears once; a route that is not listed has none.
pub fn inbound_link_counts(project: &AuthoringProject) -> (r: Vec<(String, usize)>)
    ensures
        forall|i: int, j: int| 0 <= i < j < r@.len() ==> (#[trigger] r@[i]).0@ != (#[trigger] r@[j]).0@,
        forall|i: int|
            0 <= i < r@.len() ==> (#[trigger] r@[i]).1 == inbound_count(*project, r@[i].0@) && r@[i].1
                > 0,
        forall|route: Seq<char>|
            inbound_count(*project, route) > 0 ==> exists|i: int|
                0 <= i < r@.len() && (#[trigger] r@[i]).0@ == route,
{
    let targets = collect_inbound_targets(project);
    let ghost tv = route_views(targets@);
    let mut out: Vec<(String, usize)> = Vec::new();
    let mut i: usize = 0;
    while i < targets.len()
        invariant
            i <= targets.len(),
            tv == route_views(targets@),
            tv == inbound_targets(*project),
            forall|a: int, b: int| 0 <= a < b < out@.len() ==> (#[trigger] out@[a]).0@ != (#[trigger] out@[b]).0@,
            forall|a: int|
                0 <= a < out@.len() ==> (#[trigger] out@[a]).1 == occurrences(tv.take(i as int), out@[a].0@)
                    && out@[a].1 > 0,
            forall|route: Seq<char>|
                occurrences(tv.take(i as int), route) > 0 ==> exists|a: int|
                    0 <= a < out@.len() && (#[trigger] out@[a]).0@ == route,
        decreases targets.len() - i,
    {
        let t = targets[i].as_str();
        let ghost pre = tv.take(i as int);
        let ghost post = tv.take(i + 1 as int);
        assert(post.drop_last() == pre);
        assert(post.last() == t@);
        proof {
            lemma_occurrences_bound(pre, t@);
        }
        let mut k: usize = 0;
        let mut found = false;
        while k < out.len() && !found
            invariant
                k <= out.len(),
                forall|a: int| 0 <= a < k ==> (#[trigger] out@[a]).0@ != t@,
                found ==> k < out.len() && out@[k as int].0@ == t@,
            decreases out.len() - k + if found {
                0int
            } else {
                1int
            },
        {
            if str_eq(out[k].0.as_str(), t) {
                found = true;
            } else {
                k = k + 1;
            }
        }
        let ghost old_out = out@;
        if found {
            let c = out[k].1;
            assert(c == occurrences(pre, t@));
            let key = out[k].0.clone();
            out.set(k, (key, c + 1));
            assert forall|a: int| 0 <= a < out@.len() implies (#[trigger] out@[a]).1 == occurrences(
                post,
                out@[a].0@,
            ) && out@[a].1 > 0 by {
                if a != k {
                    assert(out@[a] == old_out[a]);
                    assert(old_out[a].0@ != t@);
                }
            }
            assert forall|route: Seq<char>| occurrences(post, route) > 0 implies exists|a: int|
                0 <= a < out@.len() && (#[trigger] out@[a]).0@ == route by {
                if route == t@ {
                    assert(out@[k as int].0@ == route);
                } else {
                    assert(occurrences(post, route) == occurrences(pre, route));
                    let a = choose|a: int| 0 <= a < old_out.len() && (#[trigger] old_out[a]).0@ == route;
                    assert(out@[a].0@ == route);
                }
            }
            assert forall|a: int, b: int| 0 <= a < b < out@.len() implies (#[trigger] out@[a]).0@
                != (#[trigger] out@[b]).0@ by {
                assert(old_out[a].0@ != old_out[b].0@);
            }
        } else {
            assert(occurrences(pre, t@) == 0) by {
                if occurrences(pre, t@) > 0 {
                    let a = choose|a: int| 0 <= a < old_out.len() && (#[trigger] old_out[a]).0@ == t@;
                    assert(old_out[a].0@ != t@);
                }
            }
            out.push((targets[i].clone(), 1));
            assert forall|a: int| 0 <= a < out@.len() implies (#[trigger] out@[a]).1 == occurrences(
                post,
                out@[a].0@,
            ) && out@[a].1 > 0 by {
                if a < old_out.len() {
                    assert(out@[a] == old_out[a]);
                    assert(old_out[a].0@ != t@);
                }
            }
            assert forall|route: Seq<char>| occurrences(post, route) > 0 implies exists|a: int|
                0 <= a < out@.len() && (#[trigger] out@[a]).0@ == route by {
                if route == t@ {
                    assert(out@[old_out.len() as int].0@ == route);
                } else {
                    assert(occurrences(post, route) == occurrences(pre, route));
                    let a = choose|a: int| 0 <= a < old_out.len() && (#[trigger] old_out[a]).0@ == route;
                    assert(out@[a].0@ == route);
                }
            }
            assert forall|a: int, b: int| 0 <= a < b < out@.len() implies (#[trigger] out@[a]).0@
                != (#[trigger] out@[b]).0@ by {
                if b == old_out.len() {
                    assert(old_out[a].0@ != t@);
                } else {
                    assert(old_out[a].0@ != old_out[b].0@);
                }
            }
        }
        i = i + 1;
    }
    assert(tv.take(targets.len() as int) == tv);
    out
}

// ---------------------------------------------------------------------------
// Findings about whole pages
// ---------------------------------------------------------------------------

/// Every loaded source fits the machine: its UTF-8 length fits in a
/// `usize` and its line and column numbers in a `u32`.
pub open spec fn sources_fit(project: AuthoringProject) -> bool {
    forall|i: int|
        0 <= i < project.source_contents@.len() ==> {
            &&& (#[trigger] project.source_contents@[i]).1@.len() < u32::MAX
            &&& byte_len(project.source_contents@[i].1@) <= usize::MAX
        }
}

/// `page` is a section whose route is a prefix (up to a `/`) of another
/// page's route.
pub open spec fn spec_is_section_landing_with_children(project: AuthoringProject, page: AuthoringPage) -> bool {
    &&& page.kind == AuthoringPageKind::Section
    &&& exists|j: int|
        0 <= j < project.pages@.len() && (#[trigger] project.pages@[j]).route@ != page.route@
            && starts_with(project.pages@[j].route@, with_one_trailing_slash(page.route@))
}

/// Whether `page` is a section landing page with pages under it.
pub fn is_section_landing_with_children(project: &AuthoringProject, page: &AuthoringPage) -> (r: bool)
    ensures
        r == spec_is_section_landing_with_children(*project, *page),
{
    match page.kind {
        AuthoringPageKind::Page => {
            return false;
        },
        AuthoringPageKind::Section => {},
    }
    let (_, prefix) = slash_variants(page.route.as_str());
    let pv = to_chars(prefix.as_str());
    let mut j: usize = 0;
    while j < project.pages.len()
        invariant
            j <= project.pages.len(),
            pv@ == with_one_trailing_slash(page.route@),
            page.kind == AuthoringPageKind::Section,
            forall|k: int|
                0 <= k < j ==> !((#[trigger] project.pages@[k]).route@ != page.route@ && starts_with(
                    project.pages@[k].route@,
                    pv@,
                )),
        decreases project.pages.len() - j,
    {
        let candidate = &project.pages[j];
        let cv = to_chars(candidate.route.as_str());
        if !str_eq(candidate.route.as_str(), page.route.as_str()) && starts_with_exec(
            cv.as_slice(),
            pv.as_slice(),
        ) {
            assert(project.pages@[j as int].route@ != page.route@);
            assert(starts_with(project.pages@[j as int].route@, with_one_trailing_slash(page.route@)));
            assert(page.kind == AuthoringPageKind::Section);
            return true;
        }
        j = j + 1;
    }
    false
}

/// `d` is the site-graph finding about `page` (whose source is `content`):
/// reported against the page's identity range, of `kind`, about `target`,
/// saying `message`.
pub open spec fn is_page_finding(
    d: AuthoringDiagnostic,
    page: AuthoringPage,
    content: Seq<char>,
    kind: AuthoringDiagnosticKind,
    target: Seq<char>,
    message: Seq<char>,
) -> bool {
    &&& d.source_file@ == page.source_file@
    &&& d.route@ == page.route@
    &&& d.kind == kind
    &&& d.target@ == target
    &&& d.resolved_route matches Some(r) && r@ == page.route@
    &&& d.message@ == message
    &&& d.byte_start == spec_site_graph_page_identity_byte_range(content).0
    &&& d.byte_end == spec_site_graph_page_identity_byte_range(content).1
    &&& d.located_in(content)
}

/// The source text of `page`, if loaded.
pub open spec fn page_content(project: AuthoringProject, page: AuthoringPage) -> Option<Seq<char>> {
    str_value(project.source_contents@, page.source_file@)
}

/// The message for a page nothing links to.
pub open spec fn msg_no_inbound(route: Seq<char>) -> Seq<char> {
    route + " has no inbound links"@
}

/// Page `i` is reported as unlinked: it is not the root, no link reaches
/// it, it is not a section with pages under it, and its source is loaded.
pub open spec fn is_unlinked(project: AuthoringProject, i: int) -> bool {
    let page = project.pages@[i];
    &&& page.route@ != "/"@
    &&& inbound_count(project, page.route@) == 0
    &&& !spec_is_section_landing_with_children(project, page)
    &&& page_content(project, page) is Some
}

/// The pages among the first `n` that are reported as unlinked, in order.
pub open spec fn unlinked_pages(project: AuthoringProject, n: nat) -> Seq<int>
    decreases n,
{
    if n == 0 {
        Seq::empty()
    } else if is_unlinked(project, n - 1) {
        unlinked_pages(project, (n - 1) as nat).push(n - 1)
    } else {
        unlinked_pages(project, (n - 1) as nat)
    }
}

/// The kind of finding for an unlinked page: an orphan page, or a section
/// with no inbound links.
pub open spec fn unlinked_kind(kind: AuthoringPageKind) -> AuthoringDiagnosticKind {
    match kind {
        AuthoringPageKind::Page => AuthoringDiagnosticKind::OrphanPage,
        AuthoringPageKind::Section => AuthoringDiagnosticKind::NoInboundLinks,
    }
}

fn has_count(counts: &Vec<(String, usize)>, route: &str) -> (r: bool)
    ensures
        r == exists|i: int| 0 <= i < counts@.len() && (#[trigger] counts@[i]).0@ == route@,
{
    let mut i: usize = 0;
    while i < counts.len()
        invariant
            i <= counts.len(),
            forall|k: int| 0 <= k < i ==> (#[trigger] counts@[k]).0@ != route@,
        decreases counts.len() - i,
    {
        if str_eq(counts[i].0.as_str(), route) {
            return true;
        }
        i = i + 1;
    }
    false
}

/// The source text of `page` and a proof that it fits.
fn loaded_content<'a>(project: &'a AuthoringProject, page: &AuthoringPage) -> (r: Option<&'a str>)
    requires
        sources_fit(*project),
    ensures
        match page_content(*project, *page) {
            Some(c) => r matches Some(x) && x@ == c && x@.len() < u32::MAX && byte_len(x@) <= usize::MAX,
            None => r is None,
        },
{
    match find_key(&project.source_contents, page.source_file.as_str()) {
        Some(ci) => {
            let c = project.source_contents[ci].1.as_str();
            assert(project.source_contents@[ci as int].1@.len() < u32::MAX);
            Some(c)
        },
        None => None,
    }
}

/// The pages nothing links to, in page order: every page but the root
/// whose route no link reaches (see [`inbound_link_counts`]) and that is
/// not a section with pages under it, reported as an orphan page (or, for a
/// section, as having no inbound links) with the message `ROUTE has no
/// inbound links`. Pages whose source is not loaded are skipped.
pub fn inbound_link_diagnostics(project: &AuthoringProject) -> (r: Vec<AuthoringDiagnostic>)
    requires
        sources_fit(*project),
    ensures
        r@.len() == unlinked_pages(*project, project.pages@.len()).len(),
        forall|k: int|
            0 <= k < r@.len() ==> {
                let i = unlinked_pages(*project, project.pages@.len())[k];
                let page = project.pages@[i];
                is_page_finding(
                    #[trigger] r@[k],
                    page,
                    page_content(*project, page)->0,
                    unlinked_kind(page.kind),
                    page.route@,
                    msg_no_inbound(page.route@),
                )
            },
{
    let counts = inbound_link_counts(project);
    let mut out: Vec<AuthoringDiagnostic> = Vec::new();
    let mut i: usize = 0;
    while i < project.pages.len()
        invariant
            i <= project.pages.len(),
            sources_fit(*project),
            forall|route: Seq<char>|
                inbound_count(*project, route) > 0 ==> exists|a: int|
                    0 <= a < counts@.len() && (#[trigger] counts@[a]).0@ == route,
            forall|a: int| 0 <= a < counts@.len() ==> (#[trigger] counts@[a]).1 == inbound_count(*project, counts@[a].0@) && counts@[a].1 > 0,
            out@.len() == unlinked_pages(*project, i as nat).len(),
            forall|k: int|
                0 <= k < out@.len() ==> {
                    let p = unlinked_pages(*project, i as nat)[k];
                    let page = project.pages@[p];
                    is_page_finding(
                        #[trigger] out@[k],
                        page,
                        page_content(*project, page)->0,
                        unlinked_kind(page.kind),
                        page.route@,
                        msg_no_inbound(page.route@),
                    )
                },
        decreases project.pages.len() - i,
    {
        let page = &project.pages[i];
        let ghost prev = unlinked_pages(*project, i as nat);
        let root = str_eq(page.route.as_str(), "/");
        let linked = has_count(&counts, page.route.as_str());
        proof {
            if linked {
                let a = choose|a: int| 0 <= a < counts@.len() && (#[trigger] counts@[a]).0@ == page.route@;
                assert(counts@[a].1 > 0);
            }
        }
        if !root && !linked && !is_section_landing_with_children(project, page) {
            match loaded_content(project, page) {
                Some(content) => {
                    let mut m: Vec<char> = Vec::new();
                    push_str_chars(&mut m, page.route.as_str());
                    push_str_chars(&mut m, " has no inbound links");
                    let kind = match page.kind {
                        AuthoringPageKind::Page => AuthoringDiagnosticKind::OrphanPage,
                        AuthoringPageKind::Section => AuthoringDiagnosticKind::NoInboundLinks,
                    };
                    let d = site_graph_diagnostic_for_page(
                        page,
                        content,
                        kind,
                        page.route.as_str(),
                        from_chars(m.as_slice()),
                    );
                    out.push(d);
                    assert(unlinked_pages(*project, (i + 1) as nat) == prev.push(i as int));
                },
                None => {},
            }
        }
        i = i + 1;
    }
    out
}

/// What pages are grouped by: their title, or their route.
pub open spec fn dup_key(page: AuthoringPage, by_title: bool) -> Seq<char> {
    if by_title {
        page.title@
    } else {
        page.route@
    }
}

/// Pages with this key take part: any route, but only a title that is not
/// blank.
pub open spec fn key_counts(key: Seq<char>, by_title: bool) -> bool {
    !by_title || trim(key).len() > 0
}

/// How many of the first `n` pages have `key`.
pub open spec fn key_count(pages: Seq<AuthoringPage>, key: Seq<char>, by_title: bool, n: nat) -> nat
    decreases n,
{
    if n == 0 {
        0
    } else {
        key_count(pages, key, by_title, (n - 1) as nat) + if dup_key(pages[n - 1], by_title) == key {
            1nat
        } else {
            0nat
        }
    }
}

/// Page `i` is the first of a group of two or more pages with the same key.
pub open spec fn leads_group(pages: Seq<AuthoringPage>, i: int, by_title: bool) -> bool {
    let key = dup_key(pages[i], by_title);
    &&& key_counts(key, by_title)
    &&& forall|j: int| 0 <= j < i ==> dup_key(#[trigger] pages[j], by_title) != key
    &&& key_count(pages, key, by_title, pages.len()) > 1
}

/// The pages among the first `n` that have `key` and whose source is
/// loaded, in order.
pub open spec fn group_members(project: AuthoringProject, key: Seq<char>, by_title: bool, n: nat) -> Seq<int>
    decreases n,
{
    if n == 0 {
        Seq::empty()
    } else {
        let prev = group_members(project, key, by_title, (n - 1) as nat);
        let page = project.pages@[n - 1];
        if dup_key(page, by_title) == key && page_content(project, page) is Some {
            prev.push(n - 1)
        } else {
            prev
        }
    }
}

/// The pages reported for sharing a key, group by group in the order the
/// groups first appear among the first `n` pages, each group in page order.
pub open spec fn duplicate_pages(project: AuthoringProject, by_title: bool, n: nat) -> Seq<int>
    decreases n,
{
    if n == 0 {
        Seq::empty()
    } else {
        let prev = duplicate_pages(project, by_title, (n - 1) as nat);
        if leads_group(project.pages@, n - 1, by_title) {
            prev + group_members(
                project,
                dup_key(project.pages@[n - 1], by_title),
                by_title,
                project.pages@.len(),
            )
        } else {
            prev
        }
    }
}

/// The message for a shared title or route.
pub open spec fn msg_duplicate(key: Seq<char>, by_title: bool) -> Seq<char> {
    if by_title {
        "title '"@ + key + "' is used by multiple pages"@
    } else {
        "route '"@ + key + "' is produced by multiple source files"@
    }
}

/// `d` is the finding about page `i` sharing its title or route.
pub open spec fn is_duplicate_finding(
    project: AuthoringProject,
    by_title: bool,
    i: int,
    d: AuthoringDiagnostic,
) -> bool {
    let page = project.pages@[i];
    let key = dup_key(page, by_title);
    is_page_finding(
        d,
        page,
        page_content(project, page)->0,
        if by_title {
            AuthoringDiagnosticKind::DuplicateTitle
        } else {
            AuthoringDiagnosticKind::DuplicateRoute
        },
        key,
        msg_duplicate(key, by_title),
    )
}

fn page_key(page: &AuthoringPage, by_title: bool) -> (r: &str)
    ensures
        r@ == dup_key(*page, by_title),
{
    if by_title {
        page.title.as_str()
    } else {
        page.route.as_str()
    }
}

fn count_key(pages: &Vec<AuthoringPage>, key: &str, by_title: bool) -> (r: usize)
    ensures
        r == key_count(pages@, key@, by_title, pages@.len()),
{
    let mut c: usize = 0;
    let mut i: usize = 0;
    while i < pages.len()
        invariant
            i <= pages.len(),
            c == key_count(pages@, key@, by_title, i as nat),
            c <= i,
        decreases pages.len() - i,
    {
        if str_eq(page_key(&pages[i], by_title), key) {
            c = c + 1;
        }
        i = i + 1;
    }
    c
}

fn leads_group_exec(pages: &Vec<AuthoringPage>, i: usize, by_title: bool) -> (r: bool)
    requires
        i < pages.len(),
    ensures
        r == leads_group(pages@, i as int, by_title),
{
    let key = page_key(&pages[i], by_title);
    if by_title {
        let t = trim_chars(to_chars(key).as_slice());
        if t.len() == 0 {
            return false;
        }
    }
    let mut j: usize = 0;
    while j < i
        invariant
            j <= i < pages.len(),
            key@ == dup_key(pages@[i as int], by_title),
            key_counts(key@, by_title),
            forall|k: int| 0 <= k < j ==> dup_key(#[trigger] pages@[k], by_title) != key@,
        decreases i - j,
    {
        if str_eq(page_key(&pages[j], by_title), key) {
            assert(dup_key(pages@[j as int], by_title) == key@);
            return false;
        }
        j = j + 1;
    }
    count_key(pages, key, by_title) > 1
}

fn duplicate_message(key: &str, by_title: bool) -> (r: String)
    ensures
        r@ == msg_duplicate(key@, by_title),
{
    let mut m: Vec<char> = Vec::new();
    if by_title {
        push_str_chars(&mut m, "title '");
        push_str_chars(&mut m, key);
        push_str_chars(&mut m, "' is used by multiple pages");
    } else {
        push_str_chars(&mut m, "route '");
        push_str_chars(&mut m, key);
        push_str_chars(&mut m, "' is produced by multiple source files");
    }
    from_chars(m.as_slice())
}

fn duplicate_diagnostics(project: &AuthoringProject, by_title: bool) -> (r: Vec<AuthoringDiagnostic>)
    requires
        sources_fit(*project),
    ensures
        r@.len() == duplicate_pages(*project, by_title, project.pages@.len()).len(),
        forall|k: int|
            0 <= k < r@.len() ==> is_duplicate_finding(
                *project,
                by_title,
                duplicate_pages(*project, by_title, project.pages@.len())[k],
                #[trigger] r@[k],
            ),
{
    let n = project.pages.len();
    let mut out: Vec<AuthoringDiagnostic> = Vec::new();
    let mut i: usize = 0;
    while i < n
        invariant
            i <= n == project.pages@.len(),
            sources_fit(*project),
            out@.len() == duplicate_pages(*project, by_title, i as nat).len(),
            forall|k: int|
                0 <= k < out@.len() ==> is_duplicate_finding(
                    *project,
                    by_title,
                    duplicate_pages(*project, by_title, i as nat)[k],
                    #[trigger] out@[k],
                ),
        decreases n - i,
    {
        let ghost prev = duplicate_pages(*project, by_title, i as nat);
        if leads_group_exec(&project.pages, i, by_title) {
            let key = page_key(&project.pages[i], by_title);
            let mut j: usize = 0;
            while j < n
                invariant
                    j <= n == project.pages@.len(),
                    i < n,
                    sources_fit(*project),
                    key@ == dup_key(project.pages@[i as int], by_title),
                    prev == duplicate_pages(*project, by_title, i as nat),
                    out@.len() == prev.len() + group_members(*project, key@, by_title, j as nat).len(),
                    forall|k: int|
                        0 <= k < out@.len() ==> is_duplicate_finding(
                            *project,
                            by_title,
                            (prev + group_members(*project, key@, by_title, j as nat))[k],
                            #[trigger] out@[k],
                        ),
                decreases n - j,
            {
                let ghost members = group_members(*project, key@, by_title, j as nat);
                let page = &project.pages[j];
                if str_eq(page_key(page, by_title), key) {
                    match loaded_content(project, page) {
                        Some(content) => {
                            let d = site_graph_diagnostic_for_page(
                                page,
                                content,
                                if by_title {
                                    AuthoringDiagnosticKind::DuplicateTitle
                                } else {
                                    AuthoringDiagnosticKind::DuplicateRoute
                                },
                                key,
                                duplicate_message(key, by_title),
                            );
                            let ghost before = out@;
                            out.push(d);
                            assert(group_members(*project, key@, by_title, (j + 1) as nat) == members.push(
                                j as int,
                            ));
                            assert((prev + members.push(j as int)) == (prev + members).push(j as int));
                            assert forall|k: int| 0 <= k < out@.len() implies is_duplicate_finding(
                                *project,
                                by_title,
                                (prev + group_members(*project, key@, by_title, (j + 1) as nat))[k],
                                #[trigger] out@[k],
                            ) by {
                                if k < before.len() {
                                    assert(out@[k] == before[k]);
                                }
                            }
                        },
                        None => {},
                    }
                }
                j = j + 1;
            }
        }
        i = i + 1;
    }
    out
}

/// The pages that share a title that is not blank, group by group (in the
/// order the titles first appear), each group in page order, reported with
/// the message `title 'TITLE' is used by multiple pages`. Pages whose
/// source is not loaded are skipped.
pub fn duplicate_title_diagnostics(project: &AuthoringProject) -> (r: Vec<AuthoringDiagnostic>)
    requires
        sources_fit(*project),
    ensures
        r@.len() == duplicate_pages(*project, true, project.pages@.len()).len(),
        forall|k: int|
            0 <= k < r@.len() ==> is_duplicate_finding(
                *project,
                true,
                duplicate_pages(*project, true, project.pages@.len())[k],
                #[trigger] r@[k],
            ),
{
    duplicate_diagnostics(project, true)
}

/// The pages that share a route, group by group (in the order the routes
/// first appear), each group in page order, reported with the message
/// `route 'ROUTE' is produced by multiple source files`. Pages whose source
/// is not loaded are skipped.
pub fn duplicate_route_diagnostics(project: &AuthoringProject) -> (r: Vec<AuthoringDiagnostic>)
    requires
        sources_fit(*project),
    ensures
        r@.len() == duplicate_pages(*project, false, project.pages@.len()).len(),
        forall|k: int|
            0 <= k < r@.len() ==> is_duplicate_finding(
                *project,
                false,
                duplicate_pages(*project, false, project.pages@.len())[k],
                #[trigger] r@[k],
            ),
{
    duplicate_diagnostics(project, false)
}

/// `r` lists every site-graph finding: shared titles, then shared routes,
/// then pages nothing links to.
pub open spec fn is_site_graph_diagnostics(r: Seq<AuthoringDiagnostic>, project: AuthoringProject) -> bool {
    let n = project.pages@.len();
    let titles = duplicate_pages(project, true, n);
    let routes = duplicate_pages(project, false, n);
    let unlinked = unlinked_pages(project, n);
    &&& r.len() == titles.len() + routes.len() + unlinked.len()
    &&& forall|k: int|
        0 <= k < titles.len() ==> is_duplicate_finding(project, true, titles[k], #[trigger] r[k])
    &&& forall|k: int|
        titles.len() <= k < titles.len() + routes.len() ==> is_duplicate_finding(
            project,
            false,
            routes[k - titles.len()],
            #[trigger] r[k],
        )
    &&& forall|k: int|
        titles.len() + routes.len() <= k < r.len() ==> {
            let i = unlinked[k - titles.len() - routes.len()];
            let page = project.pages@[i];
            is_page_finding(
                #[trigger] r[k],
                page,
                page_content(project, page)->0,
                unlinked_kind(page.kind),
                page.route@,
                msg_no_inbound(page.route@),
            )
        }
}

/// Every site-graph finding: shared titles, then shared routes, then pages
/// nothing links to.
pub fn site_graph_diagnostics(project: &AuthoringProject) -> (r: Vec<AuthoringDiagnostic>)
    requires
        sources_fit(*project),
    ensures
        is_site_graph_diagnostics(r@, *project),
{
    let mut out = duplicate_title_diagnostics(project);
    let mut routes = duplicate_route_diagnostics(project);
    let mut unlinked = inbound_link_diagnostics(project);
    let ghost a = out@;
    let ghost b = routes@;
    let ghost c = unlinked@;
    out.append(&mut routes);
    out.append(&mut unlinked);
    assert(out@ == a + b + c);
    out
}

// ---------------------------------------------------------------------------
// Laws
// ---------------------------------------------------------------------------

proof fn lemma_group_members(project: AuthoringProject, key: Seq<char>, by_title: bool, n: nat, j: int)
    requires
        n <= project.pages@.len(),
    ensures
        group_members(project, key, by_title, n).contains(j) <==> (0 <= j < n && dup_key(
            project.pages@[j],
            by_title,
        ) == key && page_content(project, project.pages@[j]) is Some),
    decreases n,
{
    if n > 0 {
        lemma_group_members(project, key, by_title, (n - 1) as nat, j);
        let prev = group_members(project, key, by_title, (n - 1) as nat);
        let page = project.pages@[n - 1];
        if dup_key(page, by_title) == key && page_content(project, page) is Some {
            let pp = prev.push(n - 1);
            assert(pp[prev.len() as int] == n - 1);
            if pp.contains(j) && j != n - 1 {
                let k = choose|k: int| 0 <= k < pp.len() && pp[k] == j;
                assert(prev[k] == j);
            }
            if prev.contains(j) {
                let k = choose|k: int| 0 <= k < prev.len() && prev[k] == j;
                assert(pp[k] == j);
            }
        }
    }
}

proof fn lemma_key_count_positive(pages: Seq<AuthoringPage>, key: Seq<char>, by_title: bool, n: nat, i: int)
    requires
        0 <= i < n <= pages.len(),
        dup_key(pages[i], by_title) == key,
    ensures
        key_count(pages, key, by_title, n) > 0,
    decreases n,
{
    if i < n - 1 {
        lemma_key_count_positive(pages, key, by_title, (n - 1) as nat, i);
    }
}

proof fn lemma_first_with_key(pages: Seq<AuthoringPage>, by_title: bool, i: int) -> (l: int)
    requires
        0 <= i < pages.len(),
    ensures
        0 <= l <= i,
        dup_key(pages[l], by_title) == dup_key(pages[i], by_title),
        forall|j: int| 0 <= j < l ==> dup_key(#[trigger] pages[j], by_title) != dup_key(pages[i], by_title),
    decreases i,
{
    let key = dup_key(pages[i], by_title);
    if exists|j: int| 0 <= j < i && dup_key(#[trigger] pages[j], by_title) == key {
        let j = choose|j: int| 0 <= j < i && dup_key(#[trigger] pages[j], by_title) == key;
        lemma_first_with_key(pages, by_title, j)
    } else {
        i
    }
}

proof fn lemma_duplicate_pages(project: AuthoringProject, by_title: bool, n: nat, i: int)
    requires
        n <= project.pages@.len(),
        0 <= i < project.pages@.len(),
    ensures
        duplicate_pages(project, by_title, n).contains(i) <==> (exists|l: int|
            0 <= l < n && leads_group(project.pages@, l, by_title) && dup_key(
                #[trigger] project.pages@[l],
                by_title,
            ) == dup_key(project.pages@[i], by_title)) && page_content(project, project.pages@[i]) is Some,
    decreases n,
{
    let pages = project.pages@;
    let key_i = dup_key(pages[i], by_title);
    if n > 0 {
        lemma_duplicate_pages(project, by_title, (n - 1) as nat, i);
        let prev = duplicate_pages(project, by_title, (n - 1) as nat);
        let l = n - 1;
        if leads_group(pages, l, by_title) {
            let g = group_members(project, dup_key(pages[l], by_title), by_title, pages.len());
            lemma_group_members(project, dup_key(pages[l], by_title), by_title, pages.len(), i);
            let all = prev + g;
            if all.contains(i) {
                let k = choose|k: int| 0 <= k < all.len() && all[k] == i;
                if k >= prev.len() {
                    assert(g[k - prev.len()] == i);
                } else {
                    assert(prev[k] == i);
                }
            }
            if prev.contains(i) {
                let k = choose|k: int| 0 <= k < prev.len() && prev[k] == i;
                assert(all[k] == i);
            }
            if g.contains(i) {
                let k = choose|k: int| 0 <= k < g.len() && g[k] == i;
                assert(all[prev.len() + k] == i);
            }
            if (exists|m: int|
                0 <= m < n && leads_group(pages, m, by_title) && dup_key(#[trigger] pages[m], by_title)
                    == key_i) && page_content(project, pages[i]) is Some {
                let m = choose|m: int|
                    0 <= m < n && leads_group(pages, m, by_title) && dup_key(#[trigger] pages[m], by_title)
                        == key_i;
                if m == l {
                    assert(g.contains(i));
                } else {
                    assert(prev.contains(i));
                }
            }
        } else {
            if exists|m: int|
                0 <= m < n && leads_group(pages, m, by_title) && dup_key(#[trigger] pages[m], by_title)
                    == key_i {
                let m = choose|m: int|
                    0 <= m < n && leads_group(pages, m, by_title) && dup_key(#[trigger] pages[m], by_title)
                        == key_i;
                assert(m != l);
            }
        }
    }
}

/// A page is reported for sharing its title (or route) exactly when its
/// source is loaded, its title is not blank (any route counts), and at
/// least one other page has the same title (or route).
pub proof fn law_duplicates_are_exactly_shared_keys(project: AuthoringProject, by_title: bool, i: int)
    requires
        0 <= i < project.pages@.len(),
    ensures
        duplicate_pages(project, by_title, project.pages@.len()).contains(i) <==> ({
            let key = dup_key(project.pages@[i], by_title);
            &&& key_counts(key, by_title)
            &&& key_count(project.pages@, key, by_title, project.pages@.len()) > 1
            &&& page_content(project, project.pages@[i]) is Some
        }),
{
    let pages = project.pages@;
    let n = pages.len();
    let key = dup_key(pages[i], by_title);
    lemma_duplicate_pages(project, by_title, n, i);
    if key_counts(key, by_title) && key_count(pages, key, by_title, n) > 1 {
        let l = lemma_first_with_key(pages, by_title, i);
        assert(leads_group(pages, l, by_title));
    }
    if exists|l: int| 0 <= l < n && leads_group(pages, l, by_title) && dup_key(#[trigger] pages[l], by_title) == key {
        let l = choose|l: int| 0 <= l < n && leads_group(pages, l, by_title) && dup_key(#[trigger] pages[l], by_title) == key;
        assert(leads_group(pages, l, by_title));
    }
}

/// A page other than the root that nothing links to is reported exactly
/// when it is not a section with pages under it and its source is loaded;
/// a page that some link reaches is never reported.
pub proof fn law_unlinked_pages_have_no_inbound_links(project: AuthoringProject, i: int)
    requires
        0 <= i < project.pages@.len(),
    ensures
        unlinked_pages(project, project.pages@.len()).contains(i) <==> is_unlinked(project, i),
        unlinked_pages(project, project.pages@.len()).contains(i) ==> inbound_count(
            project,
            project.pages@[i].route@,
        ) == 0,
{
    lemma_unlinked_pages(project, project.pages@.len(), i);
}

proof fn lemma_unlinked_pages(project: AuthoringProject, n: nat, i: int)
    requires
        n <= project.pages@.len(),
    ensures
        unlinked_pages(project, n).contains(i) <==> (0 <= i < n && is_unlinked(project, i)),
    decreases n,
{
    if n > 0 {
        lemma_unlinked_pages(project, (n - 1) as nat, i);
        let prev = unlinked_pages(project, (n - 1) as nat);
        if is_unlinked(project, n - 1) {
            let pp = prev.push(n - 1);
            assert(pp[prev.len() as int] == n - 1);
            if pp.contains(i) && i != n - 1 {
                let k = choose|k: int| 0 <= k < pp.len() && pp[k] == i;
                assert(prev[k] == i);
            }
            if prev.contains(i) {
                let k = choose|k: int| 0 <= k < prev.len() && prev[k] == i;
                assert(pp[k] == i);
            }
        }
    }
}

/// `parts` holds, for each page in order, the diagnostics of its source
/// (nothing for a page whose source is not loaded).
pub open spec fn are_pages_diagnostics(parts: Seq<Seq<AuthoringDiagnostic>>, project: AuthoringProject) -> bool {
    &&& parts.len() == project.pages@.len()
    &&& forall|i: int|
        0 <= i < parts.len() ==> match page_content(project, project.pages@[i]) {
            Some(c) => is_page_diagnostics(#[trigger] parts[i], project, project.pages@[i], c),
            None => parts[i].len() == 0,
        }
}

/// Every diagnostic of a site, sorted by source file, byte offset and
/// target: those of each page's source, those of its templates (given), and
/// its site-graph findings.
pub fn load_authoring_diagnostics(project: &AuthoringProject, template_diagnostics: Vec<AuthoringDiagnostic>) -> (r:
    Vec<AuthoringDiagnostic>)
    requires
        sources_fit(*project),
    ensures
        diags_sorted(r@),
        exists|parts: Seq<Seq<AuthoringDiagnostic>>, graph: Seq<AuthoringDiagnostic>|
            {
                &&& are_pages_diagnostics(parts, *project)
                &&& is_site_graph_diagnostics(graph, *project)
                &&& r@.to_multiset() == (parts.flatten() + template_diagnostics@ + graph).to_multiset()
            },
{
    let mut all: Vec<AuthoringDiagnostic> = Vec::new();
    let ghost mut parts: Seq<Seq<AuthoringDiagnostic>> = Seq::empty();
    let mut i: usize = 0;
    while i < project.pages.len()
        invariant
            i <= project.pages.len(),
            sources_fit(*project),
            parts.len() == i,
            all@ == parts.flatten(),
            forall|k: int|
                0 <= k < i ==> match page_content(*project, project.pages@[k]) {
                    Some(c) => is_page_diagnostics(#[trigger] parts[k], *project, project.pages@[k], c),
                    None => parts[k].len() == 0,
                },
        decreases project.pages.len() - i,
    {
        let page = &project.pages[i];
        let ghost before = parts;
        match loaded_content(project, page) {
            Some(content) => {
                let mut d = diagnostics_for_page(project, page, content);
                proof {
                    parts = parts.push(d@);
                    before.lemma_flatten_push(d@);
                }
                all.append(&mut d);
            },
            None => {
                proof {
                    parts = parts.push(Seq::empty());
                    before.lemma_flatten_push(Seq::empty());
                    assert(before.flatten() + Seq::<AuthoringDiagnostic>::empty() == before.flatten());
                }
            },
        }
        assert forall|k: int| 0 <= k < i + 1 implies match page_content(*project, project.pages@[k]) {
            Some(c) => is_page_diagnostics(#[trigger] parts[k], *project, project.pages@[k], c),
            None => parts[k].len() == 0,
        } by {
            if k < i {
                assert(parts[k] == before[k]);
            }
        }
        i = i + 1;
    }
    let ghost pages_part = all@;
    let mut templates = template_diagnostics;
    let ghost tv = templates@;
    all.append(&mut templates);
    let mut graph = site_graph_diagnostics(project);
    let ghost gv = graph@;
    all.append(&mut graph);
    assert(all@ == parts.flatten() + tv + gv);
    let sorted = sort_diagnostics(all);
    assert(are_pages_diagnostics(parts, *project));
    sorted
}

} // verus!
