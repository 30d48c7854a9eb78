//! Dead links: what is wrong with a link or image of a page (a missing
//! route, anchor, source file or static asset), reported at the link.
use vstd::prelude::*;

use crate::diagnostics::{AuthoringDiagnostic, AuthoringDiagnosticKind};
use crate::frontmatter::{frontmatter_diagnostics_for_source, reports_finding, spec_frontmatter_findings};
use crate::text::byte_len;
use crate::graph::{markdown_references, reference_view, reference_views, route_for_link_target, spec_markdown_references, spec_reference_target_route, spec_route_for_link_target, MarkdownReference, MarkdownReferenceKind};
use crate::model::{find_key, has_str, spec_route_exists, str_value, AuthoringPage, AuthoringProject};
use crate::positions::byte_to_line_column;
use crate::routes::{is_likely_static_file, is_special_target, spec_is_likely_static_file, spec_is_special_target, spec_split_fragment, split_fragment, starts_with_str};
use crate::text::{from_chars, push_str_chars, starts_with, sub_chars, to_chars};

verus! {

/// The complaint about a fragment that names no heading of the page at
/// `route`: none without a fragment, for an empty one, for an unknown
/// route, or when the heading exists.
pub open spec fn spec_missing_anchor_message(
    project: AuthoringProject,
    route: Seq<char>,
    fragment: Option<Seq<char>>,
) -> Option<Seq<char>> {
    match fragment {
        Some(f) => if f.len() == 0 {
            None
        } else {
            match project.spec_heading_ids_for_route(route) {
                Some(ids) => if has_str(ids, f) {
                    None
                } else {
                    Some("anchor '#"@ + f + "' not found on target page"@)
                },
                None => None,
            }
        },
        None => None,
    }
}

/// The complaint about a fragment that names no heading of the page at
/// `target_route`, if any.
pub fn missing_anchor_message(project: &AuthoringProject, target_route: &str, fragment: Option<&str>) -> (r:
    Option<String>)
    ensures
        match spec_missing_anchor_message(
            *project,
            target_route@,
            match fragment {
                Some(f) => Some(f@),
                None => None,
            },
        ) {
            Some(m) => r matches Some(x) && x@ == m,
            None => r is None,
        },
{
    let f = match fragment {
        Some(f) => f,
        None => {
            return None;
        },
    };
    if to_chars(f).len() == 0 {
        return None;
    }
    match project.heading_exists(target_route, f) {
        Some(true) => None,
        Some(false) => {
            let mut m: Vec<char> = Vec::new();
            push_str_chars(&mut m, "anchor '#");
            push_str_chars(&mut m, f);
            push_str_chars(&mut m, "' not found on target page");
            Some(from_chars(m.as_slice()))
        },
        None => None,
    }
}

/// What is wrong with a reference of `page` of `kind` to `target`: its
/// kind, the route it resolved to (if any) and the message; none when the
/// reference is fine or external.
pub open spec fn spec_reference_finding(
    project: AuthoringProject,
    page: AuthoringPage,
    kind: MarkdownReferenceKind,
    target: Seq<char>,
) -> Option<(AuthoringDiagnosticKind, Option<Seq<char>>, Seq<char>)> {
    if spec_is_special_target(target) {
        None
    } else {
        let t = spec_split_fragment(target).0;
        let fragment = spec_split_fragment(target).1;
        if starts_with(t, "@/"@) {
            let source = t.skip(2);
            match str_value(project.source_to_route@, source) {
                None => Some(
                    (
                        AuthoringDiagnosticKind::Source,
                        None,
                        "source file '"@ + source + "' not found"@,
                    ),
                ),
                Some(route) => match spec_missing_anchor_message(project, route, fragment) {
                    Some(m) => Some((AuthoringDiagnosticKind::Anchor, Some(route), m)),
                    None => None,
                },
            }
        } else if kind == MarkdownReferenceKind::Image || spec_is_likely_static_file(t) {
            if project.spec_static_target_path(page.source_file@, t) is Some {
                None
            } else {
                Some(
                    (
                        AuthoringDiagnosticKind::StaticAsset,
                        None,
                        "static asset '"@ + t + "' not found"@,
                    ),
                )
            }
        } else {
            let route = spec_route_for_link_target(project, page, t);
            if !spec_route_exists(project.known_routes@, route) {
                Some((AuthoringDiagnosticKind::Route, Some(route), "route '"@ + route + "' not found"@))
            } else {
                match spec_missing_anchor_message(project, route, fragment) {
                    Some(m) => Some((AuthoringDiagnosticKind::Anchor, Some(route), m)),
                    None => None,
                }
            }
        }
    }
}

/// The optional string as a plain value.
pub open spec fn opt_str(o: Option<String>) -> Option<Seq<char>> {
    match o {
        Some(s) => Some(s@),
        None => None,
    }
}

/// `d` reports, for the reference `r` of `page` (whose source is
/// `content`), a finding of `kind` with `resolved` route and `message`,
/// located at the reference.
pub open spec fn is_reference_finding(
    d: AuthoringDiagnostic,
    page: AuthoringPage,
    content: Seq<char>,
    r: (MarkdownReferenceKind, Seq<char>, int, int),
    finding: (AuthoringDiagnosticKind, Option<Seq<char>>, Seq<char>),
) -> bool {
    &&& d.source_file@ == page.source_file@
    &&& d.route@ == page.route@
    &&& d.kind == finding.0
    &&& d.target@ == r.1
    &&& opt_str(d.resolved_route) == finding.1
    &&& d.message@ == finding.2
    &&& d.byte_start == r.2
    &&& d.byte_end == r.3
    &&& d.located_in(content)
}

impl MarkdownReference {
    /// A diagnostic about this reference of `page`, located at the
    /// reference's byte span of `content`.
    pub fn diagnostic(
        &self,
        page: &AuthoringPage,
        content: &str,
        kind: AuthoringDiagnosticKind,
        resolved_route: Option<String>,
        message: String,
    ) -> (d: AuthoringDiagnostic)
        requires
            content@.len() < u32::MAX,
        ensures
            is_reference_finding(
                d,
                *page,
                content@,
                reference_view(*self),
                (kind, opt_str(resolved_route), message@),
            ),
    {
        let (line, column) = byte_to_line_column(content, self.byte_start);
        let (line_end, column_end) = byte_to_line_column(content, self.byte_end);
        AuthoringDiagnostic {
            source_file: page.source_file.clone(),
            route: page.route.clone(),
            kind,
            target: self.target.clone(),
            resolved_route,
            message,
            line,
            column,
            line_end,
            column_end,
            byte_start: self.byte_start,
            byte_end: self.byte_end,
        }
    }
}

fn quoted_message(before: &str, middle: &str, after: &str) -> (r: String)
    ensures
        r@ == before@ + middle@ + after@,
{
    let mut m: Vec<char> = Vec::new();
    push_str_chars(&mut m, before);
    push_str_chars(&mut m, middle);
    push_str_chars(&mut m, after);
    from_chars(m.as_slice())
}

/// The diagnostic for a reference of `page` (whose source is `content`)
/// that points nowhere: a `@/` source file that is not a page, an image or
/// static file that is not there, a route that does not exist, or a
/// fragment that names no heading of its page. None for a reference that
/// works and for external ones.
pub fn diagnostic_for_reference(
    project: &AuthoringProject,
    page: &AuthoringPage,
    content: &str,
    reference: MarkdownReference,
) -> (r: Option<AuthoringDiagnostic>)
    requires
        content@.len() < u32::MAX,
    ensures
        match spec_reference_finding(*project, *page, reference.kind, reference.target@) {
            Some(f) => r matches Some(d) && is_reference_finding(
                d,
                *page,
                content@,
                reference_view(reference),
                f,
            ),
            None => r is None,
        },
{
    let target = reference.target.as_str();
    if is_special_target(target) {
        return None;
    }
    let (t, fragment) = split_fragment(target);
    let tv = to_chars(t);
    if starts_with_str(tv.as_slice(), "@/") {
        proof {
            reveal_strlit("@/");
        }
        let source = from_chars(sub_chars(tv.as_slice(), 2, tv.len()).as_slice());
        assert(source@ == t@.skip(2));
        return match find_key(&project.source_to_route, source.as_str()) {
            None => {
                let m = quoted_message("source file '", source.as_str(), "' not found");
                Some(reference.diagnostic(page, content, AuthoringDiagnosticKind::Source, None, m))
            },
            Some(i) => {
                let route = project.source_to_route[i].1.as_str();
                match missing_anchor_message(project, route, fragment) {
                    Some(m) => Some(
                        reference.diagnostic(
                            page,
                            content,
                            AuthoringDiagnosticKind::Anchor,
                            Some(from_chars(to_chars(route).as_slice())),
                            m,
                        ),
                    ),
                    None => None,
                }
            },
        };
    }
    if reference.kind == MarkdownReferenceKind::Image || is_likely_static_file(t) {
        if project.static_target_exists(page.source_file.as_str(), t) {
            return None;
        }
        let m = quoted_message("static asset '", t, "' not found");
        return Some(reference.diagnostic(page, content, AuthoringDiagnosticKind::StaticAsset, None, m));
    }
    let route = route_for_link_target(project, page, t);
    if !project.route_exists(route.as_str()) {
        let m = quoted_message("route '", route.as_str(), "' not found");
        return Some(
            reference.diagnostic(page, content, AuthoringDiagnosticKind::Route, Some(route), m),
        );
    }
    match missing_anchor_message(project, route.as_str(), fragment) {
        Some(m) => Some(
            reference.diagnostic(page, content, AuthoringDiagnosticKind::Anchor, Some(route), m),
        ),
        None => None,
    }
}

/// The references of a page, among `refs`, that something is wrong with,
/// as (reference, finding) pairs in order.
pub open spec fn reference_findings(
    project: AuthoringProject,
    page: AuthoringPage,
    refs: Seq<(MarkdownReferenceKind, Seq<char>, int, int)>,
) -> Seq<((MarkdownReferenceKind, Seq<char>, int, int), (AuthoringDiagnosticKind, Option<Seq<char>>, Seq<char>))>
    decreases refs.len(),
{
    if refs.len() == 0 {
        Seq::empty()
    } else {
        let prev = reference_findings(project, page, refs.drop_last());
        let r = refs.last();
        match spec_reference_finding(project, page, r.0, r.1) {
            Some(f) => prev.push((r, f)),
            None => prev,
        }
    }
}

fn copy_reference(r: &MarkdownReference) -> (c: MarkdownReference)
    ensures
        c.kind == r.kind,
        reference_view(c) == reference_view(*r),
{
    MarkdownReference {
        kind: r.kind,
        target: r.target.clone(),
        byte_start: r.byte_start,
        byte_end: r.byte_end,
    }
}

/// `r` lists the diagnostics of `page` (whose source is `s`): its
/// frontmatter problems first, then its dead links and images in document
/// order.
pub open spec fn is_page_diagnostics(
    r: Seq<AuthoringDiagnostic>,
    project: AuthoringProject,
    page: AuthoringPage,
    s: Seq<char>,
) -> bool {
    let fm = spec_frontmatter_findings(s);
    let links = reference_findings(project, page, spec_markdown_references(s));
    &&& r.len() == fm.len() + links.len()
    &&& forall|i: int|
        0 <= i < fm.len() ==> reports_finding(#[trigger] r[i], page.source_file@, page.route@, s, fm[i])
    &&& forall|i: int|
        fm.len() <= i < r.len() ==> is_reference_finding(
            #[trigger] r[i],
            page,
            s,
            links[i - fm.len()].0,
            links[i - fm.len()].1,
        )
}

/// The diagnostics of a page whose source is `content`: its frontmatter
/// problems first, then its dead links and images in document order.
pub fn diagnostics_for_page(project: &AuthoringProject, page: &AuthoringPage, content: &str) -> (r: Vec<
    AuthoringDiagnostic,
>)
    requires
        content@.len() < u32::MAX,
        byte_len(content@) <= usize::MAX,
    ensures
        is_page_diagnostics(r@, *project, *page, content@),
{
    let mut out = frontmatter_diagnostics_for_source(page.source_file.as_str(), page.route.as_str(), content);
    let ghost fm = spec_frontmatter_findings(content@);
    let refs = markdown_references(content);
    let ghost rv = reference_views(refs@);
    let mut k: usize = 0;
    while k < refs.len()
        invariant
            k <= refs.len(),
            content@.len() < u32::MAX,
            rv == reference_views(refs@),
            fm == spec_frontmatter_findings(content@),
            out@.len() == fm.len() + reference_findings(*project, *page, rv.take(k as int)).len(),
            forall|i: int|
                0 <= i < fm.len() ==> reports_finding(
                    #[trigger] out@[i],
                    page.source_file@,
                    page.route@,
                    content@,
                    fm[i],
                ),
            forall|i: int|
                fm.len() <= i < out@.len() ==> is_reference_finding(
                    #[trigger] out@[i],
                    *page,
                    content@,
                    reference_findings(*project, *page, rv.take(k as int))[i - fm.len()].0,
                    reference_findings(*project, *page, rv.take(k as int))[i - fm.len()].1,
                ),
        decreases refs.len() - k,
    {
        assert(rv.take(k + 1 as int).drop_last() == rv.take(k as int));
        assert(rv.take(k + 1 as int).last() == reference_view(refs@[k as int]));
        let ghost prev = reference_findings(*project, *page, rv.take(k as int));
        match diagnostic_for_reference(project, page, content, copy_reference(&refs[k])) {
            Some(d) => {
                let ghost before = out@;
                out.push(d);
                assert forall|i: int| fm.len() <= i < out@.len() implies is_reference_finding(
                    #[trigger] out@[i],
                    *page,
                    content@,
                    reference_findings(*project, *page, rv.take(k + 1 as int))[i - fm.len()].0,
                    reference_findings(*project, *page, rv.take(k + 1 as int))[i - fm.len()].1,
                ) by {
                    if i < before.len() {
                        assert(out@[i] == before[i]);
                    }
                }
            },
            None => {},
        }
        k = k + 1;
    }
    assert(rv.take(refs.len() as int) == rv);
    out
}

/// Link checking and the route graph agree on page links: a reference to
/// a route (not external, not `@/`, not an image or static file) is
/// reported as a missing route exactly when the route it names is not a
/// known route, that is, exactly when the route graph has no edge for it.
pub proof fn law_missing_routes_are_the_links_the_graph_drops(
    project: AuthoringProject,
    page: AuthoringPage,
    kind: MarkdownReferenceKind,
    target: Seq<char>,
)
    requires
        !spec_is_special_target(target),
        !starts_with(spec_split_fragment(target).0, "@/"@),
        kind != MarkdownReferenceKind::Image,
        !spec_is_likely_static_file(spec_split_fragment(target).0),
    ensures
        spec_reference_target_route(project, page, kind, target) is Some,
        (spec_reference_finding(project, page, kind, target) matches Some(f) && f.0
            == AuthoringDiagnosticKind::Route) <==> !spec_route_exists(
            project.known_routes@,
            spec_reference_target_route(project, page, kind, target)->0,
        ),
{
}

/// A link whose target resolves to a known route and whose fragment is
/// absent, empty, or names a heading of that page is never reported.
pub proof fn law_working_links_are_not_reported(
    project: AuthoringProject,
    page: AuthoringPage,
    target: Seq<char>,
)
    requires
        !spec_is_special_target(target),
        !starts_with(spec_split_fragment(target).0, "@/"@),
        !spec_is_likely_static_file(spec_split_fragment(target).0),
        spec_route_exists(
            project.known_routes@,
            spec_route_for_link_target(project, page, spec_split_fragment(target).0),
        ),
        match spec_split_fragment(target).1 {
            Some(f) => f.len() == 0 || match project.spec_heading_ids_for_route(
                spec_route_for_link_target(project, page, spec_split_fragment(target).0),
            ) {
                Some(ids) => has_str(ids, f),
                None => true,
            },
            None => true,
        },
    ensures
        spec_reference_finding(project, page, MarkdownReferenceKind::Link, target) is None,
{
}

} // verus!

verus! {

/// References to an external scheme (`http://`, `https://`, `mailto:`,
/// `tel:`, `javascript:`, `data:`) or to the reserved `/__` prefix are never
/// checked: whatever the project, page and kind, they yield no finding, and
/// so `diagnostic_for_reference` gives no diagnostic for them.
pub proof fn law_external_targets_are_never_reported(
    project: AuthoringProject,
    page: AuthoringPage,
    kind: MarkdownReferenceKind,
    scheme: Seq<char>,
    target: Seq<char>,
)
    requires
        scheme == "http://"@ || scheme == "https://"@ || scheme == "mailto:"@ || scheme
            == "tel:"@ || scheme == "javascript:"@ || scheme == "data:"@ || scheme == "/__"@,
        scheme.len() <= target.len(),
        target.subrange(0, scheme.len() as int) == scheme,
    ensures
        spec_reference_finding(project, page, kind, target) is None,
{
    assert(starts_with(target, scheme));
}

} // verus!
