//! The content graph of a site: which page links to which, resolved to
//! routes, from the Markdown sources and from the rendered HTML.
use vstd::prelude::*;

use pulldown_cmark::{Event, Options, Parser, Tag, TagEnd};

use crate::model::{
    AuthoringPage, AuthoringProject, RenderedHref, find_key, spec_route_exists, str_value,
};
use crate::paths::{camino_join, camino_parent, path_join, path_parent};
use crate::routes::{
    ends_with_str, ensure_trailing_slash, is_likely_static_file, is_special_target,
    normalize_relative_path, normalize_route, spec_ensure_trailing_slash,
    spec_is_likely_static_file, spec_is_special_target, spec_normalize_relative_path,
    spec_normalize_route, spec_split_fragment, split_fragment, starts_with_str,
};
use crate::positions::{byte_to_line_column, spec_byte_to_line_column};
use crate::text::{ends_with, extend_chars, from_chars, starts_with, str_eq, sub_chars, to_chars};

verus! {

/// How a link between two pages was found.
#[derive(Clone, Copy, Debug, PartialEq, Eq, Structural)]
pub enum RouteGraphEdgeKind {
    Markdown,
    RenderedHtml,
}

impl RouteGraphEdgeKind {
    /// The name of the kind as the editor protocol spells it.
    pub fn label(self) -> (r: &'static str)
        ensures
            r@ == match self {
                RouteGraphEdgeKind::Markdown => "markdown"@,
                RouteGraphEdgeKind::RenderedHtml => "renderedHtml"@,
            },
    {
        match self {
            RouteGraphEdgeKind::Markdown => "markdown",
            RouteGraphEdgeKind::RenderedHtml => "renderedHtml",
        }
    }
}

/// Whether a Markdown reference is a link or an image.
#[derive(Clone, Copy, Debug, PartialEq, Eq, Structural)]
pub enum MarkdownReferenceKind {
    Link,
    Image,
}

/// What the library reads of an event of the Markdown parser, as plain
/// values.
pub enum EventView {
    Reference(MarkdownReferenceKind, Seq<char>),
    HeadingStart(u8),
    HeadingEnd(u8),
    Text(Seq<char>),
    Code(Seq<char>),
    Other,
}

/// A link or image in a Markdown source, with its destination and the byte
/// range of the element.
#[derive(Clone, Debug)]
pub struct MarkdownReference {
    pub kind: MarkdownReferenceKind,
    pub target: String,
    pub byte_start: usize,
    pub byte_end: usize,
}

/// An event of the Markdown parser, as far as the library reads it: the
/// start of a link or image (kind and destination), the start or end of a
/// heading (its level), a text or inline-code run, or any other event.
pub enum MarkdownEvent {
    Reference(MarkdownReferenceKind, String),
    HeadingStart(u8),
    HeadingEnd(u8),
    Text(String),
    Code(String),
    Other,
}

/// An event as plain values.
pub open spec fn event_view(e: MarkdownEvent) -> EventView {
    match e {
        MarkdownEvent::Reference(k, d) => EventView::Reference(k, d@),
        MarkdownEvent::HeadingStart(l) => EventView::HeadingStart(l),
        MarkdownEvent::HeadingEnd(l) => EventView::HeadingEnd(l),
        MarkdownEvent::Text(t) => EventView::Text(t@),
        MarkdownEvent::Code(t) => EventView::Code(t@),
        MarkdownEvent::Other => EventView::Other,
    }
}

/// What pulldown-cmark's offset iterator yields for `content` with every
/// extension enabled, one entry per event with its byte range in `content`.
pub uninterp spec fn pulldown_offset_events(content: Seq<char>) -> Seq<(EventView, int, int)>;

/// The events as plain values.
pub open spec fn event_views(v: Seq<(MarkdownEvent, usize, usize)>) -> Seq<(EventView, int, int)> {
    v.map_values(|e: (MarkdownEvent, usize, usize)| (event_view(e.0), e.1 as int, e.2 as int))
}

/// Runs pulldown-cmark (`Parser::new_ext` with `Options::all()`, then
/// `into_offset_iter`) over `content` and converts each event one for one,
/// with its byte range: the start of a link or image to its kind and
/// destination URL, the start and end of a heading to its level, text and
/// inline code to their text, any other event to `Other`. The result
/// depends on `content` alone; the contract names it and states nothing
/// more of it.
#[verifier::external_body]
pub(crate) fn markdown_offset_events(content: &str) -> (r: Vec<(MarkdownEvent, usize, usize)>)
    ensures
        event_views(r@) == pulldown_offset_events(content@),
{
    let mut out = Vec::new();
    for (event, range) in Parser::new_ext(content, Options::all()).into_offset_iter() {
        out.push((match event {
            Event::Start(Tag::Link { dest_url, .. }) => MarkdownEvent::Reference(MarkdownReferenceKind::Link, dest_url.to_string()),
            Event::Start(Tag::Image { dest_url, .. }) => MarkdownEvent::Reference(MarkdownReferenceKind::Image, dest_url.to_string()),
            Event::Start(Tag::Heading { level, .. }) => MarkdownEvent::HeadingStart(level as u8),
            Event::End(TagEnd::Heading(level)) => MarkdownEvent::HeadingEnd(level as u8),
            Event::Text(t) => MarkdownEvent::Text(t.to_string()),
            Event::Code(t) => MarkdownEvent::Code(t.to_string()),
            _ => MarkdownEvent::Other,
        }, range.start, range.end));
    }
    out
}

/// A reference as plain values: kind, destination, byte range.
pub open spec fn reference_view(r: MarkdownReference) -> (MarkdownReferenceKind, Seq<char>, int, int) {
    (r.kind, r.target@, r.byte_start as int, r.byte_end as int)
}

/// The references as plain values.
pub open spec fn reference_views(v: Seq<MarkdownReference>) -> Seq<
    (MarkdownReferenceKind, Seq<char>, int, int),
> {
    v.map_values(|r: MarkdownReference| reference_view(r))
}

/// The link or image an event starts, if any.
pub open spec fn event_reference(e: (EventView, int, int)) -> Option<(MarkdownReferenceKind, Seq<char>, int, int)> {
    match e.0 {
        EventView::Reference(k, d) => Some((k, d, e.1, e.2)),
        _ => None,
    }
}

/// The links and images of a Markdown source, in document order.
pub open spec fn spec_markdown_references(content: Seq<char>) -> Seq<
    (MarkdownReferenceKind, Seq<char>, int, int),
> {
    pulldown_offset_events(content).filter_map(|e| event_reference(e))
}

/// The links and images of a Markdown source, in document order.
pub fn markdown_references(content: &str) -> (r: Vec<MarkdownReference>)
    ensures
        reference_views(r@) == spec_markdown_references(content@),
{
    let events = markdown_offset_events(content);
    let ghost ev = event_views(events@);
    let ghost f = |e: (EventView, int, int)| event_reference(e);
    let mut out: Vec<MarkdownReference> = Vec::new();
    let mut i: usize = 0;
    while i < events.len()
        invariant
            i <= events.len(),
            ev == event_views(events@),
            f == (|e: (EventView, int, int)| event_reference(e)),
            reference_views(out@) == ev.take(i as int).filter_map(f),
        decreases events.len() - i,
    {
        assert(ev.take(i + 1 as int).drop_last() == ev.take(i as int));
        let (event, start, end) = &events[i];
        match event {
            MarkdownEvent::Reference(kind, dest) => {
                out.push(
                    MarkdownReference {
                        kind: *kind,
                        target: dest.clone(),
                        byte_start: *start,
                        byte_end: *end,
                    },
                );
                assert(reference_views(out@) == ev.take(i + 1 as int).filter_map(f));
            },
            _ => {},
        }
        i = i + 1;
    }
    assert(ev.take(events.len() as int) == ev);
    out
}

// ---------------------------------------------------------------------------
// Resolving link targets to routes
// ---------------------------------------------------------------------------

/// The content-relative source file a relative Markdown link names: for a
/// target ending in `.md`, the target joined to the directory of the page's
/// source file, with `.` and `..` resolved.
pub open spec fn spec_source_target_for_relative_markdown_link(
    source_file: Seq<char>,
    target: Seq<char>,
) -> Option<Seq<char>> {
    if !ends_with(target, ".md"@) {
        None
    } else {
        let parent = match camino_parent(source_file) {
            Some(p) => p,
            None => Seq::empty(),
        };
        Some(spec_normalize_relative_path(camino_join(parent, target)))
    }
}

/// The source file that a relative Markdown link from `page` names.
pub fn source_target_for_relative_markdown_link(page: &AuthoringPage, target: &str) -> (r: Option<
    String,
>)
    ensures
        match spec_source_target_for_relative_markdown_link(page.source_file@, target@) {
            Some(s) => r matches Some(x) && x@ == s,
            None => r is None,
        },
{
    let tv = to_chars(target);
    if !ends_with_str(tv.as_slice(), ".md") {
        return None;
    }
    let parent = match path_parent(page.source_file.as_str()) {
        Some(p) => p,
        None => String::new(),
    };
    let joined = path_join(parent.as_str(), target);
    Some(normalize_relative_path(joined.as_str()))
}

/// The route a link target (without its fragment) names from `page`: the
/// page itself for an empty target; the route of the source file a relative
/// `.md` link names, when that file is a page; otherwise the target as a
/// route, resolved against the page's link base unless it is absolute.
pub open spec fn spec_route_for_link_target(
    project: AuthoringProject,
    page: AuthoringPage,
    target: Seq<char>,
) -> Seq<char> {
    if target.len() == 0 {
        page.route@
    } else {
        let by_source = match spec_source_target_for_relative_markdown_link(page.source_file@, target) {
            Some(s) => str_value(project.source_to_route@, s),
            None => None,
        };
        match by_source {
            Some(route) => route,
            None => if target[0] == '/' {
                spec_normalize_route(target)
            } else {
                spec_normalize_route(spec_ensure_trailing_slash(page.link_base_route@) + target)
            },
        }
    }
}

/// The route that a link target (without its fragment) names from `page`.
pub fn route_for_link_target(
    project: &AuthoringProject,
    page: &AuthoringPage,
    target_without_fragment: &str,
) -> (r: String)
    ensures
        r@ == spec_route_for_link_target(*project, *page, target_without_fragment@),
{
    let tv = to_chars(target_without_fragment);
    if tv.len() == 0 {
        return page.route.clone();
    }
    match source_target_for_relative_markdown_link(page, target_without_fragment) {
        Some(source_target) => match find_key(&project.source_to_route, source_target.as_str()) {
            Some(i) => {
                return project.source_to_route[i].1.clone();
            },
            None => {},
        },
        None => {},
    }
    if tv[0] == '/' {
        normalize_route(target_without_fragment)
    } else {
        let base = ensure_trailing_slash(page.link_base_route.as_str());
        let mut joined = to_chars(base.as_str());
        extend_chars(&mut joined, tv.as_slice());
        let joined = from_chars(joined.as_slice());
        normalize_route(joined.as_str())
    }
}

/// The route a Markdown reference of `page` names: none for external
/// targets; for `@/path` the route of that source file (if it is a page);
/// none for images and static files; otherwise the route of the target.
pub open spec fn spec_reference_target_route(
    project: AuthoringProject,
    page: AuthoringPage,
    kind: MarkdownReferenceKind,
    target: Seq<char>,
) -> Option<Seq<char>> {
    if spec_is_special_target(target) {
        None
    } else {
        let t = spec_split_fragment(target).0;
        if starts_with(t, "@/"@) {
            str_value(project.source_to_route@, t.skip(2))
        } else if kind == MarkdownReferenceKind::Image || spec_is_likely_static_file(t) {
            None
        } else {
            Some(spec_route_for_link_target(project, page, t))
        }
    }
}

/// The route a Markdown reference of `page` names, if any.
pub fn reference_target_route(
    project: &AuthoringProject,
    page: &AuthoringPage,
    reference: &MarkdownReference,
) -> (r: Option<String>)
    ensures
        match spec_reference_target_route(*project, *page, reference.kind, reference.target@) {
            Some(route) => r matches Some(x) && x@ == route,
            None => r is None,
        },
{
    let target = reference.target.as_str();
    if is_special_target(target) {
        return None;
    }
    let (t, _) = split_fragment(target);
    let tv = to_chars(t);
    if starts_with_str(tv.as_slice(), "@/") {
        proof {
            reveal_strlit("@/");
        }
        let rest = sub_chars(tv.as_slice(), 2, tv.len());
        let rest = from_chars(rest.as_slice());
        return match find_key(&project.source_to_route, rest.as_str()) {
            Some(i) => Some(project.source_to_route[i].1.clone()),
            None => None,
        };
    }
    if reference.kind == MarkdownReferenceKind::Image || is_likely_static_file(t) {
        return None;
    }
    Some(route_for_link_target(project, page, t))
}

/// The route a link in the rendered HTML of `source_page` names: none for
/// external targets, empty targets and static files, and none unless the
/// resolved route is a known route.
pub open spec fn spec_rendered_href_target_route(
    project: AuthoringProject,
    source_page: AuthoringPage,
    href: Seq<char>,
) -> Option<Seq<char>> {
    if spec_is_special_target(href) {
        None
    } else {
        let t = spec_split_fragment(href).0;
        if t.len() == 0 || spec_is_likely_static_file(t) {
            None
        } else {
            let route = spec_route_for_link_target(project, source_page, t);
            if spec_route_exists(project.known_routes@, route) {
                Some(route)
            } else {
                None
            }
        }
    }
}

/// The known route a link in the rendered HTML of `source_page` names.
pub fn rendered_href_target_route(
    project: &AuthoringProject,
    source_page: &AuthoringPage,
    href: &str,
) -> (r: Option<String>)
    ensures
        match spec_rendered_href_target_route(*project, *source_page, href@) {
            Some(route) => r matches Some(x) && x@ == route,
            None => r is None,
        },
{
    if is_special_target(href) {
        return None;
    }
    let (t, _) = split_fragment(href);
    let tv = to_chars(t);
    if tv.len() == 0 || is_likely_static_file(t) {
        return None;
    }
    let route = route_for_link_target(project, source_page, t);
    if project.route_exists(route.as_str()) {
        Some(route)
    } else {
        None
    }
}

// ---------------------------------------------------------------------------
// The route graph
// ---------------------------------------------------------------------------

/// A link from one page to another: how it was found, where it comes from,
/// the route it resolves to, the target as written, and (for Markdown links)
/// the one-based line and column span of the link in the source.
#[derive(Clone, Debug)]
pub struct RouteGraphEdge {
    pub kind: RouteGraphEdgeKind,
    pub source_route: String,
    pub source_file: String,
    pub target_route: String,
    pub target: String,
    pub line: Option<u32>,
    pub column: Option<u32>,
    pub line_end: Option<u32>,
    pub column_end: Option<u32>,
}

/// A page with the links that point to it and the links it holds.
#[derive(Clone, Debug)]
pub struct RouteGraphNode {
    pub route: String,
    pub source_file: String,
    pub title: String,
    pub incoming: Vec<RouteGraphEdge>,
    pub outgoing: Vec<RouteGraphEdge>,
}

/// An edge as plain values.
pub struct RouteGraphEdgeView {
    pub kind: RouteGraphEdgeKind,
    pub source_route: Seq<char>,
    pub source_file: Seq<char>,
    pub target_route: Seq<char>,
    pub target: Seq<char>,
    pub line: Option<int>,
    pub column: Option<int>,
    pub line_end: Option<int>,
    pub column_end: Option<int>,
}

/// An optional `u32` as an optional integer.
pub open spec fn opt_int(o: Option<u32>) -> Option<int> {
    match o {
        Some(x) => Some(x as int),
        None => None,
    }
}

impl View for RouteGraphEdge {
    type V = RouteGraphEdgeView;

    open spec fn view(&self) -> RouteGraphEdgeView {
        RouteGraphEdgeView {
            kind: self.kind,
            source_route: self.source_route@,
            source_file: self.source_file@,
            target_route: self.target_route@,
            target: self.target@,
            line: opt_int(self.line),
            column: opt_int(self.column),
            line_end: opt_int(self.line_end),
            column_end: opt_int(self.column_end),
        }
    }
}

/// The edges as plain values.
pub open spec fn edge_views(v: Seq<RouteGraphEdge>) -> Seq<RouteGraphEdgeView> {
    v.map_values(|e: RouteGraphEdge| e@)
}

/// The edge for a Markdown reference `r` of `page` (whose source is
/// `content`) that resolves to `target_route`.
pub open spec fn markdown_edge(
    page: AuthoringPage,
    content: Seq<char>,
    target_route: Seq<char>,
    r: (MarkdownReferenceKind, Seq<char>, int, int),
) -> RouteGraphEdgeView {
    RouteGraphEdgeView {
        kind: RouteGraphEdgeKind::Markdown,
        source_route: page.route@,
        source_file: page.source_file@,
        target_route,
        target: r.1,
        line: Some(spec_byte_to_line_column(content, r.2).0 as int),
        column: Some(spec_byte_to_line_column(content, r.2).1 as int),
        line_end: Some(spec_byte_to_line_column(content, r.3).0 as int),
        column_end: Some(spec_byte_to_line_column(content, r.3).1 as int),
    }
}

/// The edges of the references `refs` of `page`: one for each reference
/// that resolves to a known route, in order.
pub open spec fn reference_edges(
    project: AuthoringProject,
    page: AuthoringPage,
    content: Seq<char>,
    refs: Seq<(MarkdownReferenceKind, Seq<char>, int, int)>,
) -> Seq<RouteGraphEdgeView>
    decreases refs.len(),
{
    if refs.len() == 0 {
        Seq::empty()
    } else {
        let prev = reference_edges(project, page, content, refs.drop_last());
        let r = refs.last();
        match spec_reference_target_route(project, page, r.0, r.1) {
            Some(t) => if spec_route_exists(project.known_routes@, t) {
                prev.push(markdown_edge(page, content, t, r))
            } else {
                prev
            },
            None => prev,
        }
    }
}

/// The Markdown edges of `page`: those of the references in its source.
pub open spec fn page_markdown_edges(project: AuthoringProject, page: AuthoringPage) -> Seq<
    RouteGraphEdgeView,
> {
    match str_value(project.source_contents@, page.source_file@) {
        Some(c) => reference_edges(project, page, c, spec_markdown_references(c)),
        None => Seq::empty(),
    }
}

/// The Markdown edges of the first `n` pages, page by page.
pub open spec fn markdown_edges(project: AuthoringProject, n: nat) -> Seq<RouteGraphEdgeView>
    decreases n,
{
    if n == 0 {
        Seq::empty()
    } else {
        markdown_edges(project, (n - 1) as nat) + page_markdown_edges(
            project,
            project.pages@[n - 1],
        )
    }
}

/// Some edge of `edges` goes from `source` to `target` for the link text `href`.
pub open spec fn has_edge_key(
    edges: Seq<RouteGraphEdgeView>,
    source: Seq<char>,
    target: Seq<char>,
    href: Seq<char>,
) -> bool {
    exists|i: int|
        0 <= i < edges.len() && #[trigger] edges[i].source_route == source && edges[i].target_route
            == target && edges[i].target == href
}

/// The edge for a link `href` in the rendered HTML of the page served at
/// `source_route`.
pub open spec fn rendered_edge(
    source_route: Seq<char>,
    page: AuthoringPage,
    target_route: Seq<char>,
    href: Seq<char>,
) -> RouteGraphEdgeView {
    RouteGraphEdgeView {
        kind: RouteGraphEdgeKind::RenderedHtml,
        source_route,
        source_file: page.source_file@,
        target_route,
        target: href,
        line: None,
        column: None,
        line_end: None,
        column_end: None,
    }
}

/// `prior` followed by the edges of the rendered links `hrefs` of `page`
/// (served at `source_route`): one for each link that resolves to a known
/// route, unless an edge with the same source, target and link text is
/// already there.
pub open spec fn href_edges(
    project: AuthoringProject,
    source_route: Seq<char>,
    page: AuthoringPage,
    hrefs: Seq<RenderedHref>,
    prior: Seq<RouteGraphEdgeView>,
) -> Seq<RouteGraphEdgeView>
    decreases hrefs.len(),
{
    if hrefs.len() == 0 {
        prior
    } else {
        let acc = href_edges(project, source_route, page, hrefs.drop_last(), prior);
        let h = hrefs.last().href@;
        match spec_rendered_href_target_route(project, page, h) {
            Some(t) => if has_edge_key(acc, source_route, t, h) {
                acc
            } else {
                acc.push(rendered_edge(source_route, page, t, h))
            },
            None => acc,
        }
    }
}

/// `prior` followed by the edges of the rendered links of the first `n`
/// entries of `rendered_hrefs_by_route` whose route is served by a page.
pub open spec fn rendered_edges(
    project: AuthoringProject,
    n: nat,
    prior: Seq<RouteGraphEdgeView>,
) -> Seq<RouteGraphEdgeView>
    decreases n,
{
    if n == 0 {
        prior
    } else {
        let acc = rendered_edges(project, (n - 1) as nat, prior);
        let entry = project.rendered_hrefs_by_route@[n - 1];
        match project.spec_page_for_route(entry.0@) {
            Some(p) => href_edges(project, entry.0@, project.pages@[p], entry.1@, acc),
            None => acc,
        }
    }
}

/// Every edge of the site: the Markdown edges page by page, then the
/// rendered-HTML edges entry by entry.
pub open spec fn graph_edges(project: AuthoringProject) -> Seq<RouteGraphEdgeView> {
    rendered_edges(
        project,
        project.rendered_hrefs_by_route@.len(),
        markdown_edges(project, project.pages@.len()),
    )
}

/// The edges of `edges` that leave `route`, in order.
pub open spec fn edges_from(edges: Seq<RouteGraphEdgeView>, route: Seq<char>) -> Seq<
    RouteGraphEdgeView,
>
    decreases edges.len(),
{
    if edges.len() == 0 {
        Seq::empty()
    } else if edges.last().source_route == route {
        edges_from(edges.drop_last(), route).push(edges.last())
    } else {
        edges_from(edges.drop_last(), route)
    }
}

/// The edges of `edges` that arrive at `route`, in order.
pub open spec fn edges_into(edges: Seq<RouteGraphEdgeView>, route: Seq<char>) -> Seq<
    RouteGraphEdgeView,
>
    decreases edges.len(),
{
    if edges.len() == 0 {
        Seq::empty()
    } else if edges.last().target_route == route {
        edges_into(edges.drop_last(), route).push(edges.last())
    } else {
        edges_into(edges.drop_last(), route)
    }
}

/// An earlier page has the same route as page `i`.
pub open spec fn route_taken_before(pages: Seq<AuthoringPage>, i: int) -> bool {
    exists|j: int| 0 <= j < i && #[trigger] pages[j].route@ == pages[i].route@
}

/// The links into page `i`: none when an earlier page has its route (that
/// page holds them), else every edge arriving at its route.
pub open spec fn node_incoming(project: AuthoringProject, i: int) -> Seq<RouteGraphEdgeView> {
    if route_taken_before(project.pages@, i) {
        Seq::empty()
    } else {
        edges_into(graph_edges(project), project.pages@[i].route@)
    }
}

/// The links out of page `i`, on the same terms.
pub open spec fn node_outgoing(project: AuthoringProject, i: int) -> Seq<RouteGraphEdgeView> {
    if route_taken_before(project.pages@, i) {
        Seq::empty()
    } else {
        edges_from(graph_edges(project), project.pages@[i].route@)
    }
}

/// Every source text of the project can be addressed by line and column.
pub open spec fn contents_addressable(project: AuthoringProject) -> bool {
    forall|i: int|
        0 <= i < project.source_contents@.len() ==> (#[trigger] project.source_contents@[i]).1@.len()
            < u32::MAX
}

fn clone_edge(e: &RouteGraphEdge) -> (r: RouteGraphEdge)
    ensures
        r@ == e@,
{
    RouteGraphEdge {
        kind: e.kind,
        source_route: e.source_route.clone(),
        source_file: e.source_file.clone(),
        target_route: e.target_route.clone(),
        target: e.target.clone(),
        line: e.line,
        column: e.column,
        line_end: e.line_end,
        column_end: e.column_end,
    }
}

fn has_edge_key_exec(edges: &Vec<RouteGraphEdge>, source: &str, target: &str, href: &str) -> (r: bool)
    ensures
        r == has_edge_key(edge_views(edges@), source@, target@, href@),
{
    let ghost ev = edge_views(edges@);
    let mut i: usize = 0;
    while i < edges.len()
        invariant
            i <= edges.len(),
            ev == edge_views(edges@),
            forall|j: int|
                0 <= j < i ==> !(#[trigger] ev[j].source_route == source@ && ev[j].target_route
                    == target@ && ev[j].target == href@),
        decreases edges.len() - i,
    {
        let e = &edges[i];
        if str_eq(e.source_route.as_str(), source) && str_eq(e.target_route.as_str(), target)
            && str_eq(e.target.as_str(), href) {
            assert(ev[i as int].source_route == source@);
            return true;
        }
        i = i + 1;
    }
    false
}

/// The edges of `edges` leaving (`outgoing`) or arriving at `route`.
fn select_edges(edges: &Vec<RouteGraphEdge>, route: &str, outgoing: bool) -> (r: Vec<RouteGraphEdge>)
    ensures
        outgoing ==> edge_views(r@) == edges_from(edge_views(edges@), route@),
        !outgoing ==> edge_views(r@) == edges_into(edge_views(edges@), route@),
{
    let ghost ev = edge_views(edges@);
    let mut out: Vec<RouteGraphEdge> = Vec::new();
    let mut i: usize = 0;
    while i < edges.len()
        invariant
            i <= edges.len(),
            ev == edge_views(edges@),
            outgoing ==> edge_views(out@) == edges_from(ev.take(i as int), route@),
            !outgoing ==> edge_views(out@) == edges_into(ev.take(i as int), route@),
        decreases edges.len() - i,
    {
        assert(ev.take(i + 1 as int).drop_last() == ev.take(i as int));
        assert(ev.take(i + 1 as int).last() == edges@[i as int]@);
        let e = &edges[i];
        let hit = if outgoing {
            str_eq(e.source_route.as_str(), route)
        } else {
            str_eq(e.target_route.as_str(), route)
        };
        if hit {
            let ghost before = out@;
            out.push(clone_edge(e));
            assert(edge_views(out@) == edge_views(before).push(e@));
        }
        i = i + 1;
    }
    assert(ev.take(edges.len() as int) == ev);
    out
}

fn push_page_markdown_edges(
    project: &AuthoringProject,
    page: &AuthoringPage,
    edges: &mut Vec<RouteGraphEdge>,
)
    requires
        contents_addressable(*project),
    ensures
        edge_views(final(edges)@) == edge_views(old(edges)@) + page_markdown_edges(*project, *page),
{
    let ci = match find_key(&project.source_contents, page.source_file.as_str()) {
        Some(ci) => ci,
        None => {
            assert(edge_views(edges@) + Seq::<RouteGraphEdgeView>::empty() == edge_views(edges@));
            return;
        },
    };
    let content = project.source_contents[ci].1.as_str();
    let ghost c = content@;
    assert(c.len() < u32::MAX);
    let refs = markdown_references(content);
    let ghost rv = reference_views(refs@);
    let ghost start = edge_views(edges@);
    let mut k: usize = 0;
    assert(rv.take(0) == Seq::<(MarkdownReferenceKind, Seq<char>, int, int)>::empty());
    assert(start + Seq::<RouteGraphEdgeView>::empty() == start);
    while k < refs.len()
        invariant
            k <= refs.len(),
            c == content@,
            c.len() < u32::MAX,
            rv == reference_views(refs@),
            rv == spec_markdown_references(c),
            edge_views(edges@) == start + reference_edges(*project, *page, c, rv.take(k as int)),
        decreases refs.len() - k,
    {
        assert(rv.take(k + 1 as int).drop_last() == rv.take(k as int));
        assert(rv.take(k + 1 as int).last() == reference_view(refs@[k as int]));
        let reference = &refs[k];
        match reference_target_route(project, page, reference) {
            Some(target_route) => {
                if project.route_exists(target_route.as_str()) {
                    let (line, column) = byte_to_line_column(content, reference.byte_start);
                    let (line_end, column_end) = byte_to_line_column(content, reference.byte_end);
                    let edge = RouteGraphEdge {
                        kind: RouteGraphEdgeKind::Markdown,
                        source_route: page.route.clone(),
                        source_file: page.source_file.clone(),
                        target_route: target_route,
                        target: reference.target.clone(),
                        line: Some(line),
                        column: Some(column),
                        line_end: Some(line_end),
                        column_end: Some(column_end),
                    };
                    let ghost before = edges@;
                    edges.push(edge);
                    assert(edge_views(edges@) == edge_views(before).push(edge@));
                }
            },
            None => {},
        }
        k = k + 1;
    }
    assert(rv.take(refs.len() as int) == rv);
}

fn push_href_edges(
    project: &AuthoringProject,
    source_route: &String,
    page: &AuthoringPage,
    hrefs: &Vec<RenderedHref>,
    edges: &mut Vec<RouteGraphEdge>,
)
    ensures
        edge_views(final(edges)@) == href_edges(
            *project,
            source_route@,
            *page,
            hrefs@,
            edge_views(old(edges)@),
        ),
{
    let ghost start = edge_views(edges@);
    let mut k: usize = 0;
    while k < hrefs.len()
        invariant
            k <= hrefs.len(),
            edge_views(edges@) == href_edges(*project, source_route@, *page, hrefs@.take(k as int), start),
        decreases hrefs.len() - k,
    {
        assert(hrefs@.take(k + 1 as int).drop_last() == hrefs@.take(k as int));
        assert(hrefs@.take(k + 1 as int).last() == hrefs@[k as int]);
        let href = &hrefs[k].href;
        match rendered_href_target_route(project, page, href.as_str()) {
            Some(target_route) => {
                if !has_edge_key_exec(edges, source_route.as_str(), target_route.as_str(), href.as_str()) {
                    let edge = RouteGraphEdge {
                        kind: RouteGraphEdgeKind::RenderedHtml,
                        source_route: source_route.clone(),
                        source_file: page.source_file.clone(),
                        target_route: target_route,
                        target: href.clone(),
                        line: None,
                        column: None,
                        line_end: None,
                        column_end: None,
                    };
                    let ghost before = edges@;
                    edges.push(edge);
                    assert(edge_views(edges@) == edge_views(before).push(edge@));
                }
            },
            None => {},
        }
        k = k + 1;
    }
    assert(hrefs@.take(hrefs.len() as int) == hrefs@);
}

/// Every edge of the site, in the order of [`graph_edges`].
fn collect_graph_edges(project: &AuthoringProject) -> (r: Vec<RouteGraphEdge>)
    requires
        contents_addressable(*project),
    ensures
        edge_views(r@) == graph_edges(*project),
{
    let mut edges: Vec<RouteGraphEdge> = Vec::new();
    let mut i: usize = 0;
    assert(edge_views(edges@) == Seq::<RouteGraphEdgeView>::empty());
    while i < project.pages.len()
        invariant
            i <= project.pages.len(),
            contents_addressable(*project),
            edge_views(edges@) == markdown_edges(*project, i as nat),
        decreases project.pages.len() - i,
    {
        push_page_markdown_edges(project, &project.pages[i], &mut edges);
        i = i + 1;
    }
    let ghost md = edge_views(edges@);
    let mut n: usize = 0;
    while n < project.rendered_hrefs_by_route.len()
        invariant
            n <= project.rendered_hrefs_by_route.len(),
            md == markdown_edges(*project, project.pages@.len()),
            edge_views(edges@) == rendered_edges(*project, n as nat, md),
        decreases project.rendered_hrefs_by_route.len() - n,
    {
        let entry = &project.rendered_hrefs_by_route[n];
        match project.page_for_route(entry.0.as_str()) {
            Some(page) => {
                push_href_edges(project, &entry.0, page, &entry.1, &mut edges);
            },
            None => {},
        }
        n = n + 1;
    }
    edges
}

fn route_taken_before_exec(pages: &Vec<AuthoringPage>, i: usize) -> (r: bool)
    requires
        i < pages.len(),
    ensures
        r == route_taken_before(pages@, i as int),
{
    let mut j: usize = 0;
    while j < i
        invariant
            j <= i < pages.len(),
            forall|k: int| 0 <= k < j ==> #[trigger] pages@[k].route@ != pages@[i as int].route@,
        decreases i - j,
    {
        if str_eq(pages[j].route.as_str(), pages[i].route.as_str()) {
            assert(pages@[j as int].route@ == pages@[i as int].route@);
            return true;
        }
        j = j + 1;
    }
    false
}

/// The route graph of a site: for each page, in order, its route, source
/// file and title with the links into it and out of it. Links come from the
/// Markdown references of each page's source that resolve to a known route,
/// then from the links in each page's rendered HTML that resolve to a known
/// route and are not already an edge with the same source, target and text.
/// When several pages share a route, the first of them holds its links.
pub fn route_graph_for_project(project: &AuthoringProject) -> (r: Vec<RouteGraphNode>)
    requires
        contents_addressable(*project),
    ensures
        r@.len() == project.pages@.len(),
        forall|i: int|
            0 <= i < r@.len() ==> {
                let node = #[trigger] r@[i];
                let page = project.pages@[i];
                &&& node.route@ == page.route@
                &&& node.source_file@ == page.source_file@
                &&& node.title@ == page.title@
                &&& edge_views(node.incoming@) == node_incoming(*project, i)
                &&& edge_views(node.outgoing@) == node_outgoing(*project, i)
            },
{
    let edges = collect_graph_edges(project);
    let mut nodes: Vec<RouteGraphNode> = Vec::new();
    let mut i: usize = 0;
    while i < project.pages.len()
        invariant
            i <= project.pages.len(),
            edge_views(edges@) == graph_edges(*project),
            nodes@.len() == i,
            forall|k: int|
                0 <= k < i ==> {
                    let node = #[trigger] nodes@[k];
                    let page = project.pages@[k];
                    &&& node.route@ == page.route@
                    &&& node.source_file@ == page.source_file@
                    &&& node.title@ == page.title@
                    &&& edge_views(node.incoming@) == node_incoming(*project, k)
                    &&& edge_views(node.outgoing@) == node_outgoing(*project, k)
                },
        decreases project.pages.len() - i,
    {
        let page = &project.pages[i];
        let taken = route_taken_before_exec(&project.pages, i);
        let (incoming, outgoing) = if taken {
            (Vec::new(), Vec::new())
        } else {
            (
                select_edges(&edges, page.route.as_str(), false),
                select_edges(&edges, page.route.as_str(), true),
            )
        };
        proof {
            if taken {
                assert(edge_views(incoming@) =~= Seq::<RouteGraphEdgeView>::empty());
                assert(edge_views(outgoing@) =~= Seq::<RouteGraphEdgeView>::empty());
            }
        }
        nodes.push(
            RouteGraphNode {
                route: page.route.clone(),
                source_file: page.source_file.clone(),
                title: page.title.clone(),
                incoming,
                outgoing,
            },
        );
        i = i + 1;
    }
    nodes
}

// ---------------------------------------------------------------------------
// Laws of the route graph
// ---------------------------------------------------------------------------

proof fn lemma_edges_from(edges: Seq<RouteGraphEdgeView>, route: Seq<char>)
    ensures
        forall|k: int|
            0 <= k < edges_from(edges, route).len() ==> (#[trigger] edges_from(edges, route)[k]).source_route
                == route,
        forall|k: int|
            0 <= k < edges.len() && edges[k].source_route == route ==> edges_from(
                edges,
                route,
            ).contains(#[trigger] edges[k]),
    decreases edges.len(),
{
    if edges.len() > 0 {
        let prev = edges.drop_last();
        lemma_edges_from(prev, route);
        let r = edges_from(edges, route);
        assert forall|k: int| 0 <= k < edges.len() && edges[k].source_route == route implies r.contains(
            #[trigger] edges[k],
        ) by {
            if k < edges.len() - 1 {
                assert(prev[k] == edges[k]);
                let p = edges_from(prev, route);
                let j = choose|j: int| 0 <= j < p.len() && p[j] == prev[k];
                if edges.last().source_route == route {
                    assert(r[j] == p[j]);
                } else {
                    assert(r == p);
                }
            } else {
                assert(r.last() == edges[k]);
            }
        }
    }
}

proof fn lemma_edges_into(edges: Seq<RouteGraphEdgeView>, route: Seq<char>)
    ensures
        forall|k: int|
            0 <= k < edges_into(edges, route).len() ==> (#[trigger] edges_into(edges, route)[k]).target_route
                == route,
        forall|k: int|
            0 <= k < edges.len() && edges[k].target_route == route ==> edges_into(
                edges,
                route,
            ).contains(#[trigger] edges[k]),
    decreases edges.len(),
{
    if edges.len() > 0 {
        let prev = edges.drop_last();
        lemma_edges_into(prev, route);
        let r = edges_into(edges, route);
        assert forall|k: int| 0 <= k < edges.len() && edges[k].target_route == route implies r.contains(
            #[trigger] edges[k],
        ) by {
            if k < edges.len() - 1 {
                assert(prev[k] == edges[k]);
                let p = edges_into(prev, route);
                let j = choose|j: int| 0 <= j < p.len() && p[j] == prev[k];
                if edges.last().target_route == route {
                    assert(r[j] == p[j]);
                } else {
                    assert(r == p);
                }
            } else {
                assert(r.last() == edges[k]);
            }
        }
    }
}

/// The links a node holds start at its route, and the links into it end at
/// its route.
pub proof fn law_graph_edges_attach_to_their_node(project: AuthoringProject, i: int, k: int)
    requires
        0 <= i < project.pages@.len(),
    ensures
        0 <= k < node_outgoing(project, i).len() ==> node_outgoing(project, i)[k].source_route
            == project.pages@[i].route@,
        0 <= k < node_incoming(project, i).len() ==> node_incoming(project, i)[k].target_route
            == project.pages@[i].route@,
{
    lemma_edges_from(graph_edges(project), project.pages@[i].route@);
    lemma_edges_into(graph_edges(project), project.pages@[i].route@);
}

/// Each link of the site is held by both of its ends: by the first page
/// whose route it starts at, among that page's outgoing links, and by the
/// first page whose route it ends at, among that page's incoming links.
pub proof fn law_graph_links_are_symmetric(project: AuthoringProject, k: int, a: int, b: int)
    requires
        0 <= k < graph_edges(project).len(),
        0 <= a < project.pages@.len(),
        0 <= b < project.pages@.len(),
        !route_taken_before(project.pages@, a),
        !route_taken_before(project.pages@, b),
    ensures
        graph_edges(project)[k].source_route == project.pages@[a].route@ ==> node_outgoing(
            project,
            a,
        ).contains(graph_edges(project)[k]),
        graph_edges(project)[k].target_route == project.pages@[b].route@ ==> node_incoming(
            project,
            b,
        ).contains(graph_edges(project)[k]),
{
    lemma_edges_from(graph_edges(project), project.pages@[a].route@);
    lemma_edges_into(graph_edges(project), project.pages@[b].route@);
}

/// Every edge in `edges` ends at a known route.
pub open spec fn all_targets_known(project: AuthoringProject, edges: Seq<RouteGraphEdgeView>) -> bool {
    forall|k: int|
        0 <= k < edges.len() ==> spec_route_exists(
            project.known_routes@,
            (#[trigger] edges[k]).target_route,
        )
}

proof fn lemma_reference_edges_known(
    project: AuthoringProject,
    page: AuthoringPage,
    content: Seq<char>,
    refs: Seq<(MarkdownReferenceKind, Seq<char>, int, int)>,
)
    ensures
        all_targets_known(project, reference_edges(project, page, content, refs)),
    decreases refs.len(),
{
    if refs.len() > 0 {
        lemma_reference_edges_known(project, page, content, refs.drop_last());
        let prev = reference_edges(project, page, content, refs.drop_last());
        let r = reference_edges(project, page, content, refs);
        assert forall|k: int| 0 <= k < r.len() implies spec_route_exists(
            project.known_routes@,
            (#[trigger] r[k]).target_route,
        ) by {
            if k < prev.len() {
                assert(r[k] == prev[k]);
            }
        }
    }
}

proof fn lemma_markdown_edges_known(project: AuthoringProject, n: nat)
    ensures
        all_targets_known(project, markdown_edges(project, n)),
    decreases n,
{
    if n > 0 {
        lemma_markdown_edges_known(project, (n - 1) as nat);
        let a = markdown_edges(project, (n - 1) as nat);
        let page = project.pages@[n - 1];
        let b = page_markdown_edges(project, page);
        match str_value(project.source_contents@, page.source_file@) {
            Some(c) => lemma_reference_edges_known(project, page, c, spec_markdown_references(c)),
            None => {},
        }
        assert forall|k: int| 0 <= k < (a + b).len() implies spec_route_exists(
            project.known_routes@,
            (#[trigger] (a + b)[k]).target_route,
        ) by {
            if k < a.len() {
                assert((a + b)[k] == a[k]);
            } else {
                assert((a + b)[k] == b[k - a.len()]);
            }
        }
    }
}

proof fn lemma_href_edges_known(
    project: AuthoringProject,
    source_route: Seq<char>,
    page: AuthoringPage,
    hrefs: Seq<RenderedHref>,
    prior: Seq<RouteGraphEdgeView>,
)
    requires
        all_targets_known(project, prior),
    ensures
        all_targets_known(project, href_edges(project, source_route, page, hrefs, prior)),
    decreases hrefs.len(),
{
    if hrefs.len() > 0 {
        lemma_href_edges_known(project, source_route, page, hrefs.drop_last(), prior);
        let acc = href_edges(project, source_route, page, hrefs.drop_last(), prior);
        let r = href_edges(project, source_route, page, hrefs, prior);
        assert forall|k: int| 0 <= k < r.len() implies spec_route_exists(
            project.known_routes@,
            (#[trigger] r[k]).target_route,
        ) by {
            if k < acc.len() {
                assert(r[k] == acc[k]);
            }
        }
    }
}

proof fn lemma_rendered_edges_known(project: AuthoringProject, n: nat, prior: Seq<RouteGraphEdgeView>)
    requires
        all_targets_known(project, prior),
        n <= project.rendered_hrefs_by_route@.len(),
    ensures
        all_targets_known(project, rendered_edges(project, n, prior)),
    decreases n,
{
    if n > 0 {
        lemma_rendered_edges_known(project, (n - 1) as nat, prior);
        let acc = rendered_edges(project, (n - 1) as nat, prior);
        let entry = project.rendered_hrefs_by_route@[n - 1];
        match project.spec_page_for_route(entry.0@) {
            Some(p) => lemma_href_edges_known(project, entry.0@, project.pages@[p], entry.1@, acc),
            None => {},
        }
    }
}

/// Every link of the route graph ends at a known route of the site.
pub proof fn law_graph_edges_end_at_known_routes(project: AuthoringProject, k: int)
    requires
        0 <= k < graph_edges(project).len(),
    ensures
        spec_route_exists(project.known_routes@, graph_edges(project)[k].target_route),
{
    lemma_markdown_edges_known(project, project.pages@.len());
    lemma_rendered_edges_known(
        project,
        project.rendered_hrefs_by_route@.len(),
        markdown_edges(project, project.pages@.len()),
    );
}

/// No rendered-HTML edge repeats the source, target and link text of an
/// edge before it.
pub open spec fn rendered_edges_are_new(edges: Seq<RouteGraphEdgeView>) -> bool {
    forall|k: int|
        0 <= k < edges.len() && (#[trigger] edges[k]).kind == RouteGraphEdgeKind::RenderedHtml
            ==> !has_edge_key(edges.take(k), edges[k].source_route, edges[k].target_route, edges[k].target)
}

proof fn lemma_reference_edges_markdown(
    project: AuthoringProject,
    page: AuthoringPage,
    content: Seq<char>,
    refs: Seq<(MarkdownReferenceKind, Seq<char>, int, int)>,
)
    ensures
        forall|k: int|
            0 <= k < reference_edges(project, page, content, refs).len() ==> (#[trigger] reference_edges(
                project,
                page,
                content,
                refs,
            )[k]).kind == RouteGraphEdgeKind::Markdown,
    decreases refs.len(),
{
    if refs.len() > 0 {
        lemma_reference_edges_markdown(project, page, content, refs.drop_last());
        let prev = reference_edges(project, page, content, refs.drop_last());
        let r = reference_edges(project, page, content, refs);
        assert forall|k: int| 0 <= k < r.len() implies (#[trigger] r[k]).kind
            == RouteGraphEdgeKind::Markdown by {
            if k < prev.len() {
                assert(r[k] == prev[k]);
            }
        }
    }
}

proof fn lemma_markdown_edges_markdown(project: AuthoringProject, n: nat)
    ensures
        forall|k: int|
            0 <= k < markdown_edges(project, n).len() ==> (#[trigger] markdown_edges(project, n)[k]).kind
                == RouteGraphEdgeKind::Markdown,
    decreases n,
{
    if n > 0 {
        lemma_markdown_edges_markdown(project, (n - 1) as nat);
        let a = markdown_edges(project, (n - 1) as nat);
        let page = project.pages@[n - 1];
        let b = page_markdown_edges(project, page);
        match str_value(project.source_contents@, page.source_file@) {
            Some(c) => lemma_reference_edges_markdown(project, page, c, spec_markdown_references(c)),
            None => {},
        }
        assert forall|k: int| 0 <= k < (a + b).len() implies (#[trigger] (a + b)[k]).kind
            == RouteGraphEdgeKind::Markdown by {
            if k < a.len() {
                assert((a + b)[k] == a[k]);
            } else {
                assert((a + b)[k] == b[k - a.len()]);
            }
        }
    }
}

proof fn lemma_href_edges_new(
    project: AuthoringProject,
    source_route: Seq<char>,
    page: AuthoringPage,
    hrefs: Seq<RenderedHref>,
    prior: Seq<RouteGraphEdgeView>,
)
    requires
        rendered_edges_are_new(prior),
    ensures
        rendered_edges_are_new(href_edges(project, source_route, page, hrefs, prior)),
        prior.len() <= href_edges(project, source_route, page, hrefs, prior).len(),
        href_edges(project, source_route, page, hrefs, prior).take(prior.len() as int) == prior,
    decreases hrefs.len(),
{
    if hrefs.len() > 0 {
        lemma_href_edges_new(project, source_route, page, hrefs.drop_last(), prior);
        let acc = href_edges(project, source_route, page, hrefs.drop_last(), prior);
        let r = href_edges(project, source_route, page, hrefs, prior);
        if r != acc {
            let e = r.last();
            assert(r == acc.push(e));
            assert forall|k: int|
                0 <= k < r.len() && (#[trigger] r[k]).kind == RouteGraphEdgeKind::RenderedHtml implies !has_edge_key(
                r.take(k),
                r[k].source_route,
                r[k].target_route,
                r[k].target,
            ) by {
                if k < acc.len() {
                    assert(r[k] == acc[k]);
                    assert(r.take(k) == acc.take(k));
                } else {
                    assert(r.take(k) == acc);
                }
            }
            assert(r.take(prior.len() as int) == acc.take(prior.len() as int));
        }
    }
}

proof fn lemma_rendered_edges_new(project: AuthoringProject, n: nat, prior: Seq<RouteGraphEdgeView>)
    requires
        rendered_edges_are_new(prior),
        n <= project.rendered_hrefs_by_route@.len(),
    ensures
        rendered_edges_are_new(rendered_edges(project, n, prior)),
    decreases n,
{
    if n > 0 {
        lemma_rendered_edges_new(project, (n - 1) as nat, prior);
        let acc = rendered_edges(project, (n - 1) as nat, prior);
        let entry = project.rendered_hrefs_by_route@[n - 1];
        match project.spec_page_for_route(entry.0@) {
            Some(p) => lemma_href_edges_new(project, entry.0@, project.pages@[p], entry.1@, acc),
            None => {},
        }
    }
}

/// A link found in rendered HTML becomes an edge only when no earlier edge
/// (from the Markdown sources or from rendered HTML) has the same source,
/// target and link text.
pub proof fn law_rendered_links_are_not_duplicated(project: AuthoringProject, k: int)
    requires
        0 <= k < graph_edges(project).len(),
        graph_edges(project)[k].kind == RouteGraphEdgeKind::RenderedHtml,
    ensures
        !has_edge_key(
            graph_edges(project).take(k),
            graph_edges(project)[k].source_route,
            graph_edges(project)[k].target_route,
            graph_edges(project)[k].target,
        ),
{
    let md = markdown_edges(project, project.pages@.len());
    lemma_markdown_edges_markdown(project, project.pages@.len());
    assert(rendered_edges_are_new(md));
    lemma_rendered_edges_new(project, project.rendered_hrefs_by_route@.len(), md);
}

} // verus!
