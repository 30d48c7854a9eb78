//! Link targets as the editor sees them while they are typed: where each
//! `](...)` target of a Markdown source sits, and what to offer to complete
//! it with (routes, `@/` source files, static assets, headings).
use vstd::prelude::*;

use crate::build_steps::{lemma_map_values_multiset, lex_le, param_views, sort_by_key};
use crate::frontmatter::byte_offsets;
use crate::links::{route_completion_text, spec_relative_route_from_base};
use crate::graph::{route_for_link_target, spec_route_for_link_target};
use crate::model::{find_key, str_value, AuthoringPage, AuthoringProject};
use crate::routes::{is_likely_static_file, is_special_target, spec_is_likely_static_file, spec_is_special_target, spec_split_fragment, split_fragment, starts_with_str};
use crate::diagnostics::AuthoringDiagnostic;
use crate::headings::{position_to_byte_offset, spec_position_to_char};
use crate::positions::Position;
use crate::text::{find_char, first_index, starts_with, str_eq};
use crate::text::push_str_chars;
use crate::graph::MarkdownReferenceKind;
use crate::positions::{byte_range_to_lsp_range, spec_byte_range_to_lsp_range, Range};
use crate::text::{byte_len, last_index, rfind_char, sub_chars, to_chars, from_chars};

verus! {

// ---------------------------------------------------------------------------
// Link targets in a source
// ---------------------------------------------------------------------------

/// Where a link target that starts at `start` ends, scanning from `j`: at
/// the first `)` not escaped by a `\` (a `)` right at the start always
/// counts), at a newline, or at the end of `s`.
pub open spec fn target_end_from(s: Seq<char>, start: int, j: int) -> int
    decreases s.len() - j,
{
    if j < 0 || j >= s.len() {
        s.len() as int
    } else if s[j] == ')' && (j == start || s[j - 1] != '\\') {
        j
    } else if s[j] == '\n' {
        j
    } else {
        target_end_from(s, start, j + 1)
    }
}

/// Whether the link closed by the `]` at `close` is an image: the last `[`
/// before it on its line follows a `!`.
pub open spec fn spec_kind_before_link_close(s: Seq<char>, close: int) -> MarkdownReferenceKind {
    let ls = match last_index(s.take(close), '\n') {
        Some(i) => i + 1,
        None => 0,
    };
    match last_index(s.subrange(ls, close), '[') {
        Some(o) => if ls + o > 0 && s[ls + o - 1] == '!' {
            MarkdownReferenceKind::Image
        } else {
            MarkdownReferenceKind::Link
        },
        None => MarkdownReferenceKind::Link,
    }
}

/// The link targets of `s` from `cursor` on: at each `](`, the kind of the
/// link and the character range of its target.
pub open spec fn contexts_from(s: Seq<char>, cursor: int) -> Seq<(MarkdownReferenceKind, int, int)>
    decreases s.len() - cursor,
{
    if cursor < 0 || cursor + 1 >= s.len() {
        Seq::empty()
    } else if !(s[cursor] == ']' && s[cursor + 1] == '(') {
        contexts_from(s, cursor + 1)
    } else {
        let ts = cursor + 2;
        let te = target_end_from(s, ts, ts);
        if te < ts {
            Seq::empty()
        } else if te >= s.len() {
            seq![(spec_kind_before_link_close(s, cursor), ts, te)]
        } else {
            seq![(spec_kind_before_link_close(s, cursor), ts, te)] + contexts_from(s, te + 1)
        }
    }
}

/// A link target in a Markdown source: the kind of link, the target text,
/// and where it sits (editor range and byte range).
pub struct MarkdownTargetContext {
    pub kind: MarkdownReferenceKind,
    pub target: String,
    pub range: Range,
    pub byte_start: usize,
    pub byte_end: usize,
}

/// `c` is the context for the target at characters `t.1..t.2` of `s`.
pub open spec fn is_context(c: MarkdownTargetContext, s: Seq<char>, t: (MarkdownReferenceKind, int, int)) -> bool {
    &&& c.kind == t.0
    &&& c.target@ == s.subrange(t.1, t.2)
    &&& c.byte_start == byte_len(s.take(t.1))
    &&& c.byte_end == byte_len(s.take(t.2))
    &&& c.range == spec_byte_range_to_lsp_range(s, c.byte_start as int, c.byte_end as int)
}

fn kind_before_close_chars(v: &[char], close: usize) -> (r: MarkdownReferenceKind)
    requires
        close <= v.len(),
    ensures
        r == spec_kind_before_link_close(v@, close as int),
{
    let head = sub_chars(v, 0, close);
    assert(head@ == v@.take(close as int));
    let ls: usize = match rfind_char(head.as_slice(), '\n') {
        Some(i) => i + 1,
        None => 0,
    };
    let line = sub_chars(v, ls, close);
    match rfind_char(line.as_slice(), '[') {
        Some(o) => {
            if ls + o > 0 && v[ls + o - 1] == '!' {
                MarkdownReferenceKind::Image
            } else {
                MarkdownReferenceKind::Link
            }
        },
        None => MarkdownReferenceKind::Link,
    }
}

/// Whether the link whose text closes with the `]` at byte
/// `link_close_byte` of `content` is an image: the last `[` before it on
/// its line follows a `!`.
pub fn markdown_reference_kind_before_link_close(content: &str, link_close_byte: usize) -> (r:
    MarkdownReferenceKind)
    requires
        byte_len(content@) <= usize::MAX,
        exists|k: int| 0 <= k <= content@.len() && byte_len(content@.take(k)) == link_close_byte,
    ensures
        forall|k: int|
            0 <= k <= content@.len() && byte_len(content@.take(k)) == link_close_byte ==> r
                == spec_kind_before_link_close(content@, k),
{
    let v = to_chars(content);
    let offs = byte_offsets(v.as_slice());
    let mut k: usize = 0;
    while k < v.len() && offs[k] != link_close_byte
        invariant
            k <= v.len(),
            v@ == content@,
            offs@.len() == v@.len() + 1,
            forall|i: int| 0 <= i <= v@.len() ==> #[trigger] offs@[i] == byte_len(v@.take(i)),
            forall|j: int| 0 <= j < k ==> byte_len(v@.take(j)) != link_close_byte,
        decreases v.len() - k,
    {
        k = k + 1;
    }
    proof {
        let w = choose|w: int| 0 <= w <= content@.len() && byte_len(content@.take(w)) == link_close_byte;
        if offs@[k as int] != link_close_byte {
            assert(byte_len(v@.take(w)) == link_close_byte);
        }
        assert forall|j: int|
            0 <= j <= content@.len() && byte_len(content@.take(j)) == link_close_byte implies j == k by {
            if j > k {
                crate::headings::lemma_byte_len_take_strict(content@, k as int, j);
            }
        }
    }
    kind_before_close_chars(v.as_slice(), k)
}

/// The link targets of a Markdown source, in order: after each `](`, the
/// text up to the first unescaped `)` or the end of the line.
pub fn markdown_target_contexts(content: &str) -> (r: Vec<MarkdownTargetContext>)
    requires
        content@.len() < u32::MAX,
        byte_len(content@) <= usize::MAX,
    ensures
        r@.len() == contexts_from(content@, 0).len(),
        forall|i: int| 0 <= i < r@.len() ==> is_context(#[trigger] r@[i], content@, contexts_from(content@, 0)[i]),
{
    let v = to_chars(content);
    let offs = byte_offsets(v.as_slice());
    let mut out: Vec<MarkdownTargetContext> = Vec::new();
    let mut cursor: usize = 0;
    let ghost all = contexts_from(v@, 0);
    while cursor + 1 < v.len()
        invariant
            v@ == content@,
            content@.len() < u32::MAX,
            offs@.len() == v@.len() + 1,
            forall|i: int| 0 <= i <= v@.len() ==> #[trigger] offs@[i] == byte_len(v@.take(i)),
            all == contexts_from(v@, 0),
            cursor <= v.len(),
            all.len() == out@.len() + contexts_from(v@, cursor as int).len(),
            forall|i: int| 0 <= i < out@.len() ==> is_context(#[trigger] out@[i], v@, all[i]),
            forall|i: int|
                0 <= i < contexts_from(v@, cursor as int).len() ==> all[out@.len() + i]
                    == contexts_from(v@, cursor as int)[i],
        decreases v.len() - cursor,
    {
        if v[cursor] != ']' || v[cursor + 1] != '(' {
            cursor = cursor + 1;
            continue;
        }
        let ts = cursor + 2;
        let mut te: usize = ts;
        while te < v.len() && !((v[te] == ')' && (te == ts || v[te - 1] != '\\')) || v[te] == '\n')
            invariant
                ts <= te <= v.len(),
                target_end_from(v@, ts as int, ts as int) == target_end_from(v@, ts as int, te as int),
            decreases v.len() - te,
        {
            te = te + 1;
        }
        let ghost rest = contexts_from(v@, cursor as int);
        let ghost item = (spec_kind_before_link_close(v@, cursor as int), ts as int, te as int);
        let ghost next: int = if te < v.len() {
            te + 1
        } else {
            v.len() as int
        };
        assert(rest == seq![item] + contexts_from(v@, next));
        let ghost old_len = out@.len();
        let kind = kind_before_close_chars(v.as_slice(), cursor);
        let target = from_chars(sub_chars(v.as_slice(), ts, te).as_slice());
        let byte_start = offs[ts];
        let byte_end = offs[te];
        let range = byte_range_to_lsp_range(content, byte_start, byte_end);
        out.push(MarkdownTargetContext { kind, target, range, byte_start, byte_end });
        assert(all[out@.len() - 1] == rest[0]);
        assert forall|i: int| 0 <= i < contexts_from(v@, next).len() implies all[out@.len() + i]
            == contexts_from(v@, next)[i] by {
            assert(rest[1 + i] == contexts_from(v@, next)[i]);
            assert(all[old_len + (1 + i)] == rest[1 + i]);
        }
        cursor = if te < v.len() {
            te + 1
        } else {
            v.len()
        };
    }
    proof {
        assert(contexts_from(v@, cursor as int).len() == 0);
    }
    out
}

// ---------------------------------------------------------------------------
// Completions
// ---------------------------------------------------------------------------

/// What a completion offers.
#[derive(Clone, Copy, Debug, PartialEq, Eq, Structural)]
pub enum LinkCompletionKind {
    /// A page or a heading.
    Reference,
    /// A source file or a static asset.
    File,
}

/// A completion for a link target: the text that replaces the target (also
/// its label and filter text), what it offers, a detail line, and the range
/// it replaces.
pub struct LinkCompletion {
    pub label: String,
    pub kind: LinkCompletionKind,
    pub detail: String,
    pub range: Range,
}

/// A completion that replaces `range` with `insert_text`.
pub fn completion_item(insert_text: String, kind: LinkCompletionKind, detail: String, range: Range) -> (r:
    LinkCompletion)
    ensures
        r.label == insert_text,
        r.kind == kind,
        r.detail == detail,
        r.range == range,
{
    LinkCompletion { label: insert_text, kind, detail, range }
}

/// The text a route completion inserts: the route itself where the target
/// being typed is absolute, else the route relative to the page's link base.
pub open spec fn spec_route_completion_text(page: AuthoringPage, current: Seq<char>, route: Seq<char>) -> Seq<char> {
    if current.len() > 0 && current[0] == '/' {
        route
    } else {
        spec_relative_route_from_base(page.link_base_route@, route)
    }
}

/// `r` offers every page of the site, in page order: linked from `page`
/// (absolute or relative as the target being typed is), with the page's
/// title and source file as detail.
pub open spec fn is_route_items(
    r: Seq<LinkCompletion>,
    project: AuthoringProject,
    page: AuthoringPage,
    context: MarkdownTargetContext,
) -> bool {
    &&& r.len() == project.pages@.len()
    &&& forall|i: int|
        0 <= i < r.len() ==> {
            let c = #[trigger] r[i];
            let candidate = project.pages@[i];
            &&& c.label@ == spec_route_completion_text(page, context.target@, candidate.route@)
            &&& c.kind == LinkCompletionKind::Reference
            &&& c.detail@ == candidate.title@ + " ("@ + candidate.source_file@ + ")"@
            &&& c.range == context.range
        }
}

/// One completion per page of the site, in page order, linking to it from
/// `page` (absolute or relative as the target being typed is), with the
/// page's title and source file as detail.
pub fn route_completion_items(project: &AuthoringProject, page: &AuthoringPage, context: &MarkdownTargetContext) -> (r:
    Vec<LinkCompletion>)
    ensures
        is_route_items(r@, *project, *page, *context),
{
    let mut out: Vec<LinkCompletion> = Vec::new();
    let mut i: usize = 0;
    while i < project.pages.len()
        invariant
            i <= project.pages.len(),
            out@.len() == i,
            forall|k: int|
                0 <= k < i ==> {
                    let c = #[trigger] out@[k];
                    let candidate = project.pages@[k];
                    &&& c.label@ == spec_route_completion_text(*page, context.target@, candidate.route@)
                    &&& c.kind == LinkCompletionKind::Reference
                    &&& c.detail@ == candidate.title@ + " ("@ + candidate.source_file@ + ")"@
                    &&& c.range == context.range
                },
        decreases project.pages.len() - i,
    {
        let candidate = &project.pages[i];
        let text = route_completion_text(page, context.target.as_str(), candidate.route.as_str());
        let mut d: Vec<char> = Vec::new();
        push_str_chars(&mut d, candidate.title.as_str());
        push_str_chars(&mut d, " (");
        push_str_chars(&mut d, candidate.source_file.as_str());
        push_str_chars(&mut d, ")");
        out.push(
            completion_item(text, LinkCompletionKind::Reference, from_chars(d.as_slice()), context.range),
        );
        i = i + 1;
    }
    out
}

/// The entries of `m` sorted by key: the same entries, keys in order.
pub open spec fn is_sorted_view(e: Seq<(Seq<char>, Seq<char>)>, m: Seq<(String, String)>) -> bool {
    &&& e.to_multiset() == param_views(m).to_multiset()
    &&& forall|i: int, j: int| 0 <= i < j < e.len() ==> lex_le(#[trigger] e[i].0, #[trigger] e[j].0)
}

fn sorted_entries(m: &Vec<(String, String)>) -> (r: Vec<(String, String)>)
    ensures
        r@.len() == m@.len(),
        is_sorted_view(param_views(r@), m@),
{
    let mut entries: Vec<(String, String)> = Vec::new();
    let mut i: usize = 0;
    while i < m.len()
        invariant
            i <= m.len(),
            param_views(entries@) == param_views(m@).take(i as int),
        decreases m.len() - i,
    {
        let ghost before = entries@;
        entries.push((m[i].0.clone(), m[i].1.clone()));
        assert(param_views(entries@) == param_views(before).push((m@[i as int].0@, m@[i as int].1@)));
        assert(param_views(m@).take(i + 1 as int) == param_views(m@).take(i as int).push(
            (m@[i as int].0@, m@[i as int].1@),
        ));
        i = i + 1;
    }
    assert(param_views(m@).take(m.len() as int) == param_views(m@));
    let ghost ev = entries@;
    let sorted = sort_by_key(entries);
    proof {
        broadcast use vstd::seq_lib::group_to_multiset_ensures;

        let f = |p: (String, String)| (p.0@, p.1@);
        lemma_map_values_multiset(sorted@, ev, f);
        assert(param_views(sorted@) =~= sorted@.map_values(f));
        assert(param_views(ev) =~= ev.map_values(f));
        assert(sorted@.len() == sorted@.to_multiset().len());
        assert(ev.len() == ev.to_multiset().len());
        let e = param_views(sorted@);
        assert forall|i: int, j: int| 0 <= i < j < e.len() implies lex_le(#[trigger] e[i].0, #[trigger] e[j].0) by {
            assert(lex_le(sorted@[i].0@, sorted@[j].0@));
        }
    }
    sorted
}

/// `r` offers every `@/` source file of the site in order of its path, with
/// the route it builds as detail.
pub open spec fn is_source_items(r: Seq<LinkCompletion>, project: AuthoringProject, context: MarkdownTargetContext) -> bool {
    &&& r.len() == project.source_to_route@.len()
    &&& exists|e: Seq<(Seq<char>, Seq<char>)>|
        {
            &&& is_sorted_view(e, project.source_to_route@)
            &&& e.len() == r.len()
            &&& forall|k: int|
                0 <= k < r.len() ==> {
                    &&& (#[trigger] r[k]).label@ == "@/"@ + e[k].0
                    &&& r[k].detail@ == "Dodeca source route "@ + e[k].1
                    &&& r[k].kind == LinkCompletionKind::File
                    &&& r[k].range == context.range
                }
        }
}

/// `r` offers every static asset of the site in order of its path.
pub open spec fn is_static_items(r: Seq<LinkCompletion>, project: AuthoringProject, context: MarkdownTargetContext) -> bool {
    &&& r.len() == project.static_paths@.len()
    &&& exists|e: Seq<(Seq<char>, Seq<char>)>|
        {
            &&& is_sorted_view(e, project.static_paths@)
            &&& e.len() == r.len()
            &&& forall|k: int|
                0 <= k < r.len() ==> {
                    &&& (#[trigger] r[k]).label@ == "/"@ + e[k].0
                    &&& r[k].detail@ == "Dodeca static asset"@
                    &&& r[k].kind == LinkCompletionKind::File
                    &&& r[k].range == context.range
                }
        }
}

/// One completion per `@/` source file of the site, in order of the source
/// path: `@/PATH`, with the route it builds as detail.
pub fn source_completion_items(project: &AuthoringProject, context: &MarkdownTargetContext) -> (r: Vec<
    LinkCompletion,
>)
    ensures
        is_source_items(r@, *project, *context),
{
    let sorted = sorted_entries(&project.source_to_route);
    let ghost e = param_views(sorted@);
    let mut out: Vec<LinkCompletion> = Vec::new();
    let mut i: usize = 0;
    while i < sorted.len()
        invariant
            i <= sorted.len(),
            e == param_views(sorted@),
            out@.len() == i,
            forall|k: int|
                0 <= k < i ==> {
                    &&& (#[trigger] out@[k]).label@ == "@/"@ + e[k].0
                    &&& out@[k].detail@ == "Dodeca source route "@ + e[k].1
                    &&& out@[k].kind == LinkCompletionKind::File
                    &&& out@[k].range == context.range
                },
        decreases sorted.len() - i,
    {
        let mut label: Vec<char> = Vec::new();
        push_str_chars(&mut label, "@/");
        push_str_chars(&mut label, sorted[i].0.as_str());
        let mut detail: Vec<char> = Vec::new();
        push_str_chars(&mut detail, "Dodeca source route ");
        push_str_chars(&mut detail, sorted[i].1.as_str());
        out.push(
            completion_item(
                from_chars(label.as_slice()),
                LinkCompletionKind::File,
                from_chars(detail.as_slice()),
                context.range,
            ),
        );
        i = i + 1;
    }
    assert(e.len() == out@.len());
    assert(is_sorted_view(e, project.source_to_route@));
    out
}

/// One completion per static asset of the site, in order of its path:
/// `/PATH`.
pub fn static_completion_items(project: &AuthoringProject, context: &MarkdownTargetContext) -> (r: Vec<
    LinkCompletion,
>)
    ensures
        is_static_items(r@, *project, *context),
{
    let sorted = sorted_entries(&project.static_paths);
    let ghost e = param_views(sorted@);
    let mut out: Vec<LinkCompletion> = Vec::new();
    let mut i: usize = 0;
    while i < sorted.len()
        invariant
            i <= sorted.len(),
            e == param_views(sorted@),
            out@.len() == i,
            forall|k: int|
                0 <= k < i ==> {
                    &&& (#[trigger] out@[k]).label@ == "/"@ + e[k].0
                    &&& out@[k].detail@ == "Dodeca static asset"@
                    &&& out@[k].kind == LinkCompletionKind::File
                    &&& out@[k].range == context.range
                },
        decreases sorted.len() - i,
    {
        let mut label: Vec<char> = Vec::new();
        push_str_chars(&mut label, "/");
        push_str_chars(&mut label, sorted[i].0.as_str());
        out.push(
            completion_item(
                from_chars(label.as_slice()),
                LinkCompletionKind::File,
                String::from_str("Dodeca static asset"),
                context.range,
            ),
        );
        i = i + 1;
    }
    assert(e.len() == out@.len());
    assert(is_sorted_view(e, project.static_paths@));
    out
}

/// The page whose headings a target with a fragment completes: the page of
/// the `@/` source file it names, or of the route it names from `page`.
pub open spec fn heading_target_page(project: AuthoringProject, page: AuthoringPage, target: Seq<char>) -> Option<int> {
    let t = spec_split_fragment(target).0;
    let route = if starts_with(t, "@/"@) {
        str_value(project.source_to_route@, t.skip(2))
    } else {
        Some(spec_route_for_link_target(project, page, t))
    };
    match route {
        Some(r) => project.spec_page_for_route(r),
        None => None,
    }
}

/// `r` offers the headings of the page a fragment target names: for each
/// heading id of that page, in order, the target's path (none when the
/// target is only a fragment), `#` and the id, with the page's route as
/// detail. Nothing when the target names no page.
pub open spec fn is_heading_items(
    r: Seq<LinkCompletion>,
    project: AuthoringProject,
    page: AuthoringPage,
    context: MarkdownTargetContext,
) -> bool {
    match heading_target_page(project, page, context.target@) {
        None => r.len() == 0,
        Some(p) => {
            let target_page = project.pages@[p];
            let prefix = if context.target@.len() > 0 && context.target@[0] == '#' {
                Seq::<char>::empty()
            } else {
                spec_split_fragment(context.target@).0
            };
            &&& r.len() == target_page.heading_ids@.len()
            &&& forall|k: int|
                0 <= k < r.len() ==> {
                    &&& (#[trigger] r[k]).label@ == prefix + "#"@ + target_page.heading_ids@[k]@
                    &&& r[k].kind == LinkCompletionKind::Reference
                    &&& r[k].detail@ == "Heading on "@ + target_page.route@
                    &&& r[k].range == context.range
                }
        },
    }
}

/// The headings that complete a target with a fragment.
pub fn heading_completion_items(project: &AuthoringProject, page: &AuthoringPage, context: &MarkdownTargetContext) -> (r:
    Vec<LinkCompletion>)
    ensures
        is_heading_items(r@, *project, *page, *context),
{
    let (t, _) = split_fragment(context.target.as_str());
    let tv = to_chars(t);
    let route: Option<String> = if starts_with_str(tv.as_slice(), "@/") {
        proof {
            reveal_strlit("@/");
        }
        let source = from_chars(sub_chars(tv.as_slice(), 2, tv.len()).as_slice());
        assert(source@ == t@.skip(2));
        match find_key(&project.source_to_route, source.as_str()) {
            Some(i) => Some(project.source_to_route[i].1.clone()),
            None => None,
        }
    } else {
        Some(route_for_link_target(project, page, t))
    };
    let route = match route {
        Some(r) => r,
        None => {
            return Vec::new();
        },
    };
    let target_page = match project.page_for_route(route.as_str()) {
        Some(p) => p,
        None => {
            return Vec::new();
        },
    };
    let whole = to_chars(context.target.as_str());
    let prefix: Vec<char> = if whole.len() > 0 && whole[0] == '#' {
        Vec::new()
    } else {
        tv
    };
    let ghost pv = prefix@;
    let mut out: Vec<LinkCompletion> = Vec::new();
    let mut i: usize = 0;
    while i < target_page.heading_ids.len()
        invariant
            i <= target_page.heading_ids.len(),
            out@.len() == i,
            pv == prefix@,
            forall|k: int|
                0 <= k < i ==> {
                    &&& (#[trigger] out@[k]).label@ == pv + "#"@ + target_page.heading_ids@[k]@
                    &&& out@[k].kind == LinkCompletionKind::Reference
                    &&& out@[k].detail@ == "Heading on "@ + target_page.route@
                    &&& out@[k].range == context.range
                },
        decreases target_page.heading_ids.len() - i,
    {
        let mut label: Vec<char> = Vec::new();
        crate::text::extend_chars(&mut label, prefix.as_slice());
        push_str_chars(&mut label, "#");
        push_str_chars(&mut label, target_page.heading_ids[i].as_str());
        let mut detail: Vec<char> = Vec::new();
        push_str_chars(&mut detail, "Heading on ");
        push_str_chars(&mut detail, target_page.route.as_str());
        assert(label@ == pv + "#"@ + target_page.heading_ids@[i as int]@);
        out.push(
            completion_item(
                from_chars(label.as_slice()),
                LinkCompletionKind::Reference,
                from_chars(detail.as_slice()),
                context.range,
            ),
        );
        i = i + 1;
    }
    out
}

/// What completes a link target being typed: nothing for an external
/// target; the headings of the named page for a target with a fragment;
/// the `@/` source files for a target starting with `@`; the static assets
/// for an image; otherwise the pages, followed by the static assets when
/// the target is absolute or looks like a static file.
pub fn completion_items_for_markdown_target(
    project: &AuthoringProject,
    page: &AuthoringPage,
    context: &MarkdownTargetContext,
) -> (r: Vec<LinkCompletion>)
    ensures
        ({
            let t = context.target@;
            if spec_is_special_target(t) {
                r@.len() == 0
            } else if exists|i: int| 0 <= i < t.len() && t[i] == '#' {
                is_heading_items(r@, *project, *page, *context)
            } else if t.len() > 0 && t[0] == '@' {
                is_source_items(r@, *project, *context)
            } else if context.kind == MarkdownReferenceKind::Image {
                is_static_items(r@, *project, *context)
            } else if (t.len() > 0 && t[0] == '/') || spec_is_likely_static_file(t) {
                &&& is_route_items(r@.take(project.pages@.len() as int), *project, *page, *context)
                &&& is_static_items(r@.skip(project.pages@.len() as int), *project, *context)
                &&& r@.len() >= project.pages@.len()
            } else {
                is_route_items(r@, *project, *page, *context)
            }
        }),
{
    let target = context.target.as_str();
    if is_special_target(target) {
        return Vec::new();
    }
    let tv = to_chars(target);
    match crate::text::find_char(tv.as_slice(), '#') {
        Some(i) => {
            assert(tv@[i as int] == '#');
            return heading_completion_items(project, page, context);
        },
        None => {},
    }
    if tv.len() > 0 && tv[0] == '@' {
        return source_completion_items(project, context);
    }
    if context.kind == MarkdownReferenceKind::Image {
        return static_completion_items(project, context);
    }
    let mut items = route_completion_items(project, page, context);
    if (tv.len() > 0 && tv[0] == '/') || is_likely_static_file(target) {
        let ghost routes = items@;
        let mut statics = static_completion_items(project, context);
        let ghost st = statics@;
        items.append(&mut statics);
        assert(items@ == routes + st);
        assert(items@.take(project.pages@.len() as int) == routes);
        assert(items@.skip(project.pages@.len() as int) == st);
    }
    items
}

// ---------------------------------------------------------------------------
// Finding a target
// ---------------------------------------------------------------------------

/// The byte offset an editor position addresses in `s`, if any.
pub open spec fn position_byte(s: Seq<char>, p: Position) -> Option<int> {
    match spec_position_to_char(s, p.line as int, p.character as int) {
        Some(i) => Some(byte_len(s.take(i)) as int),
        None => None,
    }
}

/// The range of the target at characters `t.1..t.2` of `s`.
pub open spec fn target_range(s: Seq<char>, t: (MarkdownReferenceKind, int, int)) -> Range {
    spec_byte_range_to_lsp_range(s, byte_len(s.take(t.1)) as int, byte_len(s.take(t.2)) as int)
}

/// The target `t` spans byte offset `b`: both ends of its range address
/// bytes of `s`, and `b` lies between them.
pub open spec fn target_spans(s: Seq<char>, t: (MarkdownReferenceKind, int, int), b: int) -> bool {
    match (position_byte(s, target_range(s, t).start), position_byte(s, target_range(s, t).end)) {
        (Some(start), Some(end)) => start <= b <= end,
        _ => false,
    }
}

/// The first link target of `content` whose range holds `position`.
pub fn markdown_target_context_at_position(content: &str, position: Position) -> (r: Option<
    MarkdownTargetContext,
>)
    requires
        content@.len() < u32::MAX,
        byte_len(content@) <= usize::MAX,
    ensures
        match position_byte(content@, position) {
            None => r is None,
            Some(b) => match r {
                Some(c) => exists|k: int|
                    0 <= k < contexts_from(content@, 0).len() && is_context(
                        c,
                        content@,
                        contexts_from(content@, 0)[k],
                    ) && target_spans(content@, contexts_from(content@, 0)[k], b) && forall|j: int|
                        0 <= j < k ==> !target_spans(content@, #[trigger] contexts_from(content@, 0)[j], b),
                None => forall|k: int|
                    0 <= k < contexts_from(content@, 0).len() ==> !target_spans(
                        content@,
                        #[trigger] contexts_from(content@, 0)[k],
                        b,
                    ),
            },
        },
{
    let offset = match position_to_byte_offset(content, position) {
        Some(b) => b,
        None => {
            return None;
        },
    };
    let contexts = markdown_target_contexts(content);
    let ghost all = contexts_from(content@, 0);
    let mut rest = contexts;
    let mut k: usize = 0;
    let n = rest.len();
    while k < n
        invariant
            n == all.len(),
            all == contexts_from(content@, 0),
            k <= n,
            rest@.len() == n - k,
            forall|i: int| 0 <= i < rest@.len() ==> is_context(#[trigger] rest@[i], content@, all[k + i]),
            forall|j: int| 0 <= j < k ==> !target_spans(content@, #[trigger] all[j], offset as int),
            content@.len() < u32::MAX,
            byte_len(content@) <= usize::MAX,
            position_byte(content@, position) == Some(offset as int),
        decreases n - k,
    {
        let c = rest.remove(0);
        assert(is_context(c, content@, all[k as int]));
        let spans = match (position_to_byte_offset(content, c.range.start), position_to_byte_offset(content, c.range.end)) {
            (Some(a), Some(b)) => a <= offset && offset <= b,
            _ => false,
        };
        if spans {
            return Some(c);
        }
        k = k + 1;
    }
    None
}

/// The first link target of `content` with the diagnostic's target that
/// lies within the diagnostic's byte span.
pub fn target_context_for_diagnostic(content: &str, diagnostic: &AuthoringDiagnostic) -> (r: Option<
    MarkdownTargetContext,
>)
    requires
        content@.len() < u32::MAX,
        byte_len(content@) <= usize::MAX,
    ensures
        match r {
            Some(c) => exists|k: int|
                0 <= k < contexts_from(content@, 0).len() && is_context(c, content@, contexts_from(content@, 0)[k])
                    && c.target@ == diagnostic.target@ && diagnostic.byte_start <= c.byte_start
                    && c.byte_end <= diagnostic.byte_end,
            None => forall|k: int|
                0 <= k < contexts_from(content@, 0).len() ==> {
                    let t = #[trigger] contexts_from(content@, 0)[k];
                    !(content@.subrange(t.1, t.2) == diagnostic.target@ && diagnostic.byte_start <= byte_len(
                        content@.take(t.1),
                    ) && byte_len(content@.take(t.2)) <= diagnostic.byte_end)
                },
        },
{
    let contexts = markdown_target_contexts(content);
    let ghost all = contexts_from(content@, 0);
    let mut rest = contexts;
    let mut k: usize = 0;
    let n = rest.len();
    while k < n
        invariant
            n == all.len(),
            all == contexts_from(content@, 0),
            k <= n,
            rest@.len() == n - k,
            forall|i: int| 0 <= i < rest@.len() ==> is_context(#[trigger] rest@[i], content@, all[k + i]),
            forall|j: int|
                0 <= j < k ==> {
                    let t = #[trigger] all[j];
                    !(content@.subrange(t.1, t.2) == diagnostic.target@ && diagnostic.byte_start <= byte_len(
                        content@.take(t.1),
                    ) && byte_len(content@.take(t.2)) <= diagnostic.byte_end)
                },
        decreases n - k,
    {
        let c = rest.remove(0);
        assert(is_context(c, content@, all[k as int]));
        if str_eq(c.target.as_str(), diagnostic.target.as_str()) && diagnostic.byte_start <= c.byte_start
            && c.byte_end <= diagnostic.byte_end {
            return Some(c);
        }
        k = k + 1;
    }
    None
}

/// The character range of the fragment of a link target: after its first
/// `#`, up to a following `?` or the end.
pub open spec fn fragment_bounds(t: Seq<char>) -> Option<(int, int)> {
    match first_index(t, '#') {
        None => None,
        Some(h) => {
            let fs = h + 1;
            let fe = match first_index(t.skip(fs), '?') {
                Some(q) => fs + q,
                None => t.len() as int,
            };
            Some((fs, fe))
        },
    }
}

/// The editor range of the fragment of a link target in `content`, when
/// the fragment is `expected_fragment`.
pub fn fragment_range_for_target_context(
    content: &str,
    context: &MarkdownTargetContext,
    expected_fragment: &str,
) -> (r: Option<Range>)
    requires
        content@.len() < u32::MAX,
        context.byte_start + byte_len(context.target@) <= usize::MAX,
    ensures
        match fragment_bounds(context.target@) {
            None => r is None,
            Some((fs, fe)) => if context.target@.subrange(fs, fe) == expected_fragment@ {
                r == Some(
                    spec_byte_range_to_lsp_range(
                        content@,
                        context.byte_start + byte_len(context.target@.take(fs)),
                        context.byte_start + byte_len(context.target@.take(fe)),
                    ),
                )
            } else {
                r is None
            },
        },
{
    let t = to_chars(context.target.as_str());
    let h = match find_char(t.as_slice(), '#') {
        Some(h) => h,
        None => {
            return None;
        },
    };
    proof {
        crate::positions::lemma_byte_len_bound(t@);
    }
    let fs = h + 1;
    let tail = sub_chars(t.as_slice(), fs, t.len());
    assert(tail@ == t@.skip(fs as int));
    let fe: usize = match find_char(tail.as_slice(), '?') {
        Some(q) => fs + q,
        None => t.len(),
    };
    let frag = sub_chars(t.as_slice(), fs, fe);
    let expected = to_chars(expected_fragment);
    if !crate::text::chars_eq(frag.as_slice(), expected.as_slice()) {
        return None;
    }
    let offs = byte_offsets(t.as_slice());
    proof {
        crate::positions::lemma_byte_len_take_mono(t@, fe as int, t@.len() as int);
        crate::positions::lemma_byte_len_take_mono(t@, fs as int, fe as int);
        assert(t@.take(t@.len() as int) == t@);
    }
    Some(byte_range_to_lsp_range(content, context.byte_start + offs[fs], context.byte_start + offs[fe]))
}

} // verus!
