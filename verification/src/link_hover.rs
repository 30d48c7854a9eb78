//! What the editor shows when hovering a link: what is wrong with it, or
//! what it leads to (the target page with its description, an excerpt, the
//! linked heading and its metadata; a static asset's file).
use vstd::prelude::*;

use crate::dead_links::{diagnostic_for_reference, spec_reference_finding};
use crate::headings::position_to_byte_offset;
use crate::link_completion::position_byte;
use crate::positions::Position;
use crate::text::byte_len;
use crate::graph::{markdown_references, reference_views, spec_markdown_references};
use crate::editing::{markdown_content_excerpt, spec_markdown_content_excerpt};
use crate::graph::{reference_view, route_for_link_target, spec_route_for_link_target, MarkdownReference, MarkdownReferenceKind};
use crate::hover::{decimal, page_hover_metadata_table, spec_page_hover_metadata_table, usize_to_decimal};
use crate::build_steps::{keys_sorted, lemma_lex_transitive, lemma_map_values_multiset, lex_le, sort_by_key};
use crate::model::{find_key, heading_index, str_value, strip_leading_slashes, without_leading_slashes, AuthoringPage, AuthoringProject};
use crate::routes::{
    is_likely_static_file, is_special_target, spec_is_likely_static_file, spec_is_special_target,
    spec_split_fragment, split_fragment, starts_with_str,
};
use crate::text::{from_chars, join, join_exec, push_str_chars, starts_with, sub_chars, to_chars, views};

verus! {

/// The heading line of a link hover: the heading's level, title and id, or
/// a note that the fragment names no heading of the page.
pub open spec fn heading_section(project: AuthoringProject, page: AuthoringPage, fragment: Seq<char>) -> Seq<char> {
    match project.spec_page_for_route(page.route@) {
        Some(p) => match heading_index(project.pages@[p].headings@, fragment) {
            Some(h) => {
                let heading = project.pages@[p].headings@[h];
                "**Heading**: H"@ + decimal(heading.level as nat) + " `"@ + heading.title@ + "` (`#"@
                    + heading.id@ + "`)"@
            },
            None => "**Heading not found**: `#"@ + fragment + "`"@,
        },
        None => "**Heading not found**: `#"@ + fragment + "`"@,
    }
}

/// The sections of the hover for a link to `page` (with `fragment`): its
/// title, its description (if not empty), an excerpt of its body (if its
/// source is loaded and has one), the linked heading (for a non-empty
/// fragment), and its metadata table.
pub open spec fn page_link_sections(project: AuthoringProject, page: AuthoringPage, fragment: Option<Seq<char>>) -> Seq<
    Seq<char>,
> {
    let s1 = seq!["**Dodeca "@ + page.title@ + "**"@];
    let s2 = match page.description {
        Some(d) => if d@.len() > 0 {
            s1.push(d@)
        } else {
            s1
        },
        None => s1,
    };
    let s3 = match str_value(project.source_contents@, page.source_file@) {
        Some(c) => match spec_markdown_content_excerpt(c) {
            Some(e) => s2.push(e),
            None => s2,
        },
        None => s2,
    };
    let s4 = match fragment {
        Some(f) => if f.len() > 0 {
            s3.push(heading_section(project, page, f))
        } else {
            s3
        },
        None => s3,
    };
    s4.push(spec_page_hover_metadata_table(page))
}

/// The hover for a link to `page`: its sections separated by blank lines.
pub open spec fn spec_page_link_hover(project: AuthoringProject, page: AuthoringPage, fragment: Option<Seq<char>>) -> Seq<
    char,
> {
    join(page_link_sections(project, page, fragment), "\n\n"@)
}

fn heading_section_exec(project: &AuthoringProject, page: &AuthoringPage, fragment: &str) -> (r: Vec<char>)
    ensures
        r@ == heading_section(*project, *page, fragment@),
{
    let mut out: Vec<char> = Vec::new();
    match project.heading_for_route(page.route.as_str(), fragment) {
        Some(heading) => {
            push_str_chars(&mut out, "**Heading**: H");
            let level = usize_to_decimal(heading.level as usize);
            push_str_chars(&mut out, level.as_str());
            push_str_chars(&mut out, " `");
            push_str_chars(&mut out, heading.title.as_str());
            push_str_chars(&mut out, "` (`#");
            push_str_chars(&mut out, heading.id.as_str());
            push_str_chars(&mut out, "`)");
        },
        None => {
            push_str_chars(&mut out, "**Heading not found**: `#");
            push_str_chars(&mut out, fragment);
            push_str_chars(&mut out, "`");
        },
    }
    out
}

/// The hover for a link to `page`, with the link's fragment if any.
pub fn page_link_hover_markdown(project: &AuthoringProject, page: &AuthoringPage, fragment: Option<&str>) -> (r:
    String)
    ensures
        r@ == spec_page_link_hover(
            *project,
            *page,
            match fragment {
                Some(f) => Some(f@),
                None => None,
            },
        ),
{
    let mut sections: Vec<Vec<char>> = Vec::new();
    let mut first: Vec<char> = Vec::new();
    push_str_chars(&mut first, "**Dodeca ");
    push_str_chars(&mut first, page.title.as_str());
    push_str_chars(&mut first, "**");
    sections.push(first);
    match &page.description {
        Some(d) => {
            let dv = to_chars(d.as_str());
            if dv.len() > 0 {
                sections.push(dv);
            }
        },
        None => {},
    }
    match find_key(&project.source_contents, page.source_file.as_str()) {
        Some(i) => match markdown_content_excerpt(project.source_contents[i].1.as_str()) {
            Some(e) => {
                sections.push(to_chars(e.as_str()));
            },
            None => {},
        },
        None => {},
    }
    match fragment {
        Some(f) => {
            if to_chars(f).len() > 0 {
                sections.push(heading_section_exec(project, page, f));
            }
        },
        None => {},
    }
    let table = page_hover_metadata_table(page);
    sections.push(to_chars(table.as_str()));
    let ghost fv = match fragment {
        Some(f) => Some(f@),
        None => None,
    };
    assert(views(sections@) =~= page_link_sections(*project, *page, fv));
    let sep = to_chars("\n\n");
    from_chars(join_exec(&sections, sep.as_slice()).as_slice())
}

/// The hover for a link or image of `page` to `target` (of `kind`): for an
/// external target, that it is one; for a dead link, what is wrong with it;
/// for a `@/` source link, the page it names (or its route when no page
/// serves it); for an image or static file, the file it resolves to; else
/// the page the route names.
pub open spec fn spec_link_hover(
    project: AuthoringProject,
    page: AuthoringPage,
    kind: MarkdownReferenceKind,
    target: Seq<char>,
) -> Seq<char> {
    if spec_is_special_target(target) {
        "**Dodeca link**\n\nSpecial target: `"@ + target + "`"@
    } else {
        match spec_reference_finding(project, page, kind, target) {
            Some(f) => "**Dodeca link**\n\n"@ + f.2 + "\n\nTarget: `"@ + target + "`"@,
            None => {
                let t = spec_split_fragment(target).0;
                let fragment = spec_split_fragment(target).1;
                if starts_with(t, "@/"@) {
                    let source = t.skip(2);
                    match str_value(project.source_to_route@, source) {
                        None => "**Dodeca source link**\n\nSource not found: `"@ + source + "`"@,
                        Some(route) => match project.spec_page_for_route(route) {
                            Some(p) => spec_page_link_hover(project, project.pages@[p], fragment),
                            None => "**Dodeca source link**\n\nRoute: `"@ + route + "`"@,
                        },
                    }
                } else if kind == MarkdownReferenceKind::Image || spec_is_likely_static_file(t) {
                    match project.spec_static_target_path(page.source_file@, t) {
                        Some(path) => "**Dodeca static asset**\n\nURL: `"@ + t + "`\n\nFile: `"@ + path
                            + "`"@,
                        None => "**Dodeca static asset**\n\nStatic asset not found: `"@ + t + "`"@,
                    }
                } else {
                    let route = spec_route_for_link_target(project, page, t);
                    match project.spec_page_for_route(route) {
                        Some(p) => spec_page_link_hover(project, project.pages@[p], fragment),
                        None => "**Dodeca route**\n\nRoute not found: `"@ + route + "`"@,
                    }
                }
            },
        }
    }
}

/// The hover for a link or image of `page` (whose source is `content`).
pub fn link_hover_markdown(
    project: &AuthoringProject,
    page: &AuthoringPage,
    content: &str,
    reference: &MarkdownReference,
) -> (r: String)
    requires
        content@.len() < u32::MAX,
    ensures
        r@ == spec_link_hover(*project, *page, reference.kind, reference.target@),
{
    let target = reference.target.as_str();
    if is_special_target(target) {
        let mut out: Vec<char> = Vec::new();
        push_str_chars(&mut out, "**Dodeca link**\n\nSpecial target: `");
        push_str_chars(&mut out, target);
        push_str_chars(&mut out, "`");
        return from_chars(out.as_slice());
    }
    let copy = MarkdownReference {
        kind: reference.kind,
        target: reference.target.clone(),
        byte_start: reference.byte_start,
        byte_end: reference.byte_end,
    };
    match diagnostic_for_reference(project, page, content, copy) {
        Some(d) => {
            let mut out: Vec<char> = Vec::new();
            push_str_chars(&mut out, "**Dodeca link**\n\n");
            push_str_chars(&mut out, d.message.as_str());
            push_str_chars(&mut out, "\n\nTarget: `");
            push_str_chars(&mut out, d.target.as_str());
            push_str_chars(&mut out, "`");
            return from_chars(out.as_slice());
        },
        None => {},
    }
    let (t, fragment) = split_fragment(target);
    let tv = to_chars(t);
    if starts_with_str(tv.as_slice(), "@/") {
        proof {
            reveal_strlit("@/");
        }
        let source = from_chars(sub_chars(tv.as_slice(), 2, tv.len()).as_slice());
        assert(source@ == t@.skip(2));
        let route = match find_key(&project.source_to_route, source.as_str()) {
            Some(i) => project.source_to_route[i].1.as_str(),
            None => {
                let mut out: Vec<char> = Vec::new();
                push_str_chars(&mut out, "**Dodeca source link**\n\nSource not found: `");
                push_str_chars(&mut out, source.as_str());
                push_str_chars(&mut out, "`");
                return from_chars(out.as_slice());
            },
        };
        return match project.page_for_route(route) {
            Some(target_page) => page_link_hover_markdown(project, target_page, fragment),
            None => {
                let mut out: Vec<char> = Vec::new();
                push_str_chars(&mut out, "**Dodeca source link**\n\nRoute: `");
                push_str_chars(&mut out, route);
                push_str_chars(&mut out, "`");
                from_chars(out.as_slice())
            },
        };
    }
    if reference.kind == MarkdownReferenceKind::Image || is_likely_static_file(t) {
        let mut out: Vec<char> = Vec::new();
        match project.static_target_path(page.source_file.as_str(), t) {
            Some(path) => {
                push_str_chars(&mut out, "**Dodeca static asset**\n\nURL: `");
                push_str_chars(&mut out, t);
                push_str_chars(&mut out, "`\n\nFile: `");
                push_str_chars(&mut out, path);
                push_str_chars(&mut out, "`");
            },
            None => {
                push_str_chars(&mut out, "**Dodeca static asset**\n\nStatic asset not found: `");
                push_str_chars(&mut out, t);
                push_str_chars(&mut out, "`");
            },
        }
        return from_chars(out.as_slice());
    }
    let route = route_for_link_target(project, page, t);
    match project.page_for_route(route.as_str()) {
        Some(target_page) => page_link_hover_markdown(project, target_page, fragment),
        None => {
            let mut out: Vec<char> = Vec::new();
            push_str_chars(&mut out, "**Dodeca route**\n\nRoute not found: `");
            push_str_chars(&mut out, route.as_str());
            push_str_chars(&mut out, "`");
            from_chars(out.as_slice())
        },
    }
}

/// The first link or image of `content` whose byte span holds `position`.
pub fn reference_at_position(content: &str, position: Position) -> (r: Option<MarkdownReference>)
    requires
        byte_len(content@) <= usize::MAX,
    ensures
        match position_byte(content@, position) {
            None => r is None,
            Some(b) => {
                let refs = spec_markdown_references(content@);
                match r {
                    Some(x) => exists|k: int|
                        0 <= k < refs.len() && reference_view(x) == refs[k] && refs[k].2 <= b <= refs[k].3
                            && forall|j: int| 0 <= j < k ==> !(#[trigger] refs[j].2 <= b && b <= refs[j].3),
                    None => forall|k: int| 0 <= k < refs.len() ==> !(#[trigger] refs[k].2 <= b && b <= refs[k].3),
                }
            },
        },
{
    let offset = match position_to_byte_offset(content, position) {
        Some(b) => b,
        None => {
            return None;
        },
    };
    let refs = markdown_references(content);
    let ghost rv = reference_views(refs@);
    let mut k: usize = 0;
    while k < refs.len()
        invariant
            k <= refs.len(),
            rv == reference_views(refs@),
            rv == spec_markdown_references(content@),
            position_byte(content@, position) == Some(offset as int),
            forall|j: int| 0 <= j < k ==> !(#[trigger] rv[j].2 <= offset && offset <= rv[j].3),
        decreases refs.len() - k,
    {
        assert(rv[k as int] == reference_view(refs@[k as int]));
        if refs[k].byte_start <= offset && offset <= refs[k].byte_end {
            let x = MarkdownReference {
                kind: refs[k].kind,
                target: refs[k].target.clone(),
                byte_start: refs[k].byte_start,
                byte_end: refs[k].byte_end,
            };
            assert(reference_view(x) == rv[k as int]);
            assert(position_byte(content@, position) == Some(offset as int));
            return Some(x);
        }
        k = k + 1;
    }
    None
}

// ---------------------------------------------------------------------------
// Static assets a page uses
// ---------------------------------------------------------------------------

/// The static assets that the references `refs` of `page` use: for each
/// image or static-file reference that resolves to a known asset, its path
/// without leading slashes, in order.
pub open spec fn asset_candidates(
    project: AuthoringProject,
    page: AuthoringPage,
    refs: Seq<(MarkdownReferenceKind, Seq<char>, int, int)>,
) -> Seq<Seq<char>>
    decreases refs.len(),
{
    if refs.len() == 0 {
        Seq::empty()
    } else {
        let prev = asset_candidates(project, page, refs.drop_last());
        let r = refs.last();
        let t = spec_split_fragment(r.1).0;
        if (r.0 == MarkdownReferenceKind::Image || spec_is_likely_static_file(t))
            && project.spec_static_target_path(page.source_file@, t) is Some {
            prev.push(without_leading_slashes(t))
        } else {
            prev
        }
    }
}

/// The static assets a page's source `content` uses, each once, in order.
pub fn static_asset_references(project: &AuthoringProject, page: &AuthoringPage, content: &str) -> (r: Vec<String>)
    ensures
        forall|i: int, j: int| 0 <= i < j < r@.len() ==> lex_le(#[trigger] r@[i]@, #[trigger] r@[j]@) && r@[i]@ != r@[j]@,
        forall|x: Seq<char>|
            asset_candidates(*project, *page, spec_markdown_references(content@)).contains(x) <==> exists|i: int|
                0 <= i < r@.len() && (#[trigger] r@[i])@ == x,
{
    let refs = markdown_references(content);
    let ghost rv = reference_views(refs@);
    let ghost cands = asset_candidates(*project, *page, rv);
    let mut pairs: Vec<(String, ())> = Vec::new();
    let mut k: usize = 0;
    while k < refs.len()
        invariant
            k <= refs.len(),
            rv == reference_views(refs@),
            pairs@.map_values(|p: (String, ())| p.0@) == asset_candidates(*project, *page, rv.take(k as int)),
        decreases refs.len() - k,
    {
        assert(rv.take(k + 1 as int).drop_last() == rv.take(k as int));
        assert(rv.take(k + 1 as int).last() == reference_view(refs@[k as int]));
        let (t, _) = split_fragment(refs[k].target.as_str());
        if (refs[k].kind == MarkdownReferenceKind::Image || is_likely_static_file(t))
            && project.static_target_exists(page.source_file.as_str(), t) {
            let ghost before = pairs@;
            pairs.push((strip_leading_slashes(t), ()));
            assert(pairs@.map_values(|p: (String, ())| p.0@) == before.map_values(|p: (String, ())| p.0@).push(
                without_leading_slashes(t@),
            ));
        }
        k = k + 1;
    }
    assert(rv.take(refs.len() as int) == rv);
    assert(rv == spec_markdown_references(content@));
    let ghost pv = pairs@;
    let sorted = sort_by_key(pairs);
    let ghost f = |p: (String, ())| p.0@;
    let ghost sv = sorted@.map_values(f);
    proof {
        lemma_map_values_multiset(sorted@, pv, f);
        broadcast use vstd::seq_lib::group_to_multiset_ensures;

        assert(pv.map_values(f) == cands);
        assert forall|j: int| 0 <= j < sv.len() implies #[trigger] sv[j] == sorted@[j].0@ by {
            assert(sv[j] == f(sorted@[j]));
        }
    }
    let mut out: Vec<String> = Vec::new();
    let mut i: usize = 0;
    while i < sorted.len()
        invariant
            i <= sorted.len(),
            sv.len() == sorted@.len(),
            forall|j: int| 0 <= j < sv.len() ==> #[trigger] sv[j] == sorted@[j].0@,
            keys_sorted(sorted@),
            forall|a: int, b: int| 0 <= a < b < out@.len() ==> lex_le(#[trigger] out@[a]@, #[trigger] out@[b]@) && out@[a]@ != out@[b]@,
            out@.len() > 0 ==> i > 0 && out@.last()@ == sv[i - 1],
            out@.len() == 0 ==> i == 0,
            forall|x: Seq<char>| sv.take(i as int).contains(x) <==> exists|a: int| 0 <= a < out@.len() && (#[trigger] out@[a])@ == x,
        decreases sorted.len() - i,
    {
        let cur = sorted[i].0.as_str();
        assert(sv[i as int] == cur@);
        let fresh = if out.len() == 0 {
            true
        } else {
            !crate::text::str_eq(out[out.len() - 1].as_str(), cur)
        };
        let ghost out_before = out@;
        if fresh {
            out.push(from_chars(to_chars(cur).as_slice()));
            proof {
                if out_before.len() > 0 {
                    assert(lex_le(sorted@[i - 1].0@, sorted@[i as int].0@));
                    assert(sv[i - 1] == sorted@[i - 1].0@);
                    assert(lex_le(out_before.last()@, cur@));
                    assert forall|a: int, b: int| 0 <= a < b < out@.len() implies lex_le(#[trigger] out@[a]@, #[trigger] out@[b]@) && out@[a]@ != out@[b]@ by {
                        if b == out@.len() - 1 && a < b {
                            assert(out@[a] == out_before[a]);
                            if a < out_before.len() - 1 {
                                assert(lex_le(out_before[a]@, out_before.last()@));
                                lemma_lex_transitive(out_before[a]@, out_before.last()@, cur@);
                                if out_before[a]@ == cur@ {
                                    crate::build_steps::lemma_lex_antisymmetric(out_before[a]@, out_before.last()@);
                                }
                            }
                        } else {
                            assert(out@[a] == out_before[a]);
                            assert(out@[b] == out_before[b]);
                        }
                    }
                }
            }
        }
        let ghost pre = sv.take(i as int);
        let ghost post = sv.take(i + 1 as int);
        assert(post == pre.push(sv[i as int]));
        assert forall|x: Seq<char>| post.contains(x) <==> exists|a: int| 0 <= a < out@.len() && (#[trigger] out@[a])@ == x by {
            if post.contains(x) {
                let j = choose|j: int| 0 <= j < post.len() && post[j] == x;
                if j < i {
                    assert(pre[j] == x);
                    assert(pre.contains(x));
                    let a = choose|a: int| 0 <= a < out_before.len() && (#[trigger] out_before[a])@ == x;
                    assert(out@[a] == out_before[a]);
                } else {
                    assert(out@[out@.len() - 1]@ == x);
                }
            }
            if exists|a: int| 0 <= a < out@.len() && (#[trigger] out@[a])@ == x {
                let a = choose|a: int| 0 <= a < out@.len() && (#[trigger] out@[a])@ == x;
                if a < out_before.len() {
                    assert(out_before[a]@ == x);
                    assert(pre.contains(x));
                    let j = choose|j: int| 0 <= j < pre.len() && pre[j] == x;
                    assert(post[j] == x);
                } else {
                    assert(post[i as int] == x);
                }
            }
        }
        i = i + 1;
    }
    proof {
        assert(sv.take(sorted.len() as int) == sv);
        assert forall|x: Seq<char>| cands.contains(x) <==> sv.contains(x) by {
            vstd::seq_lib::to_multiset_contains(sv, x);
            vstd::seq_lib::to_multiset_contains(cands, x);
        }
    }
    out
}

} // verus!
