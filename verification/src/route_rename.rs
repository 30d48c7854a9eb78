//! Renaming a page's route: the text edits that re-point the links to it,
//! in Markdown sources and in the templates or sources that rendered links
//! came from.
use vstd::prelude::*;

use crate::graph::{
    reference_target_route, rendered_href_target_route, spec_reference_target_route,
    spec_rendered_href_target_route, MarkdownReference,
};
use crate::link_completion::MarkdownTargetContext;
use crate::links::{
    link_base_route_for_route, relative_route_from_base, relative_source_path_from_source,
    spec_link_base_route_for_route, spec_relative_route_from_base,
    spec_relative_source_path_from_source, spec_target_base_and_suffix, target_base_and_suffix,
};
use crate::build_steps::{key_less, lemma_lex_antisymmetric, lemma_lex_reflexive, lemma_lex_total, lemma_lex_transitive, lex_le};
use crate::link_completion::{contexts_from, is_context, markdown_target_contexts};
use crate::model::{page_route_text_edit_sort_key, find_key, key_index, str_value, AuthoringInputPath, AuthoringPage, AuthoringProject, RenderedHref, RenderedHrefOrigin};
use crate::positions::{byte_range_to_lsp_range, spec_byte_range_to_lsp_range, Position, Range};
use crate::routes::{ends_with_str, starts_with_str};
use crate::text::{byte_len, ends_with, from_chars, push_str_chars, starts_with, str_byte_len, str_eq, to_chars};

verus! {

/// Where a renamed page goes: its new route and source file.
pub struct PageRouteRenameTarget {
    pub route: String,
    pub source_file: String,
}

/// A change to one link: the input file it is in, the range of its target,
/// and the target to write there.
pub struct PageRouteTextEdit {
    pub path: AuthoringInputPath,
    pub range: Range,
    pub new_target: String,
}

/// Every loaded source and template text fits the machine: its UTF-8
/// length fits in a `usize` and its line and column numbers in a `u32`.
pub open spec fn texts_fit(project: AuthoringProject) -> bool {
    &&& forall|i: int|
        0 <= i < project.source_contents@.len() ==> {
            &&& (#[trigger] project.source_contents@[i]).1@.len() < u32::MAX
            &&& byte_len(project.source_contents@[i].1@) <= usize::MAX
        }
    &&& forall|i: int|
        0 <= i < project.template_contents@.len() ==> {
            &&& (#[trigger] project.template_contents@[i]).1@.len() < u32::MAX
            &&& byte_len(project.template_contents@[i].1@) <= usize::MAX
        }
}

/// The text a rendered link came from: a source or a template, if loaded.
pub open spec fn origin_text(project: AuthoringProject, path: AuthoringInputPath) -> Option<Seq<char>> {
    match path {
        AuthoringInputPath::Source(f) => str_value(project.source_contents@, f@),
        AuthoringInputPath::Template(f) => str_value(project.template_contents@, f@),
        _ => None,
    }
}

/// The range of a rendered link's origin in the text it came from; none
/// for other kinds of input, texts that are not loaded, and spans that end
/// past the text.
pub open spec fn spec_rendered_href_origin_range(project: AuthoringProject, origin: RenderedHrefOrigin) -> Option<
    Range,
> {
    match origin_text(project, origin.path) {
        Some(c) => if origin.byte_end <= byte_len(c) {
            Some(spec_byte_range_to_lsp_range(c, origin.byte_start as int, origin.byte_end as int))
        } else {
            None
        },
        None => None,
    }
}

/// The range of a rendered link's origin.
pub fn rendered_href_origin_range(project: &AuthoringProject, origin: &RenderedHrefOrigin) -> (r: Option<Range>)
    requires
        texts_fit(*project),
    ensures
        r == spec_rendered_href_origin_range(*project, *origin),
{
    let content: &str = match &origin.path {
        AuthoringInputPath::Source(f) => match find_key(&project.source_contents, f.as_str()) {
            Some(i) => {
                assert(project.source_contents@[i as int].1@.len() < u32::MAX);
                project.source_contents[i].1.as_str()
            },
            None => {
                return None;
            },
        },
        AuthoringInputPath::Template(f) => match find_key(&project.template_contents, f.as_str()) {
            Some(i) => {
                assert(project.template_contents@[i as int].1@.len() < u32::MAX);
                project.template_contents[i].1.as_str()
            },
            None => {
                return None;
            },
        },
        _ => {
            return None;
        },
    };
    if origin.byte_end <= str_byte_len(content) {
        Some(byte_range_to_lsp_range(content, origin.byte_start, origin.byte_end))
    } else {
        None
    }
}

/// The new target for a link whose base (`base`) and suffix point at the
/// renamed page: `@/` links name the new source file, `.md` links the new
/// source file relative to `source_file`, absolute links the new route,
/// and relative links the new route relative to `link_base`.
pub open spec fn new_link_target(
    base: Seq<char>,
    suffix: Seq<char>,
    source_file: Seq<char>,
    link_base: Seq<char>,
    new_route: Seq<char>,
    new_source_file: Seq<char>,
) -> Seq<char> {
    let new_base = if starts_with(base, "@/"@) {
        "@/"@ + new_source_file
    } else if ends_with(base, ".md"@) {
        spec_relative_source_path_from_source(source_file, new_source_file)
    } else if base.len() > 0 && base[0] == '/' {
        new_route
    } else {
        spec_relative_route_from_base(link_base, new_route)
    };
    new_base + suffix
}

/// `e` edits the Markdown link `context` of `page`, or there is nothing to
/// edit: the link must name the renamed page and have a base; the page's
/// own links are rewritten as if it had moved already; no edit when the
/// target would not change.
pub open spec fn spec_link_edit(
    project: AuthoringProject,
    page: AuthoringPage,
    target_page: AuthoringPage,
    target: PageRouteRenameTarget,
    context: MarkdownTargetContext,
    e: Option<PageRouteTextEdit>,
) -> bool {
    let reaches = match spec_reference_target_route(project, page, context.kind, context.target@) {
        Some(t) => project.spec_routes_refer_to_same_page(t, target_page.route@),
        None => false,
    };
    let (base, suffix) = spec_target_base_and_suffix(context.target@);
    let same = page.source_file@ == target_page.source_file@;
    let new_target = new_link_target(
        base,
        suffix,
        if same {
            target.source_file@
        } else {
            page.source_file@
        },
        if same {
            spec_link_base_route_for_route(target.route@, page.kind)
        } else {
            page.link_base_route@
        },
        target.route@,
        target.source_file@,
    );
    if !reaches || base.len() == 0 || new_target == context.target@ {
        e is None
    } else {
        e matches Some(x) && x.range == context.range && x.new_target@ == new_target && x.path.kind_word()
            == "source"@ && x.path.path_view() == (if same {
            target.source_file@
        } else {
            page.source_file@
        })
    }
}

/// The edit that re-points the Markdown link `context` of `page` at the
/// renamed `target_page`, if it needs one.
pub fn page_route_link_edit(
    project: &AuthoringProject,
    page: &AuthoringPage,
    target_page: &AuthoringPage,
    target: &PageRouteRenameTarget,
    context: MarkdownTargetContext,
) -> (r: Option<PageRouteTextEdit>)
    ensures
        spec_link_edit(*project, *page, *target_page, *target, context, r),
{
    let reference = MarkdownReference {
        kind: context.kind,
        target: context.target.clone(),
        byte_start: context.byte_start,
        byte_end: context.byte_end,
    };
    let target_route = match reference_target_route(project, page, &reference) {
        Some(t) => t,
        None => {
            return None;
        },
    };
    if !project.routes_refer_to_same_page(target_route.as_str(), target_page.route.as_str()) {
        return None;
    }
    let (base, suffix) = target_base_and_suffix(context.target.as_str());
    let bv = to_chars(base.as_str());
    if bv.len() == 0 {
        return None;
    }
    let same = str_eq(page.source_file.as_str(), target_page.source_file.as_str());
    let effective_source_file: &str = if same {
        target.source_file.as_str()
    } else {
        page.source_file.as_str()
    };
    let effective_link_base = if same {
        link_base_route_for_route(target.route.as_str(), page.kind)
    } else {
        page.link_base_route.clone()
    };
    let mut out: Vec<char> = Vec::new();
    if starts_with_str(bv.as_slice(), "@/") {
        push_str_chars(&mut out, "@/");
        push_str_chars(&mut out, target.source_file.as_str());
    } else if ends_with_str(bv.as_slice(), ".md") {
        let rel = relative_source_path_from_source(effective_source_file, target.source_file.as_str());
        push_str_chars(&mut out, rel.as_str());
    } else if bv[0] == '/' {
        push_str_chars(&mut out, target.route.as_str());
    } else {
        let rel = relative_route_from_base(effective_link_base.as_str(), target.route.as_str());
        push_str_chars(&mut out, rel.as_str());
    }
    push_str_chars(&mut out, suffix.as_str());
    let new_target = from_chars(out.as_slice());
    if str_eq(new_target.as_str(), context.target.as_str()) {
        return None;
    }
    let path_file = from_chars(to_chars(effective_source_file).as_slice());
    Some(PageRouteTextEdit { path: AuthoringInputPath::Source(path_file), range: context.range, new_target })
}

/// `e` edits the rendered link `href` of `source_page`, or there is nothing
/// to edit: the link must have an origin, reach the renamed page, and be
/// absolute; it then gets the new route (keeping its suffix), unless that
/// changes nothing or its origin has no range.
pub open spec fn spec_rendered_href_edit(
    project: AuthoringProject,
    source_page: AuthoringPage,
    target_page: AuthoringPage,
    target: PageRouteRenameTarget,
    href: RenderedHref,
    e: Option<PageRouteTextEdit>,
) -> bool {
    let (base, suffix) = spec_target_base_and_suffix(href.href@);
    let new_target = target.route@ + suffix;
    match href.origin {
        None => e is None,
        Some(origin) => {
            let reaches = match spec_rendered_href_target_route(project, source_page, href.href@) {
                Some(t) => project.spec_routes_refer_to_same_page(t, target_page.route@),
                None => false,
            };
            if !reaches || base.len() == 0 || base[0] != '/' || new_target == href.href@ {
                e is None
            } else {
                match spec_rendered_href_origin_range(project, origin) {
                    None => e is None,
                    Some(range) => e matches Some(x) && x.range == range && x.new_target@ == new_target
                        && x.path.kind_word() == origin.path.kind_word() && x.path.path_view()
                        == origin.path.path_view(),
                }
            }
        },
    }
}

fn copy_input_path(p: &AuthoringInputPath) -> (r: AuthoringInputPath)
    ensures
        r.kind_word() == p.kind_word(),
        r.path_view() == p.path_view(),
{
    match p {
        AuthoringInputPath::Source(f) => AuthoringInputPath::Source(f.clone()),
        AuthoringInputPath::Template(f) => AuthoringInputPath::Template(f.clone()),
        AuthoringInputPath::Sass(f) => AuthoringInputPath::Sass(f.clone()),
        AuthoringInputPath::Static(f) => AuthoringInputPath::Static(f.clone()),
        AuthoringInputPath::Dist(f) => AuthoringInputPath::Dist(f.clone()),
        AuthoringInputPath::Data(f) => AuthoringInputPath::Data(f.clone()),
    }
}

/// The edit that re-points a link in `source_page`'s rendered HTML at the
/// renamed `target_page`, in the input the link was written in.
pub fn page_route_rendered_href_edit(
    project: &AuthoringProject,
    source_page: &AuthoringPage,
    target_page: &AuthoringPage,
    target: &PageRouteRenameTarget,
    href: &RenderedHref,
) -> (r: Option<PageRouteTextEdit>)
    requires
        texts_fit(*project),
    ensures
        spec_rendered_href_edit(*project, *source_page, *target_page, *target, *href, r),
{
    let origin = match &href.origin {
        Some(o) => o,
        None => {
            return None;
        },
    };
    let target_route = match rendered_href_target_route(project, source_page, href.href.as_str()) {
        Some(t) => t,
        None => {
            return None;
        },
    };
    if !project.routes_refer_to_same_page(target_route.as_str(), target_page.route.as_str()) {
        return None;
    }
    let (base, suffix) = target_base_and_suffix(href.href.as_str());
    let bv = to_chars(base.as_str());
    if bv.len() == 0 || bv[0] != '/' {
        return None;
    }
    let mut out: Vec<char> = Vec::new();
    push_str_chars(&mut out, target.route.as_str());
    push_str_chars(&mut out, suffix.as_str());
    let new_target = from_chars(out.as_slice());
    if str_eq(new_target.as_str(), href.href.as_str()) {
        return None;
    }
    match rendered_href_origin_range(project, origin) {
        Some(range) => Some(PageRouteTextEdit { path: copy_input_path(&origin.path), range, new_target }),
        None => None,
    }
}

// ---------------------------------------------------------------------------
// Ordering edits
// ---------------------------------------------------------------------------

/// The file key of an edit: its input's kind, a colon, and its path.
pub open spec fn edit_file_key(e: PageRouteTextEdit) -> Seq<char> {
    e.path.kind_word() + ":"@ + e.path.path_view()
}

/// `a` comes strictly before `b` as a position.
pub open spec fn position_lt(a: Position, b: Position) -> bool {
    a.line < b.line || (a.line == b.line && a.character < b.character)
}

/// `a` is listed no later than `b`: by file key, then start, then end,
/// then new target.
pub open spec fn edit_le(a: PageRouteTextEdit, b: PageRouteTextEdit) -> bool {
    if edit_file_key(a) != edit_file_key(b) {
        lex_le(edit_file_key(a), edit_file_key(b))
    } else if a.range.start != b.range.start {
        position_lt(a.range.start, b.range.start)
    } else if a.range.end != b.range.end {
        position_lt(a.range.end, b.range.end)
    } else {
        lex_le(a.new_target@, b.new_target@)
    }
}

/// Two edits say the same thing: same file key, range and new target.
pub open spec fn same_edit(a: PageRouteTextEdit, b: PageRouteTextEdit) -> bool {
    edit_file_key(a) == edit_file_key(b) && a.range == b.range && a.new_target@ == b.new_target@
}

proof fn lemma_edit_total(a: PageRouteTextEdit, b: PageRouteTextEdit)
    ensures
        edit_le(a, b) || edit_le(b, a),
{
    lemma_lex_total(edit_file_key(a), edit_file_key(b));
    lemma_lex_total(a.new_target@, b.new_target@);
}

proof fn lemma_edit_transitive(a: PageRouteTextEdit, b: PageRouteTextEdit, c: PageRouteTextEdit)
    requires
        edit_le(a, b),
        edit_le(b, c),
    ensures
        edit_le(a, c),
{
    let (x, y, z) = (edit_file_key(a), edit_file_key(b), edit_file_key(c));
    if x != y && y != z {
        lemma_lex_transitive(x, y, z);
        if x == z {
            lemma_lex_antisymmetric(x, y);
        }
    } else if x == y && y == z {
        if a.range == b.range && b.range == c.range {
            lemma_lex_transitive(a.new_target@, b.new_target@, c.new_target@);
        }
    }
}

fn position_less(a: Position, b: Position) -> (r: bool)
    ensures
        r == position_lt(a, b),
{
    a.line < b.line || (a.line == b.line && a.character < b.character)
}

fn edit_less(a: &PageRouteTextEdit, b: &PageRouteTextEdit) -> (r: bool)
    ensures
        r == !edit_le(*b, *a),
{
    let ka = page_route_text_edit_sort_key(&a.path);
    let kb = page_route_text_edit_sort_key(&b.path);
    if !str_eq(ka.as_str(), kb.as_str()) {
        key_less(to_chars(ka.as_str()).as_slice(), to_chars(kb.as_str()).as_slice())
    } else if a.range.start != b.range.start {
        position_less(a.range.start, b.range.start)
    } else if a.range.end != b.range.end {
        position_less(a.range.end, b.range.end)
    } else {
        key_less(to_chars(a.new_target.as_str()).as_slice(), to_chars(b.new_target.as_str()).as_slice())
    }
}

/// The edits are listed in order, with no edit repeated.
pub open spec fn edits_strictly_sorted(v: Seq<PageRouteTextEdit>) -> bool {
    forall|i: int, j: int| 0 <= i < j < v.len() ==> edit_le(#[trigger] v[i], #[trigger] v[j]) && !same_edit(v[i], v[j])
}

/// Some edit of `b` says the same as `e`.
pub open spec fn covered_by(e: PageRouteTextEdit, b: Seq<PageRouteTextEdit>) -> bool {
    exists|j: int| 0 <= j < b.len() && same_edit(e, #[trigger] b[j])
}

/// Every edit of `a` says the same as some edit of `b`.
pub open spec fn edits_covered(a: Seq<PageRouteTextEdit>, b: Seq<PageRouteTextEdit>) -> bool {
    forall|i: int| 0 <= i < a.len() ==> covered_by(#[trigger] a[i], b)
}

fn same_edit_exec(a: &PageRouteTextEdit, b: &PageRouteTextEdit) -> (r: bool)
    ensures
        r == same_edit(*a, *b),
{
    let ka = page_route_text_edit_sort_key(&a.path);
    let kb = page_route_text_edit_sort_key(&b.path);
    str_eq(ka.as_str(), kb.as_str()) && a.range == b.range && str_eq(a.new_target.as_str(), b.new_target.as_str())
}

fn insert_position(out: &Vec<PageRouteTextEdit>, e: &PageRouteTextEdit) -> (r: (usize, bool))
    requires
        edits_strictly_sorted(out@),
    ensures
        r.0 <= out@.len(),
        r.1 ==> r.0 < out@.len() && same_edit(out@[r.0 as int], *e),
        !r.1 ==> forall|j: int| 0 <= j < r.0 ==> edit_le(#[trigger] out@[j], *e) && !same_edit(out@[j], *e),
        !r.1 ==> r.0 < out@.len() ==> !edit_le(out@[r.0 as int], *e),
{
    let mut pos: usize = 0;
    while pos < out.len()
        invariant
            pos <= out.len(),
            forall|j: int| 0 <= j < pos ==> edit_le(#[trigger] out@[j], *e) && !same_edit(out@[j], *e),
        decreases out.len() - pos,
    {
        if same_edit_exec(&out[pos], e) {
            return (pos, true);
        }
        if edit_less(e, &out[pos]) {
            return (pos, false);
        }
        pos = pos + 1;
    }
    (pos, false)
}

proof fn lemma_insert_keeps_sorted(v: Seq<PageRouteTextEdit>, p: int, e: PageRouteTextEdit)
    requires
        edits_strictly_sorted(v),
        0 <= p <= v.len(),
        forall|j: int| 0 <= j < p ==> edit_le(#[trigger] v[j], e) && !same_edit(v[j], e),
        p < v.len() ==> !edit_le(v[p], e),
    ensures
        edits_strictly_sorted(v.insert(p, e)),
{
    let w = v.insert(p, e);
    assert forall|i: int, j: int| 0 <= i < j < w.len() implies edit_le(#[trigger] w[i], #[trigger] w[j])
        && !same_edit(w[i], w[j]) by {
        if j < p {
        } else if i < p && j == p {
        } else if i < p && j > p {
            assert(w[j] == v[j - 1]);
        } else if i == p {
            assert(w[j] == v[j - 1]);
            lemma_edit_total(e, v[p]);
            if j - 1 > p {
                assert(edit_le(v[p], v[j - 1]));
                lemma_edit_transitive(e, v[p], v[j - 1]);
            }
            if same_edit(e, v[j - 1]) {
                if j - 1 > p {
                    assert(edit_le(v[p], v[j - 1]));
                    lemma_edit_transitive(v[p], v[j - 1], e);
                } else {
                    lemma_lex_reflexive(e.new_target@);
                    lemma_lex_reflexive(edit_file_key(e));
                }
            }
        } else {
            assert(w[i] == v[i - 1]);
            assert(w[j] == v[j - 1]);
        }
    }
}

/// The edits in order of file, start, end and new target, each edit once:
/// every edit given says the same as one kept, and every one kept was
/// given.
pub fn sort_and_dedup_edits(v: Vec<PageRouteTextEdit>) -> (r: Vec<PageRouteTextEdit>)
    ensures
        edits_strictly_sorted(r@),
        edits_covered(v@, r@),
        edits_covered(r@, v@),
{
    let ghost original = v@;
    let mut rest = v;
    let mut out: Vec<PageRouteTextEdit> = Vec::new();
    while rest.len() > 0
        invariant
            rest@.len() <= original.len(),
            rest@ == original.take(rest@.len() as int),
            edits_strictly_sorted(out@),
            forall|i: int| 0 <= i < out@.len() ==> covered_by(#[trigger] out@[i], original),
            forall|i: int| rest@.len() <= i < original.len() ==> covered_by(#[trigger] original[i], out@),
        decreases rest.len(),
    {
        let ghost n = rest@.len() - 1;
        let ghost out_before = out@;
        let e = rest.pop().unwrap();
        assert(original[n] == e);
        assert(rest@ == original.take(n));
        let (pos, dup) = insert_position(&out, &e);
        if !dup {
            proof {
                lemma_insert_keeps_sorted(out_before, pos as int, e);
            }
            out.insert(pos, e);
        }
        let ghost p = pos as int;
        assert forall|i: int| 0 <= i < out@.len() implies covered_by(#[trigger] out@[i], original) by {
            if !dup && i == p {
                assert(same_edit(out@[i], original[n]));
            } else if !dup && i > p {
                assert(out@[i] == out_before[i - 1]);
                assert(covered_by(out_before[i - 1], original));
            } else {
                assert(out@[i] == out_before[i]);
                assert(covered_by(out_before[i], original));
            }
        }
        assert forall|i: int| n <= i < original.len() implies covered_by(#[trigger] original[i], out@) by {
            if i == n {
                assert(same_edit(original[i], out@[p]));
            } else {
                assert(covered_by(original[i], out_before));
                let j = choose|j: int| 0 <= j < out_before.len() && same_edit(original[i], #[trigger] out_before[j]);
                if dup || j < p {
                    assert(out@[j] == out_before[j]);
                } else {
                    assert(out@[j + 1] == out_before[j]);
                }
            }
        }
    }
    assert(edits_covered(original, out@));
    out
}

// ---------------------------------------------------------------------------
// The rename plan
// ---------------------------------------------------------------------------

/// A planned rename of a page: its route and source file before and after,
/// and the edits that re-point the links to it.
pub struct PageRouteRenamePlan {
    pub old_route: String,
    pub new_route: String,
    pub old_source_file: String,
    pub new_source_file: String,
    pub text_edits: Vec<PageRouteTextEdit>,
}

/// The rename of `target_page` to `target` is refused: it changes nothing,
/// its route serves another page, or (when the source file moves) its new
/// source file is another page's or already exists on disk.
pub open spec fn rename_refused(
    project: AuthoringProject,
    target_page: AuthoringPage,
    target: PageRouteRenameTarget,
    target_file_exists: bool,
) -> bool {
    let moved = target.source_file@ != target_page.source_file@;
    ||| target.route@ == target_page.route@ && !moved
    ||| (match project.spec_source_file_for_route(target.route@) {
        Some(sf) => sf != target_page.source_file@,
        None => false,
    })
    ||| key_index(project.source_to_route@, target.source_file@) is Some && moved
    ||| target_file_exists && moved
}

/// `x` is the edit that link target `j` of the source of page `i` calls
/// for.
pub open spec fn is_link_edit_at(
    project: AuthoringProject,
    target_page: AuthoringPage,
    target: PageRouteRenameTarget,
    i: int,
    j: int,
    x: PageRouteTextEdit,
) -> bool {
    0 <= i < project.pages@.len() && match str_value(project.source_contents@, project.pages@[i].source_file@) {
        Some(content) => 0 <= j < contexts_from(content, 0).len() && exists|c: MarkdownTargetContext|
            is_context(c, content, contexts_from(content, 0)[j]) && spec_link_edit(
                project,
                project.pages@[i],
                target_page,
                target,
                c,
                Some(x),
            ),
        None => false,
    }
}

/// `x` is the edit that rendered link `j` of entry `i` of the rendered
/// links calls for.
pub open spec fn is_href_edit_at(
    project: AuthoringProject,
    target_page: AuthoringPage,
    target: PageRouteRenameTarget,
    i: int,
    j: int,
    x: PageRouteTextEdit,
) -> bool {
    0 <= i < project.rendered_hrefs_by_route@.len() && match project.spec_page_for_route(
        project.rendered_hrefs_by_route@[i].0@,
    ) {
        Some(p) => 0 <= j < project.rendered_hrefs_by_route@[i].1@.len() && spec_rendered_href_edit(
            project,
            project.pages@[p],
            target_page,
            target,
            project.rendered_hrefs_by_route@[i].1@[j],
            Some(x),
        ),
        None => false,
    }
}

/// `x` is an edit that renaming `target_page` to `target` calls for: some
/// Markdown link or some rendered link names the page.
pub open spec fn is_rename_edit(
    project: AuthoringProject,
    target_page: AuthoringPage,
    target: PageRouteRenameTarget,
    x: PageRouteTextEdit,
) -> bool {
    ||| exists|i: int, j: int| #[trigger] is_link_edit_at(project, target_page, target, i, j, x)
    ||| exists|i: int, j: int| #[trigger] is_href_edit_at(project, target_page, target, i, j, x)
}

/// Some edit that the rename calls for says the same as `e`.
pub open spec fn is_called_for(
    project: AuthoringProject,
    target_page: AuthoringPage,
    target: PageRouteRenameTarget,
    e: PageRouteTextEdit,
) -> bool {
    exists|x: PageRouteTextEdit| is_rename_edit(project, target_page, target, x) && same_edit(x, e)
}

proof fn lemma_link_edit_determined(
    project: AuthoringProject,
    page: AuthoringPage,
    target_page: AuthoringPage,
    target: PageRouteRenameTarget,
    c1: MarkdownTargetContext,
    c2: MarkdownTargetContext,
    r: Option<PageRouteTextEdit>,
    x: PageRouteTextEdit,
)
    requires
        c1.kind == c2.kind,
        c1.target@ == c2.target@,
        c1.range == c2.range,
        spec_link_edit(project, page, target_page, target, c1, r),
        spec_link_edit(project, page, target_page, target, c2, Some(x)),
    ensures
        r matches Some(e) && same_edit(e, x),
{
}

proof fn lemma_covered_push(x: PageRouteTextEdit, s: Seq<PageRouteTextEdit>, e: PageRouteTextEdit)
    requires
        covered_by(x, s),
    ensures
        covered_by(x, s.push(e)),
{
    let j = choose|j: int| 0 <= j < s.len() && same_edit(x, #[trigger] s[j]);
    assert(s.push(e)[j] == s[j]);
}

fn copy_string(s: &String) -> (r: String)
    ensures
        r@ == s@,
{
    from_chars(to_chars(s.as_str()).as_slice())
}

/// The rename of `target_page` to `target` (where `target_file_exists`
/// tells whether the new source file exists on disk): none when refused;
/// else the old and new route and source file, and every edit that the
/// Markdown links and rendered links naming the page call for, once each,
/// in order of file, range and new target.
pub fn page_route_rename_plan(
    project: &AuthoringProject,
    target_page: &AuthoringPage,
    target: &PageRouteRenameTarget,
    target_file_exists: bool,
) -> (r: Option<PageRouteRenamePlan>)
    requires
        texts_fit(*project),
    ensures
        r is None <==> rename_refused(*project, *target_page, *target, target_file_exists),
        r matches Some(plan) ==> plan.old_route@ == target_page.route@ && plan.new_route@ == target.route@
            && plan.old_source_file@ == target_page.source_file@ && plan.new_source_file@ == target.source_file@,
        r matches Some(plan) ==> edits_strictly_sorted(plan.text_edits@),
        r matches Some(plan) ==> forall|k: int|
            0 <= k < plan.text_edits@.len() ==> is_called_for(*project, *target_page, *target, #[trigger] plan.text_edits@[k]),
        r matches Some(plan) ==> forall|x: PageRouteTextEdit|
            is_rename_edit(*project, *target_page, *target, x) ==> covered_by(x, plan.text_edits@),
{
    let moved = !str_eq(target.source_file.as_str(), target_page.source_file.as_str());
    if str_eq(target.route.as_str(), target_page.route.as_str()) && !moved {
        return None;
    }
    match project.source_file_for_route(target.route.as_str()) {
        Some(sf) => {
            if !str_eq(sf, target_page.source_file.as_str()) {
                return None;
            }
        },
        None => {},
    }
    if find_key(&project.source_to_route, target.source_file.as_str()).is_some() && moved {
        return None;
    }
    if target_file_exists && moved {
        return None;
    }
    let mut edits: Vec<PageRouteTextEdit> = Vec::new();
    let mut i: usize = 0;
    while i < project.pages.len()
        invariant
            i <= project.pages.len(),
            texts_fit(*project),
            forall|k: int| 0 <= k < edits@.len() ==> is_rename_edit(*project, *target_page, *target, #[trigger] edits@[k]),
            forall|i2: int, j: int, x: PageRouteTextEdit|
                #[trigger] is_link_edit_at(*project, *target_page, *target, i2, j, x) && i2 < i ==> covered_by(x, edits@),
        decreases project.pages.len() - i,
    {
        let page = &project.pages[i];
        match find_key(&project.source_contents, page.source_file.as_str()) {
            Some(k) => {
                let content = project.source_contents[k].1.as_str();
                let ghost cv = content@;
                assert(str_value(project.source_contents@, project.pages@[i as int].source_file@) == Some(cv));
                assert(cv.len() < u32::MAX && byte_len(cv) <= usize::MAX) by {
                    assert(project.source_contents@[k as int].1@ == cv);
                }
                let mut contexts = markdown_target_contexts(content);
                let ghost cs0 = contexts@;
                let ghost all = contexts_from(cv, 0);
                while contexts.len() > 0
                    invariant
                        texts_fit(*project),
                        i < project.pages.len(),
                        page == &project.pages@[i as int],
                        str_value(project.source_contents@, project.pages@[i as int].source_file@) == Some(cv),
                        all == contexts_from(cv, 0),
                        cs0.len() == all.len(),
                        forall|m: int| 0 <= m < cs0.len() ==> is_context(#[trigger] cs0[m], cv, all[m]),
                        contexts@.len() <= cs0.len(),
                        contexts@ == cs0.take(contexts@.len() as int),
                        forall|k2: int|
                            0 <= k2 < edits@.len() ==> is_rename_edit(*project, *target_page, *target, #[trigger] edits@[k2]),
                        forall|i2: int, j: int, x: PageRouteTextEdit|
                            #[trigger] is_link_edit_at(*project, *target_page, *target, i2, j, x) && (i2 < i || (i2
                                == i && j >= contexts@.len())) ==> covered_by(x, edits@),
                    decreases contexts.len(),
                {
                    let ghost m = contexts@.len() - 1;
                    let ghost before = edits@;
                    let ghost cbefore = contexts@;
                    let c = contexts.pop().unwrap();
                    assert(cbefore == contexts@.push(c));
                    assert(c == cbefore[m]);
                    assert(cbefore[m] == cs0[m]);
                    assert(contexts@ == cs0.take(contexts@.len() as int));
                    let r = page_route_link_edit(project, page, target_page, target, c);
                    match r {
                        Some(e) => {
                            edits.push(e);
                            proof {
                                assert(is_link_edit_at(*project, *target_page, *target, i as int, m, e));
                            }
                        },
                        None => {},
                    }
                    proof {
                        assert forall|i2: int, j: int, x: PageRouteTextEdit|
                            #[trigger] is_link_edit_at(*project, *target_page, *target, i2, j, x) && (i2 < i || (i2
                                == i && j >= contexts@.len())) implies covered_by(x, edits@) by {
                            if i2 < i || j > m {
                                assert(covered_by(x, before));
                                if edits@ != before {
                                    lemma_covered_push(x, before, edits@.last());
                                    assert(edits@ == before.push(edits@.last()));
                                }
                            } else {
                                let c2 = choose|c2: MarkdownTargetContext|
                                    is_context(c2, cv, all[j]) && spec_link_edit(
                                        *project,
                                        project.pages@[i2],
                                        *target_page,
                                        *target,
                                        c2,
                                        Some(x),
                                    );
                                lemma_link_edit_determined(*project, *page, *target_page, *target, c, c2, r, x);
                                assert(same_edit(x, edits@[edits@.len() - 1]));
                            }
                        }
                        assert forall|k2: int|
                            0 <= k2 < edits@.len() implies is_rename_edit(*project, *target_page, *target, #[trigger] edits@[k2]) by {
                            if k2 < before.len() {
                                assert(edits@[k2] == before[k2]);
                            }
                        }
                    }
                }
            },
            None => {},
        }
        i = i + 1;
    }
    let mut h: usize = 0;
    while h < project.rendered_hrefs_by_route.len()
        invariant
            h <= project.rendered_hrefs_by_route.len(),
            texts_fit(*project),
            forall|k: int| 0 <= k < edits@.len() ==> is_rename_edit(*project, *target_page, *target, #[trigger] edits@[k]),
            forall|i2: int, j: int, x: PageRouteTextEdit|
                #[trigger] is_link_edit_at(*project, *target_page, *target, i2, j, x) ==> covered_by(x, edits@),
            forall|i2: int, j: int, x: PageRouteTextEdit|
                #[trigger] is_href_edit_at(*project, *target_page, *target, i2, j, x) && i2 < h ==> covered_by(x, edits@),
        decreases project.rendered_hrefs_by_route.len() - h,
    {
        let entry = &project.rendered_hrefs_by_route[h];
        match project.page_for_route(entry.0.as_str()) {
            Some(source_page) => {
                let hrefs = &entry.1;
                let mut j: usize = 0;
                while j < hrefs.len()
                    invariant
                        h < project.rendered_hrefs_by_route.len(),
                        texts_fit(*project),
                        entry == &project.rendered_hrefs_by_route@[h as int],
                        hrefs == &entry.1,
                        project.spec_page_for_route(entry.0@) matches Some(p) && source_page == &project.pages@[p],
                        forall|k: int|
                            0 <= k < edits@.len() ==> is_rename_edit(*project, *target_page, *target, #[trigger] edits@[k]),
                        forall|i2: int, j2: int, x: PageRouteTextEdit|
                            #[trigger] is_link_edit_at(*project, *target_page, *target, i2, j2, x) ==> covered_by(x, edits@),
                        forall|i2: int, j2: int, x: PageRouteTextEdit|
                            #[trigger] is_href_edit_at(*project, *target_page, *target, i2, j2, x) && (i2 < h || (i2 == h
                                && j2 < j)) ==> covered_by(x, edits@),
                    decreases hrefs.len() - j,
                {
                    let ghost before = edits@;
                    let r = page_route_rendered_href_edit(project, source_page, target_page, target, &hrefs[j]);
                    match r {
                        Some(e) => {
                            edits.push(e);
                            proof {
                                assert(is_href_edit_at(*project, *target_page, *target, h as int, j as int, e));
                            }
                        },
                        None => {},
                    }
                    proof {
                        assert forall|i2: int, j2: int, x: PageRouteTextEdit|
                            #[trigger] is_link_edit_at(*project, *target_page, *target, i2, j2, x) implies covered_by(
                            x,
                            edits@,
                        ) by {
                            assert(covered_by(x, before));
                            if edits@ != before {
                                lemma_covered_push(x, before, edits@.last());
                                assert(edits@ == before.push(edits@.last()));
                            }
                        }
                        assert forall|i2: int, j2: int, x: PageRouteTextEdit|
                            #[trigger] is_href_edit_at(*project, *target_page, *target, i2, j2, x) && (i2 < h || (i2
                                == h && j2 < j + 1)) implies covered_by(x, edits@) by {
                            if i2 < h || j2 < j {
                                assert(covered_by(x, before));
                                if edits@ != before {
                                    lemma_covered_push(x, before, edits@.last());
                                    assert(edits@ == before.push(edits@.last()));
                                }
                            } else {
                                assert(same_edit(x, edits@[edits@.len() - 1]));
                            }
                        }
                        assert forall|k2: int|
                            0 <= k2 < edits@.len() implies is_rename_edit(*project, *target_page, *target, #[trigger] edits@[k2]) by {
                            if k2 < before.len() {
                                assert(edits@[k2] == before[k2]);
                            }
                        }
                    }
                    j = j + 1;
                }
            },
            None => {},
        }
        h = h + 1;
    }
    let ghost collected = edits@;
    let text_edits = sort_and_dedup_edits(edits);
    let plan = PageRouteRenamePlan {
        old_route: copy_string(&target_page.route),
        new_route: copy_string(&target.route),
        old_source_file: copy_string(&target_page.source_file),
        new_source_file: copy_string(&target.source_file),
        text_edits,
    };
    proof {
        assert forall|k: int| 0 <= k < plan.text_edits@.len() implies is_called_for(*project, *target_page, *target, #[trigger] plan.text_edits@[k]) by {
            assert(covered_by(plan.text_edits@[k], collected));
            let j = choose|j: int| 0 <= j < collected.len() && same_edit(plan.text_edits@[k], #[trigger] collected[j]);
            assert(is_rename_edit(*project, *target_page, *target, collected[j]));
        }
        assert forall|x: PageRouteTextEdit| is_rename_edit(*project, *target_page, *target, x) implies covered_by(
            x,
            plan.text_edits@,
        ) by {
            if exists|i2: int, j: int| #[trigger] is_link_edit_at(*project, *target_page, *target, i2, j, x) {
                let (i2, j) = choose|i2: int, j: int| #[trigger] is_link_edit_at(*project, *target_page, *target, i2, j, x);
                assert(covered_by(x, collected));
            } else {
                let (i2, j) = choose|i2: int, j: int| #[trigger] is_href_edit_at(*project, *target_page, *target, i2, j, x);
                assert(covered_by(x, collected));
            }
            let j = choose|j: int| 0 <= j < collected.len() && same_edit(x, #[trigger] collected[j]);
            assert(covered_by(collected[j], plan.text_edits@));
            let l = choose|l: int| 0 <= l < plan.text_edits@.len() && same_edit(collected[j], #[trigger] plan.text_edits@[l]);
            assert(same_edit(x, plan.text_edits@[l]));
        }
    }
    assert(!rename_refused(*project, *target_page, *target, target_file_exists));
    assert(edits_strictly_sorted(plan.text_edits@));
    Some(plan)
}

} // verus!

verus! {

/// Renaming keeps what follows a link's path: the new target of a rendered
/// link's edit is the new route followed by the part of the old href from
/// its first `#` or `?` on (nothing when it has neither).
pub proof fn law_rendered_href_edit_keeps_fragment_and_query(
    project: AuthoringProject,
    source_page: AuthoringPage,
    target_page: AuthoringPage,
    target: PageRouteRenameTarget,
    href: RenderedHref,
    edit: PageRouteTextEdit,
    cut: int,
)
    requires
        spec_rendered_href_edit(project, source_page, target_page, target, href, Some(edit)),
        0 <= cut <= href.href@.len(),
        forall|j: int| 0 <= j < cut ==> href.href@[j] != '#' && href.href@[j] != '?',
        cut == href.href@.len() || href.href@[cut] == '#' || href.href@[cut] == '?',
    ensures
        edit.new_target@ == target.route@ + href.href@.skip(cut),
{
    crate::links::law_target_splits_at_first_fragment_or_query(href.href@, cut);
}

/// Renaming keeps what follows a Markdown link's path: the new target of
/// the edit ends with the part of the old target from its first `#` or `?`
/// on, and an absolute link to a page (not a `.md` path) becomes the new
/// route followed by that part.
pub proof fn law_link_edit_keeps_fragment_and_query(
    project: AuthoringProject,
    page: AuthoringPage,
    target_page: AuthoringPage,
    target: PageRouteRenameTarget,
    context: MarkdownTargetContext,
    edit: PageRouteTextEdit,
    cut: int,
)
    requires
        spec_link_edit(project, page, target_page, target, context, Some(edit)),
        0 <= cut <= context.target@.len(),
        forall|j: int| 0 <= j < cut ==> context.target@[j] != '#' && context.target@[j] != '?',
        cut == context.target@.len() || context.target@[cut] == '#' || context.target@[cut] == '?',
    ensures
        context.target@.len() - cut <= edit.new_target@.len(),
        edit.new_target@.subrange(
            edit.new_target@.len() - (context.target@.len() - cut),
            edit.new_target@.len() as int,
        ) == context.target@.skip(cut),
        0 < cut && context.target@[0] == '/' && !ends_with(context.target@.take(cut), ".md"@)
            ==> edit.new_target@ == target.route@ + context.target@.skip(cut),
{
    crate::links::law_target_splits_at_first_fragment_or_query(context.target@, cut);
    let t = context.target@;
    let suffix = t.skip(cut);
    let nt = edit.new_target@;
    let nb = nt.take(nt.len() - suffix.len());
    assert(nt.subrange(nt.len() - suffix.len(), nt.len() as int) =~= suffix);
    if 0 < cut && t[0] == '/' {
        let base = t.take(cut);
        assert(base[0] == '/');
        if starts_with(base, "@/"@) {
            reveal_strlit("@/");
            assert(base.subrange(0, 2) == "@/"@);
            assert(base.subrange(0, 2)[0] == base[0]);
            assert("@/"@[0] == '@');
        }
    }
}

} // verus!
