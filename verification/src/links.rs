//! Route arithmetic of the editor's link tooling: the segments and parent of
//! a route, the relative link from one route to another, and the source file
//! a new page or section at a route would live in.
use vstd::prelude::*;

use crate::config::trim_char;
use crate::model::{AuthoringPage, AuthoringPageKind};
use crate::paths::{camino_parent, path_parent};
use crate::routes::{ends_with_str, normalize_route, source_file_for_new_route, spec_normalize_route, spec_source_file_for_new_route, split_pieces};
use crate::text::{extend_chars, find_char, first_index, from_chars, is_first_char_in, join, join_exec, push_str_chars, split, str_eq, sub_chars, to_chars, views, chars_eq, ends_with};

verus! {

/// The non-empty pieces, in order.
pub open spec fn nonempty_pieces(pieces: Seq<Seq<char>>) -> Seq<Seq<char>>
    decreases pieces.len(),
{
    if pieces.len() == 0 {
        Seq::empty()
    } else if pieces.last().len() == 0 {
        nonempty_pieces(pieces.drop_last())
    } else {
        nonempty_pieces(pieces.drop_last()).push(pieces.last())
    }
}

/// The segments of a route: its non-empty `/`-separated parts once the
/// surrounding slashes are trimmed.
pub open spec fn spec_route_segments(route: Seq<char>) -> Seq<Seq<char>> {
    nonempty_pieces(split(trim_char(route, '/'), '/'))
}

pub fn keep_nonempty(pieces: Vec<Vec<char>>) -> (r: Vec<Vec<char>>)
    ensures
        views(r@) == nonempty_pieces(views(pieces@)),
{
    let ghost pv = views(pieces@);
    let mut out: Vec<Vec<char>> = Vec::new();
    let mut i: usize = 0;
    while i < pieces.len()
        invariant
            i <= pieces.len(),
            pv == views(pieces@),
            views(out@) == nonempty_pieces(pv.take(i as int)),
        decreases pieces.len() - i,
    {
        assert(pv.take(i + 1 as int).drop_last() == pv.take(i as int));
        assert(pv.take(i + 1 as int).last() == pieces@[i as int]@);
        if pieces[i].len() > 0 {
            let ghost before = out@;
            out.push(pieces[i].clone());
            assert(views(out@) == views(before).push(pieces@[i as int]@));
        }
        i = i + 1;
    }
    assert(pv.take(pieces.len() as int) == pv);
    out
}

fn segments_chars(route: &str) -> (r: Vec<Vec<char>>)
    ensures
        views(r@) == spec_route_segments(route@),
{
    let v = to_chars(route);
    let trimmed = crate::config::trim_char_exec(v.as_slice(), '/');
    keep_nonempty(split_pieces(trimmed.as_slice(), '/'))
}

/// The segments of a route.
pub fn route_segments(route: &str) -> (r: Vec<String>)
    ensures
        r@.len() == spec_route_segments(route@).len(),
        forall|i: int| 0 <= i < r@.len() ==> (#[trigger] r@[i])@ == spec_route_segments(route@)[i],
{
    let segs = segments_chars(route);
    let mut out: Vec<String> = Vec::new();
    let mut i: usize = 0;
    while i < segs.len()
        invariant
            i <= segs.len(),
            views(segs@) == spec_route_segments(route@),
            out@.len() == i,
            forall|k: int| 0 <= k < i ==> (#[trigger] out@[k])@ == spec_route_segments(route@)[k],
        decreases segs.len() - i,
    {
        out.push(from_chars(segs[i].as_slice()));
        i = i + 1;
    }
    out
}

/// The parent of a route: `/` for the root and for top-level routes, else
/// the normalised route without its last segment.
pub open spec fn spec_route_parent(route: Seq<char>) -> Seq<char> {
    let parts = spec_route_segments(spec_normalize_route(route));
    if parts.len() <= 1 {
        seq!['/']
    } else {
        seq!['/'] + join(parts.drop_last(), seq!['/'])
    }
}

/// The parent of a route.
pub fn route_parent(route: &str) -> (r: String)
    ensures
        r@ == spec_route_parent(route@),
{
    let n = normalize_route(route);
    let mut parts = segments_chars(n.as_str());
    let mut out: Vec<char> = Vec::new();
    out.push('/');
    if parts.len() > 1 {
        let ghost pv = views(parts@);
        parts.pop();
        assert(views(parts@) == pv.drop_last());
        let slash: Vec<char> = vec!['/'];
        assert(slash@ == seq!['/']);
        let joined = join_exec(&parts, slash.as_slice());
        extend_chars(&mut out, joined.as_slice());
    }
    from_chars(out.as_slice())
}

/// The route relative links of a page resolve against: a page's parent, or
/// a section's own (normalised) route.
pub open spec fn spec_link_base_route_for_route(route: Seq<char>, kind: AuthoringPageKind) -> Seq<char> {
    match kind {
        AuthoringPageKind::Page => spec_route_parent(route),
        AuthoringPageKind::Section => spec_normalize_route(route),
    }
}

/// The route relative links of a page at `route` resolve against.
pub fn link_base_route_for_route(route: &str, kind: AuthoringPageKind) -> (r: String)
    ensures
        r@ == spec_link_base_route_for_route(route@, kind),
{
    match kind {
        AuthoringPageKind::Page => route_parent(route),
        AuthoringPageKind::Section => normalize_route(route),
    }
}

/// How many leading segments two routes share.
pub open spec fn shared_prefix_len(a: Seq<Seq<char>>, b: Seq<Seq<char>>, n: int) -> bool {
    &&& 0 <= n <= a.len()
    &&& n <= b.len()
    &&& forall|i: int| 0 <= i < n ==> a[i] == b[i]
    &&& (n == a.len() || n == b.len() || a[n] != b[n])
}

/// The link from `base` to `target`: `/` for the root; otherwise `..` for
/// each segment of the base past the shared ones, then the target's own
/// remaining segments, joined with `/` (`.` when nothing is left).
pub open spec fn spec_relative_route_from_base(base: Seq<char>, target: Seq<char>) -> Seq<char> {
    if target == seq!['/'] {
        seq!['/']
    } else {
        spec_relative_join(spec_route_segments(base), spec_route_segments(target))
    }
}

/// The relative path from the directory with segments `b` to the path with
/// segments `t`: `..` for each segment of `b` past the shared ones, then
/// the remaining segments of `t`, joined with `/` (`.` when nothing is
/// left).
pub open spec fn spec_relative_join(b: Seq<Seq<char>>, t: Seq<Seq<char>>) -> Seq<char> {
    let n = choose|n: int| shared_prefix_len(b, t, n);
    let parts = Seq::new((b.len() - n) as nat, |i: int| seq!['.', '.']) + t.skip(n);
    if parts.len() == 0 {
        seq!['.']
    } else {
        join(parts, seq!['/'])
    }
}

proof fn lemma_shared_prefix_len(a: Seq<Seq<char>>, b: Seq<Seq<char>>, n: int)
    requires
        shared_prefix_len(a, b, n),
    ensures
        (choose|m: int| shared_prefix_len(a, b, m)) == n,
{
    let m = choose|m: int| shared_prefix_len(a, b, m);
    assert(shared_prefix_len(a, b, m));
    if m < n {
        assert(a[m] == b[m]);
    }
    if n < m {
        assert(a[n] == b[n]);
    }
}

/// The link from `base_route` to `target_route` as a relative path.
pub fn relative_route_from_base(base_route: &str, target_route: &str) -> (r: String)
    ensures
        r@ == spec_relative_route_from_base(base_route@, target_route@),
{
    if str_eq(target_route, "/") {
        proof {
            reveal_strlit("/");
            assert("/"@ =~= seq!['/']);
        }
        return from_chars(to_chars("/").as_slice());
    }
    proof {
        reveal_strlit("/");
        assert("/"@ =~= seq!['/']);
    }
    let b = segments_chars(base_route);
    let t = segments_chars(target_route);
    relative_join_exec(&b, &t)
}

fn relative_join_exec(b: &Vec<Vec<char>>, t: &Vec<Vec<char>>) -> (r: String)
    ensures
        r@ == spec_relative_join(views(b@), views(t@)),
{
    let ghost bv = views(b@);
    let ghost tv = views(t@);
    let mut n: usize = 0;
    while n < b.len() && n < t.len() && crate::text::chars_eq(b[n].as_slice(), t[n].as_slice())
        invariant
            n <= b.len(),
            n <= t.len(),
            bv == views(b@),
            tv == views(t@),
            forall|i: int| 0 <= i < n ==> bv[i] == tv[i],
        decreases b.len() - n,
    {
        n = n + 1;
    }
    proof {
        lemma_shared_prefix_len(bv, tv, n as int);
    }
    let mut parts: Vec<Vec<char>> = Vec::new();
    let mut i: usize = n;
    while i < b.len()
        invariant
            n <= i <= b.len(),
            views(parts@) == Seq::new((i - n) as nat, |k: int| seq!['.', '.']),
        decreases b.len() - i,
    {
        let dd: Vec<char> = vec!['.', '.'];
        assert(dd@ == seq!['.', '.']);
        let ghost before = views(parts@);
        parts.push(dd);
        assert(views(parts@) == before.push(seq!['.', '.']));
        assert(views(parts@) =~= Seq::new((i + 1 - n) as nat, |k: int| seq!['.', '.']));
        i = i + 1;
    }
    let ghost ups = views(parts@);
    let mut j: usize = n;
    while j < t.len()
        invariant
            n <= j <= t.len(),
            tv == views(t@),
            views(parts@) == ups + tv.skip(n as int).take(j - n),
        decreases t.len() - j,
    {
        let ghost before = views(parts@);
        parts.push(t[j].clone());
        assert(views(parts@) == before.push(tv[j as int]));
        assert(tv.skip(n as int).take(j + 1 - n) == tv.skip(n as int).take(j - n).push(tv[j as int]));
        j = j + 1;
    }
    assert(tv.skip(n as int).take(t.len() - n) == tv.skip(n as int));
    if parts.len() == 0 {
        let dot: Vec<char> = vec!['.'];
        assert(dot@ == seq!['.']);
        return from_chars(dot.as_slice());
    }
    let slash: Vec<char> = vec!['/'];
    assert(slash@ == seq!['/']);
    let joined = join_exec(&parts, slash.as_slice());
    from_chars(joined.as_slice())
}

/// The directory pieces of a source file: the non-empty `/`-separated
/// parts of its parent directory (none when it has no parent).
pub open spec fn source_dir_pieces(source_file: Seq<char>) -> Seq<Seq<char>> {
    nonempty_pieces(split(
        match camino_parent(source_file) {
            Some(p) => p,
            None => Seq::empty(),
        },
        '/',
    ))
}

/// The relative path from the directory of `source_file` to
/// `target_source_file` (both relative to the content directory).
pub open spec fn spec_relative_source_path_from_source(
    source_file: Seq<char>,
    target_source_file: Seq<char>,
) -> Seq<char> {
    spec_relative_join(source_dir_pieces(source_file), nonempty_pieces(split(target_source_file, '/')))
}

/// The path of `target_source_file` relative to the directory of
/// `source_file`, as a Markdown link from one source to the other spells it.
pub fn relative_source_path_from_source(source_file: &str, target_source_file: &str) -> (r: String)
    ensures
        r@ == spec_relative_source_path_from_source(source_file@, target_source_file@),
{
    let parent: Vec<char> = match path_parent(source_file) {
        Some(p) => to_chars(p.as_str()),
        None => Vec::new(),
    };
    let b = keep_nonempty(split_pieces(parent.as_slice(), '/'));
    let t = keep_nonempty(split_pieces(to_chars(target_source_file).as_slice(), '/'));
    relative_join_exec(&b, &t)
}

/// The target to complete a link with: an absolute route where the link
/// being typed is absolute, else the route relative to the page's link base.
pub fn route_completion_text(page: &AuthoringPage, current_target: &str, target_route: &str) -> (r:
    String)
    ensures
        r@ == if current_target@.len() > 0 && current_target@[0] == '/' {
            target_route@
        } else {
            spec_relative_route_from_base(page.link_base_route@, target_route@)
        },
{
    let cv = to_chars(current_target);
    if cv.len() > 0 && cv[0] == '/' {
        from_chars(to_chars(target_route).as_slice())
    } else {
        relative_route_from_base(page.link_base_route.as_str(), target_route)
    }
}

/// A path relative to the content directory names a valid place: it is not
/// empty and none of its `/`-separated parts is empty, `.`, `..`, or holds a
/// backslash or a colon.
pub open spec fn spec_valid_relative_path(relative: Seq<char>) -> bool {
    &&& relative.len() > 0
    &&& forall|k: int|
        0 <= k < split(relative, '/').len() ==> {
            let s = #[trigger] split(relative, '/')[k];
            &&& s.len() > 0
            &&& s != seq!['.']
            &&& s != seq!['.', '.']
            &&& !crate::routes::has_forbidden_char(s)
        }
}

/// `Some(())` when `relative` is a valid content-relative path.
pub fn validate_route_relative_path(relative: &str) -> (r: Option<()>)
    ensures
        r is Some <==> spec_valid_relative_path(relative@),
{
    let v = to_chars(relative);
    if v.len() == 0 {
        return None;
    }
    let parts = split_pieces(v.as_slice(), '/');
    let mut k: usize = 0;
    while k < parts.len()
        invariant
            k <= parts.len(),
            v@ == relative@,
            views(parts@) == split(relative@, '/'),
            forall|j: int|
                0 <= j < k ==> {
                    let s = #[trigger] split(relative@, '/')[j];
                    &&& s.len() > 0
                    &&& s != seq!['.']
                    &&& s != seq!['.', '.']
                    &&& !crate::routes::has_forbidden_char(s)
                },
        decreases parts.len() - k,
    {
        let p = &parts[k];
        assert(p@ == split(relative@, '/')[k as int]);
        if p.len() == 0 {
            return None;
        }
        if p.len() == 1 && p[0] == '.' {
            assert(p@ =~= seq!['.']);
            return None;
        }
        if p.len() == 2 && p[0] == '.' && p[1] == '.' {
            assert(p@ =~= seq!['.', '.']);
            return None;
        }
        if crate::routes::has_forbidden_char_exec(p.as_slice()) {
            return None;
        }
        k = k + 1;
    }
    Some(())
}

/// A Markdown source file named relative to the content directory: ends in
/// `.md`, is not absolute, and is a valid path once `.md` is dropped.
pub open spec fn spec_valid_markdown_source_file(f: Seq<char>) -> bool {
    &&& ends_with(f, ".md"@)
    &&& !(f.len() > 0 && f[0] == '/')
    &&& spec_valid_relative_path(f.take(f.len() - 3))
}

/// `Some(())` when `source_file` is a valid Markdown source file name.
pub fn validate_markdown_source_file(source_file: &str) -> (r: Option<()>)
    ensures
        r is Some <==> spec_valid_markdown_source_file(source_file@),
{
    let v = to_chars(source_file);
    proof {
        reveal_strlit(".md");
    }
    if !ends_with_str(v.as_slice(), ".md") {
        return None;
    }
    if v.len() > 0 && v[0] == '/' {
        return None;
    }
    let stem = from_chars(sub_chars(v.as_slice(), 0, v.len() - 3).as_slice());
    validate_route_relative_path(stem.as_str())
}

/// The index file of a new section at `route`: the normalised route without
/// its leading `/`, then `/_index.md`; none for the root or an invalid path.
pub open spec fn spec_source_file_for_new_section_route(route: Seq<char>) -> Option<Seq<char>> {
    let n = spec_normalize_route(route);
    let relative = n.skip(1);
    if relative.len() == 0 || !spec_valid_relative_path(relative) {
        None
    } else {
        Some(relative + "/_index.md"@)
    }
}

/// The index file a new section at `route` would live in.
pub fn source_file_for_new_section_route(route: &str) -> (r: Option<String>)
    ensures
        match spec_source_file_for_new_section_route(route@) {
            Some(f) => r matches Some(x) && x@ == f,
            None => r is None,
        },
{
    let n = normalize_route(route);
    let nv = to_chars(n.as_str());
    assert(nv@.len() > 0 && nv@[0] == '/');
    let relative = from_chars(sub_chars(nv.as_slice(), 1, nv.len()).as_slice());
    assert(relative@ == n@.skip(1));
    if relative.as_str().unicode_len() == 0 {
        return None;
    }
    match validate_route_relative_path(relative.as_str()) {
        None => None,
        Some(()) => {
            let mut out = to_chars(relative.as_str());
            push_str_chars(&mut out, "/_index.md");
            Some(from_chars(out.as_slice()))
        },
    }
}

/// The source file a new page of the given kind at `route` would live in.
pub fn source_file_for_page_route(route: &str, kind: AuthoringPageKind) -> (r: Option<String>)
    ensures
        match (match kind {
            AuthoringPageKind::Page => spec_source_file_for_new_route(route@),
            AuthoringPageKind::Section => spec_source_file_for_new_section_route(route@),
        }) {
            Some(f) => r matches Some(x) && x@ == f,
            None => r is None,
        },
{
    match kind {
        AuthoringPageKind::Page => source_file_for_new_route(route),
        AuthoringPageKind::Section => source_file_for_new_section_route(route),
    }
}

/// A link target split before its first `#` or `?`, whichever comes first:
/// the path and the suffix that starts there (empty when there is neither).
pub open spec fn spec_target_base_and_suffix(target: Seq<char>) -> (Seq<char>, Seq<char>) {
    let cut = match (first_index(target, '#'), first_index(target, '?')) {
        (Some(a), Some(b)) => if a < b {
            a
        } else {
            b
        },
        (Some(a), None) => a,
        (None, Some(b)) => b,
        (None, None) => target.len() as int,
    };
    (target.take(cut), target.skip(cut))
}

/// The path of a link target is everything before its first `#` or `?`,
/// and the suffix is the rest, from that character on (empty when the
/// target has neither).
pub proof fn law_target_splits_at_first_fragment_or_query(target: Seq<char>, c: int)
    requires
        0 <= c <= target.len(),
        forall|j: int| 0 <= j < c ==> target[j] != '#' && target[j] != '?',
        c == target.len() || target[c] == '#' || target[c] == '?',
    ensures
        spec_target_base_and_suffix(target) == (target.take(c), target.skip(c)),
{
    if c == target.len() {
        crate::text::lemma_no_first_index(target, '#');
        crate::text::lemma_no_first_index(target, '?');
    } else if target[c] == '#' {
        crate::text::lemma_first_index(target, '#', c);
        if exists|i: int| is_first_char_in(target, '?', i) {
            let b = choose|i: int| is_first_char_in(target, '?', i);
            crate::text::lemma_first_index(target, '?', b);
        }
    } else {
        crate::text::lemma_first_index(target, '?', c);
        if exists|i: int| is_first_char_in(target, '#', i) {
            let a = choose|i: int| is_first_char_in(target, '#', i);
            crate::text::lemma_first_index(target, '#', a);
        }
    }
}

/// Splits a link target into its path and its fragment-or-query suffix.
pub fn target_base_and_suffix(target: &str) -> (r: (String, String))
    ensures
        (r.0@, r.1@) == spec_target_base_and_suffix(target@),
{
    let v = to_chars(target);
    let cut = match (find_char(v.as_slice(), '#'), find_char(v.as_slice(), '?')) {
        (Some(a), Some(b)) => if a < b {
            a
        } else {
            b
        },
        (Some(a), None) => a,
        (None, Some(b)) => b,
        (None, None) => v.len(),
    };
    assert(cut <= v.len());
    let base = sub_chars(v.as_slice(), 0, cut);
    let suffix = sub_chars(v.as_slice(), cut, v.len());
    assert(base@ == v@.take(cut as int));
    assert(suffix@ == v@.skip(cut as int));
    (from_chars(base.as_slice()), from_chars(suffix.as_slice()))
}

// ---------------------------------------------------------------------------
// Completed links lead where they were meant to
// ---------------------------------------------------------------------------

/// A clean route segment: not empty, not `.` or `..`, without `/`.
pub open spec fn clean_segment(seg: Seq<char>) -> bool {
    &&& seg.len() > 0
    &&& seg != crate::routes::dot()
    &&& seg != crate::routes::dot_dot()
    &&& crate::routes::free_of(seg, '/')
}

/// The first character of a join is that of its first part.
proof fn lemma_join_first(parts: Seq<Seq<char>>, sep: Seq<char>)
    requires
        parts.len() >= 1,
        parts[0].len() > 0,
    ensures
        join(parts, sep).len() > 0,
        join(parts, sep)[0] == parts[0][0],
    decreases parts.len(),
{
    if parts.len() > 1 {
        lemma_join_first(parts.drop_last(), sep);
    }
}

/// Resolving `k` `..` pieces removes the last `k` segments.
proof fn lemma_path_stack_pops(pre: Seq<Seq<char>>, k: nat)
    requires
        k <= crate::routes::path_stack(pre).len(),
    ensures
        crate::routes::path_stack(pre + Seq::new(k, |i: int| seq!['.', '.']))
            == crate::routes::path_stack(pre).take(crate::routes::path_stack(pre).len() - k),
    decreases k,
{
    let st = crate::routes::path_stack(pre);
    if k == 0 {
        assert(pre + Seq::new(0, |i: int| seq!['.', '.']) =~= pre);
        assert(st.take(st.len() as int) =~= st);
    } else {
        let k1 = (k - 1) as nat;
        lemma_path_stack_pops(pre, k1);
        let full = pre + Seq::new(k, |i: int| seq!['.', '.']);
        assert(full.drop_last() =~= pre + Seq::new(k1, |i: int| seq!['.', '.']));
        assert(full.last() == seq!['.', '.']);
        assert(seq!['.', '.'] == crate::routes::dot_dot());
        let mid = st.take(st.len() - k1);
        assert(mid.len() > 0);
        assert(mid.drop_last() =~= st.take(st.len() - k));
    }
}

/// A route has no `.` or `..` segment.
pub open spec fn has_no_dot_segments(r: Seq<char>) -> bool {
    forall|k: int|
        0 <= k < split(r, '/').len() ==> #[trigger] split(r, '/')[k] != crate::routes::dot() && split(r, '/')[k]
            != crate::routes::dot_dot()
}

proof fn lemma_nonempty_pieces_concat(p: Seq<Seq<char>>, q: Seq<Seq<char>>)
    ensures
        nonempty_pieces(p + q) == nonempty_pieces(p) + nonempty_pieces(q),
    decreases q.len(),
{
    if q.len() == 0 {
        assert(p + q =~= p);
        assert(nonempty_pieces(p) + nonempty_pieces(q) =~= nonempty_pieces(p));
    } else {
        lemma_nonempty_pieces_concat(p, q.drop_last());
        assert((p + q).drop_last() =~= p + q.drop_last());
        assert((p + q).last() == q.last());
        if q.last().len() > 0 {
            assert((nonempty_pieces(p) + nonempty_pieces(q.drop_last())).push(q.last()) =~= nonempty_pieces(p)
                + nonempty_pieces(q.drop_last()).push(q.last()));
        }
    }
}

proof fn lemma_nonempty_pieces_of_empty()
    ensures
        nonempty_pieces(seq![Seq::<char>::empty()]) == Seq::<Seq<char>>::empty(),
{
    let e = seq![Seq::<char>::empty()];
    assert(e.drop_last() =~= Seq::<Seq<char>>::empty());
    assert(e.last().len() == 0);
    assert(nonempty_pieces(e) == nonempty_pieces(e.drop_last()));
    assert(nonempty_pieces(Seq::<Seq<char>>::empty()) == Seq::<Seq<char>>::empty());
}

/// Leading slashes add only empty pieces.
proof fn lemma_pieces_skip_slashes(s: Seq<char>, k: int)
    requires
        0 <= k <= s.len(),
        forall|j: int| 0 <= j < k ==> s[j] == '/',
    ensures
        nonempty_pieces(split(s, '/')) == nonempty_pieces(split(s.skip(k), '/')),
    decreases k,
{
    if k > 0 {
        let x = s.skip(1);
        assert forall|j: int| 0 <= j < k - 1 implies x[j] == '/' by {
            assert(x[j] == s[j + 1]);
        }
        lemma_pieces_skip_slashes(x, k - 1);
        assert(x.skip(k - 1) =~= s.skip(k));
        assert(s =~= Seq::<char>::empty() + seq!['/'] + x);
        crate::routes::lemma_split_around(Seq::<char>::empty(), x, '/');
        assert(split(Seq::<char>::empty(), '/') == seq![Seq::<char>::empty()]);
        lemma_nonempty_pieces_concat(seq![Seq::<char>::empty()], split(x, '/'));
        lemma_nonempty_pieces_of_empty();
        assert(Seq::<Seq<char>>::empty() + nonempty_pieces(split(x, '/')) =~= nonempty_pieces(split(x, '/')));
    } else {
        assert(s.skip(0) =~= s);
    }
}

/// Trailing slashes add only empty pieces.
proof fn lemma_pieces_take_slashes(s: Seq<char>, k: int)
    requires
        0 <= k <= s.len(),
        forall|j: int| s.len() - k <= j < s.len() ==> s[j] == '/',
    ensures
        nonempty_pieces(split(s, '/')) == nonempty_pieces(split(s.take(s.len() - k), '/')),
    decreases k,
{
    if k > 0 {
        let x = s.drop_last();
        assert forall|j: int| x.len() - (k - 1) <= j < x.len() implies x[j] == '/' by {
            assert(x[j] == s[j]);
        }
        lemma_pieces_take_slashes(x, k - 1);
        assert(x.take(x.len() - (k - 1)) =~= s.take(s.len() - k));
        assert(s =~= x + seq!['/'] + Seq::<char>::empty());
        crate::routes::lemma_split_around(x, Seq::<char>::empty(), '/');
        assert(split(Seq::<char>::empty(), '/') == seq![Seq::<char>::empty()]);
        lemma_nonempty_pieces_concat(split(x, '/'), seq![Seq::<char>::empty()]);
        lemma_nonempty_pieces_of_empty();
        assert(nonempty_pieces(split(x, '/')) + Seq::<Seq<char>>::empty() =~= nonempty_pieces(split(x, '/')));
    } else {
        assert(s.take(s.len() as int) =~= s);
    }
}

/// Resolving pieces without `.` or `..` keeps the non-empty ones.
proof fn lemma_path_stack_plain(ps: Seq<Seq<char>>)
    requires
        forall|k: int| 0 <= k < ps.len() ==> #[trigger] ps[k] != crate::routes::dot() && ps[k] != crate::routes::dot_dot(),
    ensures
        crate::routes::path_stack(ps) == nonempty_pieces(ps),
    decreases ps.len(),
{
    if ps.len() > 0 {
        lemma_path_stack_plain(ps.drop_last());
        assert(ps[ps.len() - 1] == ps.last());
    }
}

/// The pieces kept from `ps` are pieces of `ps`, and not empty.
proof fn lemma_nonempty_pieces_from(ps: Seq<Seq<char>>)
    ensures
        forall|k: int|
            0 <= k < nonempty_pieces(ps).len() ==> (#[trigger] nonempty_pieces(ps)[k]).len() > 0 && exists|j: int|
                0 <= j < ps.len() && ps[j] == nonempty_pieces(ps)[k],
    decreases ps.len(),
{
    if ps.len() > 0 {
        lemma_nonempty_pieces_from(ps.drop_last());
        let r = nonempty_pieces(ps);
        let q = nonempty_pieces(ps.drop_last());
        assert forall|k: int| 0 <= k < r.len() implies (#[trigger] r[k]).len() > 0 && exists|j: int|
            0 <= j < ps.len() && ps[j] == r[k] by {
            if k < q.len() {
                assert(r[k] == q[k]);
                let j = choose|j: int| 0 <= j < ps.drop_last().len() && ps.drop_last()[j] == q[k];
                assert(ps[j] == q[k]);
            } else {
                assert(r[k] == ps[ps.len() - 1]);
            }
        }
    }
}

/// The segments of a route without `.` or `..` segments are its non-empty
/// pieces; they are what normalising it resolves, and they are clean.
proof fn lemma_plain_route_segments(r: Seq<char>)
    requires
        has_no_dot_segments(r),
    ensures
        spec_route_segments(r) == nonempty_pieces(split(r, '/')),
        crate::routes::path_segments(r) == spec_route_segments(r),
        forall|k: int| 0 <= k < spec_route_segments(r).len() ==> clean_segment(#[trigger] spec_route_segments(r)[k]),
{
    crate::config::lemma_lead_run_exists(r, '/');
    let a = choose|k: int| crate::config::is_lead_run(r, '/', k);
    let t = r.skip(a);
    crate::config::lemma_trail_run_exists(t, '/');
    let c = choose|k: int| crate::config::is_trail_run(t, '/', k);
    assert(trim_char(r, '/') == t.take(t.len() - c));
    lemma_pieces_skip_slashes(r, a);
    assert forall|j: int| t.len() - c <= j < t.len() implies t[j] == '/' by {}
    lemma_pieces_take_slashes(t, c);
    lemma_path_stack_plain(split(r, '/'));
    let segs = spec_route_segments(r);
    lemma_nonempty_pieces_from(split(r, '/'));
    crate::routes::lemma_split_pieces_free(r, '/');
    assert forall|k: int| 0 <= k < segs.len() implies clean_segment(#[trigger] segs[k]) by {
        let j = choose|j: int| 0 <= j < split(r, '/').len() && split(r, '/')[j] == segs[k];
        assert(split(r, '/')[j] != crate::routes::dot());
        assert(crate::routes::free_of(split(r, '/')[j], '/'));
    }
}

/// Resolution only sees what came before through its result.
proof fn lemma_path_stack_congruent(p1: Seq<Seq<char>>, p2: Seq<Seq<char>>, q: Seq<Seq<char>>)
    requires
        crate::routes::path_stack(p1) == crate::routes::path_stack(p2),
    ensures
        crate::routes::path_stack(p1 + q) == crate::routes::path_stack(p2 + q),
    decreases q.len(),
{
    if q.len() == 0 {
        assert(p1 + q =~= p1);
        assert(p2 + q =~= p2);
    } else {
        lemma_path_stack_congruent(p1, p2, q.drop_last());
        assert((p1 + q).drop_last() =~= p1 + q.drop_last());
        assert((p2 + q).drop_last() =~= p2 + q.drop_last());
        assert((p1 + q).last() == q.last());
        assert((p2 + q).last() == q.last());
    }
}

/// A route, once completed as a link relative to a page's link base (an
/// absolute `/` stays absolute), leads back to that route: resolving the
/// link against the base gives the target, up to normalisation. This holds
/// of any routes without `.` or `..` segments, with any extra or missing
/// slashes. For every target but the root the link is relative (it does not
/// start with `/`), and resolving it against the base gives the target.
pub proof fn law_relative_route_resolves_to_target(base: Seq<char>, target: Seq<char>)
    requires
        has_no_dot_segments(base),
        has_no_dot_segments(target),
    ensures
        ({
            let rel = spec_relative_route_from_base(base, target);
            (if rel.len() > 0 && rel[0] == '/' {
                spec_normalize_route(rel)
            } else {
                spec_normalize_route(crate::routes::spec_ensure_trailing_slash(base) + rel)
            }) == spec_normalize_route(target)
        }),
        target != seq!['/'] ==> {
            let rel = spec_relative_route_from_base(base, target);
            &&& !(rel.len() > 0 && rel[0] == '/')
            &&& spec_normalize_route(crate::routes::spec_ensure_trailing_slash(base) + rel)
                == spec_normalize_route(target)
        },
{
    let rel = spec_relative_route_from_base(base, target);
    lemma_plain_route_segments(base);
    lemma_plain_route_segments(target);
    let b = spec_route_segments(base);
    let t = spec_route_segments(target);
    if target == seq!['/'] {
        assert(rel == seq!['/']);
        return;
    }
    lemma_shared_prefix_exists(b, t);
    let n = choose|n: int| shared_prefix_len(b, t, n);
    assert(shared_prefix_len(b, t, n));
    let k = (b.len() - n) as nat;
    let dots = Seq::new(k, |i: int| seq!['.', '.']);
    let parts = dots + t.skip(n);
    let ets = crate::routes::spec_ensure_trailing_slash(base);
    // The base with its final slash, if any, taken off.
    let y = if base.len() > 0 && base.last() == '/' {
        base.drop_last()
    } else {
        base
    };
    assert(ets =~= y + seq!['/']);
    // The pieces the link resolves through.
    let tail = if parts.len() == 0 {
        seq![seq!['.']]
    } else {
        parts
    };
    assert forall|i: int| 0 <= i < tail.len() implies crate::routes::free_of(#[trigger] tail[i], '/') by {
        if parts.len() == 0 {
        } else if i < k {
            assert(tail[i] == seq!['.', '.']);
        } else {
            assert(tail[i] == t[n + (i - k)]);
            assert(clean_segment(t[n + (i - k)]));
        }
    }
    assert forall|i: int| 0 <= i < b.len() implies crate::routes::free_of(#[trigger] b[i], '/') by {
        assert(clean_segment(b[i]));
    }
    assert(join(tail, seq!['/']) == rel) by {
        if parts.len() == 0 {
            assert(rel == seq!['.']);
        }
    }
    // The link does not start with `/`.
    assert(!(rel.len() > 0 && rel[0] == '/')) by {
        if parts.len() > 0 {
            assert(tail[0].len() > 0) by {
                if k > 0 {
                    assert(tail[0] == seq!['.', '.']);
                } else {
                    assert(tail[0] == t[n]);
                    assert(clean_segment(t[n]));
                }
            }
            lemma_join_first(tail, seq!['/']);
            if k == 0 {
                assert(t[n][0] != '/') by {
                    assert(clean_segment(t[n]));
                }
            }
        }
    }
    let all = seq![Seq::<char>::empty()] + b + tail;
    // What the link resolves through: the pieces of the base, then its own.
    crate::routes::lemma_split_join(tail, '/');
    assert(ets + rel =~= y + seq!['/'] + rel);
    crate::routes::lemma_split_around(y, rel, '/');
    assert(split(ets + rel, '/') == split(y, '/') + tail);
    assert(crate::routes::path_stack(split(y, '/')) == b) by {
        if base.len() > 0 && base.last() == '/' {
            assert(base =~= y + seq!['/'] + Seq::<char>::empty());
            crate::routes::lemma_split_around(y, Seq::<char>::empty(), '/');
            assert(split(Seq::<char>::empty(), '/') == seq![Seq::<char>::empty()]);
            assert(split(base, '/') == split(y, '/') + seq![Seq::<char>::empty()]);
            lemma_nonempty_pieces_concat(split(y, '/'), seq![Seq::<char>::empty()]);
            lemma_nonempty_pieces_of_empty();
            assert(nonempty_pieces(split(y, '/')) + Seq::<Seq<char>>::empty() =~= nonempty_pieces(split(y, '/')));
            assert forall|i: int| 0 <= i < split(y, '/').len() implies #[trigger] split(y, '/')[i]
                != crate::routes::dot() && split(y, '/')[i] != crate::routes::dot_dot() by {
                assert(split(y, '/')[i] == split(base, '/')[i]);
            }
        }
        lemma_path_stack_plain(split(y, '/'));
    }
    // Resolving: the root piece, the base's segments, the `..`s, the rest.
    let root = seq![Seq::<char>::empty()];
    assert(crate::routes::path_stack(root) =~= Seq::<Seq<char>>::empty()) by {
        assert(root.drop_last() =~= Seq::<Seq<char>>::empty());
        assert(crate::routes::path_stack(Seq::<Seq<char>>::empty()) =~= Seq::<Seq<char>>::empty());
    }
    assert forall|i: int| 0 <= i < b.len() implies {
        let seg = #[trigger] b[i];
        seg.len() > 0 && seg != crate::routes::dot() && seg != crate::routes::dot_dot()
    } by {
        assert(clean_segment(b[i]));
    }
    crate::routes::lemma_path_stack_append_clean(root, b);
    assert(crate::routes::path_stack(root + b) =~= b);
    lemma_path_stack_congruent(split(y, '/'), root + b, tail);
    assert(all =~= (root + b) + tail);
    assert(crate::routes::path_segments(ets + rel) == crate::routes::path_stack(all));
    let rest = t.skip(n);
    assert forall|i: int| 0 <= i < rest.len() implies {
        let seg = #[trigger] rest[i];
        seg.len() > 0 && seg != crate::routes::dot() && seg != crate::routes::dot_dot()
    } by {
        assert(rest[i] == t[n + i]);
        assert(clean_segment(t[n + i]));
    }
    if parts.len() == 0 {
        assert(k == 0 && rest.len() == 0);
        assert(n == b.len() && n == t.len());
        assert(b =~= t) by {
            assert forall|i: int| 0 <= i < b.len() implies b[i] == t[i] by {}
        }
        let dotp = seq![seq!['.']];
        assert(all =~= (root + b) + dotp);
        assert((root + b + dotp).drop_last() =~= root + b);
        assert(crate::routes::path_stack(all) == crate::routes::path_step(b, seq!['.']));
        assert(seq!['.'] == crate::routes::dot());
        assert(crate::routes::path_segments(ets + rel) =~= t);
    } else {
        lemma_path_stack_pops(root + b, k);
        assert(crate::routes::path_stack((root + b) + dots) =~= b.take(n));
        assert(all =~= ((root + b) + dots) + rest);
        crate::routes::lemma_path_stack_append_clean((root + b) + dots, rest);
        assert(b.take(n) =~= t.take(n)) by {
            assert forall|i: int| 0 <= i < n implies b.take(n)[i] == t.take(n)[i] by {}
        }
        assert(t.take(n) + rest =~= t);
        assert(crate::routes::path_segments(ets + rel) =~= t);
    }
}

/// Two segment lists always share some longest common prefix.
proof fn lemma_shared_prefix_exists(a: Seq<Seq<char>>, b: Seq<Seq<char>>)
    ensures
        exists|n: int| shared_prefix_len(a, b, n),
{
    lemma_shared_prefix_from(a, b, 0);
}

proof fn lemma_shared_prefix_from(a: Seq<Seq<char>>, b: Seq<Seq<char>>, i: int)
    requires
        0 <= i <= a.len(),
        i <= b.len(),
        forall|j: int| 0 <= j < i ==> a[j] == b[j],
    ensures
        exists|n: int| shared_prefix_len(a, b, n),
    decreases a.len() - i,
{
    if i == a.len() || i == b.len() || a[i] != b[i] {
        assert(shared_prefix_len(a, b, i));
    } else {
        lemma_shared_prefix_from(a, b, i + 1);
    }
}

} // verus!
