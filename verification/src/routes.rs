//! Route and link-target arithmetic: normalising routes, splitting link
//! targets into path and fragment, and classifying targets.
use vstd::prelude::*;

use crate::text::{ends_with, ends_with_exec, extend_chars, find_char, first_index, from_chars, join, join_exec, lemma_split_nonempty, split, starts_with, starts_with_exec, to_chars, views};

verus! {

/// The one-character piece `.`.
pub open spec fn dot() -> Seq<char> {
    seq!['.']
}

/// The two-character piece `..`.
pub open spec fn dot_dot() -> Seq<char> {
    seq!['.', '.']
}

/// One step of resolving a `/`-separated path: empty pieces and `.` are
/// dropped, `..` removes the previous piece (if any), anything else is kept.
pub open spec fn path_step(stack: Seq<Seq<char>>, piece: Seq<char>) -> Seq<Seq<char>> {
    if piece.len() == 0 || piece == dot() {
        stack
    } else if piece == dot_dot() {
        if stack.len() > 0 {
            stack.drop_last()
        } else {
            stack
        }
    } else {
        stack.push(piece)
    }
}

/// The pieces that remain after resolving `pieces` left to right.
pub open spec fn path_stack(pieces: Seq<Seq<char>>) -> Seq<Seq<char>>
    decreases pieces.len(),
{
    if pieces.len() == 0 {
        Seq::empty()
    } else {
        path_step(path_stack(pieces.drop_last()), pieces.last())
    }
}

/// The resolved segments of a `/`-separated path.
pub open spec fn path_segments(p: Seq<char>) -> Seq<Seq<char>> {
    path_stack(split(p, '/'))
}

/// The normalised route of a path: `/` followed by its resolved segments
/// joined with `/`, or `/` alone when none remain.
pub open spec fn spec_normalize_route(p: Seq<char>) -> Seq<char> {
    let segs = path_segments(p);
    if segs.len() == 0 {
        seq!['/']
    } else {
        seq!['/'] + join(segs, seq!['/'])
    }
}

/// The resolved segments of a relative path joined with `/` (no leading
/// slash; empty when none remain).
pub open spec fn spec_normalize_relative_path(p: Seq<char>) -> Seq<char> {
    join(path_segments(p), seq!['/'])
}

/// Every resolved segment is non-empty and neither `.` nor `..`.
pub proof fn lemma_path_stack_clean(pieces: Seq<Seq<char>>)
    ensures
        forall|k: int|
            0 <= k < path_stack(pieces).len() ==> {
                let seg = #[trigger] path_stack(pieces)[k];
                seg.len() > 0 && seg != dot() && seg != dot_dot()
            },
    decreases pieces.len(),
{
    if pieces.len() > 0 {
        lemma_path_stack_clean(pieces.drop_last());
        let st = path_stack(pieces.drop_last());
        let r = path_stack(pieces);
        assert forall|k: int| 0 <= k < r.len() implies {
            let seg = #[trigger] r[k];
            seg.len() > 0 && seg != dot() && seg != dot_dot()
        } by {
            if k < st.len() {
                assert(r[k] == st[k]);
            }
        }
    }
}

/// `s` holds no `sep`.
pub open spec fn free_of(s: Seq<char>, sep: char) -> bool {
    forall|i: int| 0 <= i < s.len() ==> s[i] != sep
}

/// Splitting at a separator distributes over the pieces on either side of it.
pub proof fn lemma_split_around(a: Seq<char>, b: Seq<char>, sep: char)
    ensures
        split(a + seq![sep] + b, sep) == split(a, sep) + split(b, sep),
    decreases b.len(),
{
    let s = a + seq![sep] + b;
    if b.len() == 0 {
        assert(s.drop_last() == a);
        assert(split(b, sep) == seq![Seq::<char>::empty()]);
        assert(split(s, sep) == split(a, sep).push(Seq::<char>::empty()));
        assert(split(a, sep).push(Seq::<char>::empty()) =~= split(a, sep) + split(b, sep));
    } else {
        let b0 = b.drop_last();
        assert(s.drop_last() == a + seq![sep] + b0);
        lemma_split_around(a, b0, sep);
        lemma_split_nonempty(b0, sep);
        let t = split(a, sep) + split(b0, sep);
        assert(s.last() == b.last());
        if b.last() == sep {
            assert(split(s, sep) == t.push(Seq::<char>::empty()));
            assert(split(b, sep) == split(b0, sep).push(Seq::<char>::empty()));
            assert(t.push(Seq::<char>::empty()) =~= split(a, sep) + split(b, sep));
        } else {
            let u = split(b0, sep);
            assert(split(b, sep) == u.update(u.len() - 1, u.last().push(b.last())));
            assert(t.last() == u.last());
            assert(t.update(t.len() - 1, t.last().push(b.last())) =~= split(a, sep) + split(b, sep));
        }
    }
}

/// A piece without the separator splits into itself.
pub proof fn lemma_split_free(b: Seq<char>, sep: char)
    requires
        free_of(b, sep),
    ensures
        split(b, sep) == seq![b],
    decreases b.len(),
{
    if b.len() > 0 {
        assert(free_of(b.drop_last(), sep)) by {
            assert forall|i: int| 0 <= i < b.drop_last().len() implies b.drop_last()[i] != sep by {
                assert(b.drop_last()[i] == b[i]);
            }
        }
        lemma_split_free(b.drop_last(), sep);
        assert(b.last() != sep) by {
            assert(b[b.len() - 1] != sep);
        }
        assert(b.drop_last().push(b.last()) =~= b);
        assert(seq![b.drop_last()].update(0, b.drop_last().push(b.last())) =~= seq![b]);
    } else {
        assert(b =~= Seq::<char>::empty());
    }
}

/// Joining separator-free pieces and splitting again gives the pieces back.
pub proof fn lemma_split_join(parts: Seq<Seq<char>>, sep: char)
    requires
        parts.len() >= 1,
        forall|k: int| 0 <= k < parts.len() ==> free_of(#[trigger] parts[k], sep),
    ensures
        split(join(parts, seq![sep]), sep) == parts,
    decreases parts.len(),
{
    if parts.len() == 1 {
        lemma_split_free(parts[0], sep);
        assert(seq![parts[0]] =~= parts);
    } else {
        let init = parts.drop_last();
        lemma_split_join(init, sep);
        lemma_split_around(join(init, seq![sep]), parts.last(), sep);
        lemma_split_free(parts.last(), sep);
        assert(init + seq![parts.last()] =~= parts);
    }
}

/// Every piece of a split is free of the separator.
pub proof fn lemma_split_pieces_free(s: Seq<char>, sep: char)
    ensures
        forall|k: int| 0 <= k < split(s, sep).len() ==> free_of(#[trigger] split(s, sep)[k], sep),
    decreases s.len(),
{
    if s.len() > 0 {
        lemma_split_pieces_free(s.drop_last(), sep);
        lemma_split_nonempty(s.drop_last(), sep);
        let t = split(s.drop_last(), sep);
        let r = split(s, sep);
        assert forall|k: int| 0 <= k < r.len() implies free_of(#[trigger] r[k], sep) by {
            if k < t.len() - 1 {
                assert(r[k] == t[k]);
            } else if s.last() != sep && k == t.len() - 1 {
                assert(r[k] == t.last().push(s.last()));
                assert(free_of(t[k], sep));
            }
        }
    }
}

/// Resolving only clean pieces keeps them all, after what came before.
pub proof fn lemma_path_stack_append_clean(pre: Seq<Seq<char>>, segs: Seq<Seq<char>>)
    requires
        forall|k: int|
            0 <= k < segs.len() ==> {
                let seg = #[trigger] segs[k];
                seg.len() > 0 && seg != dot() && seg != dot_dot()
            },
    ensures
        path_stack(pre + segs) == path_stack(pre) + segs,
    decreases segs.len(),
{
    if segs.len() == 0 {
        assert(pre + segs =~= pre);
        assert(path_stack(pre) + segs =~= path_stack(pre));
    } else {
        let init = segs.drop_last();
        lemma_path_stack_append_clean(pre, init);
        assert((pre + segs).drop_last() =~= pre + init);
        assert((pre + segs).last() == segs.last());
        let seg = segs[segs.len() - 1];
        assert(seg.len() > 0 && seg != dot() && seg != dot_dot());
        assert((path_stack(pre) + init).push(segs.last()) =~= path_stack(pre) + segs);
    }
}

/// The resolved segments are free of `/` when the pieces are.
pub proof fn lemma_path_stack_free(pieces: Seq<Seq<char>>, sep: char)
    requires
        forall|k: int| 0 <= k < pieces.len() ==> free_of(#[trigger] pieces[k], sep),
    ensures
        forall|k: int| 0 <= k < path_stack(pieces).len() ==> free_of(#[trigger] path_stack(pieces)[k], sep),
    decreases pieces.len(),
{
    if pieces.len() > 0 {
        let init = pieces.drop_last();
        assert forall|k: int| 0 <= k < init.len() implies free_of(#[trigger] init[k], sep) by {
            assert(init[k] == pieces[k]);
        }
        lemma_path_stack_free(init, sep);
        let st = path_stack(init);
        let r = path_stack(pieces);
        assert forall|k: int| 0 <= k < r.len() implies free_of(#[trigger] r[k], sep) by {
            if k < st.len() {
                assert(r[k] == st[k]);
            } else {
                assert(r[k] == pieces.last());
                assert(free_of(pieces[pieces.len() - 1], sep));
            }
        }
    }
}

/// Normalising a route twice gives what normalising it once gives.
pub proof fn law_normalize_route_idempotent(p: Seq<char>)
    ensures
        spec_normalize_route(spec_normalize_route(p)) == spec_normalize_route(p),
{
    let segs = path_segments(p);
    let n = spec_normalize_route(p);
    lemma_split_pieces_free(p, '/');
    lemma_path_stack_free(split(p, '/'), '/');
    lemma_path_stack_clean(split(p, '/'));
    let empty_piece = seq![Seq::<char>::empty()];
    assert(path_stack(empty_piece) =~= Seq::<Seq<char>>::empty()) by {
        assert(empty_piece.drop_last() =~= Seq::<Seq<char>>::empty());
        assert(path_stack(Seq::<Seq<char>>::empty()) =~= Seq::<Seq<char>>::empty());
        assert(empty_piece.last() =~= Seq::<char>::empty());
    }
    if segs.len() == 0 {
        assert(n == seq!['/']);
        assert(n =~= Seq::<char>::empty() + seq!['/'] + Seq::<char>::empty());
        lemma_split_around(Seq::<char>::empty(), Seq::<char>::empty(), '/');
        assert(split(Seq::<char>::empty(), '/') == empty_piece);
        let two = empty_piece + empty_piece;
        assert(two.drop_last() =~= empty_piece);
        assert(path_stack(two) == path_step(path_stack(empty_piece), Seq::<char>::empty()));
        assert(path_segments(n) =~= Seq::<Seq<char>>::empty());
    } else {
        let j = join(segs, seq!['/']);
        assert(n == seq!['/'] + j);
        assert(n =~= Seq::<char>::empty() + seq!['/'] + j);
        lemma_split_around(Seq::<char>::empty(), j, '/');
        lemma_split_join(segs, '/');
        assert(split(n, '/') == empty_piece + segs);
        lemma_path_stack_append_clean(empty_piece, segs);
        assert(path_segments(n) =~= segs);
    }
}

fn is_dot_piece(v: &[char]) -> (r: bool)
    ensures
        r == (v@ == dot()),
{
    if v.len() == 1 && v[0] == '.' {
        assert(v@ == dot());
        true
    } else {
        false
    }
}

fn is_dot_dot_piece(v: &[char]) -> (r: bool)
    ensures
        r == (v@ == dot_dot()),
{
    if v.len() == 2 && v[0] == '.' && v[1] == '.' {
        assert(v@ == dot_dot());
        true
    } else {
        false
    }
}

fn apply_path_step(stack: &mut Vec<Vec<char>>, piece: Vec<char>)
    ensures
        views(final(stack)@) == path_step(views(old(stack)@), piece@),
{
    let ghost old_views = views(stack@);
    if piece.len() == 0 || is_dot_piece(piece.as_slice()) {
    } else if is_dot_dot_piece(piece.as_slice()) {
        if stack.len() > 0 {
            stack.pop();
            assert(views(stack@) == old_views.drop_last());
        }
    } else {
        stack.push(piece);
        assert(views(stack@) == old_views.push(piece@));
    }
}

/// The pieces of `p` between occurrences of `sep` (like `str::split`).
pub fn split_pieces(p: &[char], sep: char) -> (pieces: Vec<Vec<char>>)
    ensures
        views(pieces@) == split(p@, sep),
{
    let mut done: Vec<Vec<char>> = Vec::new();
    let mut cur: Vec<char> = Vec::new();
    let mut i: usize = 0;
    assert(p@.take(0) == Seq::<char>::empty());
    while i < p.len()
        invariant
            i <= p.len(),
            split(p@.take(i as int), sep).len() >= 1,
            views(done@) == split(p@.take(i as int), sep).drop_last(),
            cur@ == split(p@.take(i as int), sep).last(),
        decreases p.len() - i,
    {
        let ghost pieces = split(p@.take(i as int), sep);
        let c = p[i];
        assert(p@.take(i + 1 as int).drop_last() == p@.take(i as int));
        assert(p@.take(i + 1 as int).last() == c);
        if c == sep {
            let piece = cur;
            cur = Vec::new();
            let ghost before = done@;
            done.push(piece);
            assert(views(done@) == views(before).push(piece@));
            assert(split(p@.take(i + 1 as int), sep) == pieces.push(Seq::<char>::empty()));
            assert(pieces.drop_last().push(pieces.last()) == pieces);
        } else {
            cur.push(c);
            let ghost next = pieces.update(pieces.len() - 1, pieces.last().push(c));
            assert(split(p@.take(i + 1 as int), sep) == next);
            assert(next.drop_last() == pieces.drop_last());
        }
        i = i + 1;
    }
    assert(p@.take(p.len() as int) == p@);
    let ghost all = split(p@, sep);
    let ghost before = done@;
    done.push(cur);
    assert(views(done@) == views(before).push(all.last()));
    assert(all.drop_last().push(all.last()) == all);
    done
}

/// The resolved segments of the `/`-separated path `p`.
pub fn resolved_segments(p: &[char]) -> (segs: Vec<Vec<char>>)
    ensures
        views(segs@) == path_segments(p@),
{
    let mut stack: Vec<Vec<char>> = Vec::new();
    let mut cur: Vec<char> = Vec::new();
    let mut i: usize = 0;
    assert(p@.take(0) == Seq::<char>::empty());
    while i < p.len()
        invariant
            i <= p.len(),
            split(p@.take(i as int), '/').len() >= 1,
            views(stack@) == path_stack(split(p@.take(i as int), '/').drop_last()),
            cur@ == split(p@.take(i as int), '/').last(),
        decreases p.len() - i,
    {
        let ghost pieces = split(p@.take(i as int), '/');
        let c = p[i];
        assert(p@.take(i + 1 as int).drop_last() == p@.take(i as int));
        assert(p@.take(i + 1 as int).last() == c);
        if c == '/' {
            let piece = cur;
            cur = Vec::new();
            apply_path_step(&mut stack, piece);
            assert(split(p@.take(i + 1 as int), '/') == pieces.push(Seq::<char>::empty()));
            assert(pieces.push(Seq::<char>::empty()).drop_last() == pieces);
        } else {
            cur.push(c);
            let ghost next = pieces.update(pieces.len() - 1, pieces.last().push(c));
            assert(split(p@.take(i + 1 as int), '/') == next);
            assert(next.drop_last() == pieces.drop_last());
        }
        i = i + 1;
    }
    assert(p@.take(p.len() as int) == p@);
    let ghost pieces = split(p@, '/');
    apply_path_step(&mut stack, cur);
    assert(pieces.drop_last().push(pieces.last()) == pieces);
    stack
}

/// Normalises a route: resolves `.` and `..` segments, drops empty ones,
/// and returns `/` followed by the remaining segments joined with `/`.
pub fn normalize_route(path: &str) -> (r: String)
    ensures
        r@ == spec_normalize_route(path@),
{
    let p = to_chars(path);
    let segs = resolved_segments(p.as_slice());
    let mut out: Vec<char> = Vec::new();
    out.push('/');
    assert(views(segs@).len() == segs.len());
    if segs.len() > 0 {
        let slash: Vec<char> = vec!['/'];
        assert(slash@ == seq!['/']);
        let joined = join_exec(&segs, slash.as_slice());
        extend_chars(&mut out, joined.as_slice());
        assert(out@ == seq!['/'] + joined@);
    }
    from_chars(out.as_slice())
}

/// Normalises a relative path the same way, without a leading `/`.
pub fn normalize_relative_path(path: &str) -> (r: String)
    ensures
        r@ == spec_normalize_relative_path(path@),
{
    let p = to_chars(path);
    let segs = resolved_segments(p.as_slice());
    let slash: Vec<char> = vec!['/'];
    assert(slash@ == seq!['/']);
    let joined = join_exec(&segs, slash.as_slice());
    from_chars(joined.as_slice())
}

} // verus!

verus! {

/// The part of `target` before its first `?`.
pub open spec fn spec_strip_query(target: Seq<char>) -> Seq<char> {
    match first_index(target, '?') {
        Some(i) => target.take(i),
        None => target,
    }
}

/// `target` without its query: the part before the first `?`.
pub fn strip_query(target: &str) -> (r: &str)
    ensures
        r@ == spec_strip_query(target@),
{
    let t = to_chars(target);
    match find_char(t.as_slice(), '?') {
        Some(i) => target.substring_char(0, i),
        None => target,
    }
}

/// The path part of a link target (query removed, everything from the first
/// `#` removed) and its fragment, if any.
pub open spec fn spec_split_fragment(target: Seq<char>) -> (Seq<char>, Option<Seq<char>>) {
    let t = spec_strip_query(target);
    match first_index(t, '#') {
        Some(i) => (t.take(i), Some(t.skip(i + 1))),
        None => (t, None),
    }
}

/// Splits a link target into its path (without query) and its fragment.
pub fn split_fragment(target: &str) -> (r: (&str, Option<&str>))
    ensures
        r.0@ == spec_split_fragment(target@).0,
        match r.1 {
            Some(f) => spec_split_fragment(target@).1 == Some(f@),
            None => spec_split_fragment(target@).1 == None::<Seq<char>>,
        },
{
    let t = strip_query(target);
    let v = to_chars(t);
    match find_char(v.as_slice(), '#') {
        Some(i) => {
            assert(i < v.len());
            (t.substring_char(0, i), Some(t.substring_char(i + 1, v.len())))
        },
        None => (t, None),
    }
}

pub fn starts_with_str(s: &[char], p: &str) -> (r: bool)
    ensures
        r == starts_with(s@, p@),
{
    let pv = to_chars(p);
    starts_with_exec(s, pv.as_slice())
}

pub fn ends_with_str(s: &[char], p: &str) -> (r: bool)
    ensures
        r == ends_with(s@, p@),
{
    let pv = to_chars(p);
    ends_with_exec(s, pv.as_slice())
}

/// Targets that never name a page of the site: absolute URLs and other
/// schemes, and the reserved `/__` prefix.
pub open spec fn spec_is_special_target(t: Seq<char>) -> bool {
    ||| starts_with(t, "http://"@)
    ||| starts_with(t, "https://"@)
    ||| starts_with(t, "mailto:"@)
    ||| starts_with(t, "tel:"@)
    ||| starts_with(t, "javascript:"@)
    ||| starts_with(t, "data:"@)
    ||| starts_with(t, "/__"@)
}

/// A path of the site (one that starts with `/` but not with the reserved
/// `/__`) is never taken for an external or reserved target.
pub proof fn law_site_paths_are_not_special(t: Seq<char>)
    requires
        t.len() > 0,
        t[0] == '/',
        !(t.len() >= 3 && t[1] == '_' && t[2] == '_'),
    ensures
        !spec_is_special_target(t),
{
    reveal_strlit("http://");
    reveal_strlit("https://");
    reveal_strlit("mailto:");
    reveal_strlit("tel:");
    reveal_strlit("javascript:");
    reveal_strlit("data:");
    reveal_strlit("/__");
    assert forall|p: Seq<char>| p.len() > 0 && p[0] != '/' implies !starts_with(t, p) by {
        if starts_with(t, p) {
            assert(t.subrange(0, p.len() as int)[0] == t[0]);
        }
    }
    if starts_with(t, "/__"@) {
        assert(t.subrange(0, 3)[1] == t[1]);
        assert(t.subrange(0, 3)[2] == t[2]);
    }
}

/// Whether a link target is external or reserved (not a site route).
pub fn is_special_target(target: &str) -> (r: bool)
    ensures
        r == spec_is_special_target(target@),
{
    let t = to_chars(target);
    let s = t.as_slice();
    starts_with_str(s, "http://") || starts_with_str(s, "https://") || starts_with_str(
        s,
        "mailto:",
    ) || starts_with_str(s, "tel:") || starts_with_str(s, "javascript:") || starts_with_str(
        s,
        "data:",
    ) || starts_with_str(s, "/__")
}

/// Paths that end in a common static-asset extension.
pub open spec fn spec_is_likely_static_file(p: Seq<char>) -> bool {
    ||| ends_with(p, ".css"@)
    ||| ends_with(p, ".js"@)
    ||| ends_with(p, ".png"@)
    ||| ends_with(p, ".jpg"@)
    ||| ends_with(p, ".jpeg"@)
    ||| ends_with(p, ".gif"@)
    ||| ends_with(p, ".svg"@)
    ||| ends_with(p, ".ico"@)
    ||| ends_with(p, ".woff"@)
    ||| ends_with(p, ".woff2"@)
    ||| ends_with(p, ".ttf"@)
    ||| ends_with(p, ".eot"@)
    ||| ends_with(p, ".pdf"@)
    ||| ends_with(p, ".zip"@)
    ||| ends_with(p, ".tar"@)
    ||| ends_with(p, ".gz"@)
    ||| ends_with(p, ".webp"@)
    ||| ends_with(p, ".jxl"@)
    ||| ends_with(p, ".xml"@)
    ||| ends_with(p, ".txt"@)
    ||| ends_with(p, ".wasm"@)
}

/// Whether a path looks like a static asset (by its extension).
pub fn is_likely_static_file(path: &str) -> (r: bool)
    ensures
        r == spec_is_likely_static_file(path@),
{
    let t = to_chars(path);
    let s = t.as_slice();
    ends_with_str(s, ".css") || ends_with_str(s, ".js") || ends_with_str(s, ".png")
        || ends_with_str(s, ".jpg") || ends_with_str(s, ".jpeg") || ends_with_str(s, ".gif")
        || ends_with_str(s, ".svg") || ends_with_str(s, ".ico") || ends_with_str(s, ".woff")
        || ends_with_str(s, ".woff2") || ends_with_str(s, ".ttf") || ends_with_str(s, ".eot")
        || ends_with_str(s, ".pdf") || ends_with_str(s, ".zip") || ends_with_str(s, ".tar")
        || ends_with_str(s, ".gz") || ends_with_str(s, ".webp") || ends_with_str(s, ".jxl")
        || ends_with_str(s, ".xml") || ends_with_str(s, ".txt") || ends_with_str(s, ".wasm")
}

/// `route` with a trailing `/` added unless it already ends with one.
pub open spec fn spec_ensure_trailing_slash(route: Seq<char>) -> Seq<char> {
    if route.len() > 0 && route.last() == '/' {
        route
    } else {
        route.push('/')
    }
}

/// Ensures a route ends with `/`.
pub fn ensure_trailing_slash(route: &str) -> (r: String)
    ensures
        r@ == spec_ensure_trailing_slash(route@),
{
    let mut v = to_chars(route);
    if v.len() > 0 && v[v.len() - 1] == '/' {
        from_chars(v.as_slice())
    } else {
        v.push('/');
        from_chars(v.as_slice())
    }
}

} // verus!

verus! {

/// `seg` contains a backslash or a colon.
pub open spec fn has_forbidden_char(seg: Seq<char>) -> bool {
    exists|i: int| 0 <= i < seg.len() && (seg[i] == '\\' || seg[i] == ':')
}

/// The content-relative Markdown file for a new page at `route`: the
/// normalised route's segments joined with `/` plus `.md`; none for the
/// root route or when a segment holds `\` or `:`.
pub open spec fn spec_source_file_for_new_route(route: Seq<char>) -> Option<Seq<char>> {
    let segs = path_segments(route);
    if segs.len() == 0 || exists|k: int| 0 <= k < segs.len() && has_forbidden_char(#[trigger] segs[k]) {
        None
    } else {
        Some(join(segs, seq!['/']) + ".md"@)
    }
}

pub fn has_forbidden_char_exec(seg: &[char]) -> (r: bool)
    ensures
        r == has_forbidden_char(seg@),
{
    let mut i: usize = 0;
    while i < seg.len()
        invariant
            i <= seg.len(),
            forall|j: int| 0 <= j < i ==> !(seg@[j] == '\\' || seg@[j] == ':'),
        decreases seg.len() - i,
    {
        if seg[i] == '\\' || seg[i] == ':' {
            return true;
        }
        i = i + 1;
    }
    false
}

/// Maps a route that has no page yet to the Markdown source file that would
/// create it (`/ops/deploy` → `ops/deploy.md`).
pub fn source_file_for_new_route(route: &str) -> (r: Option<String>)
    ensures
        match r {
            Some(f) => spec_source_file_for_new_route(route@) == Some(f@),
            None => spec_source_file_for_new_route(route@) is None,
        },
{
    let p = to_chars(route);
    let segs = resolved_segments(p.as_slice());
    if segs.len() == 0 {
        return None;
    }
    let mut k: usize = 0;
    while k < segs.len()
        invariant
            k <= segs.len(),
            views(segs@) == path_segments(route@),
            forall|j: int| 0 <= j < k ==> !has_forbidden_char(#[trigger] views(segs@)[j]),
        decreases segs.len() - k,
    {
        if has_forbidden_char_exec(segs[k].as_slice()) {
            assert(has_forbidden_char(views(segs@)[k as int]));
            return None;
        }
        k = k + 1;
    }
    let slash: Vec<char> = vec!['/'];
    assert(slash@ == seq!['/']);
    let mut out = join_exec(&segs, slash.as_slice());
    let md = to_chars(".md");
    extend_chars(&mut out, md.as_slice());
    Some(from_chars(out.as_slice()))
}

} // verus!
