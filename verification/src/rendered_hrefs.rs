//! Where the links of a page's rendered HTML were written: each link takes
//! the next unused origin recorded for its href, then the first one again.
use vstd::prelude::*;

use crate::model::{find_key, key_index, AuthoringInputPath, RenderedHref, RenderedHrefOrigin};
use crate::text::{from_chars, to_chars};

verus! {

/// An origin as plain values: the kind and path of the input, and the
/// byte range of the link in it.
pub open spec fn origin_view(o: RenderedHrefOrigin) -> (Seq<char>, Seq<char>, usize, usize) {
    (o.path.kind_word(), o.path.path_view(), o.byte_start, o.byte_end)
}

/// An optional origin as plain values.
pub open spec fn opt_origin_view(o: Option<RenderedHrefOrigin>) -> Option<(Seq<char>, Seq<char>, usize, usize)> {
    match o {
        Some(x) => Some(origin_view(x)),
        None => None,
    }
}

fn copy_string(s: &String) -> (r: String)
    ensures
        r@ == s@,
{
    from_chars(to_chars(s.as_str()).as_slice())
}

/// A copy of an origin.
pub fn copy_origin(o: &RenderedHrefOrigin) -> (r: RenderedHrefOrigin)
    ensures
        origin_view(r) == origin_view(*o),
{
    let path = match &o.path {
        AuthoringInputPath::Source(p) => AuthoringInputPath::Source(copy_string(p)),
        AuthoringInputPath::Template(p) => AuthoringInputPath::Template(copy_string(p)),
        AuthoringInputPath::Sass(p) => AuthoringInputPath::Sass(copy_string(p)),
        AuthoringInputPath::Static(p) => AuthoringInputPath::Static(copy_string(p)),
        AuthoringInputPath::Dist(p) => AuthoringInputPath::Dist(copy_string(p)),
        AuthoringInputPath::Data(p) => AuthoringInputPath::Data(copy_string(p)),
    };
    RenderedHrefOrigin { path, byte_start: o.byte_start, byte_end: o.byte_end }
}

/// How many times `x` occurs in `s`.
pub open spec fn count_eq(s: Seq<Seq<char>>, x: Seq<char>) -> nat
    decreases s.len(),
{
    if s.len() == 0 {
        0
    } else {
        count_eq(s.drop_last(), x) + if s.last() == x {
            1nat
        } else {
            0nat
        }
    }
}

/// The origin of the `i`-th rendered link `hrefs[i]`: the origins recorded
/// for its href are used in order, one per occurrence of the href; once
/// they run out, the first is used again; none when none is recorded.
pub open spec fn href_origin(
    origins: Seq<(String, Vec<RenderedHrefOrigin>)>,
    hrefs: Seq<Seq<char>>,
    i: int,
) -> Option<(Seq<char>, Seq<char>, usize, usize)> {
    match key_index(origins, hrefs[i]) {
        None => None,
        Some(e) => {
            let list = origins[e].1@;
            let k = count_eq(hrefs.take(i), hrefs[i]);
            if k < list.len() {
                Some(origin_view(list[k as int]))
            } else if list.len() > 0 {
                Some(origin_view(list[0]))
            } else {
                None
            }
        },
    }
}

/// The hrefs as plain values.
pub open spec fn href_views(v: Seq<String>) -> Seq<Seq<char>> {
    v.map_values(|s: String| s@)
}

/// The rendered links `hrefs` of a page, in document order, each with its
/// origin taken from `origins` (the places where each href was written, in
/// order).
pub fn assign_rendered_href_origins(hrefs: Vec<String>, origins: &Vec<(String, Vec<RenderedHrefOrigin>)>) -> (r:
    Vec<RenderedHref>)
    ensures
        r.len() == hrefs.len(),
        forall|i: int|
            0 <= i < r.len() ==> (#[trigger] r@[i]).href@ == hrefs@[i]@ && opt_origin_view(r@[i].origin)
                == href_origin(origins@, href_views(hrefs@), i),
{
    let ghost hv = href_views(hrefs@);
    let mut used: Vec<usize> = Vec::new();
    let mut e: usize = 0;
    while e < origins.len()
        invariant
            e <= origins.len(),
            used.len() == e,
            forall|j: int| 0 <= j < e ==> used@[j] == 0,
        decreases origins.len() - e,
    {
        used.push(0);
        e = e + 1;
    }
    let mut out: Vec<RenderedHref> = Vec::new();
    let mut i: usize = 0;
    while i < hrefs.len()
        invariant
            i <= hrefs.len(),
            hv == href_views(hrefs@),
            used.len() == origins.len(),
            forall|f: int|
                0 <= f < origins.len() && key_index(origins@, origins@[f].0@) == Some(f) ==> #[trigger] used@[f]
                    == (if count_eq(hv.take(i as int), origins@[f].0@) < origins@[f].1.len() {
                    count_eq(hv.take(i as int), origins@[f].0@)
                } else {
                    origins@[f].1.len() as nat
                }),
            out.len() == i,
            forall|j: int|
                0 <= j < i ==> (#[trigger] out@[j]).href@ == hrefs@[j]@ && opt_origin_view(out@[j].origin)
                    == href_origin(origins@, hv, j),
        decreases hrefs.len() - i,
    {
        let href = hrefs[i].as_str();
        let ghost x = hv[i as int];
        assert(x == hrefs@[i as int]@);
        assert(hv.take(i + 1 as int).drop_last() == hv.take(i as int));
        assert(hv.take(i + 1 as int).last() == x);
        let ghost used_before = used@;
        let origin: Option<RenderedHrefOrigin> = match find_key(origins, href) {
            None => {
                proof {
                    assert forall|f: int|
                        0 <= f < origins.len() && key_index(origins@, origins@[f].0@) == Some(f) implies origins@[f].0@
                            != x by {
                        if origins@[f].0@ == x {
                            assert(key_index(origins@, x) == Some(f));
                        }
                    }
                }
                None
            },
            Some(k) => {
                let list = &origins[k].1;
                let n = used[k];
                proof {
                    assert(origins@[k as int].0@ == x);
                    assert forall|f: int|
                        0 <= f < origins.len() && key_index(origins@, origins@[f].0@) == Some(f) && f != k implies origins@[f].0@
                            != x by {
                        if origins@[f].0@ == x {
                            assert(key_index(origins@, x) == Some(f));
                        }
                    }
                }
                if n < list.len() {
                    let o = copy_origin(&list[n]);
                    used.set(k, n + 1);
                    Some(o)
                } else if list.len() > 0 {
                    Some(copy_origin(&list[0]))
                } else {
                    None
                }
            },
        };
        out.push(RenderedHref { href: copy_string(&hrefs[i]), origin });
        proof {
            assert(opt_origin_view(out@[i as int].origin) == href_origin(origins@, hv, i as int));
        }
        i = i + 1;
    }
    out
}

} // verus!
