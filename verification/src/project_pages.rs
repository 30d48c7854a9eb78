//! Assembling the pages of the authoring model from the site's parsed
//! sections and pages: one page per source file that a section or page was
//! built from, ordered by route and then by source file.
use vstd::prelude::*;

use crate::build_steps::{
    key_less, keys_sorted, lemma_lex_total, lemma_lex_transitive, lemma_map_values_multiset, lex_le, sort_by_key,
};
use crate::model::{
    data_completion_key, find_key, key_index, route_output_path, spec_data_completion_key, section_template_name, spec_route_output_path,
    spec_section_template_name, AuthoringHeading, AuthoringPage, AuthoringPageKind,
};
use crate::model::{keys_unique, AuthoringProject, RenderedHref};
use crate::paths::{camino_join, path_join};
use crate::text::{from_chars, str_eq, to_chars};

verus! {

/// A source file and the route it serves; `is_section_index` tells whether
/// the file is a section's index.
pub struct SourceRoute {
    pub source_file: String,
    pub route: String,
    pub is_section_index: bool,
}

/// A section of the parsed site.
pub struct SiteSectionRecord {
    pub route: String,
    pub title: String,
    pub description: Option<String>,
    pub template: Option<String>,
    pub headings: Vec<AuthoringHeading>,
}

/// A page of the parsed site.
pub struct SitePageRecord {
    pub route: String,
    pub title: String,
    pub template: Option<String>,
    pub headings: Vec<AuthoringHeading>,
    /// The route of the section the page belongs to.
    pub section_route: String,
}

/// A heading as plain values: id, title, level.
pub open spec fn heading_views(hs: Seq<AuthoringHeading>) -> Seq<(Seq<char>, Seq<char>, u8)> {
    hs.map_values(|h: AuthoringHeading| (h.id@, h.title@, h.level))
}

/// The ids of the headings.
pub open spec fn heading_id_views(hs: Seq<AuthoringHeading>) -> Seq<Seq<char>> {
    hs.map_values(|h: AuthoringHeading| h.id@)
}

/// An optional string as a plain value.
pub open spec fn opt_str(o: Option<String>) -> Option<Seq<char>> {
    match o {
        Some(s) => Some(s@),
        None => None,
    }
}

/// A page of the authoring model as plain values.
pub type PageView = (
    AuthoringPageKind,
    Seq<char>,
    Seq<char>,
    Seq<char>,
    Option<Seq<char>>,
    Seq<char>,
    Seq<char>,
    Seq<(Seq<char>, Seq<char>, u8)>,
    Seq<Seq<char>>,
    Seq<char>,
);

/// An authoring page as plain values: kind, route, source file, title,
/// description, template, output path, headings, heading ids, link base.
pub open spec fn page_view(p: AuthoringPage) -> PageView {
    (
        p.kind,
        p.route@,
        p.source_file@,
        p.title@,
        opt_str(p.description),
        p.template@,
        p.output_path@,
        heading_views(p.headings@),
        p.heading_ids@.map_values(|s: String| s@),
        p.link_base_route@,
    )
}

/// The page the source file `e` gives: a section index gives the section
/// at its route (titled, described and templated as the section says, its
/// links based at the section's route); any other file gives the page at
/// its route (no description, `page.html` unless it names a template, its
/// links based at its section's route); none when the site has no such
/// section or page.
pub open spec fn entry_page(
    e: SourceRoute,
    sections: Seq<(String, SiteSectionRecord)>,
    pages: Seq<(String, SitePageRecord)>,
) -> Option<PageView> {
    if e.is_section_index {
        match key_index(sections, e.route@) {
            Some(i) => {
                let s = sections[i].1;
                Some(
                    (
                        AuthoringPageKind::Section,
                        e.route@,
                        e.source_file@,
                        s.title@,
                        opt_str(s.description),
                        spec_section_template_name(s.route@, opt_str(s.template)),
                        spec_route_output_path(s.route@),
                        heading_views(s.headings@),
                        heading_id_views(s.headings@),
                        s.route@,
                    ),
                )
            },
            None => None,
        }
    } else {
        match key_index(pages, e.route@) {
            Some(i) => {
                let p = pages[i].1;
                Some(
                    (
                        AuthoringPageKind::Page,
                        e.route@,
                        e.source_file@,
                        p.title@,
                        None,
                        match p.template {
                            Some(t) => t@,
                            None => "page.html"@,
                        },
                        spec_route_output_path(p.route@),
                        heading_views(p.headings@),
                        heading_id_views(p.headings@),
                        p.section_route@,
                    ),
                )
            },
            None => None,
        }
    }
}

/// The pages the source files `es` give, in their order.
pub open spec fn entry_pages(
    es: Seq<SourceRoute>,
    sections: Seq<(String, SiteSectionRecord)>,
    pages: Seq<(String, SitePageRecord)>,
) -> Seq<PageView>
    decreases es.len(),
{
    if es.len() == 0 {
        Seq::empty()
    } else {
        let prev = entry_pages(es.drop_last(), sections, pages);
        match entry_page(es.last(), sections, pages) {
            Some(v) => prev.push(v),
            None => prev,
        }
    }
}

/// Page `a` comes no later than page `b`: by route, then by source file.
pub open spec fn page_le(a: PageView, b: PageView) -> bool {
    if a.1 != b.1 {
        lex_le(a.1, b.1)
    } else {
        lex_le(a.2, b.2)
    }
}

/// The pages come in order of route, then source file.
pub open spec fn pages_ordered(v: Seq<PageView>) -> bool {
    forall|i: int, j: int| 0 <= i < j < v.len() ==> page_le(#[trigger] v[i], #[trigger] v[j])
}

fn copy_headings(hs: &Vec<AuthoringHeading>) -> (r: (Vec<AuthoringHeading>, Vec<String>))
    ensures
        heading_views(r.0@) == heading_views(hs@),
        r.1@.map_values(|s: String| s@) == heading_id_views(hs@),
{
    let mut out: Vec<AuthoringHeading> = Vec::new();
    let mut ids: Vec<String> = Vec::new();
    let mut i: usize = 0;
    while i < hs.len()
        invariant
            i <= hs.len(),
            heading_views(out@) == heading_views(hs@).take(i as int),
            ids@.map_values(|s: String| s@) == heading_id_views(hs@).take(i as int),
        decreases hs.len() - i,
    {
        let h = &hs[i];
        let ghost before = out@;
        let ghost ids_before = ids@;
        out.push(AuthoringHeading { id: h.id.clone(), title: h.title.clone(), level: h.level });
        ids.push(h.id.clone());
        assert(heading_views(out@) =~= heading_views(before).push((h.id@, h.title@, h.level)));
        assert(heading_views(hs@).take(i + 1 as int) =~= heading_views(hs@).take(i as int).push(
            (h.id@, h.title@, h.level),
        ));
        assert(ids@.map_values(|s: String| s@) =~= ids_before.map_values(|s: String| s@).push(h.id@));
        assert(heading_id_views(hs@).take(i + 1 as int) =~= heading_id_views(hs@).take(i as int).push(h.id@));
        i = i + 1;
    }
    assert(heading_views(hs@).take(hs.len() as int) =~= heading_views(hs@));
    assert(heading_id_views(hs@).take(hs.len() as int) =~= heading_id_views(hs@));
    (out, ids)
}

fn build_entry_page(
    e: &SourceRoute,
    sections: &Vec<(String, SiteSectionRecord)>,
    pages: &Vec<(String, SitePageRecord)>,
) -> (r: Option<AuthoringPage>)
    ensures
        match entry_page(*e, sections@, pages@) {
            Some(v) => r matches Some(p) && page_view(p) == v,
            None => r is None,
        },
{
    if e.is_section_index {
        match find_key(sections, e.route.as_str()) {
            Some(i) => {
                let s = &sections[i].1;
                let (headings, heading_ids) = copy_headings(&s.headings);
                let description = match &s.description {
                    Some(d) => Some(d.clone()),
                    None => None,
                };
                Some(
                    AuthoringPage {
                        kind: AuthoringPageKind::Section,
                        route: e.route.clone(),
                        source_file: e.source_file.clone(),
                        title: s.title.clone(),
                        description,
                        template: section_template_name(s.route.as_str(), &s.template),
                        output_path: route_output_path(s.route.as_str()),
                        headings,
                        heading_ids,
                        link_base_route: s.route.clone(),
                    },
                )
            },
            None => None,
        }
    } else {
        match find_key(pages, e.route.as_str()) {
            Some(i) => {
                let p = &pages[i].1;
                let (headings, heading_ids) = copy_headings(&p.headings);
                let template = match &p.template {
                    Some(t) => t.clone(),
                    None => {
                        proof {
                            reveal_strlit("page.html");
                        }
                        String::from_str("page.html")
                    },
                };
                Some(
                    AuthoringPage {
                        kind: AuthoringPageKind::Page,
                        route: e.route.clone(),
                        source_file: e.source_file.clone(),
                        title: p.title.clone(),
                        description: None,
                        template,
                        output_path: route_output_path(p.route.as_str()),
                        headings,
                        heading_ids,
                        link_base_route: p.section_route.clone(),
                    },
                )
            },
            None => None,
        }
    }
}

fn page_less(a: &AuthoringPage, b: &AuthoringPage) -> (r: bool)
    ensures
        r == !page_le(page_view(*b), page_view(*a)),
{
    if !str_eq(a.route.as_str(), b.route.as_str()) {
        key_less(to_chars(a.route.as_str()).as_slice(), to_chars(b.route.as_str()).as_slice())
    } else {
        key_less(to_chars(a.source_file.as_str()).as_slice(), to_chars(b.source_file.as_str()).as_slice())
    }
}

proof fn lemma_page_total(a: PageView, b: PageView)
    ensures
        page_le(a, b) || page_le(b, a),
{
    lemma_lex_total(a.1, b.1);
    lemma_lex_total(a.2, b.2);
}

proof fn lemma_page_transitive(a: PageView, b: PageView, c: PageView)
    requires
        page_le(a, b),
        page_le(b, c),
    ensures
        page_le(a, c),
{
    if a.1 != b.1 && b.1 != c.1 {
        lemma_lex_transitive(a.1, b.1, c.1);
        if a.1 == c.1 {
            crate::build_steps::lemma_lex_antisymmetric(a.1, b.1);
        }
    } else if a.1 == b.1 && b.1 == c.1 {
        lemma_lex_transitive(a.2, b.2, c.2);
    }
}

fn sort_pages(v: Vec<AuthoringPage>) -> (r: Vec<AuthoringPage>)
    ensures
        r@.to_multiset() == v@.to_multiset(),
        pages_ordered(r@.map_values(|p: AuthoringPage| page_view(p))),
{
    let mut rest = v;
    let mut out: Vec<AuthoringPage> = Vec::new();
    proof {
        broadcast use vstd::seq_lib::group_to_multiset_ensures;

        assert(out@.to_multiset().add(rest@.to_multiset()) =~= rest@.to_multiset());
    }
    while rest.len() > 0
        invariant
            out@.to_multiset().add(rest@.to_multiset()) == v@.to_multiset(),
            pages_ordered(out@.map_values(|p: AuthoringPage| page_view(p))),
        decreases rest.len(),
    {
        let ghost rest_before = rest@;
        let ghost out_before = out@;
        let ghost ob = out_before.map_values(|p: AuthoringPage| page_view(p));
        let e = rest.pop().unwrap();
        assert(rest_before == rest@.push(e));
        let ghost ev = page_view(e);
        let mut pos: usize = 0;
        let mut stop = false;
        while pos < out.len() && !stop
            invariant
                pos <= out.len(),
                out@ == out_before,
                ob == out_before.map_values(|p: AuthoringPage| page_view(p)),
                ev == page_view(e),
                forall|j: int| 0 <= j < pos ==> page_le(#[trigger] ob[j], ev),
                stop ==> pos < out.len() && !page_le(ob[pos as int], ev),
            decreases out.len() - pos + if stop {
                0int
            } else {
                1int
            },
        {
            assert(ob[pos as int] == page_view(out@[pos as int]));
            if page_less(&e, &out[pos]) {
                stop = true;
            } else {
                pos = pos + 1;
            }
        }
        let ghost p = pos as int;
        out.insert(pos, e);
        let ghost ov = out@.map_values(|p: AuthoringPage| page_view(p));
        assert(out@ == out_before.insert(p, e));
        assert(ov =~= ob.insert(p, ev));
        assert(pages_ordered(ov)) by {
            assert forall|i: int, j: int| 0 <= i < j < ov.len() implies page_le(#[trigger] ov[i], #[trigger] ov[j]) by {
                if j < p {
                } else if i < p && j == p {
                } else if i < p && j > p {
                    assert(ov[j] == ob[j - 1]);
                } else if i == p {
                    assert(ov[j] == ob[j - 1]);
                    lemma_page_total(ev, ob[p]);
                    if j - 1 > p {
                        assert(page_le(ob[p], ob[j - 1]));
                        lemma_page_transitive(ev, ob[p], ob[j - 1]);
                    }
                } else {
                    assert(ov[i] == ob[i - 1]);
                    assert(ov[j] == ob[j - 1]);
                }
            }
        }
        proof {
            broadcast use vstd::seq_lib::group_to_multiset_ensures;

            assert(out@.to_multiset().add(rest@.to_multiset()) =~= out_before.to_multiset().add(
                rest_before.to_multiset(),
            ));
        }
    }
    out
}

/// The pages of the authoring model: one for each source file in
/// `source_routes` whose section or page the site has (`sections` and
/// `pages` are keyed by route), ordered by route and then by source file.
pub fn assemble_authoring_pages(
    source_routes: &Vec<SourceRoute>,
    sections: &Vec<(String, SiteSectionRecord)>,
    pages: &Vec<(String, SitePageRecord)>,
) -> (r: Vec<AuthoringPage>)
    ensures
        pages_ordered(r@.map_values(|p: AuthoringPage| page_view(p))),
        r@.map_values(|p: AuthoringPage| page_view(p)).to_multiset() == entry_pages(
            source_routes@,
            sections@,
            pages@,
        ).to_multiset(),
{
    let ghost es = source_routes@;
    let mut built: Vec<AuthoringPage> = Vec::new();
    let mut i: usize = 0;
    while i < source_routes.len()
        invariant
            i <= source_routes.len(),
            es == source_routes@,
            built@.map_values(|p: AuthoringPage| page_view(p)) == entry_pages(es.take(i as int), sections@, pages@),
        decreases source_routes.len() - i,
    {
        assert(es.take(i + 1 as int).drop_last() == es.take(i as int));
        assert(es.take(i + 1 as int).last() == es[i as int]);
        let ghost before = built@;
        match build_entry_page(&source_routes[i], sections, pages) {
            Some(p) => {
                built.push(p);
                assert(built@.map_values(|p: AuthoringPage| page_view(p)) =~= before.map_values(
                    |p: AuthoringPage| page_view(p),
                ).push(page_view(built@.last())));
            },
            None => {},
        }
        i = i + 1;
    }
    assert(es.take(source_routes.len() as int) == es);
    let ghost bv = built@;
    let sorted = sort_pages(built);
    proof {
        lemma_map_values_multiset(sorted@, bv, |p: AuthoringPage| page_view(p));
    }
    sorted
}

/// The completion keys of the data files, in order.
pub open spec fn data_key_views(files: Seq<String>) -> Seq<Seq<char>> {
    files.map_values(|f: String| spec_data_completion_key(f@))
}

/// The data keys of the project: the completion key of each data file,
/// each once, in order.
pub fn project_data_keys(data_files: &Vec<String>) -> (r: Vec<String>)
    ensures
        forall|i: int, j: int| 0 <= i < j < r@.len() ==> lex_le(#[trigger] r@[i]@, #[trigger] r@[j]@) && r@[i]@ != r@[j]@,
        forall|x: Seq<char>|
            #[trigger] data_key_views(data_files@).contains(x) <==> exists|i: int|
                0 <= i < r@.len() && (#[trigger] r@[i])@ == x,
{
    let ghost cands = data_key_views(data_files@);
    let mut pairs: Vec<(String, ())> = Vec::new();
    let mut k: usize = 0;
    while k < data_files.len()
        invariant
            k <= data_files.len(),
            cands == data_key_views(data_files@),
            pairs@.map_values(|p: (String, ())| p.0@) == cands.take(k as int),
        decreases data_files.len() - k,
    {
        let key = data_completion_key(data_files[k].as_str());
        let ghost before = pairs@;
        pairs.push((key, ()));
        assert(pairs@.map_values(|p: (String, ())| p.0@) =~= before.map_values(|p: (String, ())| p.0@).push(
            cands[k as int],
        ));
        assert(cands.take(k + 1 as int) =~= cands.take(k as int).push(cands[k as int]));
        k = k + 1;
    }
    assert(cands.take(data_files.len() as int) =~= cands);
    let ghost pv = pairs@;
    let sorted = sort_by_key(pairs);
    let ghost f = |p: (String, ())| p.0@;
    let ghost sv = sorted@.map_values(f);
    proof {
        lemma_map_values_multiset(sorted@, pv, f);
        broadcast use vstd::seq_lib::group_to_multiset_ensures;

        assert(pv.map_values(f) == cands);
        assert forall|j: int| 0 <= j < sv.len() implies #[trigger] sv[j] == sorted@[j].0@ by {
            assert(sv[j] == f(sorted@[j]));
        }
    }
    let mut out: Vec<String> = Vec::new();
    let mut i: usize = 0;
    while i < sorted.len()
        invariant
            i <= sorted.len(),
            sv.len() == sorted@.len(),
            forall|j: int| 0 <= j < sv.len() ==> #[trigger] sv[j] == sorted@[j].0@,
            keys_sorted(sorted@),
            forall|a: int, b: int| 0 <= a < b < out@.len() ==> lex_le(#[trigger] out@[a]@, #[trigger] out@[b]@) && out@[a]@ != out@[b]@,
            out@.len() > 0 ==> i > 0 && out@.last()@ == sv[i - 1],
            out@.len() == 0 ==> i == 0,
            forall|x: Seq<char>| sv.take(i as int).contains(x) <==> exists|a: int| 0 <= a < out@.len() && (#[trigger] out@[a])@ == x,
        decreases sorted.len() - i,
    {
        let cur = sorted[i].0.as_str();
        assert(sv[i as int] == cur@);
        let fresh = if out.len() == 0 {
            true
        } else {
            !crate::text::str_eq(out[out.len() - 1].as_str(), cur)
        };
        let ghost out_before = out@;
        if fresh {
            out.push(from_chars(to_chars(cur).as_slice()));
            proof {
                if out_before.len() > 0 {
                    assert(lex_le(sorted@[i - 1].0@, sorted@[i as int].0@));
                    assert(sv[i - 1] == sorted@[i - 1].0@);
                    assert(lex_le(out_before.last()@, cur@));
                    assert forall|a: int, b: int| 0 <= a < b < out@.len() implies lex_le(#[trigger] out@[a]@, #[trigger] out@[b]@) && out@[a]@ != out@[b]@ by {
                        if b == out@.len() - 1 && a < b {
                            assert(out@[a] == out_before[a]);
                            if a < out_before.len() - 1 {
                                assert(lex_le(out_before[a]@, out_before.last()@));
                                lemma_lex_transitive(out_before[a]@, out_before.last()@, cur@);
                                if out_before[a]@ == cur@ {
                                    crate::build_steps::lemma_lex_antisymmetric(out_before[a]@, out_before.last()@);
                                }
                            }
                        } else {
                            assert(out@[a] == out_before[a]);
                            assert(out@[b] == out_before[b]);
                        }
                    }
                }
            }
        }
        let ghost pre = sv.take(i as int);
        let ghost post = sv.take(i + 1 as int);
        assert(post == pre.push(sv[i as int]));
        assert forall|x: Seq<char>| post.contains(x) <==> exists|a: int| 0 <= a < out@.len() && (#[trigger] out@[a])@ == x by {
            if post.contains(x) {
                let j = choose|j: int| 0 <= j < post.len() && post[j] == x;
                if j < i {
                    assert(pre[j] == x);
                    assert(pre.contains(x));
                    let a = choose|a: int| 0 <= a < out_before.len() && (#[trigger] out_before[a])@ == x;
                    assert(out@[a] == out_before[a]);
                } else {
                    assert(out@[out@.len() - 1]@ == x);
                }
            }
            if exists|a: int| 0 <= a < out@.len() && (#[trigger] out@[a])@ == x {
                let a = choose|a: int| 0 <= a < out@.len() && (#[trigger] out@[a])@ == x;
                if a < out_before.len() {
                    assert(out_before[a]@ == x);
                    assert(pre.contains(x));
                    let j = choose|j: int| 0 <= j < pre.len() && pre[j] == x;
                    assert(post[j] == x);
                } else {
                    assert(post[i as int] == x);
                }
            }
        }
        i = i + 1;
    }
    proof {
        assert(sv.take(sorted.len() as int) == sv);
        assert forall|x: Seq<char>| cands.contains(x) <==> sv.contains(x) by {
            vstd::seq_lib::to_multiset_contains(sv, x);
            vstd::seq_lib::to_multiset_contains(cands, x);
        }
    }
    out
}

/// The routes the project knows and the heading ids of each, in the order
/// of its pages.
pub fn project_route_indexes(pages: &Vec<AuthoringPage>) -> (r: (Vec<String>, Vec<(String, Vec<String>)>))
    ensures
        r.0@.len() == pages@.len(),
        r.1@.len() == pages@.len(),
        forall|i: int|
            0 <= i < pages@.len() ==> (#[trigger] r.0@[i])@ == pages@[i].route@ && r.1@[i].0@ == pages@[i].route@
                && r.1@[i].1@.map_values(|s: String| s@) == pages@[i].heading_ids@.map_values(|s: String| s@),
{
    let mut known: Vec<String> = Vec::new();
    let mut headings: Vec<(String, Vec<String>)> = Vec::new();
    let mut i: usize = 0;
    while i < pages.len()
        invariant
            i <= pages.len(),
            known@.len() == i,
            headings@.len() == i,
            forall|j: int|
                0 <= j < i ==> (#[trigger] known@[j])@ == pages@[j].route@ && headings@[j].0@ == pages@[j].route@
                    && headings@[j].1@.map_values(|s: String| s@) == pages@[j].heading_ids@.map_values(|s: String| s@),
        decreases pages.len() - i,
    {
        let page = &pages[i];
        let mut ids: Vec<String> = Vec::new();
        let mut k: usize = 0;
        while k < page.heading_ids.len()
            invariant
                k <= page.heading_ids.len(),
                ids@.map_values(|s: String| s@) == page.heading_ids@.map_values(|s: String| s@).take(k as int),
            decreases page.heading_ids.len() - k,
        {
            let ghost before = ids@;
            ids.push(page.heading_ids[k].clone());
            assert(ids@.map_values(|s: String| s@) =~= before.map_values(|s: String| s@).push(page.heading_ids@[k as int]@));
            assert(page.heading_ids@.map_values(|s: String| s@).take(k + 1 as int) =~= page.heading_ids@.map_values(
                |s: String| s@,
            ).take(k as int).push(page.heading_ids@[k as int]@));
            k = k + 1;
        }
        assert(page.heading_ids@.map_values(|s: String| s@).take(page.heading_ids.len() as int) =~= page.heading_ids@.map_values(
            |s: String| s@,
        ));
        known.push(page.route.clone());
        headings.push((page.route.clone(), ids));
        i = i + 1;
    }
    (known, headings)
}

/// The route-to-source index of the project: each (source file, route) pair
/// of `source_to_route` turned round, in the same order.
pub fn route_to_source_index(source_to_route: &Vec<(String, String)>) -> (r: Vec<(String, String)>)
    ensures
        r@.len() == source_to_route@.len(),
        forall|i: int|
            0 <= i < r@.len() ==> (#[trigger] r@[i]).0@ == source_to_route@[i].1@ && r@[i].1@
                == source_to_route@[i].0@,
{
    let mut out: Vec<(String, String)> = Vec::new();
    let mut i: usize = 0;
    while i < source_to_route.len()
        invariant
            i <= source_to_route.len(),
            out@.len() == i,
            forall|j: int|
                0 <= j < i ==> (#[trigger] out@[j]).0@ == source_to_route@[j].1@ && out@[j].1@
                    == source_to_route@[j].0@,
        decreases source_to_route.len() - i,
    {
        out.push((source_to_route[i].1.clone(), source_to_route[i].0.clone()));
        i = i + 1;
    }
    out
}


/// The names that every template may read without declaring them.
pub fn template_context_roots() -> (r: Vec<String>)
    ensures
        r@.map_values(|s: String| s@) == seq![
            "config"@,
            "page"@,
            "section"@,
            "current_path"@,
            "root"@,
            "data"@,
        ],
{
    let r = vec![
        "config".to_owned(),
        "page".to_owned(),
        "section".to_owned(),
        "current_path".to_owned(),
        "root".to_owned(),
        "data".to_owned(),
    ];
    assert(r@.map_values(|s: String| s@) =~= seq![
        "config"@,
        "page"@,
        "section"@,
        "current_path"@,
        "root"@,
        "data"@,
    ]);
    r
}

/// Each key of `m` paired with the physical path `dir/key`.
fn paths_under(dir: &str, keys: &Vec<String>) -> (r: Vec<(String, String)>)
    ensures
        r@.len() == keys@.len(),
        forall|i: int|
            0 <= i < r@.len() ==> (#[trigger] r@[i]).0@ == keys@[i]@ && r@[i].1@ == camino_join(
                dir@,
                keys@[i]@,
            ),
{
    let mut out: Vec<(String, String)> = Vec::new();
    let mut i: usize = 0;
    while i < keys.len()
        invariant
            i <= keys.len(),
            out@.len() == i,
            forall|j: int|
                0 <= j < i ==> (#[trigger] out@[j]).0@ == keys@[j]@ && out@[j].1@ == camino_join(
                    dir@,
                    keys@[j]@,
                ),
        decreases keys.len() - i,
    {
        out.push((keys[i].clone(), path_join(dir, keys[i].as_str())));
        i = i + 1;
    }
    out
}

/// The authoring model of a site from its parts: the source files with their
/// routes, the parsed sections and pages (keyed by route), the sources'
/// texts, the templates' texts, the project directory, the static files, the
/// data files and the links of the rendered pages. `template_function_names`
/// are the functions the template engine offers, which the semantic index of
/// each template may use. The maps of the original come as lists whose keys
/// are distinct.
pub fn authoring_project_from_parts(
    source_routes: &Vec<SourceRoute>,
    sections: &Vec<(String, SiteSectionRecord)>,
    site_pages: &Vec<(String, SitePageRecord)>,
    source_contents: Vec<(String, String)>,
    templates: Vec<(String, String)>,
    template_function_names: &Vec<String>,
    project_dir: &str,
    static_paths: Vec<(String, String)>,
    data_files: &Vec<String>,
    rendered_hrefs_by_route: Vec<(String, Vec<RenderedHref>)>,
) -> (p: AuthoringProject)
    requires
        forall|i: int, j: int|
            0 <= i < j < source_routes@.len() ==> (#[trigger] source_routes@[i]).source_file@
                != (#[trigger] source_routes@[j]).source_file@,
        keys_unique(source_contents@),
        keys_unique(templates@),
        keys_unique(static_paths@),
        forall|i: int, j: int|
            0 <= i < j < data_files@.len() ==> (#[trigger] data_files@[i])@ != (
            #[trigger] data_files@[j])@,
    ensures
        p.wf(),
        pages_ordered(p.pages@.map_values(|q: AuthoringPage| page_view(q))),
        p.pages@.map_values(|q: AuthoringPage| page_view(q)).to_multiset() == entry_pages(
            source_routes@,
            sections@,
            site_pages@,
        ).to_multiset(),
        p.source_to_route@.len() == source_routes@.len(),
        forall|i: int|
            0 <= i < source_routes@.len() ==> (#[trigger] p.source_to_route@[i]).0@
                == source_routes@[i].source_file@ && p.source_to_route@[i].1@
                == source_routes@[i].route@,
        p.source_contents@ == source_contents@,
        p.template_contents@ == templates@,
        p.static_paths@ == static_paths@,
        p.rendered_hrefs_by_route@ == rendered_hrefs_by_route@,
        p.template_paths@.len() == templates@.len(),
        forall|i: int|
            0 <= i < templates@.len() ==> (#[trigger] p.template_paths@[i]).0@ == templates@[i].0@
                && p.template_paths@[i].1@ == camino_join(
                camino_join(project_dir@, "templates"@),
                templates@[i].0@,
            ),
        p.data_paths@.len() == data_files@.len(),
        forall|i: int|
            0 <= i < data_files@.len() ==> (#[trigger] p.data_paths@[i]).0@ == data_files@[i]@
                && p.data_paths@[i].1@ == camino_join(camino_join(project_dir@, "data"@), data_files@[i]@),
        forall|x: Seq<char>|
            #[trigger] data_key_views(data_files@).contains(x) <==> exists|i: int|
                0 <= i < p.data_keys@.len() && (#[trigger] p.data_keys@[i])@ == x,
{
    let pages = assemble_authoring_pages(source_routes, sections, site_pages);
    let (known_routes, headings_by_route) = project_route_indexes(&pages);
    let mut source_to_route: Vec<(String, String)> = Vec::new();
    let mut i: usize = 0;
    while i < source_routes.len()
        invariant
            i <= source_routes.len(),
            source_to_route@.len() == i,
            forall|j: int|
                0 <= j < i ==> (#[trigger] source_to_route@[j]).0@ == source_routes@[j].source_file@
                    && source_to_route@[j].1@ == source_routes@[j].route@,
        decreases source_routes.len() - i,
    {
        source_to_route.push((source_routes[i].source_file.clone(), source_routes[i].route.clone()));
        i = i + 1;
    }
    let route_to_source = route_to_source_index(&source_to_route);
    let templates_dir = path_join(project_dir, "templates");
    let roots = template_context_roots();
    let mut template_keys: Vec<String> = Vec::new();
    let mut semantics: Vec<(String, gingembre::semantic::TemplateSemanticIndex)> = Vec::new();
    let mut k: usize = 0;
    while k < templates.len()
        invariant
            k <= templates.len(),
            template_keys@.len() == k,
            semantics@.len() == k,
            forall|j: int| 0 <= j < k ==> (#[trigger] template_keys@[j])@ == templates@[j].0@,
            forall|j: int| 0 <= j < k ==> (#[trigger] semantics@[j]).0@ == templates@[j].0@,
        decreases templates.len() - k,
    {
        let key = templates[k].0.clone();
        let key2 = templates[k].0.clone();
        assert(key@ == templates@[k as int].0@);
        assert(key2@ == templates@[k as int].0@);
        template_keys.push(key);
        let index = crate::template_syntax::template_semantics(
            templates[k].1.as_str(),
            &roots,
            template_function_names,
        );
        let ghost before = semantics@;
        semantics.push((key2, index));
        assert(semantics@[k as int].0@ == templates@[k as int].0@);
        assert(forall|j: int| 0 <= j < k ==> semantics@[j] == before[j]);
        k = k + 1;
    }
    let template_paths = paths_under(templates_dir.as_str(), &template_keys);
    let data_dir = path_join(project_dir, "data");
    let data_paths = paths_under(data_dir.as_str(), data_files);
    let data_keys = project_data_keys(data_files);
    assert(keys_unique(semantics@)) by {
        assert forall|a: int, b: int| 0 <= a < b < semantics@.len() implies (
        #[trigger] semantics@[a]).0@ != (#[trigger] semantics@[b]).0@ by {
            assert(templates@[a].0@ != templates@[b].0@);
        }
    }
    assert(keys_unique(template_paths@)) by {
        assert forall|a: int, b: int| 0 <= a < b < template_paths@.len() implies (
        #[trigger] template_paths@[a]).0@ != (#[trigger] template_paths@[b]).0@ by {
            assert(templates@[a].0@ != templates@[b].0@);
        }
    }
    assert(keys_unique(data_paths@)) by {
        assert forall|a: int, b: int| 0 <= a < b < data_paths@.len() implies (
        #[trigger] data_paths@[a]).0@ != (#[trigger] data_paths@[b]).0@ by {
            assert(data_files@[a]@ != data_files@[b]@);
        }
    }
    assert(keys_unique(source_to_route@)) by {
        assert forall|a: int, b: int| 0 <= a < b < source_to_route@.len() implies (
        #[trigger] source_to_route@[a]).0@ != (#[trigger] source_to_route@[b]).0@ by {
            assert(source_routes@[a].source_file@ != source_routes@[b].source_file@);
        }
    }
    let p = AuthoringProject {
        pages,
        known_routes,
        headings_by_route,
        source_to_route,
        route_to_source,
        source_contents,
        template_paths,
        template_contents: templates,
        static_paths,
        data_paths,
        data_keys,
        rendered_hrefs_by_route,
        template_semantics: semantics,
    };
    assert(p.data_keys@ == data_keys@);
    assert forall|i: int| 0 <= i < p.pages@.len() implies (#[trigger] p.headings_by_route@[i]).0@
        == p.pages@[i].route@ && p.headings_by_route@[i].1@.map_values(|s: String| s@)
        == p.pages@[i].heading_ids@.map_values(|s: String| s@) by {
        assert(p.known_routes@[i]@ == p.pages@[i].route@);
    }
    assert(p.template_semantics@ == semantics@);
    assert(forall|i: int| 0 <= i < p.template_semantics@.len() ==> (#[trigger] p.template_semantics@[i]).0@ == p.template_contents@[i].0@);
    assert(forall|i: int, j: int|
            0 <= i < j < p.data_keys@.len() ==> lex_le(
                #[trigger] p.data_keys@[i]@,
                #[trigger] p.data_keys@[j]@,
            ) && p.data_keys@[i]@ != p.data_keys@[j]@);
    p
}

} // verus!
