//! Quick fixes for a link to a missing anchor: change it to one of the
//! target page's headings, best matches first.
use vstd::prelude::*;

use crate::build_steps::{
    key_less, lemma_lex_total, lemma_lex_transitive,
    lemma_map_values_multiset, lex_le,
};
use crate::editing::{anchor_suggestion_score, marq_slugify, spec_anchor_suggestion_score};
use crate::model::AuthoringPage;
use crate::positions::Range;
use crate::text::{from_chars, push_str_chars, str_eq, to_chars};

verus! {

/// A heading as a fix candidate: its score against the missing anchor,
/// and its id.
pub open spec fn candidate_view(c: (usize, String)) -> (usize, Seq<char>) {
    (c.0, c.1@)
}

/// Candidate `a` ranks no lower than `b`: a higher score first, then the
/// smaller id.
pub open spec fn candidate_le(a: (usize, Seq<char>), b: (usize, Seq<char>)) -> bool {
    a.0 > b.0 || (a.0 == b.0 && lex_le(a.1, b.1))
}

/// The candidates come in rank order.
pub open spec fn candidates_ranked(v: Seq<(usize, Seq<char>)>) -> bool {
    forall|i: int, j: int| 0 <= i < j < v.len() ==> candidate_le(#[trigger] v[i], #[trigger] v[j])
}

/// The candidates of `page`'s headings for the missing anchor `fragment`,
/// in heading order; each heading's title is compared by its slug.
pub open spec fn anchor_candidates(page: AuthoringPage, fragment: Seq<char>) -> Seq<
    (usize, Seq<char>),
> {
    Seq::new(
        page.headings@.len(),
        |i: int|
            (
                spec_anchor_suggestion_score(
                    fragment,
                    page.headings@[i].id@,
                    marq_slugify(page.headings@[i].title@),
                ) as usize,
                page.headings@[i].id@,
            ),
    )
}

fn candidate_less(a: &(usize, String), b: &(usize, String)) -> (r: bool)
    ensures
        r == !candidate_le(candidate_view(*b), candidate_view(*a)),
{
    if a.0 != b.0 {
        a.0 > b.0
    } else {
        key_less(to_chars(a.1.as_str()).as_slice(), to_chars(b.1.as_str()).as_slice())
    }
}

proof fn lemma_candidate_total(a: (usize, Seq<char>), b: (usize, Seq<char>))
    ensures
        candidate_le(a, b) || candidate_le(b, a),
{
    lemma_lex_total(a.1, b.1);
}

proof fn lemma_candidate_transitive(a: (usize, Seq<char>), b: (usize, Seq<char>), c: (usize, Seq<char>))
    requires
        candidate_le(a, b),
        candidate_le(b, c),
    ensures
        candidate_le(a, c),
{
    if a.0 == b.0 && b.0 == c.0 {
        lemma_lex_transitive(a.1, b.1, c.1);
    }
}

/// The candidates in rank order: the same candidates, ranked.
fn rank_candidates(v: Vec<(usize, String)>) -> (r: Vec<(usize, String)>)
    ensures
        r@.to_multiset() == v@.to_multiset(),
        candidates_ranked(r@.map_values(|c: (usize, String)| candidate_view(c))),
{
    let mut rest = v;
    let mut out: Vec<(usize, String)> = Vec::new();
    proof {
        broadcast use vstd::seq_lib::group_to_multiset_ensures;

        assert(out@.to_multiset().add(rest@.to_multiset()) =~= rest@.to_multiset());
    }
    while rest.len() > 0
        invariant
            out@.to_multiset().add(rest@.to_multiset()) == v@.to_multiset(),
            candidates_ranked(out@.map_values(|c: (usize, String)| candidate_view(c))),
        decreases rest.len(),
    {
        let ghost rest_before = rest@;
        let ghost out_before = out@;
        let ghost ob = out_before.map_values(|c: (usize, String)| candidate_view(c));
        let e = rest.pop().unwrap();
        assert(rest_before == rest@.push(e));
        let ghost ev = candidate_view(e);
        let mut pos: usize = 0;
        let mut stop = false;
        while pos < out.len() && !stop
            invariant
                pos <= out.len(),
                out@ == out_before,
                ob == out_before.map_values(|c: (usize, String)| candidate_view(c)),
                ev == candidate_view(e),
                forall|j: int| 0 <= j < pos ==> candidate_le(#[trigger] ob[j], ev),
                stop ==> pos < out.len() && !candidate_le(ob[pos as int], ev),
            decreases out.len() - pos + if stop {
                0int
            } else {
                1int
            },
        {
            assert(ob[pos as int] == candidate_view(out@[pos as int]));
            if candidate_less(&e, &out[pos]) {
                stop = true;
            } else {
                pos = pos + 1;
            }
        }
        let ghost p = pos as int;
        out.insert(pos, e);
        let ghost ov = out@.map_values(|c: (usize, String)| candidate_view(c));
        assert(out@ == out_before.insert(p, e));
        assert(ov =~= ob.insert(p, ev));
        assert(candidates_ranked(ov)) by {
            assert forall|i: int, j: int| 0 <= i < j < ov.len() implies candidate_le(#[trigger] ov[i], #[trigger] ov[j]) by {
                if j < p {
                } else if i < p && j == p {
                } else if i < p && j > p {
                    assert(ov[j] == ob[j - 1]);
                } else if i == p {
                    assert(ov[j] == ob[j - 1]);
                    lemma_candidate_total(ev, ob[p]);
                    if j - 1 > p {
                        assert(candidate_le(ob[p], ob[j - 1]));
                        lemma_candidate_transitive(ev, ob[p], ob[j - 1]);
                    }
                } else {
                    assert(ov[i] == ob[i - 1]);
                    assert(ov[j] == ob[j - 1]);
                }
            }
        }
        proof {
            broadcast use vstd::seq_lib::group_to_multiset_ensures;

            assert(out@.to_multiset().add(rest@.to_multiset()) =~= out_before.to_multiset().add(
                rest_before.to_multiset(),
            ));
        }
    }
    out
}

/// A quick fix that changes a link's anchor.
pub struct AnchorFix {
    pub title: String,
    /// The anchor written in place of the missing one.
    pub new_text: String,
    /// The range of the missing anchor.
    pub range: Range,
    pub is_preferred: bool,
}

impl View for AnchorFix {
    type V = (Seq<char>, Seq<char>, Range, bool);

    open spec fn view(&self) -> Self::V {
        (self.title@, self.new_text@, self.range, self.is_preferred)
    }
}

/// The fixes offered for the ranked candidates `top`: a change to the id
/// of each candidate that differs from the missing `fragment`; the fix for
/// the best-ranked candidate is the preferred one.
pub open spec fn anchor_fixes(top: Seq<(usize, Seq<char>)>, fragment: Seq<char>, range: Range) -> Seq<
    (Seq<char>, Seq<char>, Range, bool),
>
    decreases top.len(),
{
    if top.len() == 0 {
        Seq::empty()
    } else {
        let prev = anchor_fixes(top.drop_last(), fragment, range);
        let c = top.last();
        if c.1 == fragment {
            prev
        } else {
            prev.push(("Change anchor to '#"@ + c.1 + "'"@, c.1, range, top.len() == 1))
        }
    }
}

/// The number of candidates offered.
pub open spec fn max_anchor_fixes() -> int {
    5
}

/// The fixes for a link to the missing anchor `fragment` (written at
/// `fragment_range`) of `target_page`: its headings ranked by how well they
/// match the anchor (ties by id), the best five considered, each offered
/// unless its id is the fragment itself.
pub fn existing_anchor_code_actions(
    target_page: &AuthoringPage,
    fragment_range: Range,
    missing_fragment: &str,
) -> (r: Vec<AnchorFix>)
    ensures
        exists|ranked: Seq<(usize, Seq<char>)>|
            ranked.to_multiset() == anchor_candidates(*target_page, missing_fragment@).to_multiset()
                && candidates_ranked(ranked) && r@.map_values(|f: AnchorFix| f@) == anchor_fixes(
                ranked.take(
                    if ranked.len() < max_anchor_fixes() {
                        ranked.len() as int
                    } else {
                        max_anchor_fixes()
                    },
                ),
                missing_fragment@,
                fragment_range,
            ),
{
    let ghost cands = anchor_candidates(*target_page, missing_fragment@);
    let mut scored: Vec<(usize, String)> = Vec::new();
    let mut i: usize = 0;
    while i < target_page.headings.len()
        invariant
            i <= target_page.headings.len(),
            cands == anchor_candidates(*target_page, missing_fragment@),
            scored@.map_values(|c: (usize, String)| candidate_view(c)) == cands.take(i as int),
        decreases target_page.headings.len() - i,
    {
        let h = &target_page.headings[i];
        let score = anchor_suggestion_score(missing_fragment, h.id.as_str(), h.title.as_str());
        let ghost before = scored@;
        let idc = from_chars(to_chars(h.id.as_str()).as_slice());
        assert(h.id@ == target_page.headings@[i as int].id@);
        assert(h.title@ == target_page.headings@[i as int].title@);
        assert(cands[i as int] == (score, idc@));
        scored.push((score, idc));
        assert(before.map_values(|c: (usize, String)| candidate_view(c)) == cands.take(i as int));
        assert(scored@ == before.push((score, idc)));
        let ghost sm = scored@.map_values(|c: (usize, String)| candidate_view(c));
        let ghost bm = before.map_values(|c: (usize, String)| candidate_view(c));
        assert(bm.len() == before.len());
        assert(cands.len() == target_page.headings@.len());
        assert(before.len() == i);
        assert forall|j: int| 0 <= j <= i implies #[trigger] sm[j] == cands.take(i + 1 as int)[j] by {
            if j < i {
                assert(scored@[j] == before[j]);
                assert(bm[j] == cands.take(i as int)[j]);
            }
        }
        assert(sm =~= cands.take(i + 1 as int));
        i = i + 1;
    }
    assert(cands.take(target_page.headings.len() as int) == cands);
    let ghost sv = scored@;
    let ranked = rank_candidates(scored);
    let ghost rv = ranked@.map_values(|c: (usize, String)| candidate_view(c));
    proof {
        lemma_map_values_multiset(ranked@, sv, |c: (usize, String)| candidate_view(c));
    }
    let n: usize = if ranked.len() < 5 {
        ranked.len()
    } else {
        5
    };
    let ghost top = rv.take(n as int);
    let mut out: Vec<AnchorFix> = Vec::new();
    let mut k: usize = 0;
    while k < n
        invariant
            k <= n <= ranked.len(),
            rv == ranked@.map_values(|c: (usize, String)| candidate_view(c)),
            top == rv.take(n as int),
            out@.map_values(|f: AnchorFix| f@) == anchor_fixes(top.take(k as int), missing_fragment@, fragment_range),
        decreases n - k,
    {
        let id = ranked[k].1.as_str();
        assert(top.take(k + 1 as int).drop_last() == top.take(k as int));
        assert(top.take(k + 1 as int).last() == rv[k as int]);
        assert(rv[k as int] == candidate_view(ranked@[k as int]));
        if !str_eq(id, missing_fragment) {
            let mut title = to_chars("Change anchor to '#");
            push_str_chars(&mut title, id);
            push_str_chars(&mut title, "'");
            proof {
                reveal_strlit("Change anchor to '#");
                reveal_strlit("'");
            }
            let fix = AnchorFix {
                title: from_chars(title.as_slice()),
                new_text: from_chars(to_chars(id).as_slice()),
                range: fragment_range,
                is_preferred: k == 0,
            };
            let ghost before = out@;
            out.push(fix);
            assert(out@.map_values(|f: AnchorFix| f@) =~= before.map_values(|f: AnchorFix| f@).push(fix@));
        }
        k = k + 1;
    }
    assert(top.take(n as int) == top);
    out
}

} // verus!
