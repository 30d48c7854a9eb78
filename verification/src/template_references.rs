//! Queries of the template index: the block or macro name under the
//! cursor, the parent block that a block overrides, and every place that
//! declares or calls a macro, sorted by file and range, each once.
use vstd::prelude::*;

use crate::build_steps::{
    key_less, lemma_lex_antisymmetric, lemma_lex_reflexive, lemma_lex_total, lemma_lex_transitive,
    lex_le,
};
use crate::positions::{range_contains_position, spec_range_contains, Position, Range};
use crate::template_definitions::{TemplateDefinitionKind, TemplateDefinitionTarget, target_view, DefinitionTargetView};
use crate::template_index::{
    indexed_view, name_view, IndexedTemplate, IndexedTemplateView, NameOccurrenceView,
    TemplateIndex, TemplateNameOccurrence,
};
use crate::model::find_key;
use crate::text::{str_eq, to_chars};

verus! {

/// A place in a template file: its path and a range.
#[derive(Clone, Debug)]
pub struct TemplateReferenceTarget {
    pub path: String,
    pub range: Range,
}

/// A place that declares or calls a macro.
pub type TemplateMacroReferenceTarget = TemplateReferenceTarget;

/// The macro that a query is about: the template that defines it and its
/// name.
#[derive(Clone, Debug)]
pub struct TemplateMacroReferenceQuery {
    pub target_template_file: String,
    pub macro_name: String,
}

/// The mathematical value of a [`TemplateReferenceTarget`].
pub struct ReferenceView {
    pub path: Seq<char>,
    pub range: Range,
}

pub open spec fn ref_view(t: TemplateReferenceTarget) -> ReferenceView {
    ReferenceView { path: t.path@, range: t.range }
}

pub open spec fn ref_views(v: Seq<TemplateReferenceTarget>) -> Seq<ReferenceView> {
    v.map_values(|t: TemplateReferenceTarget| ref_view(t))
}

pub open spec fn pos_lt(a: Position, b: Position) -> bool {
    a.line < b.line || (a.line == b.line && a.character < b.character)
}

/// `a` comes before `b`: by path, then by the start of the range, then by
/// its end.
pub open spec fn ref_lt(a: ReferenceView, b: ReferenceView) -> bool {
    ||| !lex_le(b.path, a.path)
    ||| (a.path == b.path && pos_lt(a.range.start, b.range.start))
    ||| (a.path == b.path && a.range.start == b.range.start && pos_lt(a.range.end, b.range.end))
}

/// The places come in strictly increasing order (so each at most once).
pub open spec fn refs_sorted(v: Seq<ReferenceView>) -> bool {
    forall|i: int, j: int| 0 <= i < j < v.len() ==> ref_lt(#[trigger] v[i], #[trigger] v[j])
}

pub proof fn lemma_ref_lt_irreflexive(a: ReferenceView)
    ensures
        !ref_lt(a, a),
{
    lemma_lex_reflexive(a.path);
}

pub proof fn lemma_ref_lt_transitive(a: ReferenceView, b: ReferenceView, c: ReferenceView)
    requires
        ref_lt(a, b),
        ref_lt(b, c),
    ensures
        ref_lt(a, c),
{
    lemma_lex_total(a.path, b.path);
    lemma_lex_total(b.path, c.path);
    lemma_lex_total(a.path, c.path);
    if lex_le(c.path, a.path) {
        // a.path and c.path come in either order; show they are equal.
        if !lex_le(b.path, a.path) {
            lemma_lex_transitive(c.path, a.path, b.path);
            if lex_le(c.path, b.path) && lex_le(b.path, c.path) {
                lemma_lex_antisymmetric(b.path, c.path);
            }
            lemma_lex_reflexive(c.path);
        } else if a.path == b.path {
            if !lex_le(c.path, b.path) {
            } else {
                lemma_lex_antisymmetric(b.path, c.path);
            }
        }
    }
}

pub proof fn lemma_ref_lt_total(a: ReferenceView, b: ReferenceView)
    requires
        a != b,
    ensures
        ref_lt(a, b) || ref_lt(b, a),
{
    lemma_lex_total(a.path, b.path);
    if lex_le(a.path, b.path) && lex_le(b.path, a.path) {
        lemma_lex_antisymmetric(a.path, b.path);
    }
}

fn pos_less(a: Position, b: Position) -> (r: bool)
    ensures
        r == pos_lt(a, b),
{
    a.line < b.line || (a.line == b.line && a.character < b.character)
}

/// Whether `a` comes before `b`.
fn ref_less(a: &TemplateReferenceTarget, b: &TemplateReferenceTarget) -> (r: bool)
    ensures
        r == ref_lt(ref_view(*a), ref_view(*b)),
{
    let ap = to_chars(a.path.as_str());
    let bp = to_chars(b.path.as_str());
    if key_less(ap.as_slice(), bp.as_slice()) {
        return true;
    }
    if !str_eq(a.path.as_str(), b.path.as_str()) {
        proof {
            lemma_lex_total(a.path@, b.path@);
        }
        return false;
    }
    if pos_less(a.range.start, b.range.start) {
        return true;
    }
    a.range.start == b.range.start && pos_less(a.range.end, b.range.end)
}

/// Adds `t` to the strictly increasing `v`, where `v` does not hold it.
fn insert_sorted(v: &mut Vec<TemplateReferenceTarget>, t: TemplateReferenceTarget)
    requires
        refs_sorted(ref_views(old(v)@)),
    ensures
        refs_sorted(ref_views(final(v)@)),
        forall|x: ReferenceView|
            ref_views(final(v)@).contains(x) <==> (ref_views(old(v)@).contains(x) || x
                == ref_view(t)),
{
    let ghost old_views = ref_views(v@);
    let mut i: usize = 0;
    while i < v.len() && ref_less(&v[i], &t)
        invariant
            i <= v.len(),
            old_views == ref_views(v@),
            refs_sorted(old_views),
            forall|j: int| 0 <= j < i ==> ref_lt(#[trigger] old_views[j], ref_view(t)),
        decreases v.len() - i,
    {
        i = i + 1;
    }
    if i < v.len() && v[i].path == t.path && v[i].range.start == t.range.start
        && v[i].range.end == t.range.end {
        assert(old_views[i as int] == ref_view(t));
        assert forall|x: ReferenceView|
            ref_views(v@).contains(x) <==> (old_views.contains(x) || x == ref_view(t)) by {
            if x == ref_view(t) {
                assert(old_views[i as int] == x);
            }
        }
        return;
    }
    proof {
        if i < v.len() {
            lemma_ref_lt_total(ref_view(t), old_views[i as int]);
        }
        assert forall|j: int| i <= j < old_views.len() implies ref_lt(
            ref_view(t),
            #[trigger] old_views[j],
        ) by {
            if j > i {
                lemma_ref_lt_transitive(ref_view(t), old_views[i as int], old_views[j]);
            }
        }
    }
    let ghost tv = ref_view(t);
    v.insert(i, t);
    let ghost nv = ref_views(v@);
    assert(nv =~= old_views.insert(i as int, tv));
    assert forall|a: int, b: int| 0 <= a < b < nv.len() implies ref_lt(
        #[trigger] nv[a],
        #[trigger] nv[b],
    ) by {
        if b < i {
        } else if b == i {
        } else if a < i {
            lemma_ref_lt_transitive(nv[a], tv, nv[b]);
        } else if a == i {
        } else {
            assert(nv[a] == old_views[a - 1] && nv[b] == old_views[b - 1]);
        }
    }
    assert forall|x: ReferenceView| nv.contains(x) <==> (old_views.contains(x) || x == tv) by {
        if nv.contains(x) {
            let k = choose|k: int| 0 <= k < nv.len() && nv[k] == x;
            if k < i {
                assert(old_views[k] == x);
            } else if k > i {
                assert(old_views[k - 1] == x);
            }
        }
        if old_views.contains(x) {
            let k = choose|k: int| 0 <= k < old_views.len() && old_views[k] == x;
            if k < i {
                assert(nv[k] == x);
            } else {
                assert(nv[k + 1] == x);
            }
        }
        if x == tv {
            assert(nv[i as int] == x);
        }
    }
}


/// The place at `range` of the file `path`.
pub open spec fn place(path: Seq<char>, range: Range) -> ReferenceView {
    ReferenceView { path, range }
}

/// The views of the index's templates.
pub open spec fn index_views(index: TemplateIndex) -> Seq<IndexedTemplateView> {
    index.templates@.map_values(|t: IndexedTemplate| indexed_view(t))
}

/// Entry `i` is the first template of `entries` for `file`.
pub open spec fn is_first_entry(entries: Seq<IndexedTemplateView>, file: Seq<char>, i: int) -> bool {
    &&& 0 <= i < entries.len()
    &&& entries[i].file == file
    &&& forall|j: int| 0 <= j < i ==> #[trigger] entries[j].file != file
}

/// The index of the first template for `file`, if any.
pub open spec fn entry_index(entries: Seq<IndexedTemplateView>, file: Seq<char>) -> Option<int> {
    if exists|i: int| is_first_entry(entries, file, i) {
        Some(choose|i: int| is_first_entry(entries, file, i))
    } else {
        None
    }
}

/// `x` declares or calls the macro `name` of `target`: a declaration of it
/// in `target`, or a call of it from any template.
pub open spec fn macro_reference(
    entries: Seq<IndexedTemplateView>,
    target: Seq<char>,
    name: Seq<char>,
    x: ReferenceView,
) -> bool {
    ||| match entry_index(entries, target) {
        Some(k) => exists|m: int|
            0 <= m < entries[k].macros.len() && (#[trigger] entries[k].macros[m]).name == name
                && x == place(entries[k].path, entries[k].macros[m].range),
        None => false,
    }
    ||| exists|t: int, c: int|
        0 <= t < entries.len() && 0 <= c < entries[t].calls.len() && (
        #[trigger] entries[t].calls[c]).target == target && entries[t].calls[c].name == name && x
            == place(entries[t].path, entries[t].calls[c].range)
}

impl TemplateIndex {
    /// The first template of the index for `file`.
    pub fn find_template(&self, file: &str) -> (r: Option<usize>)
        ensures
            match r {
                Some(i) => entry_index(index_views(*self), file@) == Some(i as int),
                None => entry_index(index_views(*self), file@) is None,
            },
    {
        let ghost e = index_views(*self);
        let mut i: usize = 0;
        while i < self.templates.len()
            invariant
                i <= self.templates.len(),
                e == index_views(*self),
                forall|j: int| 0 <= j < i ==> #[trigger] e[j].file != file@,
            decreases self.templates.len() - i,
        {
            assert(e[i as int].file == self.templates@[i as int].file@);
            if str_eq(self.templates[i].file.as_str(), file) {
                proof {
                    let k = choose|k: int| is_first_entry(e, file@, k);
                    assert(is_first_entry(e, file@, i as int));
                    if k < i {
                        assert(e[k].file != file@);
                    }
                    if i < k {
                        assert(e[i as int].file != file@);
                    }
                }
                return Some(i);
            }
            i = i + 1;
        }
        proof {
            if exists|k: int| is_first_entry(e, file@, k) {
                let k = choose|k: int| is_first_entry(e, file@, k);
                assert(e[k].file == file@);
            }
        }
        None
    }

    /// Every place that declares the macro `macro_name` in
    /// `target_template_file` or calls it from any template, sorted by file
    /// and range, each once.
    pub fn macro_reference_targets(&self, target_template_file: &str, macro_name: &str) -> (r: Vec<
        TemplateMacroReferenceTarget,
    >)
        ensures
            refs_sorted(ref_views(r@)),
            forall|x: ReferenceView|
                ref_views(r@).contains(x) <==> macro_reference(
                    index_views(*self),
                    target_template_file@,
                    macro_name@,
                    x,
                ),
    {
        let ghost e = index_views(*self);
        let ghost target = target_template_file@;
        let ghost name = macro_name@;
        let mut out: Vec<TemplateReferenceTarget> = Vec::new();
        let found = self.find_template(target_template_file);
        // The declarations in the target template.
        let ghost decl = |x: ReferenceView|
            match entry_index(e, target) {
                Some(k) => exists|m: int|
                    0 <= m < e[k].macros.len() && (#[trigger] e[k].macros[m]).name == name && x
                        == place(e[k].path, e[k].macros[m].range),
                None => false,
            };
        match found {
            Some(k) => {
                let t = &self.templates[k];
                assert(e[k as int] == indexed_view(*t));
                let mut m: usize = 0;
                while m < t.macros.len()
                    invariant
                        m <= t.macros.len(),
                        e == index_views(*self),
                        name == macro_name@,
                        target == target_template_file@,
                        entry_index(e, target) == Some(k as int),
                        e[k as int] == indexed_view(*t),
                        refs_sorted(ref_views(out@)),
                        forall|x: ReferenceView|
                            ref_views(out@).contains(x) <==> exists|j: int|
                                0 <= j < m && (#[trigger] e[k as int].macros[j]).name == name && x
                                    == place(e[k as int].path, e[k as int].macros[j].range),
                    decreases t.macros.len() - m,
                {
                    assert(e[k as int].macros[m as int] == name_view(t.macros@[m as int]));
                    let ghost before = ref_views(out@);
                    let ghost here = place(e[k as int].path, e[k as int].macros[m as int].range);
                    let hit = str_eq(t.macros[m].name.as_str(), macro_name);
                    if hit {
                        let item = TemplateReferenceTarget {
                            path: t.path.clone(),
                            range: t.macros[m].source_range,
                        };
                        assert(ref_view(item) == here);
                        insert_sorted(&mut out, item);
                    }
                    proof {
                        assert(name_view(t.macros@[m as int]).name == t.macros@[m as int].name@);
                        assert(hit ==> e[k as int].macros[m as int].name == name);
                        assert forall|x: ReferenceView|
                            ref_views(out@).contains(x) <==> exists|j: int|
                                0 <= j < m + 1 && (#[trigger] e[k as int].macros[j]).name == name
                                    && x == place(e[k as int].path, e[k as int].macros[j].range) by {
                            if hit && x == here {
                                assert(e[k as int].macros[m as int].name == name);
                            }
                            if exists|j: int|
                                0 <= j < m + 1 && (#[trigger] e[k as int].macros[j]).name == name
                                    && x == place(e[k as int].path, e[k as int].macros[j].range) {
                                let j = choose|j: int|
                                    0 <= j < m + 1 && (#[trigger] e[k as int].macros[j]).name == name
                                        && x == place(e[k as int].path, e[k as int].macros[j].range);
                                if j < m {
                                    assert(before.contains(x));
                                }
                            }
                        }
                    }
                    m = m + 1;
                }
                assert forall|x: ReferenceView| ref_views(out@).contains(x) <==> decl(x) by {}
            },
            None => {
                assert forall|x: ReferenceView| ref_views(out@).contains(x) <==> decl(x) by {}
            },
        }
        // The calls from every template.
        let mut ti: usize = 0;
        while ti < self.templates.len()
            invariant
                ti <= self.templates.len(),
                e == index_views(*self),
                name == macro_name@,
                target == target_template_file@,
                refs_sorted(ref_views(out@)),
                forall|x: ReferenceView|
                    ref_views(out@).contains(x) <==> decl(x) || exists|t: int, c: int|
                        0 <= t < ti && 0 <= c < e[t].calls.len() && (#[trigger] e[t].calls[c]).target
                            == target && e[t].calls[c].name == name && x == place(e[t].path, e[t].calls[c].range),
            decreases self.templates.len() - ti,
        {
            let t = &self.templates[ti];
            assert(e[ti as int] == indexed_view(*t));
            let mut c: usize = 0;
            while c < t.macro_calls.len()
                invariant
                    c <= t.macro_calls.len(),
                    ti < self.templates.len(),
                    e == index_views(*self),
                    name == macro_name@,
                    target == target_template_file@,
                    e[ti as int] == indexed_view(*t),
                    refs_sorted(ref_views(out@)),
                    forall|x: ReferenceView|
                        ref_views(out@).contains(x) <==> decl(x) || (exists|tt: int, cc: int|
                            0 <= tt < ti && 0 <= cc < e[tt].calls.len() && (
                            #[trigger] e[tt].calls[cc]).target == target && e[tt].calls[cc].name
                                == name && x == place(e[tt].path, e[tt].calls[cc].range)) || (exists|cc: int|
                            0 <= cc < c && (#[trigger] e[ti as int].calls[cc]).target == target
                                && e[ti as int].calls[cc].name == name && x == place(e[ti as int].path, e[ti as int].calls[cc].range)),
                decreases t.macro_calls.len() - c,
            {
                let call = &t.macro_calls[c];
                assert(e[ti as int].calls[c as int] == crate::template_macro_calls::occurrence_view(
                    *call,
                ));
                let ghost before = ref_views(out@);
                let ghost here = place(e[ti as int].path, e[ti as int].calls[c as int].range);
                let hit = str_eq(call.target_template_file.as_str(), target_template_file) && str_eq(
                    call.macro_name.as_str(),
                    macro_name,
                );
                if hit {
                    let item = TemplateReferenceTarget { path: t.path.clone(), range: call.source_range };
                    assert(ref_view(item) == here);
                    insert_sorted(&mut out, item);
                }
                proof {
                    assert(hit ==> e[ti as int].calls[c as int].target == target);
                    assert forall|x: ReferenceView|
                        ref_views(out@).contains(x) <==> decl(x) || (exists|tt: int, cc: int|
                            0 <= tt < ti && 0 <= cc < e[tt].calls.len() && (
                            #[trigger] e[tt].calls[cc]).target == target && e[tt].calls[cc].name
                                == name && x == place(e[tt].path, e[tt].calls[cc].range)) || (exists|cc: int|
                            0 <= cc < c + 1 && (#[trigger] e[ti as int].calls[cc]).target == target
                                && e[ti as int].calls[cc].name == name && x == place(e[ti as int].path, e[ti as int].calls[cc].range)) by {
                        if hit && x == here {
                            assert(e[ti as int].calls[c as int].target == target);
                        }
                        if exists|cc: int|
                            0 <= cc < c + 1 && (#[trigger] e[ti as int].calls[cc]).target == target
                                && e[ti as int].calls[cc].name == name && x == place(e[ti as int].path, e[ti as int].calls[cc].range) {
                            let cc = choose|cc: int|
                                0 <= cc < c + 1 && (#[trigger] e[ti as int].calls[cc]).target == target
                                    && e[ti as int].calls[cc].name == name && x == place(e[ti as int].path, e[ti as int].calls[cc].range);
                            if cc < c {
                                assert(before.contains(x));
                            }
                        }
                    }
                }
                c = c + 1;
            }
            assert forall|x: ReferenceView|
                ref_views(out@).contains(x) <==> decl(x) || exists|tt: int, cc: int|
                    0 <= tt < ti + 1 && 0 <= cc < e[tt].calls.len() && (
                    #[trigger] e[tt].calls[cc]).target == target && e[tt].calls[cc].name == name
                        && x == place(e[tt].path, e[tt].calls[cc].range) by {
            }
            ti = ti + 1;
        }
        out
    }
}


pub open spec fn opt_view_string(o: Option<String>) -> Option<Seq<char>> {
    crate::template_diagnostics::opt_string_view(o)
}

/// The first occurrence of `s` from `from` on whose range contains `pos`.
pub open spec fn first_name_at(s: Seq<NameOccurrenceView>, pos: Position, from: int) -> Option<int>
    decreases s.len() - from,
{
    if from < 0 || from >= s.len() {
        None
    } else if spec_range_contains(s[from].range, pos) {
        Some(from)
    } else {
        first_name_at(s, pos, from + 1)
    }
}

/// The first macro call of `s` from `from` on whose range contains `pos`.
pub open spec fn first_call_at(
    s: Seq<crate::template_macro_calls::MacroCallView>,
    pos: Position,
    from: int,
) -> Option<int>
    decreases s.len() - from,
{
    if from < 0 || from >= s.len() {
        None
    } else if spec_range_contains(s[from].range, pos) {
        Some(from)
    } else {
        first_call_at(s, pos, from + 1)
    }
}

/// The first occurrence of `s` from `from` on named `name`.
pub open spec fn first_named(s: Seq<NameOccurrenceView>, name: Seq<char>, from: int) -> Option<int>
    decreases s.len() - from,
{
    if from < 0 || from >= s.len() {
        None
    } else if s[from].name == name {
        Some(from)
    } else {
        first_named(s, name, from + 1)
    }
}

/// The template of the index and the block of it that a block named
/// `name` in `cursor` overrides: up the chain of `extends`, through
/// templates of the index, stopping at a template met before (`seen`) and
/// after at most `fuel` steps.
pub open spec fn block_override(
    e: Seq<IndexedTemplateView>,
    cursor: Seq<char>,
    name: Seq<char>,
    seen: Seq<Seq<char>>,
    fuel: nat,
) -> Option<(int, int)>
    decreases fuel,
{
    if fuel == 0 || seen.contains(cursor) {
        None
    } else {
        match entry_index(e, cursor) {
            None => None,
            Some(ci) => match e[ci].extends {
                None => None,
                Some(pf) => match entry_index(e, pf) {
                    None => None,
                    Some(pi) => match first_named(e[pi].blocks, name, 0) {
                        Some(b) => Some((pi, b)),
                        None => block_override(e, pf, name, seen.push(cursor), (fuel - 1) as nat),
                    },
                },
            },
        }
    }
}

/// What a macro query at `pos` of `file` is about: the macro declared
/// there, else the macro called there.
pub open spec fn spec_macro_query(e: Seq<IndexedTemplateView>, file: Seq<char>, pos: Position) -> Option<
    (Seq<char>, Seq<char>),
> {
    match entry_index(e, file) {
        None => None,
        Some(k) => match first_name_at(e[k].macros, pos, 0) {
            Some(m) => Some((file, e[k].macros[m].name)),
            None => match first_call_at(e[k].calls, pos, 0) {
                Some(c) => Some((e[k].calls[c].target, e[k].calls[c].name)),
                None => None,
            },
        },
    }
}

fn first_name_at_exec(v: &Vec<TemplateNameOccurrence>, pos: Position) -> (r: Option<usize>)
    ensures
        match r {
            Some(j) => j < v@.len() && first_name_at(
                v@.map_values(|o: TemplateNameOccurrence| name_view(o)),
                pos,
                0,
            ) == Some(j as int),
            None => first_name_at(v@.map_values(|o: TemplateNameOccurrence| name_view(o)), pos, 0) is None,
        },
{
    let ghost s = v@.map_values(|o: TemplateNameOccurrence| name_view(o));
    let mut i: usize = 0;
    while i < v.len()
        invariant
            i <= v.len(),
            s == v@.map_values(|o: TemplateNameOccurrence| name_view(o)),
            first_name_at(s, pos, 0) == first_name_at(s, pos, i as int),
        decreases v.len() - i,
    {
        assert(s[i as int] == name_view(v@[i as int]));
        if range_contains_position(&v[i].source_range, pos) {
            return Some(i);
        }
        i = i + 1;
    }
    None
}

fn first_named_exec(v: &Vec<TemplateNameOccurrence>, name: &str) -> (r: Option<usize>)
    ensures
        match r {
            Some(j) => j < v@.len() && first_named(
                v@.map_values(|o: TemplateNameOccurrence| name_view(o)),
                name@,
                0,
            ) == Some(j as int),
            None => first_named(v@.map_values(|o: TemplateNameOccurrence| name_view(o)), name@, 0) is None,
        },
{
    let ghost s = v@.map_values(|o: TemplateNameOccurrence| name_view(o));
    let mut i: usize = 0;
    while i < v.len()
        invariant
            i <= v.len(),
            s == v@.map_values(|o: TemplateNameOccurrence| name_view(o)),
            first_named(s, name@, 0) == first_named(s, name@, i as int),
        decreases v.len() - i,
    {
        assert(s[i as int] == name_view(v@[i as int]));
        if str_eq(v[i].name.as_str(), name) {
            return Some(i);
        }
        i = i + 1;
    }
    None
}

impl TemplateIndex {
    /// The block whose name is at `position` of `template_file`: the first
    /// whose range contains it.
    pub fn block_occurrence_at_position(&self, template_file: &str, position: Position) -> (r: Option<
        TemplateNameOccurrence,
    >)
        ensures
            match entry_index(index_views(*self), template_file@) {
                None => r is None,
                Some(k) => match first_name_at(index_views(*self)[k].blocks, position, 0) {
                    Some(b) => r matches Some(o) && name_view(o) == index_views(*self)[k].blocks[b],
                    None => r is None,
                },
            },
    {
        let k = match self.find_template(template_file) {
            Some(k) => k,
            None => {
                return None;
            },
        };
        assert(index_views(*self)[k as int] == indexed_view(self.templates@[k as int]));
        assert(index_views(*self)[k as int].blocks == self.templates@[k as int].blocks@.map_values(
            |o: TemplateNameOccurrence| name_view(o),
        ));
        match first_name_at_exec(&self.templates[k].blocks, position) {
            Some(b) => {
                let o = &self.templates[k].blocks[b];
                assert(index_views(*self)[k as int].blocks[b as int] == name_view(*o));
                let r = TemplateNameOccurrence { name: o.name.clone(), source_range: o.source_range };
                assert(name_view(r) == name_view(*o));
                Some(r)
            },
            None => None,
        }
    }

    /// The macro that a query at `position` of `template_file` is about:
    /// the macro declared there (in this template), else the macro called
    /// there.
    pub fn macro_reference_query(&self, template_file: &str, position: Position) -> (r: Option<
        TemplateMacroReferenceQuery,
    >)
        ensures
            match spec_macro_query(index_views(*self), template_file@, position) {
                Some((t, n)) => r matches Some(q) && q.target_template_file@ == t && q.macro_name@
                    == n,
                None => r is None,
            },
    {
        let ghost e = index_views(*self);
        let k = match self.find_template(template_file) {
            Some(k) => k,
            None => {
                return None;
            },
        };
        let t = &self.templates[k];
        assert(e[k as int] == indexed_view(*t));
        assert(e[k as int].macros == t.macros@.map_values(|o: TemplateNameOccurrence| name_view(o)));
        assert(e[k as int].calls == t.macro_calls@.map_values(
            |o: crate::template_macro_calls::TemplateMacroCallOccurrence|
                crate::template_macro_calls::occurrence_view(o),
        ));
        match first_name_at_exec(&t.macros, position) {
            Some(m) => {
                assert(e[k as int].macros[m as int] == name_view(t.macros@[m as int]));
                return Some(
                    TemplateMacroReferenceQuery {
                        target_template_file: template_file.to_owned(),
                        macro_name: t.macros[m].name.clone(),
                    },
                );
            },
            None => {},
        }
        let ghost cs = t.macro_calls@.map_values(
            |o: crate::template_macro_calls::TemplateMacroCallOccurrence|
                crate::template_macro_calls::occurrence_view(o),
        );
        let mut c: usize = 0;
        while c < t.macro_calls.len()
            invariant
                c <= t.macro_calls.len(),
                e == index_views(*self),
                entry_index(e, template_file@) == Some(k as int),
                e[k as int].calls == cs,
                first_name_at(e[k as int].macros, position, 0) is None,
                cs == t.macro_calls@.map_values(
                    |o: crate::template_macro_calls::TemplateMacroCallOccurrence|
                        crate::template_macro_calls::occurrence_view(o),
                ),
                first_call_at(cs, position, 0) == first_call_at(cs, position, c as int),
            decreases t.macro_calls.len() - c,
        {
            assert(cs[c as int] == crate::template_macro_calls::occurrence_view(t.macro_calls@[c as int]));
            if range_contains_position(&t.macro_calls[c].source_range, position) {
                return Some(
                    TemplateMacroReferenceQuery {
                        target_template_file: t.macro_calls[c].target_template_file.clone(),
                        macro_name: t.macro_calls[c].macro_name.clone(),
                    },
                );
            }
            c = c + 1;
        }
        None
    }

    /// The block of a parent template that the block `occurrence` of
    /// `template_file` overrides: the first block of that name up the chain
    /// of `extends` through the templates of the index. The search stops at
    /// a template it met before, so a cycle of `extends` finds nothing; it
    /// is also bounded by the number of templates, plus two.
    pub fn block_definition_target(
        &self,
        template_file: &str,
        occurrence: &TemplateNameOccurrence,
    ) -> (r: Option<TemplateDefinitionTarget>)
        ensures
            ({
                let e = index_views(*self);
                match block_override(
                    e,
                    template_file@,
                    occurrence.name@,
                    Seq::empty(),
                    (e.len() + 2) as nat,
                ) {
                    Some((pi, b)) => r matches Some(t) && target_view(t) == DefinitionTargetView {
                        kind: TemplateDefinitionKind::Block,
                        name: occurrence.name@,
                        source_range: occurrence.source_range,
                        target_path: e[pi].path,
                        target_range: e[pi].blocks[b].range,
                    },
                    None => r is None,
                }
            }),
    {
        let ghost e = index_views(*self);
        let ghost name = occurrence.name@;
        let mut seen: Vec<String> = Vec::new();
        let mut cursor: String = template_file.to_owned();
        let mut fuel: u128 = self.templates.len() as u128 + 2;
        assert(seen@.map_values(|s: String| s@) =~= Seq::<Seq<char>>::empty());
        loop
            invariant
                e == index_views(*self),
                name == occurrence.name@,
                block_override(e, template_file@, name, Seq::empty(), (e.len() + 2) as nat)
                    == block_override(
                    e,
                    cursor@,
                    name,
                    seen@.map_values(|s: String| s@),
                    fuel as nat,
                ),
            decreases fuel,
        {
            if fuel == 0 {
                return None;
            }
            let ghost sv = seen@.map_values(|s: String| s@);
            let mut j: usize = 0;
            while j < seen.len()
                invariant
                    j <= seen.len(),
                    sv == seen@.map_values(|s: String| s@),
                    forall|q: int| 0 <= q < j ==> #[trigger] sv[q] != cursor@,
                    fuel > 0,
                    e == index_views(*self),
                    name == occurrence.name@,
                    block_override(e, template_file@, name, Seq::empty(), (e.len() + 2) as nat)
                        == block_override(e, cursor@, name, sv, fuel as nat),
                decreases seen.len() - j,
            {
                if str_eq(seen[j].as_str(), cursor.as_str()) {
                    assert(sv[j as int] == cursor@);
                    assert(sv.contains(cursor@));
                    return None;
                }
                j = j + 1;
            }
            assert(!sv.contains(cursor@));
            let ci = match self.find_template(cursor.as_str()) {
                Some(ci) => ci,
                None => {
                    return None;
                },
            };
            assert(e[ci as int] == indexed_view(self.templates@[ci as int]));
            let parent_file = match &self.templates[ci].extends {
                Some(p) => p.clone(),
                None => {
                    return None;
                },
            };
            let pi = match self.find_template(parent_file.as_str()) {
                Some(pi) => pi,
                None => {
                    return None;
                },
            };
            let parent = &self.templates[pi];
            assert(e[pi as int] == indexed_view(*parent));
            assert(e[ci as int].extends == opt_view_string(self.templates@[ci as int].extends));
            assert(parent_file@ == e[ci as int].extends.unwrap());
            assert(e[pi as int].blocks == parent.blocks@.map_values(|o: TemplateNameOccurrence| name_view(o)));
            match first_named_exec(&parent.blocks, occurrence.name.as_str()) {
                Some(b) => {
                    assert(e[pi as int].blocks[b as int] == name_view(parent.blocks@[b as int]));
                    return Some(
                        TemplateDefinitionTarget {
                            kind: TemplateDefinitionKind::Block,
                            name: occurrence.name.clone(),
                            source_range: occurrence.source_range,
                            target_path: parent.path.clone(),
                            target_range: parent.blocks[b].source_range,
                        },
                    );
                },
                None => {},
            }
            let ghost old_seen = seen@;
            seen.push(cursor);
            assert(seen@.map_values(|s: String| s@) =~= sv.push(cursor@)) by {
                assert(seen@ == old_seen.push(seen@[old_seen.len() as int]));
            }
            cursor = parent_file;
            fuel = fuel - 1;
        }
    }
}


/// A place that declares a block.
pub type TemplateBlockReferenceTarget = TemplateReferenceTarget;

/// Whether the index's template `file` declares a block called `name`.
pub open spec fn declares_block(e: Seq<IndexedTemplateView>, file: Seq<char>, name: Seq<char>) -> bool {
    match entry_index(e, file) {
        Some(k) => first_named(e[k].blocks, name, 0) is Some,
        None => false,
    }
}

/// The topmost template up the chain of `extends` from `cursor` (through
/// templates of the index, stopping at one met before) that declares the
/// block `name`; `owner` if none above does.
pub open spec fn block_owner(
    e: Seq<IndexedTemplateView>,
    cursor: Seq<char>,
    name: Seq<char>,
    owner: Seq<char>,
    seen: Seq<Seq<char>>,
    fuel: nat,
) -> Seq<char>
    decreases fuel,
{
    if fuel == 0 || seen.contains(cursor) {
        owner
    } else {
        match entry_index(e, cursor) {
            None => owner,
            Some(ci) => match e[ci].extends {
                None => owner,
                Some(p) => if entry_index(e, p) is None {
                    owner
                } else {
                    block_owner(
                        e,
                        p,
                        name,
                        if declares_block(e, p, name) {
                            p
                        } else {
                            owner
                        },
                        seen.push(cursor),
                        (fuel - 1) as nat,
                    )
                },
            },
        }
    }
}

/// The declarations of the block `name` in the index's template `file`.
pub open spec fn blocks_named_in(t: IndexedTemplateView, name: Seq<char>, x: ReferenceView) -> bool {
    exists|b: int| 0 <= b < t.blocks.len() && (#[trigger] t.blocks[b]).name == name && x == place(t.path, t.blocks[b].range)
}

/// The children that the index lists under `file`.
pub open spec fn children_listed(cbp: Seq<(String, Vec<String>)>, file: Seq<char>) -> Seq<Seq<char>> {
    match crate::model::key_index(cbp, file) {
        Some(i) => cbp[i].1@.map_values(|s: String| s@),
        None => Seq::empty(),
    }
}

/// `x` declares the block `name` in `file` or, within `fuel` generations,
/// in a template that descends from it.
pub open spec fn in_family(
    e: Seq<IndexedTemplateView>,
    cbp: Seq<(String, Vec<String>)>,
    file: Seq<char>,
    name: Seq<char>,
    fuel: nat,
    x: ReferenceView,
) -> bool
    decreases fuel, 0nat, 0nat,
{
    ||| (match entry_index(e, file) {
        Some(k) => blocks_named_in(e[k], name, x),
        None => false,
    })
    ||| (fuel > 0 && in_children(e, cbp, children_listed(cbp, file), name, (fuel - 1) as nat, x))
}

pub open spec fn in_children(
    e: Seq<IndexedTemplateView>,
    cbp: Seq<(String, Vec<String>)>,
    children: Seq<Seq<char>>,
    name: Seq<char>,
    fuel: nat,
    x: ReferenceView,
) -> bool
    decreases fuel, 1nat, children.len(),
{
    if children.len() == 0 {
        false
    } else {
        in_children(e, cbp, children.drop_last(), name, fuel, x) || in_family(
            e,
            cbp,
            children.last(),
            name,
            fuel,
            x,
        )
    }
}

impl TemplateIndex {
    fn collect_family_blocks(
        &self,
        file: &str,
        name: &str,
        fuel: usize,
        out: &mut Vec<TemplateReferenceTarget>,
    )
        requires
            refs_sorted(ref_views(old(out)@)),
        ensures
            refs_sorted(ref_views(final(out)@)),
            forall|x: ReferenceView|
                #[trigger] ref_views(final(out)@).contains(x) <==> (ref_views(old(out)@).contains(x)
                    || in_family(index_views(*self), self.children_by_parent@, file@, name@, fuel as nat, x)),
        decreases fuel, 1nat,
    {
        let ghost e = index_views(*self);
        let ghost o0 = ref_views(out@);
        let ghost own = |x: ReferenceView|
            match entry_index(e, file@) {
                Some(k) => blocks_named_in(e[k], name@, x),
                None => false,
            };
        match self.find_template(file) {
            Some(k) => {
                let t = &self.templates[k];
                assert(e[k as int] == indexed_view(*t));
                assert(e[k as int].blocks == t.blocks@.map_values(|o: TemplateNameOccurrence| name_view(o)));
                let mut b: usize = 0;
                while b < t.blocks.len()
                    invariant
                        b <= t.blocks.len(),
                        e == index_views(*self),
                        e[k as int].blocks == t.blocks@.map_values(|o: TemplateNameOccurrence| name_view(o)),
                        e[k as int].path == t.path@,
                        refs_sorted(ref_views(out@)),
                        forall|x: ReferenceView|
                            #[trigger] ref_views(out@).contains(x) <==> (o0.contains(x) || exists|j: int|
                                0 <= j < b && (#[trigger] e[k as int].blocks[j]).name == name@ && x
                                    == place(e[k as int].path, e[k as int].blocks[j].range)),
                    decreases t.blocks.len() - b,
                {
                    assert(e[k as int].blocks[b as int] == name_view(t.blocks@[b as int]));
                    let ghost before = ref_views(out@);
                    let ghost here = place(e[k as int].path, e[k as int].blocks[b as int].range);
                    let hit = str_eq(t.blocks[b].name.as_str(), name);
                    if hit {
                        let item = TemplateReferenceTarget { path: t.path.clone(), range: t.blocks[b].source_range };
                        assert(ref_view(item) == here);
                        insert_sorted(out, item);
                    }
                    proof {
                        assert(hit ==> e[k as int].blocks[b as int].name == name@);
                        assert forall|x: ReferenceView|
                            #[trigger] ref_views(out@).contains(x) <==> (o0.contains(x) || exists|j: int|
                                0 <= j < b + 1 && (#[trigger] e[k as int].blocks[j]).name == name@ && x
                                    == place(e[k as int].path, e[k as int].blocks[j].range)) by {
                            if exists|j: int|
                                0 <= j < b + 1 && (#[trigger] e[k as int].blocks[j]).name == name@ && x
                                    == place(e[k as int].path, e[k as int].blocks[j].range) {
                                let j = choose|j: int|
                                    0 <= j < b + 1 && (#[trigger] e[k as int].blocks[j]).name == name@
                                        && x == place(e[k as int].path, e[k as int].blocks[j].range);
                                if j < b {
                                    assert(before.contains(x));
                                }
                            }
                        }
                    }
                    b = b + 1;
                }
                assert forall|x: ReferenceView| #[trigger] ref_views(out@).contains(x) <==> (o0.contains(x) || own(x)) by {
                    if own(x) {
                        let j = choose|j: int| 0 <= j < e[k as int].blocks.len() && (#[trigger] e[k as int].blocks[j]).name == name@ && x == place(e[k as int].path, e[k as int].blocks[j].range);
                        assert(0 <= j < b);
                    }
                }
            },
            None => {
                assert forall|x: ReferenceView| #[trigger] ref_views(out@).contains(x) <==> (o0.contains(x) || own(x)) by {}
            },
        }
        let ghost o1 = ref_views(out@);
        assert(forall|x: ReferenceView| #[trigger] o1.contains(x) <==> (o0.contains(x) || own(x)));
        if fuel == 0 {
            assert forall|x: ReferenceView|
                #[trigger] ref_views(out@).contains(x) <==> (o0.contains(x) || in_family(e, self.children_by_parent@, file@, name@, fuel as nat, x)) by {
                assert(in_family(e, self.children_by_parent@, file@, name@, fuel as nat, x) == own(x));
            }
            return;
        }
        match find_key(&self.children_by_parent, file) {
            Some(i) => {
                let children = &self.children_by_parent[i].1;
                let ghost cs = children@.map_values(|s: String| s@);
                let mut c: usize = 0;
                while c < children.len()
                    invariant
                        c <= children.len(),
                        fuel > 0,
                        e == index_views(*self),
                        cs == children@.map_values(|s: String| s@),
                        cs == children_listed(self.children_by_parent@, file@),
                        refs_sorted(ref_views(out@)),
                        forall|x: ReferenceView|
                            #[trigger] ref_views(out@).contains(x) <==> (o1.contains(x) || in_children(
                                e,
                                self.children_by_parent@,
                                cs.take(c as int),
                                name@,
                                (fuel - 1) as nat,
                                x,
                            )),
                    decreases children.len() - c,
                {
                    self.collect_family_blocks(children[c].as_str(), name, fuel - 1, out);
                    proof {
                        let t = cs.take(c + 1);
                        assert(t.drop_last() =~= cs.take(c as int));
                        assert(t.last() == children@[c as int]@);
                    }
                    c = c + 1;
                }
                assert(cs.take(children.len() as int) =~= cs);
                assert forall|x: ReferenceView|
                    #[trigger] ref_views(out@).contains(x) <==> (o0.contains(x) || in_family(e, self.children_by_parent@, file@, name@, fuel as nat, x)) by {
                    assert(in_family(e, self.children_by_parent@, file@, name@, fuel as nat, x) == (own(x) || in_children(e, self.children_by_parent@, cs, name@, (fuel - 1) as nat, x)));
                }
            },
            None => {
                assert(children_listed(self.children_by_parent@, file@) =~= Seq::<Seq<char>>::empty());
                assert forall|x: ReferenceView|
                    #[trigger] ref_views(out@).contains(x) <==> (o0.contains(x) || in_family(e, self.children_by_parent@, file@, name@, fuel as nat, x)) by {
                    assert(!in_children(e, self.children_by_parent@, Seq::<Seq<char>>::empty(), name@, (fuel - 1) as nat, x));
                    assert(in_family(e, self.children_by_parent@, file@, name@, fuel as nat, x) == own(x));
                }
            },
        }
    }

    /// Every declaration of the block `block_name` in the family of
    /// templates that share it with `template_file`: from the topmost
    /// template up the chain of `extends` that declares it, down through the
    /// templates that extend it; sorted by file and range, each once; none
    /// where `template_file` does not declare the block. The walk down goes at
    /// most as many generations as the index has templates.
    pub fn block_reference_targets(&self, template_file: &str, block_name: &str) -> (r: Vec<
        TemplateBlockReferenceTarget,
    >)
        ensures
            refs_sorted(ref_views(r@)),
            ({
                let e = index_views(*self);
                forall|x: ReferenceView|
                    ref_views(r@).contains(x) <==> (declares_block(e, template_file@, block_name@)
                        && in_family(
                        e,
                        self.children_by_parent@,
                        block_owner(
                            e,
                            template_file@,
                            block_name@,
                            template_file@,
                            Seq::empty(),
                            (e.len() + 2) as nat,
                        ),
                        block_name@,
                        e.len() as nat,
                        x,
                    ))
            }),
    {
        let ghost e = index_views(*self);
        let mut out: Vec<TemplateReferenceTarget> = Vec::new();
        let declares = match self.find_template(template_file) {
            Some(k) => {
                assert(e[k as int] == indexed_view(self.templates@[k as int]));
                first_named_exec(&self.templates[k].blocks, block_name).is_some()
            },
            None => false,
        };
        if !declares {
            return out;
        }
        let mut owner: String = template_file.to_owned();
        let mut cursor: String = template_file.to_owned();
        let mut seen: Vec<String> = Vec::new();
        let mut fuel: u128 = self.templates.len() as u128 + 2;
        assert(seen@.map_values(|s: String| s@) =~= Seq::<Seq<char>>::empty());
        loop
            invariant
                e == index_views(*self),
                block_owner(e, template_file@, block_name@, template_file@, Seq::empty(), (e.len() + 2) as nat)
                    == block_owner(e, cursor@, block_name@, owner@, seen@.map_values(|s: String| s@), fuel as nat),
            ensures
                block_owner(e, template_file@, block_name@, template_file@, Seq::empty(), (e.len() + 2) as nat)
                    == owner@,
            decreases fuel,
        {
            if fuel == 0 {
                break;
            }
            let ghost sv = seen@.map_values(|s: String| s@);
            let mut j: usize = 0;
            let mut met = false;
            while j < seen.len()
                invariant
                    j <= seen.len(),
                    sv == seen@.map_values(|s: String| s@),
                    !met ==> forall|q: int| 0 <= q < j ==> #[trigger] sv[q] != cursor@,
                    met ==> sv.contains(cursor@),
                decreases seen.len() - j,
            {
                if str_eq(seen[j].as_str(), cursor.as_str()) {
                    assert(sv[j as int] == cursor@);
                    met = true;
                }
                j = j + 1;
            }
            if met {
                break;
            }
            assert(!sv.contains(cursor@));
            let ci = match self.find_template(cursor.as_str()) {
                Some(ci) => ci,
                None => {
                    break;
                },
            };
            assert(e[ci as int] == indexed_view(self.templates@[ci as int]));
            assert(e[ci as int].extends == opt_view_string(self.templates@[ci as int].extends));
            let parent_file = match &self.templates[ci].extends {
                Some(p) => p.clone(),
                None => {
                    break;
                },
            };
            let pi = match self.find_template(parent_file.as_str()) {
                Some(pi) => pi,
                None => {
                    break;
                },
            };
            assert(e[pi as int] == indexed_view(self.templates@[pi as int]));
            let parent_declares = first_named_exec(&self.templates[pi].blocks, block_name).is_some();
            if parent_declares {
                owner = parent_file.clone();
            }
            let ghost cv = cursor@;
            let ghost old_seen = seen@;
            seen.push(cursor);
            assert(seen@.map_values(|s: String| s@) =~= sv.push(cv)) by {
                assert(seen@ == old_seen.push(seen@[old_seen.len() as int]));
            }
            cursor = parent_file;
            fuel = fuel - 1;
        }
        self.collect_family_blocks(owner.as_str(), block_name, self.templates.len(), &mut out);
        out
    }
}

} // verus!
