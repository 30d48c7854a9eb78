//! The index of a project's templates that the editor queries: for each
//! template that parses, the template it extends, the blocks and macros it
//! declares and the macro calls it makes; and for each template, the
//! templates that extend it.
use vstd::prelude::*;

use crate::build_steps::{keys_sorted, lemma_map_values_multiset, lex_le, sort_by_key};
use crate::model::{find_key, str_value, AuthoringProject};
use crate::positions::Range;
use crate::template_definitions::{ident_range, template_ident_range};
use crate::template_diagnostics::{
    extends_path_of, nodes_aliases, opt_string_view, pairs_view, template_extends_path_from_nodes,
    template_import_aliases,
};
use crate::template_macro_calls::{
    call_scope, calls_extend, nodes_calls, occurrence_view, template_macro_call_occurrences,
    CallScope, MacroCallView, TemplateMacroCallOccurrence,
};
use crate::template_syntax::{
    branches_view, gingembre_template, ident_view, lemma_branches_view, lemma_nodes_view,
    node_view, nodes_view, parse_template, TemplateBranch, TemplateBranchView, TemplateIdentView,
    TemplateNode, TemplateNodeView,
};
use crate::text::str_eq;

verus! {

/// The name of a block or a macro where a template declares it, with its
/// range.
#[derive(Clone, Debug)]
pub struct TemplateNameOccurrence {
    pub name: String,
    pub source_range: Range,
}

/// Where a template declares a block.
pub type TemplateBlockOccurrence = TemplateNameOccurrence;

/// Where a template declares a macro.
pub type TemplateMacroOccurrence = TemplateNameOccurrence;

/// The mathematical value of a [`TemplateNameOccurrence`].
pub struct NameOccurrenceView {
    pub name: Seq<char>,
    pub range: Range,
}

pub open spec fn name_view(o: TemplateNameOccurrence) -> NameOccurrenceView {
    NameOccurrenceView { name: o.name@, range: o.source_range }
}

/// A template of the index: its file, its path, the template it extends,
/// the blocks and macros it declares and the macro calls it makes.
pub struct IndexedTemplate {
    pub file: String,
    pub path: String,
    pub extends: Option<String>,
    pub blocks: Vec<TemplateBlockOccurrence>,
    pub macros: Vec<TemplateMacroOccurrence>,
    pub macro_calls: Vec<TemplateMacroCallOccurrence>,
}

/// The mathematical value of an [`IndexedTemplate`].
pub struct IndexedTemplateView {
    pub file: Seq<char>,
    pub path: Seq<char>,
    pub extends: Option<Seq<char>>,
    pub blocks: Seq<NameOccurrenceView>,
    pub macros: Seq<NameOccurrenceView>,
    pub calls: Seq<MacroCallView>,
}

pub open spec fn indexed_view(t: IndexedTemplate) -> IndexedTemplateView {
    IndexedTemplateView {
        file: t.file@,
        path: t.path@,
        extends: opt_string_view(t.extends),
        blocks: t.blocks@.map_values(|o: TemplateNameOccurrence| name_view(o)),
        macros: t.macros@.map_values(|o: TemplateNameOccurrence| name_view(o)),
        calls: t.macro_calls@.map_values(|o: TemplateMacroCallOccurrence| occurrence_view(o)),
    }
}

/// The index of a project's templates.
pub struct TemplateIndex {
    pub templates: Vec<IndexedTemplate>,
    pub children_by_parent: Vec<(String, Vec<String>)>,
}

// Declarations of blocks (`macros` false) or of macros (`macros` true), in
// source order, through the bodies of blocks, macros, `if` and `for`.
pub open spec fn name_of(content: Seq<char>, i: TemplateIdentView) -> NameOccurrenceView {
    NameOccurrenceView { name: i.text, range: ident_range(content, i) }
}

pub open spec fn node_names(content: Seq<char>, macros: bool, n: TemplateNodeView) -> Seq<
    NameOccurrenceView,
>
    decreases n, 2nat,
{
    match n {
        TemplateNodeView::Block { name, body } => (if macros {
            Seq::empty()
        } else {
            seq![name_of(content, name)]
        }) + nodes_names(content, macros, body),
        TemplateNodeView::Macro { name, body, .. } => (if macros {
            seq![name_of(content, name)]
        } else {
            Seq::empty()
        }) + nodes_names(content, macros, body),
        TemplateNodeView::If { branches, else_body } => branches_names(content, macros, branches)
            + match else_body {
            Some(b) => nodes_names(content, macros, b),
            None => Seq::empty(),
        },
        TemplateNodeView::For { body, else_body, .. } => nodes_names(content, macros, body)
            + match else_body {
            Some(b) => nodes_names(content, macros, b),
            None => Seq::empty(),
        },
        _ => Seq::empty(),
    }
}

pub open spec fn nodes_names(content: Seq<char>, macros: bool, s: Seq<TemplateNodeView>) -> Seq<
    NameOccurrenceView,
>
    decreases s, 0nat,
{
    if s.len() == 0 {
        Seq::empty()
    } else {
        nodes_names(content, macros, s.subrange(0, s.len() - 1)) + node_names(
            content,
            macros,
            s[s.len() - 1],
        )
    }
}

pub open spec fn branches_names(content: Seq<char>, macros: bool, s: Seq<TemplateBranchView>) -> Seq<
    NameOccurrenceView,
>
    decreases s, 1nat,
{
    if s.len() == 0 {
        Seq::empty()
    } else {
        let b = s[s.len() - 1];
        branches_names(content, macros, s.subrange(0, s.len() - 1)) + nodes_names(
            content,
            macros,
            b.body,
        )
    }
}

/// `new` is `old` followed by the occurrences `ns`, in order.
pub open spec fn names_extend(
    new: Seq<TemplateNameOccurrence>,
    old: Seq<TemplateNameOccurrence>,
    ns: Seq<NameOccurrenceView>,
) -> bool {
    &&& new.len() == old.len() + ns.len()
    &&& forall|i: int| 0 <= i < old.len() ==> #[trigger] new[i] == old[i]
    &&& forall|i: int| 0 <= i < ns.len() ==> name_view(#[trigger] new[old.len() + i]) == ns[i]
}

/// The entry of the index for `file` at `path`: none where the project has
/// no text for it or the text does not parse.
pub open spec fn index_entry(project: AuthoringProject, file: Seq<char>, path: Seq<char>) -> Option<
    IndexedTemplateView,
> {
    match str_value(project.template_contents@, file) {
        None => None,
        Some(c) => match gingembre_template(c) {
            None => None,
            Some(nodes) => Some(
                IndexedTemplateView {
                    file,
                    path,
                    extends: extends_path_of(nodes),
                    blocks: nodes_names(c, false, nodes),
                    macros: nodes_names(c, true, nodes),
                    calls: nodes_calls(
                        CallScope { file, content: c, imports: nodes_aliases(project, nodes) },
                        nodes,
                    ),
                },
            ),
        },
    }
}

/// The entries of the index for the templates `paths`, in order.
pub open spec fn index_entries(project: AuthoringProject, paths: Seq<(String, String)>) -> Seq<
    IndexedTemplateView,
>
    decreases paths.len(),
{
    if paths.len() == 0 {
        Seq::empty()
    } else {
        let last = paths[paths.len() - 1];
        index_entries(project, paths.subrange(0, paths.len() - 1)) + match index_entry(
            project,
            last.0@,
            last.1@,
        ) {
            Some(e) => seq![e],
            None => Seq::empty(),
        }
    }
}

/// The files of the entries that extend `parent`, in order.
pub open spec fn children_of(entries: Seq<IndexedTemplateView>, parent: Seq<char>) -> Seq<Seq<char>>
    decreases entries.len(),
{
    if entries.len() == 0 {
        Seq::empty()
    } else {
        let last = entries[entries.len() - 1];
        children_of(entries.subrange(0, entries.len() - 1), parent) + if last.extends == Some(
            parent,
        ) {
            seq![last.file]
        } else {
            Seq::empty()
        }
    }
}

/// Whether some entry is the template `file`.
pub open spec fn is_indexed(entries: Seq<IndexedTemplateView>, file: Seq<char>) -> bool {
    exists|i: int| 0 <= i < entries.len() && (#[trigger] entries[i]).file == file
}

/// What the inverse of `extends` says of the entries: each key is an
/// indexed template that some entry extends, held once, with exactly those
/// entries' files, sorted; and each indexed template that some entry
/// extends is a key.
pub open spec fn children_index_is(
    cbp: Seq<(String, Vec<String>)>,
    entries: Seq<IndexedTemplateView>,
) -> bool {
    &&& forall|i: int, j: int|
        0 <= i < j < cbp.len() ==> (#[trigger] cbp[i]).0@ != (#[trigger] cbp[j]).0@
    &&& forall|i: int|
        0 <= i < cbp.len() ==> {
            let p = (#[trigger] cbp[i]).0@;
            let cs = cbp[i].1@.map_values(|s: String| s@);
            &&& is_indexed(entries, p)
            &&& children_of(entries, p).len() > 0
            &&& cs.to_multiset() == children_of(entries, p).to_multiset()
            &&& forall|a: int, b: int| 0 <= a < b < cs.len() ==> lex_le(#[trigger] cs[a], #[trigger] cs[b])
        }
    &&& forall|p: Seq<char>|
        is_indexed(entries, p) && #[trigger] children_of(entries, p).len() > 0 ==> exists|i: int|
            0 <= i < cbp.len() && (#[trigger] cbp[i]).0@ == p
}

pub proof fn lemma_names_trans(
    a: Seq<TemplateNameOccurrence>,
    b: Seq<TemplateNameOccurrence>,
    c: Seq<TemplateNameOccurrence>,
    f1: Seq<NameOccurrenceView>,
    f2: Seq<NameOccurrenceView>,
)
    requires
        names_extend(b, a, f1),
        names_extend(c, b, f2),
    ensures
        names_extend(c, a, f1 + f2),
{
    assert forall|i: int| 0 <= i < (f1 + f2).len() implies name_view(#[trigger] c[a.len() + i])
        == (f1 + f2)[i] by {
        if i < f1.len() {
            assert(c[a.len() + i] == b[a.len() + i]);
        } else {
            assert(c[a.len() + i] == c[b.len() + (i - f1.len())]);
        }
    }
}

fn collect_node_names(
    content: &str,
    macros: bool,
    node: &TemplateNode,
    out: &mut Vec<TemplateNameOccurrence>,
)
    requires
        content@.len() < u32::MAX,
    ensures
        names_extend(final(out)@, old(out)@, node_names(content@, macros, node_view(*node))),
    decreases node, 2nat,
{
    let ghost o0 = out@;
    let ghost e = Seq::<NameOccurrenceView>::empty();
    match node {
        TemplateNode::Block { name, body } => {
            let ghost f1 = if macros {
                e
            } else {
                seq![name_of(content@, ident_view(*name))]
            };
            if !macros {
                out.push(
                    TemplateNameOccurrence {
                        name: name.text.clone(),
                        source_range: template_ident_range(content, name),
                    },
                );
                assert(name_view(out@[o0.len() as int]) == f1[0]);
            }
            let ghost o1 = out@;
            collect_nodes_names(content, macros, body, out);
            proof {
                lemma_names_trans(o0, o1, out@, f1, nodes_names(content@, macros, nodes_view(body@)));
            }
        },
        TemplateNode::Macro { name, body, .. } => {
            let ghost f1 = if macros {
                seq![name_of(content@, ident_view(*name))]
            } else {
                e
            };
            if macros {
                out.push(
                    TemplateNameOccurrence {
                        name: name.text.clone(),
                        source_range: template_ident_range(content, name),
                    },
                );
                assert(name_view(out@[o0.len() as int]) == f1[0]);
            }
            let ghost o1 = out@;
            collect_nodes_names(content, macros, body, out);
            proof {
                lemma_names_trans(o0, o1, out@, f1, nodes_names(content@, macros, nodes_view(body@)));
            }
        },
        TemplateNode::If { branches, else_body } => {
            collect_branches_names(content, macros, branches, out);
            let ghost o1 = out@;
            let ghost fb = branches_names(content@, macros, branches_view(branches@));
            match else_body {
                Some(b) => {
                    collect_nodes_names(content, macros, b, out);
                    proof {
                        lemma_names_trans(o0, o1, out@, fb, nodes_names(content@, macros, nodes_view(b@)));
                    }
                },
                None => {
                    assert(fb + e =~= fb);
                },
            }
        },
        TemplateNode::For { body, else_body, .. } => {
            collect_nodes_names(content, macros, body, out);
            let ghost o1 = out@;
            let ghost fb = nodes_names(content@, macros, nodes_view(body@));
            match else_body {
                Some(b) => {
                    collect_nodes_names(content, macros, b, out);
                    proof {
                        lemma_names_trans(o0, o1, out@, fb, nodes_names(content@, macros, nodes_view(b@)));
                    }
                },
                None => {
                    assert(fb + e =~= fb);
                },
            }
        },
        _ => {},
    }
}

fn collect_branches_names(
    content: &str,
    macros: bool,
    branches: &Vec<TemplateBranch>,
    out: &mut Vec<TemplateNameOccurrence>,
)
    requires
        content@.len() < u32::MAX,
    ensures
        names_extend(
            final(out)@,
            old(out)@,
            branches_names(content@, macros, branches_view(branches@)),
        ),
    decreases branches@, 1nat,
{
    proof {
        lemma_branches_view(branches@);
    }
    let ghost s = branches_view(branches@);
    let ghost o0 = out@;
    let mut i: usize = 0;
    assert(s.take(0) =~= Seq::<TemplateBranchView>::empty());
    while i < branches.len()
        invariant
            i <= branches.len(),
            content@.len() < u32::MAX,
            s == branches_view(branches@),
            s.len() == branches@.len(),
            forall|j: int|
                0 <= j < branches@.len() ==> (#[trigger] s[j]).body == nodes_view(
                    branches@[j].body@,
                ),
            names_extend(out@, o0, branches_names(content@, macros, s.take(i as int))),
        decreases branches.len() - i,
    {
        let ghost o1 = out@;
        collect_nodes_names(content, macros, &branches[i].body, out);
        proof {
            lemma_names_trans(o0, o1, out@, branches_names(content@, macros, s.take(i as int)), nodes_names(content@, macros, s[i as int].body));
            let t = s.take(i + 1);
            assert(t.subrange(0, t.len() - 1) =~= s.take(i as int));
            assert(t[t.len() - 1] == s[i as int]);
        }
        i = i + 1;
    }
    assert(s.take(branches.len() as int) =~= s);
}

fn collect_nodes_names(
    content: &str,
    macros: bool,
    nodes: &Vec<TemplateNode>,
    out: &mut Vec<TemplateNameOccurrence>,
)
    requires
        content@.len() < u32::MAX,
    ensures
        names_extend(final(out)@, old(out)@, nodes_names(content@, macros, nodes_view(nodes@))),
    decreases nodes@, 0nat,
{
    proof {
        lemma_nodes_view(nodes@);
    }
    let ghost s = nodes_view(nodes@);
    let ghost o0 = out@;
    let mut i: usize = 0;
    assert(s.take(0) =~= Seq::<TemplateNodeView>::empty());
    while i < nodes.len()
        invariant
            i <= nodes.len(),
            content@.len() < u32::MAX,
            s == nodes_view(nodes@),
            s.len() == nodes@.len(),
            forall|j: int| 0 <= j < nodes@.len() ==> #[trigger] s[j] == node_view(nodes@[j]),
            names_extend(out@, o0, nodes_names(content@, macros, s.take(i as int))),
        decreases nodes.len() - i,
    {
        let ghost o1 = out@;
        collect_node_names(content, macros, &nodes[i], out);
        proof {
            lemma_names_trans(o0, o1, out@, nodes_names(content@, macros, s.take(i as int)), node_names(content@, macros, s[i as int]));
            let t = s.take(i + 1);
            assert(t.subrange(0, t.len() - 1) =~= s.take(i as int));
            assert(t[t.len() - 1] == s[i as int]);
        }
        i = i + 1;
    }
    assert(s.take(nodes.len() as int) =~= s);
}

/// The blocks that `nodes` declare, in source order, through the bodies of
/// blocks, macros, `if` and `for`.
pub fn template_block_occurrences(content: &str, nodes: &Vec<TemplateNode>) -> (r: Vec<
    TemplateBlockOccurrence,
>)
    requires
        content@.len() < u32::MAX,
    ensures
        r@.map_values(|o: TemplateNameOccurrence| name_view(o)) == nodes_names(
            content@,
            false,
            nodes_view(nodes@),
        ),
{
    let mut out: Vec<TemplateNameOccurrence> = Vec::new();
    collect_nodes_names(content, false, nodes, &mut out);
    assert(out@.map_values(|o: TemplateNameOccurrence| name_view(o)) =~= nodes_names(
        content@,
        false,
        nodes_view(nodes@),
    )) by {
        assert forall|i: int| 0 <= i < out@.len() implies name_view(out@[i]) == nodes_names(
            content@,
            false,
            nodes_view(nodes@),
        )[i] by {
            assert(out@[0 + i] == out@[i]);
        }
    }
    out
}

/// The macros that `nodes` declare, in source order, through the bodies of
/// blocks, macros, `if` and `for`.
pub fn template_macro_occurrences(content: &str, nodes: &Vec<TemplateNode>) -> (r: Vec<
    TemplateMacroOccurrence,
>)
    requires
        content@.len() < u32::MAX,
    ensures
        r@.map_values(|o: TemplateNameOccurrence| name_view(o)) == nodes_names(
            content@,
            true,
            nodes_view(nodes@),
        ),
{
    let mut out: Vec<TemplateNameOccurrence> = Vec::new();
    collect_nodes_names(content, true, nodes, &mut out);
    assert(out@.map_values(|o: TemplateNameOccurrence| name_view(o)) =~= nodes_names(
        content@,
        true,
        nodes_view(nodes@),
    )) by {
        assert forall|i: int| 0 <= i < out@.len() implies name_view(out@[i]) == nodes_names(
            content@,
            true,
            nodes_view(nodes@),
        )[i] by {
            assert(out@[0 + i] == out@[i]);
        }
    }
    out
}


/// Every template text of the project is short enough for line and column
/// numbers.
pub open spec fn template_texts_fit(project: AuthoringProject) -> bool {
    forall|i: int|
        0 <= i < project.template_contents@.len() ==> (
        #[trigger] project.template_contents@[i]).1@.len() < u32::MAX
}

/// The entry of the index for `file` at `path`.
fn index_template(project: &AuthoringProject, file: &String, path: &String) -> (r: Option<
    IndexedTemplate,
>)
    requires
        template_texts_fit(*project),
    ensures
        match r {
            Some(t) => index_entry(*project, file@, path@) == Some(indexed_view(t)),
            None => index_entry(*project, file@, path@) is None,
        },
{
    let i = match find_key(&project.template_contents, file.as_str()) {
        Some(i) => i,
        None => {
            return None;
        },
    };
    let content = project.template_contents[i].1.as_str();
    assert(content@.len() < u32::MAX);
    let nodes = match parse_template(file.as_str(), content) {
        Some(n) => n,
        None => {
            return None;
        },
    };
    let imports = template_import_aliases(project, &nodes);
    let extends = template_extends_path_from_nodes(&nodes);
    let blocks = template_block_occurrences(content, &nodes);
    let macros = template_macro_occurrences(content, &nodes);
    let calls = template_macro_call_occurrences(file.as_str(), content, &imports, &nodes);
    let ghost cs = nodes_calls(call_scope(file@, content@, imports@), nodes_view(nodes@));
    assert(calls@.map_values(|o: TemplateMacroCallOccurrence| occurrence_view(o)) =~= cs) by {
        assert forall|k: int| 0 <= k < calls@.len() implies occurrence_view(calls@[k]) == cs[k] by {
            assert(calls@[0 + k] == calls@[k]);
        }
    }
    let t = IndexedTemplate {
        file: file.clone(),
        path: path.clone(),
        extends,
        blocks,
        macros,
        macro_calls: calls,
    };
    Some(t)
}

/// Whether `cbp` has the key `key`.
fn has_parent_key(cbp: &Vec<(String, Vec<String>)>, key: &str) -> (r: bool)
    ensures
        r == exists|i: int| 0 <= i < cbp@.len() && (#[trigger] cbp@[i]).0@ == key@,
{
    let mut i: usize = 0;
    while i < cbp.len()
        invariant
            i <= cbp.len(),
            forall|j: int| 0 <= j < i ==> (#[trigger] cbp@[j]).0@ != key@,
        decreases cbp.len() - i,
    {
        if str_eq(cbp[i].0.as_str(), key) {
            return true;
        }
        i = i + 1;
    }
    false
}

/// The files of the templates that extend `parent`, sorted.
fn sorted_children(templates: &Vec<IndexedTemplate>, parent: &str) -> (r: Vec<String>)
    ensures
        ({
            let entries = templates@.map_values(|t: IndexedTemplate| indexed_view(t));
            let cs = r@.map_values(|s: String| s@);
            &&& cs.to_multiset() == children_of(entries, parent@).to_multiset()
            &&& cs.len() == children_of(entries, parent@).len()
            &&& forall|a: int, b: int| 0 <= a < b < cs.len() ==> lex_le(#[trigger] cs[a], #[trigger] cs[b])
        }),
{
    let ghost entries = templates@.map_values(|t: IndexedTemplate| indexed_view(t));
    let mut kids: Vec<(String, ())> = Vec::new();
    let mut j: usize = 0;
    while j < templates.len()
        invariant
            j <= templates.len(),
            entries == templates@.map_values(|t: IndexedTemplate| indexed_view(t)),
            kids@.map_values(|p: (String, ())| p.0@) == children_of(entries.take(j as int), parent@),
        decreases templates.len() - j,
    {
        let ghost before = kids@;
        let hit = match &templates[j].extends {
            Some(e) => str_eq(e.as_str(), parent),
            None => false,
        };
        if hit {
            kids.push((templates[j].file.clone(), ()));
        }
        proof {
            let t = entries.take(j + 1);
            assert(t.subrange(0, t.len() - 1) =~= entries.take(j as int));
            assert(t[t.len() - 1] == entries[j as int]);
            assert(kids@.map_values(|p: (String, ())| p.0@) =~= before.map_values(
                |p: (String, ())| p.0@,
            ) + if hit {
                seq![templates@[j as int].file@]
            } else {
                Seq::<Seq<char>>::empty()
            });
        }
        j = j + 1;
    }
    assert(entries.take(templates.len() as int) =~= entries);
    let ghost kv = kids@;
    let sorted = sort_by_key(kids);
    proof {
        lemma_map_values_multiset(sorted@, kv, |p: (String, ())| p.0@);
    }
    let mut out: Vec<String> = Vec::new();
    let mut k: usize = 0;
    while k < sorted.len()
        invariant
            k <= sorted.len(),
            out@.map_values(|s: String| s@) == sorted@.map_values(|p: (String, ())| p.0@).take(k as int),
        decreases sorted.len() - k,
    {
        let ghost before = out@;
        let name = sorted[k].0.clone();
        assert(name@ == sorted@[k as int].0@);
        out.push(name);
        assert(out@.map_values(|s: String| s@) =~= before.map_values(|s: String| s@).push(
            sorted@[k as int].0@,
        ));
        assert(out@.map_values(|s: String| s@) =~= sorted@.map_values(|p: (String, ())| p.0@).take(k + 1));
        k = k + 1;
    }
    assert(sorted@.map_values(|p: (String, ())| p.0@).take(sorted.len() as int) =~= sorted@.map_values(
        |p: (String, ())| p.0@,
    ));
    proof {
        broadcast use vstd::seq_lib::group_to_multiset_ensures;

        assert(sorted@.to_multiset().len() == kv.to_multiset().len());
    }
    out
}


/// The index of the project's templates: for each template of
/// `template_paths` (in order) whose text the project has and parses, the
/// template it extends, the blocks and macros it declares and its macro
/// calls; and for each indexed template that indexed templates extend, those
/// templates' files, sorted.
pub fn template_index(project: &AuthoringProject) -> (r: TemplateIndex)
    requires
        template_texts_fit(*project),
    ensures
        r.templates@.map_values(|t: IndexedTemplate| indexed_view(t)) == index_entries(
            *project,
            project.template_paths@,
        ),
        children_index_is(
            r.children_by_parent@,
            index_entries(*project, project.template_paths@),
        ),
{
    let ghost paths = project.template_paths@;
    let mut templates: Vec<IndexedTemplate> = Vec::new();
    let mut i: usize = 0;
    while i < project.template_paths.len()
        invariant
            i <= project.template_paths.len(),
            paths == project.template_paths@,
            template_texts_fit(*project),
            templates@.map_values(|t: IndexedTemplate| indexed_view(t)) == index_entries(
                *project,
                paths.take(i as int),
            ),
        decreases project.template_paths.len() - i,
    {
        let ghost before = templates@;
        let entry = index_template(project, &project.template_paths[i].0, &project.template_paths[i].1);
        let ghost e = index_entry(*project, paths[i as int].0@, paths[i as int].1@);
        match entry {
            Some(t) => {
                templates.push(t);
                assert(templates@.map_values(|t: IndexedTemplate| indexed_view(t)) =~= before.map_values(
                    |t: IndexedTemplate| indexed_view(t),
                ) + seq![e.unwrap()]);
            },
            None => {
                assert(before.map_values(|t: IndexedTemplate| indexed_view(t)) + Seq::<IndexedTemplateView>::empty()
                    =~= before.map_values(|t: IndexedTemplate| indexed_view(t)));
            },
        }
        proof {
            let t = paths.take(i + 1);
            assert(t.subrange(0, t.len() - 1) =~= paths.take(i as int));
            assert(t[t.len() - 1] == paths[i as int]);
        }
        i = i + 1;
    }
    assert(paths.take(project.template_paths.len() as int) =~= paths);
    let ghost entries = templates@.map_values(|t: IndexedTemplate| indexed_view(t));
    let mut cbp: Vec<(String, Vec<String>)> = Vec::new();
    let mut k: usize = 0;
    while k < templates.len()
        invariant
            k <= templates.len(),
            entries == templates@.map_values(|t: IndexedTemplate| indexed_view(t)),
            forall|a: int, b: int|
                0 <= a < b < cbp@.len() ==> (#[trigger] cbp@[a]).0@ != (#[trigger] cbp@[b]).0@,
            forall|a: int|
                0 <= a < cbp@.len() ==> {
                    let p = (#[trigger] cbp@[a]).0@;
                    let cs = cbp@[a].1@.map_values(|s: String| s@);
                    &&& is_indexed(entries, p)
                    &&& children_of(entries, p).len() > 0
                    &&& cs.to_multiset() == children_of(entries, p).to_multiset()
                    &&& forall|x: int, y: int|
                        0 <= x < y < cs.len() ==> lex_le(#[trigger] cs[x], #[trigger] cs[y])
                },
            forall|m: int|
                0 <= m < k && children_of(entries, (#[trigger] entries[m]).file).len() > 0 ==> exists|a: int|
                    0 <= a < cbp@.len() && (#[trigger] cbp@[a]).0@ == entries[m].file,
        decreases templates.len() - k,
    {
        let present = has_parent_key(&cbp, templates[k].file.as_str());
        assert(entries[k as int].file == templates@[k as int].file@);
        if !present {
            let kids = sorted_children(&templates, templates[k].file.as_str());
            if kids.len() > 0 {
                let ghost before = cbp@;
                let key = templates[k].file.clone();
                assert(is_indexed(entries, key@)) by {
                    assert(entries[k as int].file == key@);
                }
                cbp.push((key, kids));
                assert(cbp@[before.len() as int].0@ == entries[k as int].file);
                assert(forall|a: int| 0 <= a < before.len() ==> cbp@[a] == before[a]);
            }
        }
        k = k + 1;
    }
    assert forall|p: Seq<char>|
        is_indexed(entries, p) && #[trigger] children_of(entries, p).len() > 0 implies exists|a: int|
            0 <= a < cbp@.len() && (#[trigger] cbp@[a]).0@ == p by {
        let m = choose|m: int| 0 <= m < entries.len() && (#[trigger] entries[m]).file == p;
        assert(children_of(entries, entries[m].file).len() > 0);
    }
    TemplateIndex { templates, children_by_parent: cbp }
}

} // verus!
