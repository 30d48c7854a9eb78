//! The macro calls of a template, each with the template that defines the
//! macro it calls: what the editor lists as references to a macro.
use vstd::prelude::*;

use crate::positions::Range;
use crate::template_diagnostics::{alias_index, alias_target, pairs_view};
use crate::template_syntax::{
    branches_view, expr_view, exprs_view, lemma_branches_view, lemma_exprs_view, lemma_nodes_view,
    node_view, nodes_view, TemplateBranch, TemplateBranchView, TemplateExpr, TemplateExprView,
    TemplateIdentView, TemplateNode, TemplateNodeView,
};
use crate::text::str_eq;

verus! {

/// A call of macro `macro_name` defined in `target_template_file`, at
/// `source_range` of the calling template.
#[derive(Clone, Debug)]
pub struct TemplateMacroCallOccurrence {
    pub target_template_file: String,
    pub macro_name: String,
    pub source_range: Range,
}

/// The mathematical value of a [`TemplateMacroCallOccurrence`].
pub struct MacroCallView {
    pub target: Seq<char>,
    pub name: Seq<char>,
    pub range: Range,
}

pub open spec fn occurrence_view(o: TemplateMacroCallOccurrence) -> MacroCallView {
    MacroCallView { target: o.target_template_file@, name: o.macro_name@, range: o.source_range }
}

/// What a walk over a template knows: its file, its text and its import
/// aliases in the order the template declares them.
pub struct CallScope {
    pub file: Seq<char>,
    pub content: Seq<char>,
    pub imports: Seq<(Seq<char>, Seq<char>)>,
}

/// `new` is `old` followed by the occurrences `calls`, in order.
pub open spec fn calls_extend(
    new: Seq<TemplateMacroCallOccurrence>,
    old: Seq<TemplateMacroCallOccurrence>,
    calls: Seq<MacroCallView>,
) -> bool {
    &&& new.len() == old.len() + calls.len()
    &&& forall|i: int| 0 <= i < old.len() ==> #[trigger] new[i] == old[i]
    &&& forall|i: int|
        0 <= i < calls.len() ==> occurrence_view(#[trigger] new[old.len() + i]) == calls[i]
}

/// The call of `macro_name` in namespace `namespace`: in the current
/// template for `self`, else in the template imported under that alias; no
/// call where the alias is not declared.
pub open spec fn call_of(
    scope: CallScope,
    namespace: TemplateIdentView,
    macro_name: TemplateIdentView,
) -> Seq<MacroCallView> {
    let target = if namespace.text == "self"@ {
        Some(scope.file)
    } else {
        alias_target(scope.imports, namespace.text)
    };
    match target {
        Some(t) => seq![
            MacroCallView {
                target: t,
                name: macro_name.text,
                range: crate::template_definitions::ident_range(scope.content, macro_name),
            },
        ],
        None => Seq::empty(),
    }
}

pub open spec fn expr_calls(scope: CallScope, e: TemplateExprView) -> Seq<MacroCallView>
    decreases e, 1nat,
{
    match e {
        TemplateExprView::Plain { operands } => exprs_calls(scope, operands),
        TemplateExprView::Filter { operands, .. } => exprs_calls(scope, operands),
        TemplateExprView::Test { operands, .. } => exprs_calls(scope, operands),
        TemplateExprView::MacroCall { operands, namespace, macro_name } => call_of(
            scope,
            namespace,
            macro_name,
        ) + exprs_calls(scope, operands),
    }
}

pub open spec fn exprs_calls(scope: CallScope, s: Seq<TemplateExprView>) -> Seq<MacroCallView>
    decreases s, 0nat,
{
    if s.len() == 0 {
        Seq::empty()
    } else {
        exprs_calls(scope, s.subrange(0, s.len() - 1)) + expr_calls(scope, s[s.len() - 1])
    }
}

pub open spec fn node_calls(scope: CallScope, n: TemplateNodeView) -> Seq<MacroCallView>
    decreases n, 2nat,
{
    match n {
        TemplateNodeView::Print { expr } => expr_calls(scope, expr),
        TemplateNodeView::If { branches, else_body } => branches_calls(scope, branches) + match else_body {
            Some(b) => nodes_calls(scope, b),
            None => Seq::empty(),
        },
        TemplateNodeView::For { iter, body, else_body } => expr_calls(scope, iter) + nodes_calls(scope, body) + match else_body {
            Some(b) => nodes_calls(scope, b),
            None => Seq::empty(),
        },
        TemplateNodeView::Block { body, .. } => nodes_calls(scope, body),
        TemplateNodeView::SetExpr { value } => expr_calls(scope, value),
        TemplateNodeView::SetBody { body } => nodes_calls(scope, body),
        TemplateNodeView::Macro { body, .. } => nodes_calls(scope, body),
        TemplateNodeView::CallBlock { kwargs } => exprs_calls(scope, kwargs),
        _ => Seq::empty(),
    }
}

pub open spec fn nodes_calls(scope: CallScope, s: Seq<TemplateNodeView>) -> Seq<MacroCallView>
    decreases s, 0nat,
{
    if s.len() == 0 {
        Seq::empty()
    } else {
        nodes_calls(scope, s.subrange(0, s.len() - 1)) + node_calls(scope, s[s.len() - 1])
    }
}

pub open spec fn branches_calls(scope: CallScope, s: Seq<TemplateBranchView>) -> Seq<
    MacroCallView,
>
    decreases s, 1nat,
{
    if s.len() == 0 {
        Seq::empty()
    } else {
        let b = s[s.len() - 1];
        branches_calls(scope, s.subrange(0, s.len() - 1)) + expr_calls(scope, b.condition)
            + nodes_calls(scope, b.body)
    }
}

pub open spec fn call_scope(
    file: Seq<char>,
    content: Seq<char>,
    imports: Seq<(String, String)>,
) -> CallScope {
    CallScope { file, content, imports: pairs_view(imports) }
}

pub proof fn lemma_calls_trans(
    a: Seq<TemplateMacroCallOccurrence>,
    b: Seq<TemplateMacroCallOccurrence>,
    c: Seq<TemplateMacroCallOccurrence>,
    f1: Seq<MacroCallView>,
    f2: Seq<MacroCallView>,
)
    requires
        calls_extend(b, a, f1),
        calls_extend(c, b, f2),
    ensures
        calls_extend(c, a, f1 + f2),
{
    assert forall|i: int| 0 <= i < (f1 + f2).len() implies occurrence_view(
        #[trigger] c[a.len() + i],
    ) == (f1 + f2)[i] by {
        if i < f1.len() {
            assert(c[a.len() + i] == b[a.len() + i]);
        } else {
            assert(c[a.len() + i] == c[b.len() + (i - f1.len())]);
        }
    }
}

/// Appends the macro calls of an expression, in source order: a call before
/// the calls in its arguments. A call whose namespace is neither `self` nor a
/// declared alias is left out.
pub fn collect_expr_macro_call_occurrences(
    template_file: &str,
    content: &str,
    imports: &Vec<(String, String)>,
    expr: &TemplateExpr,
    occurrences: &mut Vec<TemplateMacroCallOccurrence>,
)
    requires
        content@.len() < u32::MAX,
    ensures
        calls_extend(
            final(occurrences)@,
            old(occurrences)@,
            expr_calls(call_scope(template_file@, content@, imports@), expr_view(*expr)),
        ),
    decreases expr, 1nat,
{
    let ghost sc = call_scope(template_file@, content@, imports@);
    let ghost o0 = occurrences@;
    match expr {
        TemplateExpr::Plain { operands } => {
            collect_exprs_macro_calls(template_file, content, imports, operands, occurrences);
        },
        TemplateExpr::Filter { operands, .. } => {
            collect_exprs_macro_calls(template_file, content, imports, operands, occurrences);
        },
        TemplateExpr::Test { operands, .. } => {
            collect_exprs_macro_calls(template_file, content, imports, operands, occurrences);
        },
        TemplateExpr::MacroCall { operands, namespace, macro_name } => {
            let target: Option<String> = if str_eq(namespace.text.as_str(), "self") {
                Some(template_file.to_owned())
            } else {
                match alias_index(imports, namespace.text.as_str()) {
                    Some(i) => Some(imports[i].1.clone()),
                    None => None,
                }
            };
            let ghost c = call_of(sc, crate::template_syntax::ident_view(*namespace), crate::template_syntax::ident_view(*macro_name));
            match target {
                Some(t) => {
                    let range = crate::template_definitions::template_ident_range(content, macro_name);
                    occurrences.push(
                        TemplateMacroCallOccurrence {
                            target_template_file: t,
                            macro_name: macro_name.text.clone(),
                            source_range: range,
                        },
                    );
                    assert(occurrence_view(occurrences@[o0.len() as int]) == c[0]);
                },
                None => {},
            }
            let ghost o1 = occurrences@;
            collect_exprs_macro_calls(template_file, content, imports, operands, occurrences);
            proof {
                lemma_calls_trans(o0, o1, occurrences@, c, exprs_calls(sc, exprs_view(operands@)));
            }
        },
    }
}

fn collect_exprs_macro_calls(
    template_file: &str,
    content: &str,
    imports: &Vec<(String, String)>,
    exprs: &Vec<TemplateExpr>,
    occurrences: &mut Vec<TemplateMacroCallOccurrence>,
)
    requires
        content@.len() < u32::MAX,
    ensures
        calls_extend(
            final(occurrences)@,
            old(occurrences)@,
            exprs_calls(call_scope(template_file@, content@, imports@), exprs_view(exprs@)),
        ),
    decreases exprs@, 0nat,
{
    proof {
        lemma_exprs_view(exprs@);
    }
    let ghost sc = call_scope(template_file@, content@, imports@);
    let ghost s = exprs_view(exprs@);
    let ghost o0 = occurrences@;
    let mut i: usize = 0;
    assert(s.take(0) =~= Seq::<TemplateExprView>::empty());
    while i < exprs.len()
        invariant
            i <= exprs.len(),
            content@.len() < u32::MAX,
            sc == call_scope(template_file@, content@, imports@),
            s == exprs_view(exprs@),
            s.len() == exprs@.len(),
            forall|j: int| 0 <= j < exprs@.len() ==> #[trigger] s[j] == expr_view(exprs@[j]),
            calls_extend(occurrences@, o0, exprs_calls(sc, s.take(i as int))),
        decreases exprs.len() - i,
    {
        let ghost o1 = occurrences@;
        collect_expr_macro_call_occurrences(template_file, content, imports, &exprs[i], occurrences);
        proof {
            lemma_calls_trans(o0, o1, occurrences@, exprs_calls(sc, s.take(i as int)), expr_calls(sc, s[i as int]));
            let t = s.take(i + 1);
            assert(t.subrange(0, t.len() - 1) =~= s.take(i as int));
            assert(t[t.len() - 1] == s[i as int]);
        }
        i = i + 1;
    }
    assert(s.take(exprs.len() as int) =~= s);
}

fn collect_node_macro_calls(
    template_file: &str,
    content: &str,
    imports: &Vec<(String, String)>,
    node: &TemplateNode,
    occurrences: &mut Vec<TemplateMacroCallOccurrence>,
)
    requires
        content@.len() < u32::MAX,
    ensures
        calls_extend(
            final(occurrences)@,
            old(occurrences)@,
            node_calls(call_scope(template_file@, content@, imports@), node_view(*node)),
        ),
    decreases node, 2nat,
{
    let ghost sc = call_scope(template_file@, content@, imports@);
    let ghost o0 = occurrences@;
    let ghost e = Seq::<MacroCallView>::empty();
    match node {
        TemplateNode::Print { expr } => {
            collect_expr_macro_call_occurrences(template_file, content, imports, expr, occurrences);
        },
        TemplateNode::If { branches, else_body } => {
            collect_branches_macro_calls(template_file, content, imports, branches, occurrences);
            let ghost o1 = occurrences@;
            let ghost fb = branches_calls(sc, branches_view(branches@));
            match else_body {
                Some(b) => {
                    collect_template_macro_call_occurrences(template_file, content, imports, b, occurrences);
                    proof {
                        lemma_calls_trans(o0, o1, occurrences@, fb, nodes_calls(sc, nodes_view(b@)));
                    }
                },
                None => {
                    assert(fb + e =~= fb);
                },
            }
        },
        TemplateNode::For { iter, body, else_body } => {
            collect_expr_macro_call_occurrences(template_file, content, imports, iter, occurrences);
            let ghost o1 = occurrences@;
            let ghost f1 = expr_calls(sc, expr_view(*iter));
            collect_template_macro_call_occurrences(template_file, content, imports, body, occurrences);
            let ghost o2 = occurrences@;
            let ghost f2 = nodes_calls(sc, nodes_view(body@));
            proof {
                lemma_calls_trans(o0, o1, o2, f1, f2);
            }
            match else_body {
                Some(b) => {
                    collect_template_macro_call_occurrences(template_file, content, imports, b, occurrences);
                    proof {
                        lemma_calls_trans(o0, o2, occurrences@, f1 + f2, nodes_calls(sc, nodes_view(b@)));
                    }
                },
                None => {
                    assert(f1 + f2 + e =~= f1 + f2);
                },
            }
        },
        TemplateNode::Block { body, .. } => {
            collect_template_macro_call_occurrences(template_file, content, imports, body, occurrences);
        },
        TemplateNode::SetExpr { value } => {
            collect_expr_macro_call_occurrences(template_file, content, imports, value, occurrences);
        },
        TemplateNode::SetBody { body } => {
            collect_template_macro_call_occurrences(template_file, content, imports, body, occurrences);
        },
        TemplateNode::Macro { body, .. } => {
            collect_template_macro_call_occurrences(template_file, content, imports, body, occurrences);
        },
        TemplateNode::CallBlock { kwargs } => {
            collect_exprs_macro_calls(template_file, content, imports, kwargs, occurrences);
        },
        _ => {},
    }
}

fn collect_branches_macro_calls(
    template_file: &str,
    content: &str,
    imports: &Vec<(String, String)>,
    branches: &Vec<TemplateBranch>,
    occurrences: &mut Vec<TemplateMacroCallOccurrence>,
)
    requires
        content@.len() < u32::MAX,
    ensures
        calls_extend(
            final(occurrences)@,
            old(occurrences)@,
            branches_calls(call_scope(template_file@, content@, imports@), branches_view(branches@)),
        ),
    decreases branches@, 1nat,
{
    proof {
        lemma_branches_view(branches@);
    }
    let ghost sc = call_scope(template_file@, content@, imports@);
    let ghost s = branches_view(branches@);
    let ghost o0 = occurrences@;
    let mut i: usize = 0;
    assert(s.take(0) =~= Seq::<TemplateBranchView>::empty());
    while i < branches.len()
        invariant
            i <= branches.len(),
            content@.len() < u32::MAX,
            sc == call_scope(template_file@, content@, imports@),
            s == branches_view(branches@),
            s.len() == branches@.len(),
            forall|j: int|
                0 <= j < branches@.len() ==> (#[trigger] s[j]).condition == expr_view(
                    branches@[j].condition,
                ) && s[j].body == nodes_view(branches@[j].body@),
            calls_extend(occurrences@, o0, branches_calls(sc, s.take(i as int))),
        decreases branches.len() - i,
    {
        let ghost o1 = occurrences@;
        collect_expr_macro_call_occurrences(template_file, content, imports, &branches[i].condition, occurrences);
        let ghost o2 = occurrences@;
        collect_template_macro_call_occurrences(template_file, content, imports, &branches[i].body, occurrences);
        proof {
            let fa = branches_calls(sc, s.take(i as int));
            let fc = expr_calls(sc, s[i as int].condition);
            let fd = nodes_calls(sc, s[i as int].body);
            lemma_calls_trans(o0, o1, o2, fa, fc);
            lemma_calls_trans(o0, o2, occurrences@, fa + fc, fd);
            let t = s.take(i + 1);
            assert(t.subrange(0, t.len() - 1) =~= s.take(i as int));
            assert(t[t.len() - 1] == s[i as int]);
        }
        i = i + 1;
    }
    assert(s.take(branches.len() as int) =~= s);
}

/// Appends the macro calls in `nodes`, in source order (the defaults of a
/// macro's parameters are not searched).
pub fn collect_template_macro_call_occurrences(
    template_file: &str,
    content: &str,
    imports: &Vec<(String, String)>,
    nodes: &Vec<TemplateNode>,
    occurrences: &mut Vec<TemplateMacroCallOccurrence>,
)
    requires
        content@.len() < u32::MAX,
    ensures
        calls_extend(
            final(occurrences)@,
            old(occurrences)@,
            nodes_calls(call_scope(template_file@, content@, imports@), nodes_view(nodes@)),
        ),
    decreases nodes@, 0nat,
{
    proof {
        lemma_nodes_view(nodes@);
    }
    let ghost sc = call_scope(template_file@, content@, imports@);
    let ghost s = nodes_view(nodes@);
    let ghost o0 = occurrences@;
    let mut i: usize = 0;
    assert(s.take(0) =~= Seq::<TemplateNodeView>::empty());
    while i < nodes.len()
        invariant
            i <= nodes.len(),
            content@.len() < u32::MAX,
            sc == call_scope(template_file@, content@, imports@),
            s == nodes_view(nodes@),
            s.len() == nodes@.len(),
            forall|j: int| 0 <= j < nodes@.len() ==> #[trigger] s[j] == node_view(nodes@[j]),
            calls_extend(occurrences@, o0, nodes_calls(sc, s.take(i as int))),
        decreases nodes.len() - i,
    {
        let ghost o1 = occurrences@;
        collect_node_macro_calls(template_file, content, imports, &nodes[i], occurrences);
        proof {
            lemma_calls_trans(o0, o1, occurrences@, nodes_calls(sc, s.take(i as int)), node_calls(sc, s[i as int]));
            let t = s.take(i + 1);
            assert(t.subrange(0, t.len() - 1) =~= s.take(i as int));
            assert(t[t.len() - 1] == s[i as int]);
        }
        i = i + 1;
    }
    assert(s.take(nodes.len() as int) =~= s);
}

/// The macro calls in `nodes`, in source order, each with the template that
/// defines the macro: the current one for `self`, else the template imported
/// under the namespace (the last such import).
pub fn template_macro_call_occurrences(
    template_file: &str,
    content: &str,
    imports: &Vec<(String, String)>,
    nodes: &Vec<TemplateNode>,
) -> (r: Vec<TemplateMacroCallOccurrence>)
    requires
        content@.len() < u32::MAX,
    ensures
        calls_extend(
            r@,
            Seq::empty(),
            nodes_calls(call_scope(template_file@, content@, imports@), nodes_view(nodes@)),
        ),
{
    let mut occurrences: Vec<TemplateMacroCallOccurrence> = Vec::new();
    collect_template_macro_call_occurrences(template_file, content, imports, nodes, &mut occurrences);
    occurrences
}

} // verus!
