//! The part of a template's syntax tree that template diagnostics read, the
//! parse that produces it, and the engine's tables of built-in filters and
//! tests.
use vstd::prelude::*;

use gingembre::ast::{
    CallExpr, Expr, FilterExpr, IfNode, Literal, MacroCallExpr, MacroNode, Node, SetValue,
    StringLit, TestExpr,
};

verus! {

/// A name or a string literal of a template, with its byte span.
#[derive(Clone, Debug)]
pub struct TemplateIdent {
    pub text: String,
    pub offset: usize,
    pub len: usize,
}

/// An expression, reduced to what diagnostics read: its sub-expressions in
/// source order, and the filter, test or macro it names.
#[derive(Debug)]
pub enum TemplateExpr {
    Plain { operands: Vec<TemplateExpr> },
    Filter { operands: Vec<TemplateExpr>, filter: TemplateIdent },
    Test { operands: Vec<TemplateExpr>, test_name: TemplateIdent },
    MacroCall { operands: Vec<TemplateExpr>, namespace: TemplateIdent, macro_name: TemplateIdent },
}

/// One condition of an `if` (the first) or of an `elif`, with its body.
#[derive(Debug)]
pub struct TemplateBranch {
    pub condition: TemplateExpr,
    pub body: Vec<TemplateNode>,
}

/// A node of a template.
#[derive(Debug)]
pub enum TemplateNode {
    Text { text: String },
    Extends { path: TemplateIdent },
    Include { path: TemplateIdent },
    Import { path: TemplateIdent, alias: TemplateIdent },
    Block { name: TemplateIdent, body: Vec<TemplateNode> },
    Macro { name: TemplateIdent, defaults: Vec<Option<TemplateExpr>>, body: Vec<TemplateNode> },
    Print { expr: TemplateExpr },
    If { branches: Vec<TemplateBranch>, else_body: Option<Vec<TemplateNode>> },
    For { iter: TemplateExpr, body: Vec<TemplateNode>, else_body: Option<Vec<TemplateNode>> },
    SetExpr { value: TemplateExpr },
    SetBody { body: Vec<TemplateNode> },
    CallBlock { kwargs: Vec<TemplateExpr> },
    Other,
}

/// The mathematical value of a [`TemplateIdent`].
pub struct TemplateIdentView {
    pub text: Seq<char>,
    pub offset: usize,
    pub len: usize,
}

/// The mathematical value of a [`TemplateExpr`].
pub enum TemplateExprView {
    Plain { operands: Seq<TemplateExprView> },
    Filter { operands: Seq<TemplateExprView>, filter: TemplateIdentView },
    Test { operands: Seq<TemplateExprView>, test_name: TemplateIdentView },
    MacroCall {
        operands: Seq<TemplateExprView>,
        namespace: TemplateIdentView,
        macro_name: TemplateIdentView,
    },
}

/// The mathematical value of a [`TemplateBranch`].
pub struct TemplateBranchView {
    pub condition: TemplateExprView,
    pub body: Seq<TemplateNodeView>,
}

/// The mathematical value of a [`TemplateNode`].
pub enum TemplateNodeView {
    Text { text: Seq<char> },
    Extends { path: TemplateIdentView },
    Include { path: TemplateIdentView },
    Import { path: TemplateIdentView, alias: TemplateIdentView },
    Block { name: TemplateIdentView, body: Seq<TemplateNodeView> },
    Macro {
        name: TemplateIdentView,
        defaults: Seq<Option<TemplateExprView>>,
        body: Seq<TemplateNodeView>,
    },
    Print { expr: TemplateExprView },
    If { branches: Seq<TemplateBranchView>, else_body: Option<Seq<TemplateNodeView>> },
    For {
        iter: TemplateExprView,
        body: Seq<TemplateNodeView>,
        else_body: Option<Seq<TemplateNodeView>>,
    },
    SetExpr { value: TemplateExprView },
    SetBody { body: Seq<TemplateNodeView> },
    CallBlock { kwargs: Seq<TemplateExprView> },
    Other,
}

pub open spec fn ident_view(i: TemplateIdent) -> TemplateIdentView {
    TemplateIdentView { text: i.text@, offset: i.offset, len: i.len }
}

pub open spec fn expr_view(e: TemplateExpr) -> TemplateExprView
    decreases e, 1nat,
{
    match e {
        TemplateExpr::Plain { operands } => TemplateExprView::Plain {
            operands: exprs_view(operands@),
        },
        TemplateExpr::Filter { operands, filter } => TemplateExprView::Filter {
            operands: exprs_view(operands@),
            filter: ident_view(filter),
        },
        TemplateExpr::Test { operands, test_name } => TemplateExprView::Test {
            operands: exprs_view(operands@),
            test_name: ident_view(test_name),
        },
        TemplateExpr::MacroCall { operands, namespace, macro_name } => TemplateExprView::MacroCall {
            operands: exprs_view(operands@),
            namespace: ident_view(namespace),
            macro_name: ident_view(macro_name),
        },
    }
}

pub open spec fn exprs_view(s: Seq<TemplateExpr>) -> Seq<TemplateExprView>
    decreases s, 0nat,
{
    if s.len() == 0 {
        Seq::empty()
    } else {
        exprs_view(s.subrange(0, s.len() - 1)).push(expr_view(s[s.len() - 1]))
    }
}

pub open spec fn opt_exprs_view(s: Seq<Option<TemplateExpr>>) -> Seq<Option<TemplateExprView>>
    decreases s,
{
    if s.len() == 0 {
        Seq::empty()
    } else {
        let last = match s[s.len() - 1] {
            Some(e) => Some(expr_view(e)),
            None => None,
        };
        opt_exprs_view(s.subrange(0, s.len() - 1)).push(last)
    }
}

pub open spec fn node_view(n: TemplateNode) -> TemplateNodeView
    decreases n, 2nat,
{
    match n {
        TemplateNode::Text { text } => TemplateNodeView::Text { text: text@ },
        TemplateNode::Extends { path } => TemplateNodeView::Extends { path: ident_view(path) },
        TemplateNode::Include { path } => TemplateNodeView::Include { path: ident_view(path) },
        TemplateNode::Import { path, alias } => TemplateNodeView::Import {
            path: ident_view(path),
            alias: ident_view(alias),
        },
        TemplateNode::Block { name, body } => TemplateNodeView::Block {
            name: ident_view(name),
            body: nodes_view(body@),
        },
        TemplateNode::Macro { name, defaults, body } => TemplateNodeView::Macro {
            name: ident_view(name),
            defaults: opt_exprs_view(defaults@),
            body: nodes_view(body@),
        },
        TemplateNode::Print { expr } => TemplateNodeView::Print { expr: expr_view(expr) },
        TemplateNode::If { branches, else_body } => TemplateNodeView::If {
            branches: branches_view(branches@),
            else_body: match else_body {
                Some(b) => Some(nodes_view(b@)),
                None => None,
            },
        },
        TemplateNode::For { iter, body, else_body } => TemplateNodeView::For {
            iter: expr_view(iter),
            body: nodes_view(body@),
            else_body: match else_body {
                Some(b) => Some(nodes_view(b@)),
                None => None,
            },
        },
        TemplateNode::SetExpr { value } => TemplateNodeView::SetExpr { value: expr_view(value) },
        TemplateNode::SetBody { body } => TemplateNodeView::SetBody { body: nodes_view(body@) },
        TemplateNode::CallBlock { kwargs } => TemplateNodeView::CallBlock {
            kwargs: exprs_view(kwargs@),
        },
        TemplateNode::Other => TemplateNodeView::Other,
    }
}

pub open spec fn nodes_view(s: Seq<TemplateNode>) -> Seq<TemplateNodeView>
    decreases s, 0nat,
{
    if s.len() == 0 {
        Seq::empty()
    } else {
        nodes_view(s.subrange(0, s.len() - 1)).push(node_view(s[s.len() - 1]))
    }
}

pub open spec fn branches_view(s: Seq<TemplateBranch>) -> Seq<TemplateBranchView>
    decreases s, 1nat,
{
    if s.len() == 0 {
        Seq::empty()
    } else {
        let b = s[s.len() - 1];
        branches_view(s.subrange(0, s.len() - 1)).push(
            TemplateBranchView { condition: expr_view(b.condition), body: nodes_view(b.body@) },
        )
    }
}

/// The view of a sequence of expressions is the sequence of their views.
pub proof fn lemma_exprs_view(s: Seq<TemplateExpr>)
    ensures
        exprs_view(s).len() == s.len(),
        forall|i: int| 0 <= i < s.len() ==> #[trigger] exprs_view(s)[i] == expr_view(s[i]),
    decreases s.len(),
{
    if s.len() > 0 {
        lemma_exprs_view(s.subrange(0, s.len() - 1));
    }
}

/// The view of a sequence of optional expressions, element by element.
pub proof fn lemma_opt_exprs_view(s: Seq<Option<TemplateExpr>>)
    ensures
        opt_exprs_view(s).len() == s.len(),
        forall|i: int|
            0 <= i < s.len() ==> #[trigger] opt_exprs_view(s)[i] == match s[i] {
                Some(e) => Some(expr_view(e)),
                None => None,
            },
    decreases s.len(),
{
    if s.len() > 0 {
        lemma_opt_exprs_view(s.subrange(0, s.len() - 1));
    }
}

/// The view of a sequence of nodes is the sequence of their views.
pub proof fn lemma_nodes_view(s: Seq<TemplateNode>)
    ensures
        nodes_view(s).len() == s.len(),
        forall|i: int| 0 <= i < s.len() ==> #[trigger] nodes_view(s)[i] == node_view(s[i]),
    decreases s.len(),
{
    if s.len() > 0 {
        lemma_nodes_view(s.subrange(0, s.len() - 1));
    }
}

/// The view of a sequence of branches, element by element.
pub proof fn lemma_branches_view(s: Seq<TemplateBranch>)
    ensures
        branches_view(s).len() == s.len(),
        forall|i: int|
            0 <= i < s.len() ==> (#[trigger] branches_view(s)[i]).condition == expr_view(
                s[i].condition,
            ) && branches_view(s)[i].body == nodes_view(s[i].body@),
    decreases s.len(),
{
    if s.len() > 0 {
        lemma_branches_view(s.subrange(0, s.len() - 1));
    }
}

/// The syntax tree that `gingembre::parse_template` gives for the template
/// text `src`, reduced to a sequence of [`TemplateNodeView`]s, or `None` where
/// the parser reports an error.
pub uninterp spec fn gingembre_template(src: Seq<char>) -> Option<Seq<TemplateNodeView>>;

/// Whether `gingembre::builtin_filter` knows a filter called `name`.
pub uninterp spec fn gingembre_builtin_filter(name: Seq<char>) -> bool;

/// Whether `gingembre::builtin_test` knows a test called `name`.
pub uninterp spec fn gingembre_builtin_test(name: Seq<char>) -> bool;

#[verifier::external_type_specification]
#[verifier::external_body]
pub struct ExTemplateSemanticIndex(gingembre::semantic::TemplateSemanticIndex);

#[verifier::external_type_specification]
#[verifier::external_body]
pub struct ExTemplateAstNode(Node);

#[verifier::external_type_specification]
#[verifier::external_body]
pub struct ExTemplateAstExpr(Expr);

#[verifier::external_type_specification]
#[verifier::external_body]
pub struct ExTemplateAstIdent(gingembre::ast::Ident);

#[verifier::external_type_specification]
#[verifier::external_body]
pub struct ExTemplateAstStringLit(StringLit);

#[verifier::external_type_specification]
#[verifier::external_body]
pub struct ExTemplateAstLiteral(Literal);

#[verifier::external_type_specification]
#[verifier::external_body]
pub struct ExTemplateAstIfNode(IfNode);

#[verifier::external_type_specification]
#[verifier::external_body]
pub struct ExTemplateAstMacroNode(MacroNode);

#[verifier::external_type_specification]
#[verifier::external_body]
pub struct ExTemplateAstCallExpr(CallExpr);

#[verifier::external_type_specification]
#[verifier::external_body]
pub struct ExTemplateAstFilterExpr(FilterExpr);

#[verifier::external_type_specification]
#[verifier::external_body]
pub struct ExTemplateAstTestExpr(TestExpr);

#[verifier::external_type_specification]
#[verifier::external_body]
pub struct ExTemplateAstMacroCallExpr(MacroCallExpr);

/// Parses `src` with `gingembre::parse_template` (which names the template
/// `name` only in its error) and converts the tree node for node; `None` where
/// the parser reports an error. The contract claims that the result is a
/// function of `src` alone: the parser keeps no state between calls.
#[verifier::external_body]
pub(crate) fn parse_template(name: &str, src: &str) -> (r: Option<Vec<TemplateNode>>)
    ensures
        match r {
            Some(v) => gingembre_template(src@) == Some(nodes_view(v@)),
            None => gingembre_template(src@) is None,
        },
{
    match gingembre::parse_template(name, src) {
        Ok(template) => Some(nodes_from(&template.body)),
        Err(_) => None,
    }
}

/// Builds gingembre's semantic index (`TemplateSemanticIndex::build`) of the
/// template text `content`, parsed leniently (`parse_template_recovered`),
/// with `context_roots` and `functions` as the names the template may use
/// without declaring them. The index holds hash maps that each process
/// seeds, so nothing is stated of it.
#[verifier::external_body]
pub(crate) fn template_semantics(
    content: &str,
    context_roots: &Vec<String>,
    functions: &Vec<String>,
) -> gingembre::semantic::TemplateSemanticIndex {
    let roots: Vec<&str> = context_roots.iter().map(|r| r.as_str()).collect();
    let names: Vec<&str> = functions.iter().map(|f| f.as_str()).collect();
    let template = gingembre::parse_template_recovered(content);
    gingembre::semantic::TemplateSemanticIndex::build(&template, &roots, &names)
}

/// Looks `name` up in gingembre's table of built-in filters
/// (`gingembre::builtin_filter`).
#[verifier::external_body]
pub(crate) fn is_builtin_filter(name: &str) -> (r: bool)
    ensures
        r == gingembre_builtin_filter(name@),
{
    gingembre::builtin_filter(name).is_some()
}

/// Looks `name` up in gingembre's table of built-in tests
/// (`gingembre::builtin_test`).
#[verifier::external_body]
pub(crate) fn is_builtin_test(name: &str) -> (r: bool)
    ensures
        r == gingembre_builtin_test(name@),
{
    gingembre::builtin_test(name).is_some()
}

/// Converts the nodes of a parsed template, one for one.
#[verifier::external_body]
fn nodes_from(nodes: &[Node]) -> Vec<TemplateNode> {
    nodes.iter().map(node_from).collect()
}

/// Converts a name of a parsed template.
#[verifier::external_body]
fn ident_from(i: &gingembre::ast::Ident) -> TemplateIdent {
    TemplateIdent { text: i.name.clone(), offset: i.span.offset(), len: i.span.len() }
}

/// Converts a string literal of a parsed template.
#[verifier::external_body]
fn string_from(s: &StringLit) -> TemplateIdent {
    TemplateIdent { text: s.value.clone(), offset: s.span.offset(), len: s.span.len() }
}

/// Converts a node of a parsed template: one arm per kind of node.
#[verifier::external_body]
fn node_from(n: &Node) -> TemplateNode {
    match n {
        Node::Text(t) => TemplateNode::Text { text: t.text.clone() },
        Node::Print(p) => TemplateNode::Print { expr: expr_from(&p.expr) },
        Node::If(i) => if_from(i),
        Node::Include(i) => TemplateNode::Include { path: string_from(&i.path) },
        Node::Extends(e) => TemplateNode::Extends { path: string_from(&e.path) },
        Node::Block(b) => TemplateNode::Block { name: ident_from(&b.name), body: nodes_from(&b.body) },
        Node::Macro(m) => macro_from(m),
        _ => node_from_rest(n),
    }
}

/// Converts the kinds of node that [`node_from`] hands on.
#[verifier::external_body]
fn node_from_rest(n: &Node) -> TemplateNode {
    match n {
        Node::For(f) => TemplateNode::For {
            iter: expr_from(&f.iter),
            body: nodes_from(&f.body),
            else_body: f.else_body.as_ref().map(|b| nodes_from(b)),
        },
        Node::Import(i) => TemplateNode::Import { path: string_from(&i.path), alias: ident_from(&i.alias) },
        Node::Set(s) => match &s.value {
            SetValue::Expr(e) => TemplateNode::SetExpr { value: expr_from(e) },
            SetValue::Body(b) => TemplateNode::SetBody { body: nodes_from(b) },
        },
        _ => node_from_tail(n),
    }
}

/// Converts a call block by the values of its keyword arguments; the kinds
/// of node that diagnostics do not read become [`TemplateNode::Other`].
#[verifier::external_body]
fn node_from_tail(n: &Node) -> TemplateNode {
    match n {
        Node::CallBlock(c) => TemplateNode::CallBlock { kwargs: c.kwargs.iter().map(|kv| expr_from(&kv.1)).collect() },
        _ => TemplateNode::Other,
    }
}

/// Converts an `if` node: its condition and body first, then each `elif`.
#[verifier::external_body]
fn if_from(i: &IfNode) -> TemplateNode {
    let first = TemplateBranch { condition: expr_from(&i.condition), body: nodes_from(&i.then_body) };
    let elifs = i.elif_branches.iter().map(|b| TemplateBranch { condition: expr_from(&b.condition), body: nodes_from(&b.body) });
    TemplateNode::If {
        branches: std::iter::once(first).chain(elifs).collect(),
        else_body: i.else_body.as_ref().map(|b| nodes_from(b)),
    }
}

/// Converts a macro definition: its name, the default of each parameter, its body.
#[verifier::external_body]
fn macro_from(m: &MacroNode) -> TemplateNode {
    TemplateNode::Macro {
        name: ident_from(&m.name),
        defaults: m.params.iter().map(|p| p.default.as_ref().map(expr_from)).collect(),
        body: nodes_from(&m.body),
    }
}

/// Converts a list of sub-expressions, keyword arguments by their values.
#[verifier::external_body]
fn operands_from(first: Option<&Expr>, args: &[Expr], kwargs: &[(gingembre::ast::Ident, Expr)]) -> Vec<TemplateExpr> {
    first.into_iter().chain(args).chain(kwargs.iter().map(|kv| &kv.1)).map(expr_from).collect()
}

/// Converts an expression whose sub-expressions are `parts`.
#[verifier::external_body]
fn plain_from(parts: &[&Expr]) -> TemplateExpr {
    TemplateExpr::Plain { operands: parts.iter().map(|e| expr_from(e)).collect() }
}

/// Converts an expression: one arm per kind of expression.
#[verifier::external_body]
fn expr_from(e: &Expr) -> TemplateExpr {
    match e {
        Expr::Literal(l) => literal_from(l),
        Expr::Var(_) => plain_from(&[]),
        Expr::Field(f) => plain_from(&[&*f.base]),
        Expr::Index(i) => plain_from(&[&*i.base, &*i.index]),
        Expr::Binary(b) => plain_from(&[&*b.left, &*b.right]),
        Expr::Unary(u) => plain_from(&[&*u.expr]),
        Expr::Optional(o) => plain_from(&[&*o.expr]),
        _ => expr_from_rest(e),
    }
}

/// Converts the kinds of expression that [`expr_from`] hands on.
#[verifier::external_body]
fn expr_from_rest(e: &Expr) -> TemplateExpr {
    match e {
        Expr::Ternary(t) => plain_from(&[&*t.value, &*t.condition, &*t.otherwise]),
        Expr::Call(c) => call_from(c),
        Expr::Filter(f) => filter_from(f),
        Expr::Test(t) => test_from(t),
        Expr::MacroCall(m) => macro_call_from(m),
        _ => plain_from(&[]),
    }
}

/// Converts a literal: the elements of a list, the keys and values of a dict.
#[verifier::external_body]
fn literal_from(l: &Literal) -> TemplateExpr {
    match l {
        Literal::List(list) => TemplateExpr::Plain { operands: list.elements.iter().map(expr_from).collect() },
        Literal::Dict(d) => TemplateExpr::Plain { operands: d.entries.iter().flat_map(|(k, v)| [k, v]).map(expr_from).collect() },
        _ => plain_from(&[]),
    }
}

/// Converts a call: the callee, then the arguments.
#[verifier::external_body]
fn call_from(c: &CallExpr) -> TemplateExpr {
    TemplateExpr::Plain { operands: operands_from(Some(&*c.func), &c.args, &c.kwargs) }
}

/// Converts a filter application: the filtered value, the arguments, the filter's name.
#[verifier::external_body]
fn filter_from(f: &FilterExpr) -> TemplateExpr {
    TemplateExpr::Filter { operands: operands_from(Some(&*f.expr), &f.args, &f.kwargs), filter: ident_from(&f.filter) }
}

/// Converts a test: the tested value, the arguments, the test's name.
#[verifier::external_body]
fn test_from(t: &TestExpr) -> TemplateExpr {
    TemplateExpr::Test { operands: operands_from(Some(&*t.expr), &t.args, &[]), test_name: ident_from(&t.test_name) }
}

/// Converts a macro call: the arguments, the namespace and the macro's name.
#[verifier::external_body]
fn macro_call_from(m: &MacroCallExpr) -> TemplateExpr {
    TemplateExpr::MacroCall {
        operands: operands_from(None, &m.args, &m.kwargs),
        namespace: ident_from(&m.namespace),
        macro_name: ident_from(&m.macro_name),
    }
}

} // verus!
