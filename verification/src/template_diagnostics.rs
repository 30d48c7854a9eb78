//! Diagnostics for a template: references to templates that do not exist,
//! blocks that no parent template defines, and filters, tests and macros that
//! cannot be found.
use vstd::prelude::*;

use crate::diagnostics::{template_diagnostic_for_span, AuthoringDiagnostic, AuthoringDiagnosticKind};
use crate::model::{find_key, key_index, str_value, AuthoringProject};
use crate::template_syntax::{
    gingembre_builtin_filter, gingembre_builtin_test, gingembre_template, is_builtin_filter,
    is_builtin_test, lemma_branches_view, lemma_exprs_view, lemma_nodes_view,
    lemma_opt_exprs_view, node_view, nodes_view, expr_view, exprs_view, parse_template,
    TemplateBranchView, TemplateExpr, TemplateExprView, TemplateIdent, TemplateIdentView,
    TemplateNode, TemplateNodeView, ident_view,
};
use crate::templates::TemplateDocumentKind;
use crate::text::{from_chars, is_ws, is_ws_exec, push_str_chars, str_eq, to_chars};

verus! {

/// What a template diagnostic reports, apart from where its line and column
/// fall: its kind, its target, its message and its byte span.
pub struct TemplateFinding {
    pub kind: AuthoringDiagnosticKind,
    pub target: Seq<char>,
    pub message: Seq<char>,
    pub start: usize,
    pub end: usize,
}

/// What a walk over a template knows: the project, the template's file and
/// text, and its import aliases, in the order the template declares them.
pub struct TemplateScope {
    pub project: AuthoringProject,
    pub file: Seq<char>,
    pub content: Seq<char>,
    pub imports: Seq<(Seq<char>, Seq<char>)>,
}

/// The end of a span: its offset plus its length (at most `usize::MAX`).
pub open spec fn span_end(i: TemplateIdentView) -> usize {
    if i.offset + i.len <= usize::MAX {
        (i.offset + i.len) as usize
    } else {
        usize::MAX
    }
}

pub open spec fn ident_finding(
    kind: AuthoringDiagnosticKind,
    i: TemplateIdentView,
    message: Seq<char>,
) -> TemplateFinding {
    TemplateFinding { kind, target: i.text, message, start: i.offset, end: span_end(i) }
}

/// `d` is the diagnostic of template `file` (text `content`) that reports `f`.
pub open spec fn diag_is(
    d: AuthoringDiagnostic,
    file: Seq<char>,
    content: Seq<char>,
    f: TemplateFinding,
) -> bool {
    &&& d.source_file@ == file
    &&& d.route@ == Seq::<char>::empty()
    &&& d.kind == f.kind
    &&& d.target@ == f.target
    &&& d.resolved_route is None
    &&& d.message@ == f.message
    &&& d.byte_start == f.start
    &&& d.byte_end == f.end
    &&& d.located_in(content)
}

/// `new` is `old` followed by one diagnostic for each finding of `fs`, in order.
pub open spec fn extends_with(
    new: Seq<AuthoringDiagnostic>,
    old: Seq<AuthoringDiagnostic>,
    file: Seq<char>,
    content: Seq<char>,
    fs: Seq<TemplateFinding>,
) -> bool {
    &&& new.len() == old.len() + fs.len()
    &&& forall|i: int| 0 <= i < old.len() ==> #[trigger] new[i] == old[i]
    &&& forall|i: int|
        0 <= i < fs.len() ==> diag_is(#[trigger] new[old.len() + i], file, content, fs[i])
}

/// Whether the project has a template at `path`.
pub open spec fn template_known(project: AuthoringProject, path: Seq<char>) -> bool {
    key_index(project.template_paths@, path) is Some
}

/// The text of `template_file`: the current text where it is the current
/// file, else the project's copy.
pub open spec fn spec_template_content(
    project: AuthoringProject,
    template_file: Seq<char>,
    current_file: Seq<char>,
    current_content: Seq<char>,
) -> Option<Seq<char>> {
    if template_file == current_file {
        Some(current_content)
    } else {
        str_value(project.template_contents@, template_file)
    }
}

/// Whether every character of `s` is whitespace.
pub open spec fn is_blank(s: Seq<char>) -> bool {
    forall|j: int| 0 <= j < s.len() ==> is_ws(#[trigger] s[j])
}

/// The template that `nodes` extends: an `extends` that comes before any
/// node other than blank text.
pub open spec fn extends_path_of(nodes: Seq<TemplateNodeView>) -> Option<Seq<char>>
    decreases nodes.len(),
{
    if nodes.len() == 0 {
        None
    } else {
        match nodes[0] {
            TemplateNodeView::Extends { path } => Some(path.text),
            TemplateNodeView::Text { text } => if is_blank(text) {
                extends_path_of(nodes.skip(1))
            } else {
                None
            },
            _ => None,
        }
    }
}

/// The name of the first top-level block of `nodes` called `name`.
pub open spec fn top_level_block(nodes: Seq<TemplateNodeView>, name: Seq<char>) -> Option<
    TemplateIdentView,
>
    decreases nodes.len(),
{
    if nodes.len() == 0 {
        None
    } else {
        match nodes[0] {
            TemplateNodeView::Block { name: n, .. } => if n.text == name {
                Some(n)
            } else {
                top_level_block(nodes.skip(1), name)
            },
            _ => top_level_block(nodes.skip(1), name),
        }
    }
}

/// The name of the first top-level macro of `nodes` called `name`.
pub open spec fn top_level_macro(nodes: Seq<TemplateNodeView>, name: Seq<char>) -> Option<
    TemplateIdentView,
>
    decreases nodes.len(),
{
    if nodes.len() == 0 {
        None
    } else {
        match nodes[0] {
            TemplateNodeView::Macro { name: n, .. } => if n.text == name {
                Some(n)
            } else {
                top_level_macro(nodes.skip(1), name)
            },
            _ => top_level_macro(nodes.skip(1), name),
        }
    }
}

/// How many templates a search up a chain of `extends` visits at most: every
/// template of the project, the current one, and one that cannot be read.
pub open spec fn chain_fuel(project: AuthoringProject) -> nat {
    project.template_contents@.len() + 2
}

/// The template, its text and the name of the block called `name`, found in
/// `template_file` or, failing that, up its chain of `extends`; at most
/// `fuel` templates are visited.
pub open spec fn block_definition(
    project: AuthoringProject,
    template_file: Seq<char>,
    current_file: Seq<char>,
    current_content: Seq<char>,
    name: Seq<char>,
    fuel: nat,
) -> Option<(Seq<char>, Seq<char>, TemplateIdentView)>
    decreases fuel,
{
    if fuel == 0 {
        None
    } else {
        match spec_template_content(project, template_file, current_file, current_content) {
            None => None,
            Some(c) => match gingembre_template(c) {
                None => None,
                Some(nodes) => match top_level_block(nodes, name) {
                    Some(i) => Some((template_file, c, i)),
                    None => match extends_path_of(nodes) {
                        Some(p) => block_definition(
                            project,
                            p,
                            current_file,
                            current_content,
                            name,
                            (fuel - 1) as nat,
                        ),
                        None => None,
                    },
                },
            },
        }
    }
}

/// The template that the last import declared under `alias` names.
pub open spec fn alias_target(imports: Seq<(Seq<char>, Seq<char>)>, alias: Seq<char>) -> Option<
    Seq<char>,
>
    decreases imports.len(),
{
    if imports.len() == 0 {
        None
    } else if imports[imports.len() - 1].0 == alias {
        Some(imports[imports.len() - 1].1)
    } else {
        alias_target(imports.subrange(0, imports.len() - 1), alias)
    }
}

/// The template, its text and the macro's name that a call `namespace::name`
/// refers to: `self` is the current template, another namespace an import
/// alias; the macro must be defined at the top level of that template, and
/// the template must exist in the project.
pub open spec fn macro_definition(
    project: AuthoringProject,
    file: Seq<char>,
    content: Seq<char>,
    imports: Seq<(Seq<char>, Seq<char>)>,
    namespace: Seq<char>,
    name: Seq<char>,
) -> Option<(Seq<char>, Seq<char>, TemplateIdentView)> {
    let target = if namespace == "self"@ {
        Some(file)
    } else {
        alias_target(imports, namespace)
    };
    match target {
        None => None,
        Some(t) => match spec_template_content(project, t, file, content) {
            None => None,
            Some(c) => match gingembre_template(c) {
                None => None,
                Some(nodes) => match top_level_macro(nodes, name) {
                    Some(i) => if template_known(project, t) {
                        Some((t, c, i))
                    } else {
                        None
                    },
                    None => None,
                },
            },
        },
    }
}

/// The (alias, template) pairs that a node declares: an import of a
/// template that the project has, or those in the bodies of `if`, `for`,
/// `block` and `macro` nodes.
pub open spec fn node_aliases(project: AuthoringProject, n: TemplateNodeView) -> Seq<
    (Seq<char>, Seq<char>),
>
    decreases n, 2nat,
{
    match n {
        TemplateNodeView::Import { path, alias } => if template_known(project, path.text) {
            seq![(alias.text, path.text)]
        } else {
            Seq::empty()
        },
        TemplateNodeView::If { branches, else_body } => branches_aliases(project, branches) + match else_body {
            Some(b) => nodes_aliases(project, b),
            None => Seq::empty(),
        },
        TemplateNodeView::For { body, else_body, .. } => nodes_aliases(project, body) + match else_body {
            Some(b) => nodes_aliases(project, b),
            None => Seq::empty(),
        },
        TemplateNodeView::Block { body, .. } => nodes_aliases(project, body),
        TemplateNodeView::Macro { body, .. } => nodes_aliases(project, body),
        _ => Seq::empty(),
    }
}

pub open spec fn nodes_aliases(project: AuthoringProject, s: Seq<TemplateNodeView>) -> Seq<
    (Seq<char>, Seq<char>),
>
    decreases s, 0nat,
{
    if s.len() == 0 {
        Seq::empty()
    } else {
        nodes_aliases(project, s.subrange(0, s.len() - 1)) + node_aliases(project, s[s.len() - 1])
    }
}

pub open spec fn branches_aliases(project: AuthoringProject, s: Seq<TemplateBranchView>) -> Seq<
    (Seq<char>, Seq<char>),
>
    decreases s, 1nat,
{
    if s.len() == 0 {
        Seq::empty()
    } else {
        let b = s[s.len() - 1];
        branches_aliases(project, s.subrange(0, s.len() - 1)) + nodes_aliases(project, b.body)
    }
}

/// A reference by `extends`, `include` or `import` to a template that the
/// project does not have.
pub open spec fn missing_template_findings(
    project: AuthoringProject,
    kind: TemplateDocumentKind,
    path: TemplateIdentView,
) -> Seq<TemplateFinding> {
    if template_known(project, path.text) {
        Seq::empty()
    } else {
        seq![
            ident_finding(
                AuthoringDiagnosticKind::MissingTemplate,
                path,
                "template "@ + kind.spec_label() + " '"@ + path.text + "' not found"@,
            ),
        ]
    }
}

/// A block that no template up the chain of the parent defines.
pub open spec fn block_findings(
    scope: TemplateScope,
    parent: Option<Seq<char>>,
    name: TemplateIdentView,
) -> Seq<TemplateFinding> {
    match parent {
        Some(p) => if block_definition(
            scope.project,
            p,
            scope.file,
            scope.content,
            name.text,
            chain_fuel(scope.project),
        ) is None {
            seq![
                ident_finding(
                    AuthoringDiagnosticKind::MissingBlock,
                    name,
                    "parent block '"@ + name.text + "' not found"@,
                ),
            ]
        } else {
            Seq::empty()
        },
        None => Seq::empty(),
    }
}

/// The findings of an expression: those of its sub-expressions, then an
/// unknown filter, test or macro.
pub open spec fn expr_findings(scope: TemplateScope, e: TemplateExprView) -> Seq<TemplateFinding>
    decreases e, 1nat,
{
    match e {
        TemplateExprView::Plain { operands } => exprs_findings(scope, operands),
        TemplateExprView::Filter { operands, filter } => exprs_findings(scope, operands) + if gingembre_builtin_filter(filter.text) {
            Seq::empty()
        } else {
            seq![
                ident_finding(
                    AuthoringDiagnosticKind::UnknownFilter,
                    filter,
                    "filter '"@ + filter.text + "' not found"@,
                ),
            ]
        },
        TemplateExprView::Test { operands, test_name } => exprs_findings(scope, operands) + if gingembre_builtin_test(test_name.text) {
            Seq::empty()
        } else {
            seq![
                ident_finding(
                    AuthoringDiagnosticKind::UnknownTest,
                    test_name,
                    "test '"@ + test_name.text + "' not found"@,
                ),
            ]
        },
        TemplateExprView::MacroCall { operands, namespace, macro_name } => exprs_findings(scope, operands) + if macro_definition(
            scope.project,
            scope.file,
            scope.content,
            scope.imports,
            namespace.text,
            macro_name.text,
        ) is Some {
            Seq::empty()
        } else {
            seq![
                ident_finding(
                    AuthoringDiagnosticKind::UnknownMacro,
                    macro_name,
                    "macro '"@ + (namespace.text + "::"@ + macro_name.text) + "' not found"@,
                ),
            ]
        },
    }
}

pub open spec fn exprs_findings(scope: TemplateScope, s: Seq<TemplateExprView>) -> Seq<
    TemplateFinding,
>
    decreases s, 0nat,
{
    if s.len() == 0 {
        Seq::empty()
    } else {
        exprs_findings(scope, s.subrange(0, s.len() - 1)) + expr_findings(scope, s[s.len() - 1])
    }
}

pub open spec fn opt_exprs_findings(scope: TemplateScope, s: Seq<Option<TemplateExprView>>) -> Seq<
    TemplateFinding,
>
    decreases s.len(),
{
    if s.len() == 0 {
        Seq::empty()
    } else {
        opt_exprs_findings(scope, s.subrange(0, s.len() - 1)) + match s[s.len() - 1] {
            Some(e) => expr_findings(scope, e),
            None => Seq::empty(),
        }
    }
}

/// The findings of a node and of what it contains, in source order.
pub open spec fn node_findings(
    scope: TemplateScope,
    parent: Option<Seq<char>>,
    n: TemplateNodeView,
) -> Seq<TemplateFinding>
    decreases n, 2nat,
{
    match n {
        TemplateNodeView::Extends { path } => missing_template_findings(
            scope.project,
            TemplateDocumentKind::Extends,
            path,
        ),
        TemplateNodeView::Include { path } => missing_template_findings(
            scope.project,
            TemplateDocumentKind::Include,
            path,
        ),
        TemplateNodeView::Import { path, .. } => missing_template_findings(
            scope.project,
            TemplateDocumentKind::Import,
            path,
        ),
        TemplateNodeView::Block { name, body } => block_findings(scope, parent, name) + nodes_findings(scope, parent,
            body,
        ),
        TemplateNodeView::Macro { defaults, body, .. } => opt_exprs_findings(scope, defaults)
            + nodes_findings(scope, parent, body),
        TemplateNodeView::Print { expr } => expr_findings(scope, expr),
        TemplateNodeView::If { branches, else_body } => branches_findings(scope, parent, branches) + match else_body {
            Some(b) => nodes_findings(scope, parent, b),
            None => Seq::empty(),
        },
        TemplateNodeView::For { iter, body, else_body } => expr_findings(scope, iter) + nodes_findings(scope, parent, body) + match else_body {
            Some(b) => nodes_findings(scope, parent, b),
            None => Seq::empty(),
        },
        TemplateNodeView::SetExpr { value } => expr_findings(scope, value),
        TemplateNodeView::SetBody { body } => nodes_findings(scope, parent, body),
        TemplateNodeView::CallBlock { kwargs } => exprs_findings(scope, kwargs),
        TemplateNodeView::Text { .. } => Seq::empty(),
        TemplateNodeView::Other => Seq::empty(),
    }
}

pub open spec fn nodes_findings(
    scope: TemplateScope,
    parent: Option<Seq<char>>,
    s: Seq<TemplateNodeView>,
) -> Seq<
    TemplateFinding,
>
    decreases s, 0nat,
{
    if s.len() == 0 {
        Seq::empty()
    } else {
        nodes_findings(scope, parent, s.subrange(0, s.len() - 1)) + node_findings(scope, parent, s[s.len() - 1])
    }
}

pub open spec fn branches_findings(
    scope: TemplateScope,
    parent: Option<Seq<char>>,
    s: Seq<TemplateBranchView>,
) -> Seq<
    TemplateFinding,
>
    decreases s, 1nat,
{
    if s.len() == 0 {
        Seq::empty()
    } else {
        let b = s[s.len() - 1];
        branches_findings(scope, parent, s.subrange(0, s.len() - 1)) + expr_findings(scope, b.condition)
            + nodes_findings(scope, parent, b.body)
    }
}

/// The template that a parsed template extends, where that template exists.
pub open spec fn known_parent(project: AuthoringProject, nodes: Seq<TemplateNodeView>) -> Option<
    Seq<char>,
> {
    match extends_path_of(nodes) {
        Some(p) => if template_known(project, p) {
            Some(p)
        } else {
            None
        },
        None => None,
    }
}

/// The findings of template `file` with text `content`, given what the
/// parser made of that text: none where it failed.
pub open spec fn template_findings(
    project: AuthoringProject,
    file: Seq<char>,
    content: Seq<char>,
    parsed: Option<Seq<TemplateNodeView>>,
) -> Seq<TemplateFinding> {
    match parsed {
        None => Seq::empty(),
        Some(nodes) => nodes_findings(
            TemplateScope { project, file, content, imports: nodes_aliases(project, nodes) },
            known_parent(project, nodes),
            nodes,
        ),
    }
}

pub open spec fn pairs_view(v: Seq<(String, String)>) -> Seq<(Seq<char>, Seq<char>)> {
    Seq::new(v.len(), |i: int| (v[i].0@, v[i].1@))
}

pub open spec fn opt_str_view(o: Option<&str>) -> Option<Seq<char>> {
    match o {
        Some(s) => Some(s@),
        None => None,
    }
}

pub open spec fn scope_of(
    project: AuthoringProject,
    file: Seq<char>,
    content: Seq<char>,
    imports: Seq<(String, String)>,
) -> TemplateScope {
    TemplateScope { project, file, content, imports: pairs_view(imports) }
}

pub proof fn lemma_extends_trans(
    a: Seq<AuthoringDiagnostic>,
    b: Seq<AuthoringDiagnostic>,
    c: Seq<AuthoringDiagnostic>,
    file: Seq<char>,
    content: Seq<char>,
    f1: Seq<TemplateFinding>,
    f2: Seq<TemplateFinding>,
)
    requires
        extends_with(b, a, file, content, f1),
        extends_with(c, b, file, content, f2),
    ensures
        extends_with(c, a, file, content, f1 + f2),
{
    assert forall|i: int| 0 <= i < (f1 + f2).len() implies diag_is(
        #[trigger] c[a.len() + i],
        file,
        content,
        (f1 + f2)[i],
    ) by {
        if i < f1.len() {
            assert(c[a.len() + i] == b[a.len() + i]);
        } else {
            assert(c[a.len() + i] == c[b.len() + (i - f1.len())]);
        }
    }
}



pub open spec fn opt_string_view(o: Option<String>) -> Option<Seq<char>> {
    match o {
        Some(s) => Some(s@),
        None => None,
    }
}

/// A copy of a name with its span.
pub fn copy_ident(i: &TemplateIdent) -> (r: TemplateIdent)
    ensures
        ident_view(r) == ident_view(*i),
{
    TemplateIdent { text: i.text.clone(), offset: i.offset, len: i.len }
}

/// Whether every character of `s` is whitespace (`s.trim().is_empty()`).
pub fn is_blank_str(s: &str) -> (r: bool)
    ensures
        r == is_blank(s@),
{
    let v = to_chars(s);
    let mut i: usize = 0;
    while i < v.len()
        invariant
            i <= v.len(),
            v@ == s@,
            forall|j: int| 0 <= j < i ==> is_ws(#[trigger] v@[j]),
        decreases v.len() - i,
    {
        if !is_ws_exec(v[i]) {
            return false;
        }
        i = i + 1;
    }
    true
}

/// The template that `nodes` extends: the path of an `extends` that comes
/// before any node other than blank text.
pub fn template_extends_path_from_nodes(nodes: &Vec<TemplateNode>) -> (r: Option<String>)
    ensures
        opt_string_view(r) == extends_path_of(nodes_view(nodes@)),
{
    proof {
        lemma_nodes_view(nodes@);
    }
    let ghost s = nodes_view(nodes@);
    let mut i: usize = 0;
    assert(s.skip(0) =~= s);
    while i < nodes.len()
        invariant
            i <= nodes.len(),
            s == nodes_view(nodes@),
            s.len() == nodes@.len(),
            forall|j: int| 0 <= j < nodes@.len() ==> #[trigger] s[j] == node_view(nodes@[j]),
            extends_path_of(s) == extends_path_of(s.skip(i as int)),
        decreases nodes.len() - i,
    {
        proof {
            assert(s.skip(i as int)[0] == s[i as int]);
            assert(s.skip(i as int).skip(1) =~= s.skip(i + 1));
        }
        match &nodes[i] {
            TemplateNode::Extends { path } => {
                return Some(path.text.clone());
            },
            TemplateNode::Text { text } => {
                if !is_blank_str(text.as_str()) {
                    return None;
                }
            },
            _ => {
                return None;
            },
        }
        i = i + 1;
    }
    None
}

/// The first top-level block of `nodes` called `name`.
pub fn top_level_block_ident(nodes: &Vec<TemplateNode>, name: &str) -> (r: Option<TemplateIdent>)
    ensures
        match r {
            Some(i) => top_level_block(nodes_view(nodes@), name@) == Some(ident_view(i)),
            None => top_level_block(nodes_view(nodes@), name@) is None,
        },
{
    proof {
        lemma_nodes_view(nodes@);
    }
    let ghost s = nodes_view(nodes@);
    let mut i: usize = 0;
    assert(s.skip(0) =~= s);
    while i < nodes.len()
        invariant
            i <= nodes.len(),
            s == nodes_view(nodes@),
            s.len() == nodes@.len(),
            forall|j: int| 0 <= j < nodes@.len() ==> #[trigger] s[j] == node_view(nodes@[j]),
            top_level_block(s, name@) == top_level_block(s.skip(i as int), name@),
        decreases nodes.len() - i,
    {
        proof {
            assert(s.skip(i as int)[0] == s[i as int]);
            assert(s.skip(i as int).skip(1) =~= s.skip(i + 1));
        }
        match &nodes[i] {
            TemplateNode::Block { name: n, .. } => {
                if str_eq(n.text.as_str(), name) {
                    return Some(copy_ident(n));
                }
            },
            _ => {},
        }
        i = i + 1;
    }
    None
}

/// The first top-level macro of `nodes` called `name`.
pub fn top_level_macro_ident(nodes: &Vec<TemplateNode>, name: &str) -> (r: Option<TemplateIdent>)
    ensures
        match r {
            Some(i) => top_level_macro(nodes_view(nodes@), name@) == Some(ident_view(i)),
            None => top_level_macro(nodes_view(nodes@), name@) is None,
        },
{
    proof {
        lemma_nodes_view(nodes@);
    }
    let ghost s = nodes_view(nodes@);
    let mut i: usize = 0;
    assert(s.skip(0) =~= s);
    while i < nodes.len()
        invariant
            i <= nodes.len(),
            s == nodes_view(nodes@),
            s.len() == nodes@.len(),
            forall|j: int| 0 <= j < nodes@.len() ==> #[trigger] s[j] == node_view(nodes@[j]),
            top_level_macro(s, name@) == top_level_macro(s.skip(i as int), name@),
        decreases nodes.len() - i,
    {
        proof {
            assert(s.skip(i as int)[0] == s[i as int]);
            assert(s.skip(i as int).skip(1) =~= s.skip(i + 1));
        }
        match &nodes[i] {
            TemplateNode::Macro { name: n, .. } => {
                if str_eq(n.text.as_str(), name) {
                    return Some(copy_ident(n));
                }
            },
            _ => {},
        }
        i = i + 1;
    }
    None
}

/// The text of `template_file`: `current_content` where it is the current
/// file, else the project's copy of it.
pub fn template_content(
    project: &AuthoringProject,
    template_file: &str,
    current_file: &str,
    current_content: &str,
) -> (r: Option<String>)
    ensures
        opt_string_view(r) == spec_template_content(
            *project,
            template_file@,
            current_file@,
            current_content@,
        ),
{
    if str_eq(template_file, current_file) {
        Some(current_content.to_owned())
    } else {
        match find_key(&project.template_contents, template_file) {
            Some(i) => Some(project.template_contents[i].1.clone()),
            None => None,
        }
    }
}

/// The template that the text `content` of `template_file` extends.
pub fn template_extends_path(template_file: &str, content: &str) -> (r: Option<String>)
    ensures
        opt_string_view(r) == match gingembre_template(content@) {
            Some(nodes) => extends_path_of(nodes),
            None => None,
        },
{
    match parse_template(template_file, content) {
        Some(nodes) => template_extends_path_from_nodes(&nodes),
        None => None,
    }
}

/// The template, its text and the name of the block called `name`, looked
/// up in `template_file` and then up its chain of `extends`, visiting at most
/// as many templates as the project has, plus two.
pub fn template_block_definition(
    project: &AuthoringProject,
    template_file: &str,
    current_file: &str,
    current_content: &str,
    name: &str,
) -> (r: Option<(String, String, TemplateIdent)>)
    ensures
        match r {
            Some(t) => block_definition(
                *project,
                template_file@,
                current_file@,
                current_content@,
                name@,
                chain_fuel(*project),
            ) == Some((t.0@, t.1@, ident_view(t.2))),
            None => block_definition(
                *project,
                template_file@,
                current_file@,
                current_content@,
                name@,
                chain_fuel(*project),
            ) is None,
        },
{
    let mut file: String = template_file.to_owned();
    let mut fuel: u128 = project.template_contents.len() as u128 + 2;
    loop
        invariant
            block_definition(
                *project,
                template_file@,
                current_file@,
                current_content@,
                name@,
                chain_fuel(*project),
            ) == block_definition(
                *project,
                file@,
                current_file@,
                current_content@,
                name@,
                fuel as nat,
            ),
        decreases fuel,
    {
        if fuel == 0 {
            return None;
        }
        let content = match template_content(project, file.as_str(), current_file, current_content) {
            Some(c) => c,
            None => {
                return None;
            },
        };
        let nodes = match parse_template(file.as_str(), content.as_str()) {
            Some(n) => n,
            None => {
                return None;
            },
        };
        match top_level_block_ident(&nodes, name) {
            Some(i) => {
                return Some((file, content, i));
            },
            None => {},
        }
        match template_extends_path_from_nodes(&nodes) {
            Some(p) => {
                file = p;
                fuel = fuel - 1;
            },
            None => {
                return None;
            },
        }
    }
}

/// The index of the last import declared under `alias`.
pub(crate) fn alias_index(imports: &Vec<(String, String)>, alias: &str) -> (r: Option<usize>)
    ensures
        match r {
            Some(i) => i < imports@.len() && alias_target(pairs_view(imports@), alias@) == Some(
                imports@[i as int].1@,
            ),
            None => alias_target(pairs_view(imports@), alias@) is None,
        },
{
    let ghost pv = pairs_view(imports@);
    let mut i: usize = imports.len();
    assert(pv.subrange(0, i as int) =~= pv);
    while i > 0
        invariant
            i <= imports@.len(),
            pv == pairs_view(imports@),
            alias_target(pv, alias@) == alias_target(pv.subrange(0, i as int), alias@),
        decreases i,
    {
        assert(pv.subrange(0, i as int)[i - 1] == pv[i - 1]);
        assert(pv.subrange(0, i as int).subrange(0, i - 1) =~= pv.subrange(0, i - 1));
        if str_eq(imports[i - 1].0.as_str(), alias) {
            return Some(i - 1);
        }
        i = i - 1;
    }
    None
}

/// The template, its text and the name of the macro that a call
/// `namespace::macro_name` in template `template_file` refers to.
pub fn template_macro_definition(
    project: &AuthoringProject,
    template_file: &str,
    content: &str,
    imports: &Vec<(String, String)>,
    namespace: &str,
    macro_name: &str,
) -> (r: Option<(String, String, TemplateIdent)>)
    ensures
        match r {
            Some(t) => macro_definition(
                *project,
                template_file@,
                content@,
                pairs_view(imports@),
                namespace@,
                macro_name@,
            ) == Some((t.0@, t.1@, ident_view(t.2))),
            None => macro_definition(
                *project,
                template_file@,
                content@,
                pairs_view(imports@),
                namespace@,
                macro_name@,
            ) is None,
        },
{
    let target: String = if str_eq(namespace, "self") {
        template_file.to_owned()
    } else {
        match alias_index(imports, namespace) {
            Some(i) => imports[i].1.clone(),
            None => {
                return None;
            },
        }
    };
    let c = match template_content(project, target.as_str(), template_file, content) {
        Some(c) => c,
        None => {
            return None;
        },
    };
    let nodes = match parse_template(target.as_str(), c.as_str()) {
        Some(n) => n,
        None => {
            return None;
        },
    };
    let ident = match top_level_macro_ident(&nodes, macro_name) {
        Some(i) => i,
        None => {
            return None;
        },
    };
    match find_key(&project.template_paths, target.as_str()) {
        Some(_) => Some((target, c, ident)),
        None => None,
    }
}


// Import aliases.
fn collect_node_aliases(
    project: &AuthoringProject,
    node: &TemplateNode,
    imports: &mut Vec<(String, String)>,
)
    ensures
        pairs_view(final(imports)@) == pairs_view(old(imports)@) + node_aliases(
            *project,
            node_view(*node),
        ),
    decreases node, 2nat,
{
    let ghost i0 = pairs_view(imports@);
    match node {
        TemplateNode::Import { path, alias } => {
            if find_key(&project.template_paths, path.text.as_str()).is_some() {
                imports.push((alias.text.clone(), path.text.clone()));
                assert(pairs_view(imports@) =~= i0 + seq![(alias.text@, path.text@)]);
            } else {
                assert(pairs_view(imports@) =~= i0 + Seq::<(Seq<char>, Seq<char>)>::empty());
            }
        },
        TemplateNode::If { branches, else_body } => {
            collect_branches_aliases(project, branches, imports);
            match else_body {
                Some(b) => {
                    collect_nodes_aliases(project, b, imports);
                },
                None => {},
            }
            assert(pairs_view(imports@) =~= i0 + node_aliases(*project, node_view(*node)));
        },
        TemplateNode::For { body, else_body, .. } => {
            collect_nodes_aliases(project, body, imports);
            match else_body {
                Some(b) => {
                    collect_nodes_aliases(project, b, imports);
                },
                None => {},
            }
            assert(pairs_view(imports@) =~= i0 + node_aliases(*project, node_view(*node)));
        },
        TemplateNode::Block { body, .. } => {
            collect_nodes_aliases(project, body, imports);
        },
        TemplateNode::Macro { body, .. } => {
            collect_nodes_aliases(project, body, imports);
        },
        _ => {
            assert(pairs_view(imports@) =~= i0 + node_aliases(*project, node_view(*node)));
        },
    }
}

fn collect_nodes_aliases(
    project: &AuthoringProject,
    nodes: &Vec<TemplateNode>,
    imports: &mut Vec<(String, String)>,
)
    ensures
        pairs_view(final(imports)@) == pairs_view(old(imports)@) + nodes_aliases(
            *project,
            nodes_view(nodes@),
        ),
    decreases nodes@, 0nat,
{
    proof {
        lemma_nodes_view(nodes@);
    }
    let ghost s = nodes_view(nodes@);
    let ghost i0 = pairs_view(imports@);
    let mut i: usize = 0;
    assert(s.take(0) =~= Seq::<TemplateNodeView>::empty());
    assert(i0 + nodes_aliases(*project, s.take(0)) =~= i0);
    while i < nodes.len()
        invariant
            i <= nodes.len(),
            s == nodes_view(nodes@),
            s.len() == nodes@.len(),
            forall|j: int| 0 <= j < nodes@.len() ==> #[trigger] s[j] == node_view(nodes@[j]),
            pairs_view(imports@) == i0 + nodes_aliases(*project, s.take(i as int)),
        decreases nodes.len() - i,
    {
        collect_node_aliases(project, &nodes[i], imports);
        proof {
            let t = s.take(i + 1);
            assert(t.subrange(0, t.len() - 1) =~= s.take(i as int));
            assert(t[t.len() - 1] == s[i as int]);
        }
        i = i + 1;
    }
    assert(s.take(nodes.len() as int) =~= s);
}

fn collect_branches_aliases(
    project: &AuthoringProject,
    branches: &Vec<crate::template_syntax::TemplateBranch>,
    imports: &mut Vec<(String, String)>,
)
    ensures
        pairs_view(final(imports)@) == pairs_view(old(imports)@) + branches_aliases(
            *project,
            crate::template_syntax::branches_view(branches@),
        ),
    decreases branches@, 1nat,
{
    proof {
        lemma_branches_view(branches@);
    }
    let ghost s = crate::template_syntax::branches_view(branches@);
    let ghost i0 = pairs_view(imports@);
    let mut i: usize = 0;
    assert(s.take(0) =~= Seq::<TemplateBranchView>::empty());
    assert(i0 + branches_aliases(*project, s.take(0)) =~= i0);
    while i < branches.len()
        invariant
            i <= branches.len(),
            s == crate::template_syntax::branches_view(branches@),
            s.len() == branches@.len(),
            forall|j: int|
                0 <= j < branches@.len() ==> (#[trigger] s[j]).body == nodes_view(
                    branches@[j].body@,
                ),
            pairs_view(imports@) == i0 + branches_aliases(*project, s.take(i as int)),
        decreases branches.len() - i,
    {
        collect_nodes_aliases(project, &branches[i].body, imports);
        proof {
            let t = s.take(i + 1);
            assert(t.subrange(0, t.len() - 1) =~= s.take(i as int));
            assert(t[t.len() - 1] == s[i as int]);
        }
        i = i + 1;
    }
    assert(s.take(branches.len() as int) =~= s);
}

/// The import aliases that `nodes` declare, as (alias, template) pairs in
/// the order of the declarations; an import of a template that the project
/// does not have declares none.
pub fn template_import_aliases(project: &AuthoringProject, nodes: &Vec<TemplateNode>) -> (r: Vec<
    (String, String),
>)
    ensures
        pairs_view(r@) == nodes_aliases(*project, nodes_view(nodes@)),
{
    let mut imports: Vec<(String, String)> = Vec::new();
    collect_nodes_aliases(project, nodes, &mut imports);
    assert(pairs_view(Seq::<(String, String)>::empty()) =~= Seq::<(Seq<char>, Seq<char>)>::empty());
    assert(Seq::<(Seq<char>, Seq<char>)>::empty() + nodes_aliases(*project, nodes_view(nodes@))
        =~= nodes_aliases(*project, nodes_view(nodes@)));
    imports
}


// Diagnostics.
/// `a`, `b` and `c`, one after the other.
pub(crate) fn concat3(a: &str, b: &str, c: &str) -> (r: String)
    ensures
        r@ == a@ + b@ + c@,
{
    let mut v: Vec<char> = Vec::new();
    push_str_chars(&mut v, a);
    push_str_chars(&mut v, b);
    push_str_chars(&mut v, c);
    assert(v@ =~= a@ + b@ + c@);
    from_chars(v.as_slice())
}

/// Appends the diagnostic of kind `kind` at `ident`, with `message`.
fn push_ident_diagnostic(
    template_file: &str,
    content: &str,
    kind: AuthoringDiagnosticKind,
    ident: &TemplateIdent,
    message: String,
    diagnostics: &mut Vec<AuthoringDiagnostic>,
)
    requires
        content@.len() < u32::MAX,
    ensures
        extends_with(
            final(diagnostics)@,
            old(diagnostics)@,
            template_file@,
            content@,
            seq![ident_finding(kind, ident_view(*ident), message@)],
        ),
{
    let end = ident.offset.saturating_add(ident.len);
    let d = template_diagnostic_for_span(
        template_file,
        content,
        kind,
        ident.text.as_str(),
        message,
        ident.offset,
        end,
    );
    diagnostics.push(d);
    assert(diagnostics@[old(diagnostics)@.len() as int] == d);
}

/// Appends a diagnostic where the project has no template at `path`.
fn push_missing_template_diagnostic(
    project: &AuthoringProject,
    template_file: &str,
    content: &str,
    kind: TemplateDocumentKind,
    path: &TemplateIdent,
    diagnostics: &mut Vec<AuthoringDiagnostic>,
)
    requires
        content@.len() < u32::MAX,
    ensures
        extends_with(
            final(diagnostics)@,
            old(diagnostics)@,
            template_file@,
            content@,
            missing_template_findings(*project, kind, ident_view(*path)),
        ),
{
    if find_key(&project.template_paths, path.text.as_str()).is_some() {
        return;
    }
    let head = concat3("template ", kind.label(), " '");
    let message = concat3(head.as_str(), path.text.as_str(), "' not found");
    push_ident_diagnostic(
        template_file,
        content,
        AuthoringDiagnosticKind::MissingTemplate,
        path,
        message,
        diagnostics,
    );
}

/// Appends the diagnostics of an expression: those of its sub-expressions in
/// source order, then one for a filter or a test that the engine does not
/// have, or for a macro that cannot be found.
pub fn collect_template_expr_diagnostics(
    project: &AuthoringProject,
    template_file: &str,
    content: &str,
    expr: &TemplateExpr,
    imports: &Vec<(String, String)>,
    diagnostics: &mut Vec<AuthoringDiagnostic>,
)
    requires
        content@.len() < u32::MAX,
    ensures
        extends_with(
            final(diagnostics)@,
            old(diagnostics)@,
            template_file@,
            content@,
            expr_findings(scope_of(*project, template_file@, content@, imports@), expr_view(*expr)),
        ),
    decreases expr, 1nat,
{
    let ghost sc = scope_of(*project, template_file@, content@, imports@);
    let ghost d0 = diagnostics@;
    match expr {
        TemplateExpr::Plain { operands } => {
            collect_exprs_diagnostics(project, template_file, content, operands, imports, diagnostics);
        },
        TemplateExpr::Filter { operands, filter } => {
            collect_exprs_diagnostics(project, template_file, content, operands, imports, diagnostics);
            let ghost d1 = diagnostics@;
            let ghost f1 = exprs_findings(sc, exprs_view(operands@));
            if !is_builtin_filter(filter.text.as_str()) {
                let message = concat3("filter '", filter.text.as_str(), "' not found");
                push_ident_diagnostic(
                    template_file,
                    content,
                    AuthoringDiagnosticKind::UnknownFilter,
                    filter,
                    message,
                    diagnostics,
                );
                proof {
                    lemma_extends_trans(d0, d1, diagnostics@, template_file@, content@, f1, seq![ident_finding(AuthoringDiagnosticKind::UnknownFilter, ident_view(*filter), message@)]);
                }
            } else {
                assert(f1 + Seq::<TemplateFinding>::empty() =~= f1);
            }
        },
        TemplateExpr::Test { operands, test_name } => {
            collect_exprs_diagnostics(project, template_file, content, operands, imports, diagnostics);
            let ghost d1 = diagnostics@;
            let ghost f1 = exprs_findings(sc, exprs_view(operands@));
            if !is_builtin_test(test_name.text.as_str()) {
                let message = concat3("test '", test_name.text.as_str(), "' not found");
                push_ident_diagnostic(
                    template_file,
                    content,
                    AuthoringDiagnosticKind::UnknownTest,
                    test_name,
                    message,
                    diagnostics,
                );
                proof {
                    lemma_extends_trans(d0, d1, diagnostics@, template_file@, content@, f1, seq![ident_finding(AuthoringDiagnosticKind::UnknownTest, ident_view(*test_name), message@)]);
                }
            } else {
                assert(f1 + Seq::<TemplateFinding>::empty() =~= f1);
            }
        },
        TemplateExpr::MacroCall { operands, namespace, macro_name } => {
            collect_exprs_diagnostics(project, template_file, content, operands, imports, diagnostics);
            let ghost d1 = diagnostics@;
            let ghost f1 = exprs_findings(sc, exprs_view(operands@));
            if template_macro_definition(
                project,
                template_file,
                content,
                imports,
                namespace.text.as_str(),
                macro_name.text.as_str(),
            ).is_none() {
                let target = concat3(namespace.text.as_str(), "::", macro_name.text.as_str());
                let message = concat3("macro '", target.as_str(), "' not found");
                push_ident_diagnostic(
                    template_file,
                    content,
                    AuthoringDiagnosticKind::UnknownMacro,
                    macro_name,
                    message,
                    diagnostics,
                );
                proof {
                    lemma_extends_trans(d0, d1, diagnostics@, template_file@, content@, f1, seq![ident_finding(AuthoringDiagnosticKind::UnknownMacro, ident_view(*macro_name), message@)]);
                }
            } else {
                assert(f1 + Seq::<TemplateFinding>::empty() =~= f1);
            }
        },
    }
}

fn collect_exprs_diagnostics(
    project: &AuthoringProject,
    template_file: &str,
    content: &str,
    exprs: &Vec<TemplateExpr>,
    imports: &Vec<(String, String)>,
    diagnostics: &mut Vec<AuthoringDiagnostic>,
)
    requires
        content@.len() < u32::MAX,
    ensures
        extends_with(
            final(diagnostics)@,
            old(diagnostics)@,
            template_file@,
            content@,
            exprs_findings(scope_of(*project, template_file@, content@, imports@), exprs_view(exprs@)),
        ),
    decreases exprs@, 0nat,
{
    proof {
        lemma_exprs_view(exprs@);
    }
    let ghost sc = scope_of(*project, template_file@, content@, imports@);
    let ghost s = exprs_view(exprs@);
    let ghost d0 = diagnostics@;
    let mut i: usize = 0;
    assert(s.take(0) =~= Seq::<TemplateExprView>::empty());
    while i < exprs.len()
        invariant
            i <= exprs.len(),
            content@.len() < u32::MAX,
            sc == scope_of(*project, template_file@, content@, imports@),
            s == exprs_view(exprs@),
            s.len() == exprs@.len(),
            forall|j: int| 0 <= j < exprs@.len() ==> #[trigger] s[j] == expr_view(exprs@[j]),
            extends_with(diagnostics@, d0, template_file@, content@, exprs_findings(sc, s.take(i as int))),
        decreases exprs.len() - i,
    {
        let ghost d1 = diagnostics@;
        collect_template_expr_diagnostics(project, template_file, content, &exprs[i], imports, diagnostics);
        proof {
            lemma_extends_trans(d0, d1, diagnostics@, template_file@, content@, exprs_findings(sc, s.take(i as int)), expr_findings(sc, s[i as int]));
            let t = s.take(i + 1);
            assert(t.subrange(0, t.len() - 1) =~= s.take(i as int));
            assert(t[t.len() - 1] == s[i as int]);
        }
        i = i + 1;
    }
    assert(s.take(exprs.len() as int) =~= s);
}

fn collect_opt_exprs_diagnostics(
    project: &AuthoringProject,
    template_file: &str,
    content: &str,
    exprs: &Vec<Option<TemplateExpr>>,
    imports: &Vec<(String, String)>,
    diagnostics: &mut Vec<AuthoringDiagnostic>,
)
    requires
        content@.len() < u32::MAX,
    ensures
        extends_with(
            final(diagnostics)@,
            old(diagnostics)@,
            template_file@,
            content@,
            opt_exprs_findings(
                scope_of(*project, template_file@, content@, imports@),
                crate::template_syntax::opt_exprs_view(exprs@),
            ),
        ),
{
    proof {
        lemma_opt_exprs_view(exprs@);
    }
    let ghost sc = scope_of(*project, template_file@, content@, imports@);
    let ghost s = crate::template_syntax::opt_exprs_view(exprs@);
    let ghost d0 = diagnostics@;
    let mut i: usize = 0;
    assert(s.take(0) =~= Seq::<Option<TemplateExprView>>::empty());
    while i < exprs.len()
        invariant
            i <= exprs.len(),
            content@.len() < u32::MAX,
            sc == scope_of(*project, template_file@, content@, imports@),
            s == crate::template_syntax::opt_exprs_view(exprs@),
            s.len() == exprs@.len(),
            forall|j: int|
                0 <= j < exprs@.len() ==> #[trigger] s[j] == match exprs@[j] {
                    Some(e) => Some(expr_view(e)),
                    None => None,
                },
            extends_with(diagnostics@, d0, template_file@, content@, opt_exprs_findings(sc, s.take(i as int))),
        decreases exprs.len() - i,
    {
        let ghost d1 = diagnostics@;
        let ghost fi = match s[i as int] {
            Some(e) => expr_findings(sc, e),
            None => Seq::<TemplateFinding>::empty(),
        };
        match &exprs[i] {
            Some(e) => {
                collect_template_expr_diagnostics(project, template_file, content, e, imports, diagnostics);
            },
            None => {},
        }
        proof {
            lemma_extends_trans(d0, d1, diagnostics@, template_file@, content@, opt_exprs_findings(sc, s.take(i as int)), fi);
            let t = s.take(i + 1);
            assert(t.subrange(0, t.len() - 1) =~= s.take(i as int));
            assert(t[t.len() - 1] == s[i as int]);
        }
        i = i + 1;
    }
    assert(s.take(exprs.len() as int) =~= s);
}


/// Appends the diagnostics of one node; see [`collect_template_diagnostics`].
fn collect_node_diagnostics(
    project: &AuthoringProject,
    template_file: &str,
    content: &str,
    node: &TemplateNode,
    parent_file: Option<&str>,
    imports: &Vec<(String, String)>,
    diagnostics: &mut Vec<AuthoringDiagnostic>,
)
    requires
        content@.len() < u32::MAX,
    ensures
        extends_with(
            final(diagnostics)@,
            old(diagnostics)@,
            template_file@,
            content@,
            node_findings(
                scope_of(*project, template_file@, content@, imports@),
                opt_str_view(parent_file),
                node_view(*node),
            ),
        ),
    decreases node, 2nat,
{
    let ghost sc = scope_of(*project, template_file@, content@, imports@);
    let ghost pf = opt_str_view(parent_file);
    let ghost d0 = diagnostics@;
    let ghost e = Seq::<TemplateFinding>::empty();
    match node {
        TemplateNode::Extends { path } => {
            push_missing_template_diagnostic(project, template_file, content, TemplateDocumentKind::Extends, path, diagnostics);
        },
        TemplateNode::Include { path } => {
            push_missing_template_diagnostic(project, template_file, content, TemplateDocumentKind::Include, path, diagnostics);
        },
        TemplateNode::Import { path, .. } => {
            push_missing_template_diagnostic(project, template_file, content, TemplateDocumentKind::Import, path, diagnostics);
        },
        TemplateNode::Block { name, body } => {
            let ghost fb = block_findings(sc, pf, ident_view(*name));
            match parent_file {
                Some(p) => {
                    if template_block_definition(project, p, template_file, content, name.text.as_str()).is_none() {
                        let message = concat3("parent block '", name.text.as_str(), "' not found");
                        push_ident_diagnostic(
                            template_file,
                            content,
                            AuthoringDiagnosticKind::MissingBlock,
                            name,
                            message,
                            diagnostics,
                        );
                    }
                },
                None => {},
            }
            let ghost d1 = diagnostics@;
            collect_template_diagnostics(project, template_file, content, body, parent_file, imports, diagnostics);
            proof {
                lemma_extends_trans(d0, d1, diagnostics@, template_file@, content@, fb, nodes_findings(sc, pf, nodes_view(body@)));
            }
        },
        TemplateNode::Macro { defaults, body, .. } => {
            collect_opt_exprs_diagnostics(project, template_file, content, defaults, imports, diagnostics);
            let ghost d1 = diagnostics@;
            collect_template_diagnostics(project, template_file, content, body, parent_file, imports, diagnostics);
            proof {
                lemma_extends_trans(d0, d1, diagnostics@, template_file@, content@, opt_exprs_findings(sc, crate::template_syntax::opt_exprs_view(defaults@)), nodes_findings(sc, pf, nodes_view(body@)));
            }
        },
        TemplateNode::Print { expr } => {
            collect_template_expr_diagnostics(project, template_file, content, expr, imports, diagnostics);
        },
        TemplateNode::If { branches, else_body } => {
            collect_branches_diagnostics(project, template_file, content, branches, parent_file, imports, diagnostics);
            let ghost d1 = diagnostics@;
            let ghost fb = branches_findings(sc, pf, crate::template_syntax::branches_view(branches@));
            match else_body {
                Some(b) => {
                    collect_template_diagnostics(project, template_file, content, b, parent_file, imports, diagnostics);
                    proof {
                        lemma_extends_trans(d0, d1, diagnostics@, template_file@, content@, fb, nodes_findings(sc, pf, nodes_view(b@)));
                    }
                },
                None => {
                    assert(fb + e =~= fb);
                },
            }
        },
        TemplateNode::For { iter, body, else_body } => {
            collect_template_expr_diagnostics(project, template_file, content, iter, imports, diagnostics);
            let ghost d1 = diagnostics@;
            let ghost f1 = expr_findings(sc, expr_view(*iter));
            collect_template_diagnostics(project, template_file, content, body, parent_file, imports, diagnostics);
            let ghost d2 = diagnostics@;
            let ghost f2 = nodes_findings(sc, pf, nodes_view(body@));
            proof {
                lemma_extends_trans(d0, d1, d2, template_file@, content@, f1, f2);
            }
            match else_body {
                Some(b) => {
                    collect_template_diagnostics(project, template_file, content, b, parent_file, imports, diagnostics);
                    proof {
                        lemma_extends_trans(d0, d2, diagnostics@, template_file@, content@, f1 + f2, nodes_findings(sc, pf, nodes_view(b@)));
                    }
                },
                None => {
                    assert(f1 + f2 + e =~= f1 + f2);
                },
            }
        },
        TemplateNode::SetExpr { value } => {
            collect_template_expr_diagnostics(project, template_file, content, value, imports, diagnostics);
        },
        TemplateNode::SetBody { body } => {
            collect_template_diagnostics(project, template_file, content, body, parent_file, imports, diagnostics);
        },
        TemplateNode::CallBlock { kwargs } => {
            collect_exprs_diagnostics(project, template_file, content, kwargs, imports, diagnostics);
        },
        TemplateNode::Text { .. } => {},
        TemplateNode::Other => {},
    }
}

fn collect_branches_diagnostics(
    project: &AuthoringProject,
    template_file: &str,
    content: &str,
    branches: &Vec<crate::template_syntax::TemplateBranch>,
    parent_file: Option<&str>,
    imports: &Vec<(String, String)>,
    diagnostics: &mut Vec<AuthoringDiagnostic>,
)
    requires
        content@.len() < u32::MAX,
    ensures
        extends_with(
            final(diagnostics)@,
            old(diagnostics)@,
            template_file@,
            content@,
            branches_findings(
                scope_of(*project, template_file@, content@, imports@),
                opt_str_view(parent_file),
                crate::template_syntax::branches_view(branches@),
            ),
        ),
    decreases branches@, 1nat,
{
    proof {
        lemma_branches_view(branches@);
    }
    let ghost sc = scope_of(*project, template_file@, content@, imports@);
    let ghost pf = opt_str_view(parent_file);
    let ghost s = crate::template_syntax::branches_view(branches@);
    let ghost d0 = diagnostics@;
    let mut i: usize = 0;
    assert(s.take(0) =~= Seq::<TemplateBranchView>::empty());
    while i < branches.len()
        invariant
            i <= branches.len(),
            content@.len() < u32::MAX,
            sc == scope_of(*project, template_file@, content@, imports@),
            pf == opt_str_view(parent_file),
            s == crate::template_syntax::branches_view(branches@),
            s.len() == branches@.len(),
            forall|j: int|
                0 <= j < branches@.len() ==> (#[trigger] s[j]).condition == expr_view(
                    branches@[j].condition,
                ) && s[j].body == nodes_view(branches@[j].body@),
            extends_with(diagnostics@, d0, template_file@, content@, branches_findings(sc, pf, s.take(i as int))),
        decreases branches.len() - i,
    {
        let ghost d1 = diagnostics@;
        collect_template_expr_diagnostics(project, template_file, content, &branches[i].condition, imports, diagnostics);
        let ghost d2 = diagnostics@;
        collect_template_diagnostics(project, template_file, content, &branches[i].body, parent_file, imports, diagnostics);
        proof {
            let fa = branches_findings(sc, pf, s.take(i as int));
            let fc = expr_findings(sc, s[i as int].condition);
            let fd = nodes_findings(sc, pf, s[i as int].body);
            lemma_extends_trans(d0, d1, d2, template_file@, content@, fa, fc);
            lemma_extends_trans(d0, d2, diagnostics@, template_file@, content@, fa + fc, fd);
            let t = s.take(i + 1);
            assert(t.subrange(0, t.len() - 1) =~= s.take(i as int));
            assert(t[t.len() - 1] == s[i as int]);
        }
        i = i + 1;
    }
    assert(s.take(branches.len() as int) =~= s);
}

/// Appends the diagnostics of `nodes`, in source order: a reference to a
/// template that the project does not have; a block that no template up the
/// chain of `parent_file` defines; and, in every expression, a filter or a
/// test that the engine does not have or a macro that cannot be found.
pub fn collect_template_diagnostics(
    project: &AuthoringProject,
    template_file: &str,
    content: &str,
    nodes: &Vec<TemplateNode>,
    parent_file: Option<&str>,
    imports: &Vec<(String, String)>,
    diagnostics: &mut Vec<AuthoringDiagnostic>,
)
    requires
        content@.len() < u32::MAX,
    ensures
        extends_with(
            final(diagnostics)@,
            old(diagnostics)@,
            template_file@,
            content@,
            nodes_findings(
                scope_of(*project, template_file@, content@, imports@),
                opt_str_view(parent_file),
                nodes_view(nodes@),
            ),
        ),
    decreases nodes@, 0nat,
{
    proof {
        lemma_nodes_view(nodes@);
    }
    let ghost sc = scope_of(*project, template_file@, content@, imports@);
    let ghost pf = opt_str_view(parent_file);
    let ghost s = nodes_view(nodes@);
    let ghost d0 = diagnostics@;
    let mut i: usize = 0;
    assert(s.take(0) =~= Seq::<TemplateNodeView>::empty());
    while i < nodes.len()
        invariant
            i <= nodes.len(),
            content@.len() < u32::MAX,
            sc == scope_of(*project, template_file@, content@, imports@),
            pf == opt_str_view(parent_file),
            s == nodes_view(nodes@),
            s.len() == nodes@.len(),
            forall|j: int| 0 <= j < nodes@.len() ==> #[trigger] s[j] == node_view(nodes@[j]),
            extends_with(diagnostics@, d0, template_file@, content@, nodes_findings(sc, pf, s.take(i as int))),
        decreases nodes.len() - i,
    {
        let ghost d1 = diagnostics@;
        collect_node_diagnostics(project, template_file, content, &nodes[i], parent_file, imports, diagnostics);
        proof {
            lemma_extends_trans(d0, d1, diagnostics@, template_file@, content@, nodes_findings(sc, pf, s.take(i as int)), node_findings(sc, pf, s[i as int]));
            let t = s.take(i + 1);
            assert(t.subrange(0, t.len() - 1) =~= s.take(i as int));
            assert(t[t.len() - 1] == s[i as int]);
        }
        i = i + 1;
    }
    assert(s.take(nodes.len() as int) =~= s);
}

/// The diagnostics of the template `template_file` whose text is `content`:
/// none where the text does not parse; else those of its nodes (see
/// [`collect_template_diagnostics`]), with the template it extends as the
/// parent where the project has that template, and its import aliases.
pub fn template_diagnostics(project: &AuthoringProject, template_file: &str, content: &str) -> (r:
    Vec<AuthoringDiagnostic>)
    requires
        content@.len() < u32::MAX,
    ensures
        extends_with(
            r@,
            Seq::empty(),
            template_file@,
            content@,
            template_findings(*project, template_file@, content@, gingembre_template(content@)),
        ),
{
    let mut diagnostics: Vec<AuthoringDiagnostic> = Vec::new();
    let nodes = match parse_template(template_file, content) {
        Some(n) => n,
        None => {
            return diagnostics;
        },
    };
    let imports = template_import_aliases(project, &nodes);
    let parent = match template_extends_path_from_nodes(&nodes) {
        Some(p) => {
            if find_key(&project.template_paths, p.as_str()).is_some() {
                Some(p)
            } else {
                None
            }
        },
        None => None,
    };
    let parent_file: Option<&str> = match &parent {
        Some(p) => Some(p.as_str()),
        None => None,
    };
    collect_template_diagnostics(project, template_file, content, &nodes, parent_file, &imports, &mut diagnostics);
    diagnostics
}

} // verus!
