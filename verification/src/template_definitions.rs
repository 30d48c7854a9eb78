//! Where the names in a template are defined: the parent template's block
//! that a block overrides, the macro that a call calls, and the place in the
//! template engine's source that defines a built-in filter or test.
use vstd::prelude::*;

use crate::model::{find_key, str_value, AuthoringProject};
use crate::positions::{byte_range_to_lsp_range, spec_byte_range_to_lsp_range, Range};
use crate::template_diagnostics::{
    block_definition, chain_fuel, extends_path_of, macro_definition, nodes_aliases, pairs_view,
    span_end, template_block_definition, template_extends_path, template_import_aliases,
    template_macro_definition,
};
use crate::template_syntax::{
    branches_view, expr_view, exprs_view, gingembre_builtin_filter, gingembre_builtin_test,
    gingembre_template, ident_view, is_builtin_filter, is_builtin_test, lemma_branches_view,
    lemma_exprs_view, lemma_nodes_view, node_view, nodes_view, parse_template, TemplateBranch,
    TemplateBranchView, TemplateExpr, TemplateExprView, TemplateIdent, TemplateIdentView,
    TemplateNode, TemplateNodeView,
};
use crate::text::{byte_len, find_from, is_first_occurrence, occurs_at, to_chars};

verus! {

/// What a template name is defined as.
#[derive(Clone, Copy, Debug, PartialEq, Eq, Structural)]
pub enum TemplateDefinitionKind {
    Block,
    Macro,
    Filter,
    Test,
}

impl TemplateDefinitionKind {
    pub open spec fn spec_label(self) -> Seq<char> {
        match self {
            TemplateDefinitionKind::Block => "block"@,
            TemplateDefinitionKind::Macro => "macro"@,
            TemplateDefinitionKind::Filter => "filter"@,
            TemplateDefinitionKind::Test => "test"@,
        }
    }

    /// The word for the kind.
    pub fn label(self) -> (r: &'static str)
        ensures
            r@ == self.spec_label(),
    {
        match self {
            TemplateDefinitionKind::Block => "block",
            TemplateDefinitionKind::Macro => "macro",
            TemplateDefinitionKind::Filter => "filter",
            TemplateDefinitionKind::Test => "test",
        }
    }
}

/// A name at `source_range` of a template, defined at `target_range` of the
/// file `target_path`.
#[derive(Clone, Debug)]
pub struct TemplateDefinitionTarget {
    pub kind: TemplateDefinitionKind,
    pub name: String,
    pub source_range: Range,
    pub target_path: String,
    pub target_range: Range,
}

/// The mathematical value of a [`TemplateDefinitionTarget`].
pub struct DefinitionTargetView {
    pub kind: TemplateDefinitionKind,
    pub name: Seq<char>,
    pub source_range: Range,
    pub target_path: Seq<char>,
    pub target_range: Range,
}

pub open spec fn target_view(t: TemplateDefinitionTarget) -> DefinitionTargetView {
    DefinitionTargetView {
        kind: t.kind,
        name: t.name@,
        source_range: t.source_range,
        target_path: t.target_path@,
        target_range: t.target_range,
    }
}

/// What a walk over a template knows: the project, the template's file,
/// text and import aliases, and the path and text of the engine's source
/// file that defines the built-in filters and tests, where it could be read.
pub struct DefinitionScope {
    pub project: AuthoringProject,
    pub file: Seq<char>,
    pub content: Seq<char>,
    pub imports: Seq<(Seq<char>, Seq<char>)>,
    pub engine: Option<(Seq<char>, Seq<char>)>,
}

/// `new` is `old` followed by the targets `ts`, in order.
pub open spec fn targets_extend(
    new: Seq<TemplateDefinitionTarget>,
    old: Seq<TemplateDefinitionTarget>,
    ts: Seq<DefinitionTargetView>,
) -> bool {
    &&& new.len() == old.len() + ts.len()
    &&& forall|i: int| 0 <= i < old.len() ==> #[trigger] new[i] == old[i]
    &&& forall|i: int| 0 <= i < ts.len() ==> target_view(#[trigger] new[old.len() + i]) == ts[i]
}

/// The editor range of a name in the text `content`.
pub open spec fn ident_range(content: Seq<char>, i: TemplateIdentView) -> Range {
    spec_byte_range_to_lsp_range(content, i.offset as int, span_end(i) as int)
}

/// The editor range of a name of a template, in the template's text.
pub fn template_ident_range(content: &str, ident: &TemplateIdent) -> (r: Range)
    requires
        content@.len() < u32::MAX,
    ensures
        r == ident_range(content@, ident_view(*ident)),
{
    byte_range_to_lsp_range(content, ident.offset, ident.offset.saturating_add(ident.len))
}

/// The editor range of a string literal of a template, in the template's
/// text.
pub fn template_string_range(content: &str, string: &TemplateIdent) -> (r: Range)
    requires
        content@.len() < u32::MAX,
    ensures
        r == ident_range(content@, ident_view(*string)),
{
    template_ident_range(content, string)
}

/// The first index from `from` on at which `p` occurs in `s`.
pub open spec fn first_occurrence(s: Seq<char>, p: Seq<char>, from: int) -> Option<int> {
    if exists|i: int| is_first_occurrence(s, p, from, i) {
        Some(choose|i: int| is_first_occurrence(s, p, from, i))
    } else {
        None
    }
}

/// The text that opens the table of built-in filters or tests in the
/// engine's source.
pub open spec fn builtin_marker(kind: TemplateDefinitionKind) -> Seq<char> {
    match kind {
        TemplateDefinitionKind::Filter => "Ok(match name {"@,
        _ => "let result = match test.test_name.name.as_str() {"@,
    }
}

/// The range of `name` in the engine's `source`: the first `"name"` after
/// the marker of the table of filters or of tests, the quotes left out.
pub open spec fn spec_builtin_definition_range(
    source: Seq<char>,
    kind: TemplateDefinitionKind,
    name: Seq<char>,
) -> Option<Range> {
    if kind == TemplateDefinitionKind::Block || kind == TemplateDefinitionKind::Macro {
        None
    } else {
        match first_occurrence(source, builtin_marker(kind), 0) {
            None => None,
            Some(i) => match first_occurrence(source, seq!['"'] + name + seq!['"'], i) {
                None => None,
                Some(j) => Some(
                    spec_byte_range_to_lsp_range(
                        source,
                        byte_len(source.take(j + 1)) as int,
                        byte_len(source.take(j + 1 + name.len())) as int,
                    ),
                ),
            },
        }
    }
}

pub open spec fn builtin_targets(
    engine: Option<(Seq<char>, Seq<char>)>,
    content: Seq<char>,
    kind: TemplateDefinitionKind,
    i: TemplateIdentView,
) -> Seq<DefinitionTargetView> {
    match engine {
        None => Seq::empty(),
        Some((path, source)) => match spec_builtin_definition_range(source, kind, i.text) {
            Some(r) => seq![
                DefinitionTargetView {
                    kind,
                    name: i.text,
                    source_range: ident_range(content, i),
                    target_path: path,
                    target_range: r,
                },
            ],
            None => Seq::empty(),
        },
    }
}

pub open spec fn block_targets(
    project: AuthoringProject,
    file: Seq<char>,
    content: Seq<char>,
    name: TemplateIdentView,
) -> Seq<DefinitionTargetView> {
    let parent = match gingembre_template(content) {
        Some(nodes) => extends_path_of(nodes),
        None => None,
    };
    match parent {
        None => Seq::empty(),
        Some(p) => match block_definition(project, p, file, content, name.text, chain_fuel(project)) {
            None => Seq::empty(),
            Some((tf, tc, ti)) => match str_value(project.template_paths@, tf) {
                None => Seq::empty(),
                Some(path) => seq![
                    DefinitionTargetView {
                        kind: TemplateDefinitionKind::Block,
                        name: name.text,
                        source_range: ident_range(content, name),
                        target_path: path,
                        target_range: ident_range(tc, ti),
                    },
                ],
            },
        },
    }
}

pub open spec fn macro_targets(
    project: AuthoringProject,
    file: Seq<char>,
    content: Seq<char>,
    imports: Seq<(Seq<char>, Seq<char>)>,
    namespace: TemplateIdentView,
    macro_name: TemplateIdentView,
) -> Seq<DefinitionTargetView> {
    match macro_definition(project, file, content, imports, namespace.text, macro_name.text) {
        None => Seq::empty(),
        Some((t, tc, ti)) => match str_value(project.template_paths@, t) {
            None => Seq::empty(),
            Some(path) => seq![
                DefinitionTargetView {
                    kind: TemplateDefinitionKind::Macro,
                    name: namespace.text + "::"@ + macro_name.text,
                    source_range: ident_range(content, macro_name),
                    target_path: path,
                    target_range: ident_range(tc, ti),
                },
            ],
        },
    }
}

pub open spec fn expr_targets(scope: DefinitionScope, e: TemplateExprView) -> Seq<
    DefinitionTargetView,
>
    decreases e, 1nat,
{
    match e {
        TemplateExprView::Plain { operands } => exprs_targets(scope, operands),
        TemplateExprView::Filter { operands, filter } => exprs_targets(scope, operands) + if gingembre_builtin_filter(filter.text) {
            builtin_targets(scope.engine, scope.content, TemplateDefinitionKind::Filter, filter)
        } else {
            Seq::empty()
        },
        TemplateExprView::Test { operands, test_name } => exprs_targets(scope, operands) + if gingembre_builtin_test(test_name.text) {
            builtin_targets(scope.engine, scope.content, TemplateDefinitionKind::Test, test_name)
        } else {
            Seq::empty()
        },
        TemplateExprView::MacroCall { operands, namespace, macro_name } => exprs_targets(scope, operands) + macro_targets(
            scope.project,
            scope.file,
            scope.content,
            scope.imports,
            namespace,
            macro_name,
        ),
    }
}

pub open spec fn exprs_targets(scope: DefinitionScope, s: Seq<TemplateExprView>) -> Seq<
    DefinitionTargetView,
>
    decreases s, 0nat,
{
    if s.len() == 0 {
        Seq::empty()
    } else {
        exprs_targets(scope, s.subrange(0, s.len() - 1)) + expr_targets(scope, s[s.len() - 1])
    }
}

pub open spec fn node_targets(scope: DefinitionScope, n: TemplateNodeView) -> Seq<
    DefinitionTargetView,
>
    decreases n, 2nat,
{
    match n {
        TemplateNodeView::Block { name, body } => block_targets(scope.project, scope.file, scope.content, name) + nodes_targets(
            scope,
            body,
        ),
        TemplateNodeView::Macro { body, .. } => nodes_targets(scope, body),
        TemplateNodeView::Print { expr } => expr_targets(scope, expr),
        TemplateNodeView::If { branches, else_body } => branches_targets(scope, branches) + match else_body {
            Some(b) => nodes_targets(scope, b),
            None => Seq::empty(),
        },
        TemplateNodeView::For { iter, body, else_body } => expr_targets(scope, iter) + nodes_targets(scope, body) + match else_body {
            Some(b) => nodes_targets(scope, b),
            None => Seq::empty(),
        },
        TemplateNodeView::SetExpr { value } => expr_targets(scope, value),
        TemplateNodeView::SetBody { body } => nodes_targets(scope, body),
        TemplateNodeView::CallBlock { kwargs } => exprs_targets(scope, kwargs),
        _ => Seq::empty(),
    }
}

pub open spec fn nodes_targets(scope: DefinitionScope, s: Seq<TemplateNodeView>) -> Seq<
    DefinitionTargetView,
>
    decreases s, 0nat,
{
    if s.len() == 0 {
        Seq::empty()
    } else {
        nodes_targets(scope, s.subrange(0, s.len() - 1)) + node_targets(scope, s[s.len() - 1])
    }
}

pub open spec fn branches_targets(scope: DefinitionScope, s: Seq<TemplateBranchView>) -> Seq<
    DefinitionTargetView,
>
    decreases s, 1nat,
{
    if s.len() == 0 {
        Seq::empty()
    } else {
        let b = s[s.len() - 1];
        branches_targets(scope, s.subrange(0, s.len() - 1)) + expr_targets(scope, b.condition)
            + nodes_targets(scope, b.body)
    }
}

pub open spec fn engine_view(engine: Option<(String, String)>) -> Option<(Seq<char>, Seq<char>)> {
    match engine {
        Some((p, s)) => Some((p@, s@)),
        None => None,
    }
}

pub open spec fn definition_scope(
    project: AuthoringProject,
    file: Seq<char>,
    content: Seq<char>,
    imports: Seq<(String, String)>,
    engine: Option<(String, String)>,
) -> DefinitionScope {
    DefinitionScope {
        project,
        file,
        content,
        imports: pairs_view(imports),
        engine: engine_view(engine),
    }
}

/// The texts that a walk reads ranges from are short enough for line and
/// column numbers: the template's, the project's templates', the engine's.
pub open spec fn texts_fit(
    project: AuthoringProject,
    content: Seq<char>,
    engine: Option<(String, String)>,
) -> bool {
    &&& content.len() < u32::MAX
    &&& forall|i: int|
        0 <= i < project.template_contents@.len() ==> (
        #[trigger] project.template_contents@[i]).1@.len() < u32::MAX
    &&& engine_fits(engine)
}

/// The engine's source text is short enough for line and column numbers.
pub open spec fn engine_fits(engine: Option<(String, String)>) -> bool {
    match engine {
        Some((_, s)) => s@.len() < u32::MAX && byte_len(s@) <= usize::MAX,
        None => true,
    }
}

pub proof fn lemma_targets_trans(
    a: Seq<TemplateDefinitionTarget>,
    b: Seq<TemplateDefinitionTarget>,
    c: Seq<TemplateDefinitionTarget>,
    f1: Seq<DefinitionTargetView>,
    f2: Seq<DefinitionTargetView>,
)
    requires
        targets_extend(b, a, f1),
        targets_extend(c, b, f2),
    ensures
        targets_extend(c, a, f1 + f2),
{
    assert forall|i: int| 0 <= i < (f1 + f2).len() implies target_view(
        #[trigger] c[a.len() + i],
    ) == (f1 + f2)[i] by {
        if i < f1.len() {
            assert(c[a.len() + i] == b[a.len() + i]);
        } else {
            assert(c[a.len() + i] == c[b.len() + (i - f1.len())]);
        }
    }
}

pub proof fn lemma_first_occurrence(s: Seq<char>, p: Seq<char>, from: int, i: int)
    requires
        is_first_occurrence(s, p, from, i),
    ensures
        first_occurrence(s, p, from) == Some(i),
{
    let k = choose|k: int| is_first_occurrence(s, p, from, k);
    assert(is_first_occurrence(s, p, from, k));
    if k < i {
        assert(!occurs_at(s, p, k));
    }
    if i < k {
        assert(!occurs_at(s, p, i));
    }
}


/// Every text that a template of the project can be read as is short enough
/// for line and column numbers.
pub proof fn lemma_template_content_fits(
    project: AuthoringProject,
    template_file: Seq<char>,
    current_file: Seq<char>,
    current_content: Seq<char>,
)
    requires
        texts_fit(project, current_content, None),
    ensures
        match crate::template_diagnostics::spec_template_content(
            project,
            template_file,
            current_file,
            current_content,
        ) {
            Some(c) => c.len() < u32::MAX,
            None => true,
        },
{
    if template_file != current_file {
        let m = project.template_contents@;
        if exists|i: int| crate::model::is_first_key(m, template_file, i) {
            let i = choose|i: int| crate::model::is_first_key(m, template_file, i);
            assert(crate::model::is_first_key(m, template_file, i));
            assert(m[i].1@.len() < u32::MAX);
        }
    }
}

/// A block found up a chain of `extends` is found in a text that is short
/// enough for line and column numbers.
pub proof fn lemma_block_definition_fits(
    project: AuthoringProject,
    template_file: Seq<char>,
    current_file: Seq<char>,
    current_content: Seq<char>,
    name: Seq<char>,
    fuel: nat,
)
    requires
        texts_fit(project, current_content, None),
    ensures
        match block_definition(project, template_file, current_file, current_content, name, fuel) {
            Some((_, c, _)) => c.len() < u32::MAX,
            None => true,
        },
    decreases fuel,
{
    lemma_template_content_fits(project, template_file, current_file, current_content);
    if fuel > 0 {
        match crate::template_diagnostics::spec_template_content(
            project,
            template_file,
            current_file,
            current_content,
        ) {
            Some(c) => match gingembre_template(c) {
                Some(nodes) => match extends_path_of(nodes) {
                    Some(p) => {
                        lemma_block_definition_fits(
                            project,
                            p,
                            current_file,
                            current_content,
                            name,
                            (fuel - 1) as nat,
                        );
                    },
                    None => {},
                },
                None => {},
            },
            None => {},
        }
    }
}

/// The marker of the table of filters or of tests.
fn builtin_marker_str(kind: TemplateDefinitionKind) -> (r: &'static str)
    ensures
        r@ == builtin_marker(kind),
{
    match kind {
        TemplateDefinitionKind::Filter => "Ok(match name {",
        _ => "let result = match test.test_name.name.as_str() {",
    }
}

/// The range of `name` in the engine's source text `source`, where it
/// defines the built-in filter or test `name`.
pub fn builtin_template_definition_range(
    source: &str,
    kind: TemplateDefinitionKind,
    name: &str,
) -> (r: Option<Range>)
    requires
        source@.len() < u32::MAX,
        byte_len(source@) <= usize::MAX,
    ensures
        r == spec_builtin_definition_range(source@, kind, name@),
{
    if kind == TemplateDefinitionKind::Block || kind == TemplateDefinitionKind::Macro {
        return None;
    }
    let s = to_chars(source);
    let marker = to_chars(builtin_marker_str(kind));
    let i = match find_from(s.as_slice(), marker.as_slice(), 0) {
        Some(i) => i,
        None => {
            return None;
        },
    };
    proof {
        lemma_first_occurrence(s@, marker@, 0, i as int);
    }
    let name_chars = to_chars(name);
    let mut needle: Vec<char> = Vec::new();
    needle.push('"');
    crate::text::extend_chars(&mut needle, name_chars.as_slice());
    needle.push('"');
    assert(needle@ =~= seq!['"'] + name@ + seq!['"']);
    let j = match find_from(s.as_slice(), needle.as_slice(), i) {
        Some(j) => j,
        None => {
            return None;
        },
    };
    proof {
        lemma_first_occurrence(s@, needle@, i as int, j as int);
    }
    let offsets = crate::frontmatter::byte_offsets(s.as_slice());
    let start = offsets[j + 1];
    let end = offsets[j + 1 + name_chars.len()];
    Some(byte_range_to_lsp_range(source, start, end))
}

/// The built-in filter or test `ident` as defined in the engine's source,
/// where that source could be read and defines it.
pub fn builtin_template_definition_target(
    kind: TemplateDefinitionKind,
    ident: &TemplateIdent,
    content: &str,
    engine: &Option<(String, String)>,
) -> (r: Option<TemplateDefinitionTarget>)
    requires
        content@.len() < u32::MAX,
        engine_fits(*engine),
    ensures
        match r {
            Some(t) => builtin_targets(engine_view(*engine), content@, kind, ident_view(*ident))
                == seq![target_view(t)],
            None => builtin_targets(engine_view(*engine), content@, kind, ident_view(*ident))
                == Seq::<DefinitionTargetView>::empty(),
        },
{
    match engine {
        None => None,
        Some((path, source)) => match builtin_template_definition_range(source.as_str(), kind, ident.text.as_str()) {
            Some(range) => {
                Some(TemplateDefinitionTarget {
                    kind,
                    name: ident.text.clone(),
                    source_range: template_ident_range(content, ident),
                    target_path: path.clone(),
                    target_range: range,
                })
            },
            None => None,
        },
    }
}


/// The block of a parent template that the block `source_ident` of
/// `template_file` overrides: found up the chain of `extends` of the text
/// `content` (see `template_block_definition`).
pub fn template_block_definition_target(
    project: &AuthoringProject,
    template_file: &str,
    content: &str,
    source_ident: &TemplateIdent,
) -> (r: Option<TemplateDefinitionTarget>)
    requires
        texts_fit(*project, content@, None),
    ensures
        match r {
            Some(t) => block_targets(*project, template_file@, content@, ident_view(*source_ident))
                == seq![target_view(t)],
            None => block_targets(*project, template_file@, content@, ident_view(*source_ident))
                == Seq::<DefinitionTargetView>::empty(),
        },
{
    let parent = match template_extends_path(template_file, content) {
        Some(p) => p,
        None => {
            return None;
        },
    };
    let (tf, tc, ti) = match template_block_definition(
        project,
        parent.as_str(),
        template_file,
        content,
        source_ident.text.as_str(),
    ) {
        Some(found) => found,
        None => {
            return None;
        },
    };
    proof {
        lemma_block_definition_fits(
            *project,
            parent@,
            template_file@,
            content@,
            source_ident.text@,
            chain_fuel(*project),
        );
    }
    let i = match find_key(&project.template_paths, tf.as_str()) {
        Some(i) => i,
        None => {
            return None;
        },
    };
    Some(TemplateDefinitionTarget {
        kind: TemplateDefinitionKind::Block,
        name: source_ident.text.clone(),
        source_range: template_ident_range(content, source_ident),
        target_path: project.template_paths[i].1.clone(),
        target_range: template_ident_range(tc.as_str(), &ti),
    })
}

/// The macro that the call `namespace::macro_name` in `template_file` calls
/// (see `template_macro_definition`), as a definition target named
/// `namespace::macro_name`.
pub fn template_macro_definition_target(
    project: &AuthoringProject,
    template_file: &str,
    content: &str,
    imports: &Vec<(String, String)>,
    namespace: &TemplateIdent,
    macro_name: &TemplateIdent,
) -> (r: Option<TemplateDefinitionTarget>)
    requires
        texts_fit(*project, content@, None),
    ensures
        match r {
            Some(t) => macro_targets(
                *project,
                template_file@,
                content@,
                pairs_view(imports@),
                ident_view(*namespace),
                ident_view(*macro_name),
            ) == seq![target_view(t)],
            None => macro_targets(
                *project,
                template_file@,
                content@,
                pairs_view(imports@),
                ident_view(*namespace),
                ident_view(*macro_name),
            ) == Seq::<DefinitionTargetView>::empty(),
        },
{
    let (tf, tc, ti) = match template_macro_definition(
        project,
        template_file,
        content,
        imports,
        namespace.text.as_str(),
        macro_name.text.as_str(),
    ) {
        Some(found) => found,
        None => {
            return None;
        },
    };
    proof {
        lemma_template_content_fits(*project, tf@, template_file@, content@);
    }
    let i = match find_key(&project.template_paths, tf.as_str()) {
        Some(i) => i,
        None => {
            return None;
        },
    };
    Some(TemplateDefinitionTarget {
        kind: TemplateDefinitionKind::Macro,
        name: crate::template_diagnostics::concat3(namespace.text.as_str(), "::", macro_name.text.as_str()),
        source_range: template_ident_range(content, macro_name),
        target_path: project.template_paths[i].1.clone(),
        target_range: template_ident_range(tc.as_str(), &ti),
    })
}


/// Appends `t`, where there is one.
fn push_target(
    targets: &mut Vec<TemplateDefinitionTarget>,
    t: Option<TemplateDefinitionTarget>,
    ts: Ghost<Seq<DefinitionTargetView>>,
)
    requires
        match t {
            Some(x) => ts@ == seq![target_view(x)],
            None => ts@ == Seq::<DefinitionTargetView>::empty(),
        },
    ensures
        targets_extend(final(targets)@, old(targets)@, ts@),
{
    match t {
        Some(x) => {
            targets.push(x);
            assert(targets@[old(targets)@.len() as int] == x);
        },
        None => {},
    }
}

/// Appends the definition targets of an expression, in source order: those
/// of its sub-expressions, then that of the built-in filter or test it
/// applies, or of the macro it calls.
pub fn collect_expr_definition_targets(
    project: &AuthoringProject,
    template_file: &str,
    content: &str,
    expr: &TemplateExpr,
    imports: &Vec<(String, String)>,
    engine: &Option<(String, String)>,
    targets: &mut Vec<TemplateDefinitionTarget>,
)
    requires
        texts_fit(*project, content@, *engine),
    ensures
        targets_extend(
            final(targets)@,
            old(targets)@,
            expr_targets(
                definition_scope(*project, template_file@, content@, imports@, *engine),
                expr_view(*expr),
            ),
        ),
    decreases expr, 1nat,
{
    let ghost sc = definition_scope(*project, template_file@, content@, imports@, *engine);
    let ghost t0 = targets@;
    match expr {
        TemplateExpr::Plain { operands } => {
            collect_exprs_definition_targets(project, template_file, content, operands, imports, engine, targets);
        },
        TemplateExpr::Filter { operands, filter } => {
            collect_exprs_definition_targets(project, template_file, content, operands, imports, engine, targets);
            let ghost t1 = targets@;
            let ghost f1 = exprs_targets(sc, exprs_view(operands@));
            let ghost f2 = if gingembre_builtin_filter(filter.text@) {
                builtin_targets(sc.engine, sc.content, TemplateDefinitionKind::Filter, ident_view(*filter))
            } else {
                Seq::<DefinitionTargetView>::empty()
            };
            let t = if is_builtin_filter(filter.text.as_str()) {
                builtin_template_definition_target(TemplateDefinitionKind::Filter, filter, content, engine)
            } else {
                None
            };
            push_target(targets, t, Ghost(f2));
            proof {
                lemma_targets_trans(t0, t1, targets@, f1, f2);
            }
        },
        TemplateExpr::Test { operands, test_name } => {
            collect_exprs_definition_targets(project, template_file, content, operands, imports, engine, targets);
            let ghost t1 = targets@;
            let ghost f1 = exprs_targets(sc, exprs_view(operands@));
            let ghost f2 = if gingembre_builtin_test(test_name.text@) {
                builtin_targets(sc.engine, sc.content, TemplateDefinitionKind::Test, ident_view(*test_name))
            } else {
                Seq::<DefinitionTargetView>::empty()
            };
            let t = if is_builtin_test(test_name.text.as_str()) {
                builtin_template_definition_target(TemplateDefinitionKind::Test, test_name, content, engine)
            } else {
                None
            };
            push_target(targets, t, Ghost(f2));
            proof {
                lemma_targets_trans(t0, t1, targets@, f1, f2);
            }
        },
        TemplateExpr::MacroCall { operands, namespace, macro_name } => {
            collect_exprs_definition_targets(project, template_file, content, operands, imports, engine, targets);
            let ghost t1 = targets@;
            let ghost f1 = exprs_targets(sc, exprs_view(operands@));
            let ghost f2 = macro_targets(sc.project, sc.file, sc.content, sc.imports, ident_view(*namespace), ident_view(*macro_name));
            let t = template_macro_definition_target(project, template_file, content, imports, namespace, macro_name);
            push_target(targets, t, Ghost(f2));
            proof {
                lemma_targets_trans(t0, t1, targets@, f1, f2);
            }
        },
    }
}

fn collect_exprs_definition_targets(
    project: &AuthoringProject,
    template_file: &str,
    content: &str,
    exprs: &Vec<TemplateExpr>,
    imports: &Vec<(String, String)>,
    engine: &Option<(String, String)>,
    targets: &mut Vec<TemplateDefinitionTarget>,
)
    requires
        texts_fit(*project, content@, *engine),
    ensures
        targets_extend(
            final(targets)@,
            old(targets)@,
            exprs_targets(
                definition_scope(*project, template_file@, content@, imports@, *engine),
                exprs_view(exprs@),
            ),
        ),
    decreases exprs@, 0nat,
{
    proof {
        lemma_exprs_view(exprs@);
    }
    let ghost sc = definition_scope(*project, template_file@, content@, imports@, *engine);
    let ghost s = exprs_view(exprs@);
    let ghost t0 = targets@;
    let mut i: usize = 0;
    assert(s.take(0) =~= Seq::<TemplateExprView>::empty());
    while i < exprs.len()
        invariant
            i <= exprs.len(),
            texts_fit(*project, content@, *engine),
            sc == definition_scope(*project, template_file@, content@, imports@, *engine),
            s == exprs_view(exprs@),
            s.len() == exprs@.len(),
            forall|j: int| 0 <= j < exprs@.len() ==> #[trigger] s[j] == expr_view(exprs@[j]),
            targets_extend(targets@, t0, exprs_targets(sc, s.take(i as int))),
        decreases exprs.len() - i,
    {
        let ghost t1 = targets@;
        collect_expr_definition_targets(project, template_file, content, &exprs[i], imports, engine, targets);
        proof {
            lemma_targets_trans(t0, t1, targets@, exprs_targets(sc, s.take(i as int)), expr_targets(sc, s[i as int]));
            let t = s.take(i + 1);
            assert(t.subrange(0, t.len() - 1) =~= s.take(i as int));
            assert(t[t.len() - 1] == s[i as int]);
        }
        i = i + 1;
    }
    assert(s.take(exprs.len() as int) =~= s);
}

fn collect_node_definition_targets(
    project: &AuthoringProject,
    template_file: &str,
    content: &str,
    node: &TemplateNode,
    imports: &Vec<(String, String)>,
    engine: &Option<(String, String)>,
    targets: &mut Vec<TemplateDefinitionTarget>,
)
    requires
        texts_fit(*project, content@, *engine),
    ensures
        targets_extend(
            final(targets)@,
            old(targets)@,
            node_targets(
                definition_scope(*project, template_file@, content@, imports@, *engine),
                node_view(*node),
            ),
        ),
    decreases node, 2nat,
{
    let ghost sc = definition_scope(*project, template_file@, content@, imports@, *engine);
    let ghost t0 = targets@;
    let ghost e = Seq::<DefinitionTargetView>::empty();
    match node {
        TemplateNode::Block { name, body } => {
            let ghost fb = block_targets(sc.project, sc.file, sc.content, ident_view(*name));
            let t = template_block_definition_target(project, template_file, content, name);
            push_target(targets, t, Ghost(fb));
            let ghost t1 = targets@;
            collect_template_definition_targets(project, template_file, content, body, imports, engine, targets);
            proof {
                lemma_targets_trans(t0, t1, targets@, fb, nodes_targets(sc, nodes_view(body@)));
            }
        },
        TemplateNode::Macro { body, .. } => {
            collect_template_definition_targets(project, template_file, content, body, imports, engine, targets);
        },
        TemplateNode::Print { expr } => {
            collect_expr_definition_targets(project, template_file, content, expr, imports, engine, targets);
        },
        TemplateNode::If { branches, else_body } => {
            collect_branches_definition_targets(project, template_file, content, branches, imports, engine, targets);
            let ghost t1 = targets@;
            let ghost fb = branches_targets(sc, branches_view(branches@));
            match else_body {
                Some(b) => {
                    collect_template_definition_targets(project, template_file, content, b, imports, engine, targets);
                    proof {
                        lemma_targets_trans(t0, t1, targets@, fb, nodes_targets(sc, nodes_view(b@)));
                    }
                },
                None => {
                    assert(fb + e =~= fb);
                },
            }
        },
        TemplateNode::For { iter, body, else_body } => {
            collect_expr_definition_targets(project, template_file, content, iter, imports, engine, targets);
            let ghost t1 = targets@;
            let ghost f1 = expr_targets(sc, expr_view(*iter));
            collect_template_definition_targets(project, template_file, content, body, imports, engine, targets);
            let ghost t2 = targets@;
            let ghost f2 = nodes_targets(sc, nodes_view(body@));
            proof {
                lemma_targets_trans(t0, t1, t2, f1, f2);
            }
            match else_body {
                Some(b) => {
                    collect_template_definition_targets(project, template_file, content, b, imports, engine, targets);
                    proof {
                        lemma_targets_trans(t0, t2, targets@, f1 + f2, nodes_targets(sc, nodes_view(b@)));
                    }
                },
                None => {
                    assert(f1 + f2 + e =~= f1 + f2);
                },
            }
        },
        TemplateNode::SetExpr { value } => {
            collect_expr_definition_targets(project, template_file, content, value, imports, engine, targets);
        },
        TemplateNode::SetBody { body } => {
            collect_template_definition_targets(project, template_file, content, body, imports, engine, targets);
        },
        TemplateNode::CallBlock { kwargs } => {
            collect_exprs_definition_targets(project, template_file, content, kwargs, imports, engine, targets);
        },
        _ => {},
    }
}

fn collect_branches_definition_targets(
    project: &AuthoringProject,
    template_file: &str,
    content: &str,
    branches: &Vec<TemplateBranch>,
    imports: &Vec<(String, String)>,
    engine: &Option<(String, String)>,
    targets: &mut Vec<TemplateDefinitionTarget>,
)
    requires
        texts_fit(*project, content@, *engine),
    ensures
        targets_extend(
            final(targets)@,
            old(targets)@,
            branches_targets(
                definition_scope(*project, template_file@, content@, imports@, *engine),
                branches_view(branches@),
            ),
        ),
    decreases branches@, 1nat,
{
    proof {
        lemma_branches_view(branches@);
    }
    let ghost sc = definition_scope(*project, template_file@, content@, imports@, *engine);
    let ghost s = branches_view(branches@);
    let ghost t0 = targets@;
    let mut i: usize = 0;
    assert(s.take(0) =~= Seq::<TemplateBranchView>::empty());
    while i < branches.len()
        invariant
            i <= branches.len(),
            texts_fit(*project, content@, *engine),
            sc == definition_scope(*project, template_file@, content@, imports@, *engine),
            s == branches_view(branches@),
            s.len() == branches@.len(),
            forall|j: int|
                0 <= j < branches@.len() ==> (#[trigger] s[j]).condition == expr_view(
                    branches@[j].condition,
                ) && s[j].body == nodes_view(branches@[j].body@),
            targets_extend(targets@, t0, branches_targets(sc, s.take(i as int))),
        decreases branches.len() - i,
    {
        let ghost t1 = targets@;
        collect_expr_definition_targets(project, template_file, content, &branches[i].condition, imports, engine, targets);
        let ghost t2 = targets@;
        collect_template_definition_targets(project, template_file, content, &branches[i].body, imports, engine, targets);
        proof {
            let fa = branches_targets(sc, s.take(i as int));
            let fc = expr_targets(sc, s[i as int].condition);
            let fd = nodes_targets(sc, s[i as int].body);
            lemma_targets_trans(t0, t1, t2, fa, fc);
            lemma_targets_trans(t0, t2, targets@, fa + fc, fd);
            let t = s.take(i + 1);
            assert(t.subrange(0, t.len() - 1) =~= s.take(i as int));
            assert(t[t.len() - 1] == s[i as int]);
        }
        i = i + 1;
    }
    assert(s.take(branches.len() as int) =~= s);
}

/// Appends the definition targets of `nodes`, in source order: for a block,
/// the parent's block it overrides; in expressions, the built-in filters and
/// tests they apply and the macros they call (the defaults of a macro's
/// parameters are not searched).
pub fn collect_template_definition_targets(
    project: &AuthoringProject,
    template_file: &str,
    content: &str,
    nodes: &Vec<TemplateNode>,
    imports: &Vec<(String, String)>,
    engine: &Option<(String, String)>,
    targets: &mut Vec<TemplateDefinitionTarget>,
)
    requires
        texts_fit(*project, content@, *engine),
    ensures
        targets_extend(
            final(targets)@,
            old(targets)@,
            nodes_targets(
                definition_scope(*project, template_file@, content@, imports@, *engine),
                nodes_view(nodes@),
            ),
        ),
    decreases nodes@, 0nat,
{
    proof {
        lemma_nodes_view(nodes@);
    }
    let ghost sc = definition_scope(*project, template_file@, content@, imports@, *engine);
    let ghost s = nodes_view(nodes@);
    let ghost t0 = targets@;
    let mut i: usize = 0;
    assert(s.take(0) =~= Seq::<TemplateNodeView>::empty());
    while i < nodes.len()
        invariant
            i <= nodes.len(),
            texts_fit(*project, content@, *engine),
            sc == definition_scope(*project, template_file@, content@, imports@, *engine),
            s == nodes_view(nodes@),
            s.len() == nodes@.len(),
            forall|j: int| 0 <= j < nodes@.len() ==> #[trigger] s[j] == node_view(nodes@[j]),
            targets_extend(targets@, t0, nodes_targets(sc, s.take(i as int))),
        decreases nodes.len() - i,
    {
        let ghost t1 = targets@;
        collect_node_definition_targets(project, template_file, content, &nodes[i], imports, engine, targets);
        proof {
            lemma_targets_trans(t0, t1, targets@, nodes_targets(sc, s.take(i as int)), node_targets(sc, s[i as int]));
            let t = s.take(i + 1);
            assert(t.subrange(0, t.len() - 1) =~= s.take(i as int));
            assert(t[t.len() - 1] == s[i as int]);
        }
        i = i + 1;
    }
    assert(s.take(nodes.len() as int) =~= s);
}

/// The definition targets of the names in template `template_file` whose
/// text is `content`: none for a template the project does not have or a
/// text that does not parse; else those of its nodes, in source order (see
/// [`collect_template_definition_targets`]). `engine` is the path and text
/// of the template engine's source file that defines the built-in filters
/// and tests, where it could be read.
pub fn template_definition_targets(
    project: &AuthoringProject,
    template_file: &str,
    content: &str,
    engine: &Option<(String, String)>,
) -> (r: Vec<TemplateDefinitionTarget>)
    requires
        texts_fit(*project, content@, *engine),
    ensures
        targets_extend(
            r@,
            Seq::empty(),
            if crate::model::key_index(project.template_contents@, template_file@) is None {
                Seq::empty()
            } else {
                match gingembre_template(content@) {
                    None => Seq::empty(),
                    Some(nodes) => nodes_targets(
                        DefinitionScope {
                            project: *project,
                            file: template_file@,
                            content: content@,
                            imports: nodes_aliases(*project, nodes),
                            engine: engine_view(*engine),
                        },
                        nodes,
                    ),
                }
            },
        ),
{
    let mut targets: Vec<TemplateDefinitionTarget> = Vec::new();
    if find_key(&project.template_contents, template_file).is_none() {
        return targets;
    }
    let nodes = match parse_template(template_file, content) {
        Some(n) => n,
        None => {
            return targets;
        },
    };
    let imports = template_import_aliases(project, &nodes);
    collect_template_definition_targets(project, template_file, content, &nodes, &imports, engine, &mut targets);
    targets
}

/// A macro call of a template has a definition target exactly when the
/// template's diagnostics do not report its macro as unknown.
pub proof fn law_macro_call_target_iff_not_reported(
    project: AuthoringProject,
    file: Seq<char>,
    content: Seq<char>,
    imports: Seq<(Seq<char>, Seq<char>)>,
    namespace: TemplateIdentView,
    macro_name: TemplateIdentView,
)
    ensures
        macro_targets(project, file, content, imports, namespace, macro_name).len() == 1
            <==> crate::template_diagnostics::expr_findings(
            crate::template_diagnostics::TemplateScope { project, file, content, imports },
            TemplateExprView::MacroCall { operands: Seq::empty(), namespace, macro_name },
        ).len() == 0,
        macro_targets(project, file, content, imports, namespace, macro_name).len() <= 1,
{
    let scope = crate::template_diagnostics::TemplateScope { project, file, content, imports };
    assert(crate::template_diagnostics::exprs_findings(scope, Seq::empty()) == Seq::<
        crate::template_diagnostics::TemplateFinding,
    >::empty());
    match macro_definition(project, file, content, imports, namespace.text, macro_name.text) {
        Some((t, tc, ti)) => {
            let k = crate::model::key_index(project.template_paths@, t);
            assert(k is Some);
        },
        None => {},
    }
}

} // verus!
