//! Authoring diagnostics: dead links, frontmatter problems and site-graph
//! findings, located by one-based line/column spans and byte offsets.
use vstd::prelude::*;

use crate::build_steps::{key_less, lemma_lex_antisymmetric, lemma_lex_total, lemma_lex_transitive, lex_le};
use crate::text::{str_eq, to_chars};
use crate::positions::{byte_to_line_column, spec_byte_to_line_column, Position, Range};

verus! {

/// What an authoring diagnostic is about.
#[derive(Clone, Copy, Debug, PartialEq, Eq, Structural)]
pub enum AuthoringDiagnosticKind {
    Route,
    Anchor,
    Source,
    StaticAsset,
    Frontmatter,
    MissingTemplate,
    MissingBlock,
    UnknownMacro,
    UnknownFilter,
    UnknownTest,
    DuplicateTitle,
    DuplicateRoute,
    OrphanPage,
    NoInboundLinks,
}

/// A dead-link or authoring diagnostic, with a one-based line/column span
/// and the byte span it was computed from.
#[derive(Clone, Debug)]
pub struct AuthoringDiagnostic {
    pub source_file: String,
    pub route: String,
    pub kind: AuthoringDiagnosticKind,
    pub target: String,
    pub resolved_route: Option<String>,
    pub message: String,
    pub line: u32,
    pub column: u32,
    pub line_end: u32,
    pub column_end: u32,
    pub byte_start: usize,
    pub byte_end: usize,
}

/// The wire name of a diagnostic kind.
pub open spec fn spec_diagnostic_kind_name(kind: AuthoringDiagnosticKind) -> Seq<char> {
    match kind {
        AuthoringDiagnosticKind::Route => "missingRoute"@,
        AuthoringDiagnosticKind::Anchor => "missingAnchor"@,
        AuthoringDiagnosticKind::Source => "missingSource"@,
        AuthoringDiagnosticKind::StaticAsset => "missingStaticAsset"@,
        AuthoringDiagnosticKind::Frontmatter => "frontmatter"@,
        AuthoringDiagnosticKind::MissingTemplate => "missingTemplate"@,
        AuthoringDiagnosticKind::MissingBlock => "missingBlock"@,
        AuthoringDiagnosticKind::UnknownMacro => "unknownMacro"@,
        AuthoringDiagnosticKind::UnknownFilter => "unknownFilter"@,
        AuthoringDiagnosticKind::UnknownTest => "unknownTest"@,
        AuthoringDiagnosticKind::DuplicateTitle => "duplicateTitle"@,
        AuthoringDiagnosticKind::DuplicateRoute => "duplicateRoute"@,
        AuthoringDiagnosticKind::OrphanPage => "orphanPage"@,
        AuthoringDiagnosticKind::NoInboundLinks => "noInboundLinks"@,
    }
}

/// The wire name of a diagnostic kind (used as the diagnostic code).
pub fn diagnostic_kind_name(kind: AuthoringDiagnosticKind) -> (r: &'static str)
    ensures
        r@ == spec_diagnostic_kind_name(kind),
{
    match kind {
        AuthoringDiagnosticKind::Route => "missingRoute",
        AuthoringDiagnosticKind::Anchor => "missingAnchor",
        AuthoringDiagnosticKind::Source => "missingSource",
        AuthoringDiagnosticKind::StaticAsset => "missingStaticAsset",
        AuthoringDiagnosticKind::Frontmatter => "frontmatter",
        AuthoringDiagnosticKind::MissingTemplate => "missingTemplate",
        AuthoringDiagnosticKind::MissingBlock => "missingBlock",
        AuthoringDiagnosticKind::UnknownMacro => "unknownMacro",
        AuthoringDiagnosticKind::UnknownFilter => "unknownFilter",
        AuthoringDiagnosticKind::UnknownTest => "unknownTest",
        AuthoringDiagnosticKind::DuplicateTitle => "duplicateTitle",
        AuthoringDiagnosticKind::DuplicateRoute => "duplicateRoute",
        AuthoringDiagnosticKind::OrphanPage => "orphanPage",
        AuthoringDiagnosticKind::NoInboundLinks => "noInboundLinks",
    }
}

/// `u - 1`, or 0 for 0.
pub open spec fn sat_dec(u: u32) -> u32 {
    if u == 0 {
        0
    } else {
        (u - 1) as u32
    }
}

impl AuthoringDiagnostic {
    /// The zero-based editor range of the diagnostic's span.
    pub open spec fn spec_range(&self) -> Range {
        Range {
            start: Position { line: sat_dec(self.line), character: sat_dec(self.column) },
            end: Position { line: sat_dec(self.line_end), character: sat_dec(self.column_end) },
        }
    }

    /// The zero-based editor range of the diagnostic's span.
    pub fn range(&self) -> (r: Range)
        ensures
            r == self.spec_range(),
    {
        Range {
            start: Position {
                line: if self.line == 0 {
                    0
                } else {
                    self.line - 1
                },
                character: if self.column == 0 {
                    0
                } else {
                    self.column - 1
                },
            },
            end: Position {
                line: if self.line_end == 0 {
                    0
                } else {
                    self.line_end - 1
                },
                character: if self.column_end == 0 {
                    0
                } else {
                    self.column_end - 1
                },
            },
        }
    }

    /// The diagnostic's position fields are those of the byte span
    /// `byte_start..byte_end` in `content`.
    pub open spec fn located_in(&self, content: Seq<char>) -> bool {
        &&& self.line as nat == spec_byte_to_line_column(content, self.byte_start as int).0
        &&& self.column as nat == spec_byte_to_line_column(content, self.byte_start as int).1
        &&& self.line_end as nat == spec_byte_to_line_column(content, self.byte_end as int).0
        &&& self.column_end as nat == spec_byte_to_line_column(content, self.byte_end as int).1
    }
}

/// A diagnostic in a template: no route, no resolved route, located at the
/// byte span `byte_start..byte_end` of `content`.
pub fn template_diagnostic_for_span(
    template_file: &str,
    content: &str,
    kind: AuthoringDiagnosticKind,
    target: &str,
    message: String,
    byte_start: usize,
    byte_end: usize,
) -> (d: AuthoringDiagnostic)
    requires
        content@.len() < u32::MAX,
    ensures
        d.source_file@ == template_file@,
        d.route@ == Seq::<char>::empty(),
        d.kind == kind,
        d.target@ == target@,
        d.resolved_route is None,
        d.message == message,
        d.byte_start == byte_start,
        d.byte_end == byte_end,
        d.located_in(content@),
{
    let (line, column) = byte_to_line_column(content, byte_start);
    let (line_end, column_end) = byte_to_line_column(content, byte_end);
    AuthoringDiagnostic {
        source_file: template_file.to_owned(),
        route: String::new(),
        kind,
        target: target.to_owned(),
        resolved_route: None,
        message,
        line,
        column,
        line_end,
        column_end,
        byte_start,
        byte_end,
    }
}

/// A frontmatter diagnostic of page `source_file` (at `route`), located at
/// the byte span `byte_start..byte_end` of `content`.
pub fn frontmatter_diagnostic(
    source_file: &str,
    route: &str,
    content: &str,
    target: &str,
    message: String,
    byte_start: usize,
    byte_end: usize,
) -> (d: AuthoringDiagnostic)
    requires
        content@.len() < u32::MAX,
    ensures
        d.source_file@ == source_file@,
        d.route@ == route@,
        d.kind == AuthoringDiagnosticKind::Frontmatter,
        d.target@ == target@,
        d.resolved_route is None,
        d.message == message,
        d.byte_start == byte_start,
        d.byte_end == byte_end,
        d.located_in(content@),
{
    let (line, column) = byte_to_line_column(content, byte_start);
    let (line_end, column_end) = byte_to_line_column(content, byte_end);
    AuthoringDiagnostic {
        source_file: source_file.to_owned(),
        route: route.to_owned(),
        kind: AuthoringDiagnosticKind::Frontmatter,
        target: target.to_owned(),
        resolved_route: None,
        message,
        line,
        column,
        line_end,
        column_end,
        byte_start,
        byte_end,
    }
}

// ---------------------------------------------------------------------------
// Order of diagnostics
// ---------------------------------------------------------------------------

/// `a` is listed no later than `b`: by source file, then byte offset, then
/// target.
pub open spec fn diag_le(a: AuthoringDiagnostic, b: AuthoringDiagnostic) -> bool {
    if a.source_file@ != b.source_file@ {
        lex_le(a.source_file@, b.source_file@)
    } else if a.byte_start != b.byte_start {
        a.byte_start < b.byte_start
    } else {
        lex_le(a.target@, b.target@)
    }
}

proof fn lemma_diag_total(a: AuthoringDiagnostic, b: AuthoringDiagnostic)
    ensures
        diag_le(a, b) || diag_le(b, a),
{
    lemma_lex_total(a.source_file@, b.source_file@);
    lemma_lex_total(a.target@, b.target@);
}

proof fn lemma_diag_transitive(a: AuthoringDiagnostic, b: AuthoringDiagnostic, c: AuthoringDiagnostic)
    requires
        diag_le(a, b),
        diag_le(b, c),
    ensures
        diag_le(a, c),
{
    let (x, y, z) = (a.source_file@, b.source_file@, c.source_file@);
    if x != y && y != z {
        lemma_lex_transitive(x, y, z);
        if x == z {
            lemma_lex_antisymmetric(x, y);
        }
    } else if x == y && y == z {
        if a.byte_start == b.byte_start && b.byte_start == c.byte_start {
            lemma_lex_transitive(a.target@, b.target@, c.target@);
        }
    }
}

fn diag_less(a: &AuthoringDiagnostic, b: &AuthoringDiagnostic) -> (r: bool)
    ensures
        r == !diag_le(*b, *a),
{
    if !str_eq(a.source_file.as_str(), b.source_file.as_str()) {
        let x = to_chars(a.source_file.as_str());
        let y = to_chars(b.source_file.as_str());
        key_less(x.as_slice(), y.as_slice())
    } else if a.byte_start != b.byte_start {
        a.byte_start < b.byte_start
    } else {
        let x = to_chars(a.target.as_str());
        let y = to_chars(b.target.as_str());
        key_less(x.as_slice(), y.as_slice())
    }
}

/// The diagnostics are listed in order.
pub open spec fn diags_sorted(v: Seq<AuthoringDiagnostic>) -> bool {
    forall|i: int, j: int| 0 <= i < j < v.len() ==> diag_le(#[trigger] v[i], #[trigger] v[j])
}

/// The diagnostics in order of source file, byte offset and target: the
/// same diagnostics, rearranged.
pub fn sort_diagnostics(v: Vec<AuthoringDiagnostic>) -> (r: Vec<AuthoringDiagnostic>)
    ensures
        r@.to_multiset() == v@.to_multiset(),
        diags_sorted(r@),
{
    let mut rest = v;
    let mut out: Vec<AuthoringDiagnostic> = Vec::new();
    proof {
        broadcast use vstd::seq_lib::group_to_multiset_ensures;

        assert(out@.to_multiset().add(rest@.to_multiset()) =~= rest@.to_multiset());
    }
    while rest.len() > 0
        invariant
            out@.to_multiset().add(rest@.to_multiset()) == v@.to_multiset(),
            diags_sorted(out@),
        decreases rest.len(),
    {
        let ghost rest_before = rest@;
        let ghost out_before = out@;
        let e = rest.pop().unwrap();
        assert(rest_before == rest@.push(e));
        let mut pos: usize = 0;
        let mut stop = false;
        while pos < out.len() && !stop
            invariant
                pos <= out.len(),
                out@ == out_before,
                forall|j: int| 0 <= j < pos ==> diag_le(#[trigger] out@[j], e),
                stop ==> pos < out.len() && !diag_le(out@[pos as int], e),
            decreases out.len() - pos + if stop {
                0int
            } else {
                1int
            },
        {
            if diag_less(&e, &out[pos]) {
                stop = true;
            } else {
                pos = pos + 1;
            }
        }
        let ghost p = pos as int;
        out.insert(pos, e);
        assert(out@ == out_before.insert(p, e));
        assert(diags_sorted(out@)) by {
            assert forall|i: int, j: int| 0 <= i < j < out@.len() implies diag_le(
                #[trigger] out@[i],
                #[trigger] out@[j],
            ) by {
                if j < p {
                } else if i < p && j == p {
                } else if i < p && j > p {
                    assert(out@[j] == out_before[j - 1]);
                } else if i == p {
                    assert(out@[j] == out_before[j - 1]);
                    lemma_diag_total(e, out_before[p]);
                    if j - 1 > p {
                        assert(diag_le(out_before[p], out_before[j - 1]));
                        lemma_diag_transitive(e, out_before[p], out_before[j - 1]);
                    }
                } else {
                    assert(out@[i] == out_before[i - 1]);
                    assert(out@[j] == out_before[j - 1]);
                }
            }
        }
        proof {
            broadcast use vstd::seq_lib::group_to_multiset_ensures;

            assert(out@.to_multiset().add(rest@.to_multiset()) =~= out_before.to_multiset().add(
                rest_before.to_multiset(),
            ));
        }
    }
    out
}

} // verus!
