//! Documents that a template or a page's frontmatter points at: the kind of
//! reference, and the text the editor shows for it.
use vstd::prelude::*;

use crate::positions::Range;
use crate::text::{from_chars, push_str_chars};

verus! {

/// How a template refers to another template.
#[derive(Clone, Copy, Debug, PartialEq, Eq, Structural)]
pub enum TemplateDocumentKind {
    Extends,
    Include,
    Import,
}

impl TemplateDocumentKind {
    /// The keyword of the reference.
    pub open spec fn spec_label(self) -> Seq<char> {
        match self {
            TemplateDocumentKind::Extends => "extends"@,
            TemplateDocumentKind::Include => "include"@,
            TemplateDocumentKind::Import => "import"@,
        }
    }

    /// The keyword of the reference.
    pub fn label(self) -> (r: &'static str)
        ensures
            r@ == self.spec_label(),
    {
        match self {
            TemplateDocumentKind::Extends => "extends",
            TemplateDocumentKind::Include => "include",
            TemplateDocumentKind::Import => "import",
        }
    }
}

/// A template named by another template, with where the reference stands.
pub struct TemplateDocumentTarget {
    pub kind: TemplateDocumentKind,
    pub path: String,
    pub target_path: String,
    pub source_range: Range,
}

impl TemplateDocumentTarget {
    /// `Open Dodeca template <kind> `<path>``.
    pub fn tooltip(&self) -> (r: String)
        ensures
            r@ == "Open Dodeca template "@ + self.kind.spec_label() + " `"@ + self.path@ + "`"@,
    {
        let mut out: Vec<char> = Vec::new();
        push_str_chars(&mut out, "Open Dodeca template ");
        push_str_chars(&mut out, self.kind.label());
        push_str_chars(&mut out, " `");
        push_str_chars(&mut out, self.path.as_str());
        push_str_chars(&mut out, "`");
        from_chars(out.as_slice())
    }

    /// The hover text: the kind, the template as written and its file.
    pub fn hover_markdown(&self) -> (r: String)
        ensures
            r@ == "**Dodeca template "@ + self.kind.spec_label() + "**\n\n`"@ + self.path@
                + "`\n\nSource: `"@ + self.target_path@ + "`"@,
    {
        let mut out: Vec<char> = Vec::new();
        push_str_chars(&mut out, "**Dodeca template ");
        push_str_chars(&mut out, self.kind.label());
        push_str_chars(&mut out, "**\n\n`");
        push_str_chars(&mut out, self.path.as_str());
        push_str_chars(&mut out, "`\n\nSource: `");
        push_str_chars(&mut out, self.target_path.as_str());
        push_str_chars(&mut out, "`");
        from_chars(out.as_slice())
    }
}

/// What a frontmatter field of a page points at.
#[derive(Clone, Copy, Debug, PartialEq, Eq, Structural)]
pub enum FrontmatterDocumentKind {
    Template,
    StaticAsset,
    DataFile,
}

impl FrontmatterDocumentKind {
    /// The name of the kind of document.
    pub open spec fn spec_label(self) -> Seq<char> {
        match self {
            FrontmatterDocumentKind::Template => "template"@,
            FrontmatterDocumentKind::StaticAsset => "static asset"@,
            FrontmatterDocumentKind::DataFile => "data file"@,
        }
    }

    /// The name of the kind of document.
    pub fn label(self) -> (r: &'static str)
        ensures
            r@ == self.spec_label(),
    {
        match self {
            FrontmatterDocumentKind::Template => "template",
            FrontmatterDocumentKind::StaticAsset => "static asset",
            FrontmatterDocumentKind::DataFile => "data file",
        }
    }
}

/// A document named in a page's frontmatter, with where it is named.
pub struct FrontmatterDocumentTarget {
    pub kind: FrontmatterDocumentKind,
    pub path: String,
    pub target_path: String,
    pub source_range: Range,
}

impl View for FrontmatterDocumentTarget {
    type V = (FrontmatterDocumentKind, Seq<char>, Seq<char>, Range);

    open spec fn view(&self) -> Self::V {
        (self.kind, self.path@, self.target_path@, self.source_range)
    }
}

impl FrontmatterDocumentTarget {
    /// `Open Dodeca <kind> `<path>``.
    pub fn tooltip(&self) -> (r: String)
        ensures
            r@ == "Open Dodeca "@ + self.kind.spec_label() + " `"@ + self.path@ + "`"@,
    {
        let mut out: Vec<char> = Vec::new();
        push_str_chars(&mut out, "Open Dodeca ");
        push_str_chars(&mut out, self.kind.label());
        push_str_chars(&mut out, " `");
        push_str_chars(&mut out, self.path.as_str());
        push_str_chars(&mut out, "`");
        from_chars(out.as_slice())
    }

    /// The hover text: the kind, the path as written and its file.
    pub fn hover_markdown(&self) -> (r: String)
        ensures
            r@ == "**Dodeca "@ + self.kind.spec_label() + "**\n\n`"@ + self.path@
                + "`\n\nSource: `"@ + self.target_path@ + "`"@,
    {
        let mut out: Vec<char> = Vec::new();
        push_str_chars(&mut out, "**Dodeca ");
        push_str_chars(&mut out, self.kind.label());
        push_str_chars(&mut out, "**\n\n`");
        push_str_chars(&mut out, self.path.as_str());
        push_str_chars(&mut out, "`\n\nSource: `");
        push_str_chars(&mut out, self.target_path.as_str());
        push_str_chars(&mut out, "`");
        from_chars(out.as_slice())
    }
}

} // verus!
