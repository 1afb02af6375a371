//! The ordered list of wikitext parsing rules.
use vstd::prelude::*;

verus! {

/// A wikitext parsing rule, named after its Wikidot Text_Wiki counterpart.
#[derive(Debug, Clone, Copy, PartialEq, Eq, Structural)]
pub enum Rule {
    Include,
    Prefilter,
    Delimeter,
    Code,
    Form,
    Raw,
    RawOld,
    ModulePre,
    Module,
    Module654,
    IfTags,
    Comment,
    IFrame,
    Date,
    Math,
    ConcatLines,
    FreeLink,
    EquationReference,
    Footnote,
    FootnoteItem,
    FootnoteBlock,
    BibItem,
    Bibliography,
    BibCite,
    Html,
    DivPrefilter,
    Anchor,
    User,
    Blockquote,
    Heading,
    Toc,
    Horiz,
    Separator,
    ClearFloat,
    Break,
    Span,
    Size,
    Div,
    DivAlign,
    Collapsible,
    TabView,
    Note,
    Gallery,
    List,
    DefList,
    Table,
    TableAdv,
    Image,
    Embed,
    Social,
    File,
    Center,
    Newline,
    Paragraph,
    Url,
    Email,
    MathInline,
    Interwiki,
    Colortext,
    Strong,
    Emphasis,
    Underline,
    Strikethrough,
    Teletype,
    Superscript,
    Subscript,
    Typography,
    Tighten,
}

/// The parsing rules in the order in which Text_Wiki applies them; the
/// order is kept as it is for backwards compatibility.
pub const RULES: [Rule; 68] = [
    Rule::Include,
    Rule::Prefilter,
    Rule::Delimeter,
    Rule::Code,
    Rule::Form,
    Rule::Raw,
    Rule::RawOld,
    Rule::ModulePre,
    Rule::Module,
    Rule::Module654,
    Rule::IfTags,
    Rule::Comment,
    Rule::IFrame,
    Rule::Date,
    Rule::Math,
    Rule::ConcatLines,
    Rule::FreeLink,
    Rule::EquationReference,
    Rule::Footnote,
    Rule::FootnoteItem,
    Rule::FootnoteBlock,
    Rule::BibItem,
    Rule::Bibliography,
    Rule::BibCite,
    Rule::Html,
    Rule::DivPrefilter,
    Rule::Anchor,
    Rule::User,
    Rule::Blockquote,
    Rule::Heading,
    Rule::Toc,
    Rule::Horiz,
    Rule::Separator,
    Rule::ClearFloat,
    Rule::Break,
    Rule::Span,
    Rule::Size,
    Rule::Div,
    Rule::DivAlign,
    Rule::Collapsible,
    Rule::TabView,
    Rule::Note,
    Rule::Gallery,
    Rule::List,
    Rule::DefList,
    Rule::Table,
    Rule::TableAdv,
    Rule::Image,
    Rule::Embed,
    Rule::Social,
    Rule::File,
    Rule::Center,
    Rule::Newline,
    Rule::Paragraph,
    Rule::Url,
    Rule::Email,
    Rule::MathInline,
    Rule::Interwiki,
    Rule::Colortext,
    Rule::Strong,
    Rule::Emphasis,
    Rule::Underline,
    Rule::Strikethrough,
    Rule::Teletype,
    Rule::Superscript,
    Rule::Subscript,
    Rule::Typography,
    Rule::Tighten,
];

/// The syntax tree that parsing rules are applied to.
#[derive(Debug, Clone, Copy, PartialEq, Eq, Structural)]
pub struct SyntaxTree;

impl Rule {
    /// Applies this rule to `tree`. No rule rewrites the tree yet, so the
    /// tree is left as it is.
    pub fn apply(&self, tree: &mut SyntaxTree)
        ensures
            *final(tree) == *old(tree),
    {
    }
}

} // verus!
