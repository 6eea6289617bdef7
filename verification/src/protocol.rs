//! The editor-protocol values the server computes: positions, ranges,
//! locations, completion items, diagnostics and semantic tokens.
use vstd::prelude::*;
use crate::strings::opt_str;

verus! {

/// A zero-based line and character offset in a document.
#[derive(Clone, Copy, Debug, PartialEq, Eq, Structural)]
pub struct Position {
    pub line: u32,
    pub character: u32,
}

/// A span between two positions.
#[derive(Clone, Copy, Debug, PartialEq, Eq, Structural)]
pub struct Range {
    pub start: Position,
    pub end: Position,
}

/// A range inside the document named by `uri`.
#[derive(Clone, Debug)]
pub struct Location {
    pub uri: String,
    pub range: Range,
}

/// The kinds of completion items the server offers.
#[derive(Clone, Copy, Debug, PartialEq, Eq, Structural)]
pub enum CompletionItemKind {
    Struct,
    Class,
    Function,
    Variable,
    Interface,
    Field,
    Method,
    Keyword,
    TypeParameter,
    Enum,
    EnumMember,
}

/// One completion proposal.
#[derive(Clone, Debug)]
pub struct CompletionItem {
    pub label: String,
    pub kind: Option<CompletionItemKind>,
    pub detail: Option<String>,
    pub documentation: Option<String>,
    pub insert_text: Option<String>,
}

/// What a completion item shows: label, kind, detail, documentation and the
/// text it inserts.
pub type ItemView = (
    Seq<char>,
    Option<CompletionItemKind>,
    Option<Seq<char>>,
    Option<Seq<char>>,
    Option<Seq<char>>,
);

/// What a completion item shows.
pub open spec fn item_view(c: CompletionItem) -> ItemView {
    (c.label@, c.kind, opt_str(c.detail), opt_str(c.documentation), opt_str(c.insert_text))
}

/// The views of a list of completion items.
pub open spec fn item_views(v: Seq<CompletionItem>) -> Seq<ItemView> {
    v.map_values(|c: CompletionItem| item_view(c))
}

/// An item with a label, a kind and a detail, and nothing else.
pub open spec fn plain_item(label: Seq<char>, kind: CompletionItemKind, detail: Seq<char>) -> ItemView {
    (label, Some(kind), Some(detail), None, None)
}

/// The severities the server reports.
#[derive(Clone, Copy, Debug, PartialEq, Eq, Structural)]
pub enum DiagnosticSeverity {
    Error,
    Warning,
    Information,
    Hint,
}

/// A problem reported at a range of a document.
#[derive(Clone, Debug)]
pub struct Diagnostic {
    pub range: Range,
    pub severity: Option<DiagnosticSeverity>,
    pub message: String,
}

/// The semantic token types the server knows of.
#[derive(Clone, Copy, Debug, PartialEq, Eq, Structural)]
pub enum SemanticTokenType {
    Keyword,
    Type,
    Function,
    Method,
    Variable,
    Parameter,
    Macro,
    Number,
    String,
    Operator,
    Struct,
    EnumMember,
}

/// The standard semantic token modifiers.
#[derive(Clone, Copy, Debug, PartialEq, Eq, Structural)]
pub enum SemanticTokenModifier {
    Declaration,
    Definition,
    Readonly,
    Static,
    Deprecated,
    Abstract,
    Async,
    Modification,
    Documentation,
    DefaultLibrary,
}

/// One semantic token. Before encoding, `delta_line` and `delta_start` hold
/// the absolute line and column; after encoding, the differences to the
/// previous token.
#[derive(Clone, Copy, Debug, PartialEq, Eq, Structural)]
pub struct SemanticToken {
    pub delta_line: u32,
    pub delta_start: u32,
    pub length: u32,
    pub token_type: u32,
    pub token_modifiers_bitset: u32,
}

/// The token types and modifiers a client is told about; tokens refer to
/// them by index.
#[derive(Clone, Debug)]
pub struct SemanticTokensLegend {
    pub token_types: Vec<SemanticTokenType>,
    pub token_modifiers: Vec<SemanticTokenModifier>,
}

/// A position built from its two coordinates.
pub open spec fn pos(line: u32, character: u32) -> Position {
    Position { line, character }
}

} // verus!
