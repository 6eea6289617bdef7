//! The documents the server holds and the answers it computes from them.
use vstd::prelude::*;
use ropey::Rope;
use crate::ast::Ast;
use crate::completion::{context_completions, get_completions_with_context};
use crate::definition::{
    col_fits, definition_location, definition_token, find_definition_token, get_definition_location, location_view,
};
use crate::hover::{get_hover_info, hover_ends, hover_info, hover_terminates};
use crate::includes::{get_include_location, include_location};
use crate::protocol::{
    item_views, CompletionItem, Diagnostic, Location, Position, SemanticTokenType,
    SemanticTokensLegend,
};
use crate::strings::{concat_str, opt_str, str_eq};
use crate::text::{rope_len_lines, rope_line, rope_text, text_lines};
use crate::words::{extract_word_and_prefix, word_at};

verus! {

/// An open document: its text, the program parsed from it (when parsing
/// succeeded), the problems found, and the macros it defines (name, body).
#[derive(Debug)]
pub struct Document {
    pub uri: String,
    pub content: Rope,
    pub ast: Option<Ast>,
    pub diagnostics: Vec<Diagnostic>,
    pub macros: Vec<(String, String)>,
}

/// The token types the server announces, in legend order.
pub open spec fn legend_types() -> Seq<SemanticTokenType> {
    seq![
        SemanticTokenType::Keyword,
        SemanticTokenType::Type,
        SemanticTokenType::Function,
        SemanticTokenType::Method,
        SemanticTokenType::Variable,
        SemanticTokenType::Parameter,
        SemanticTokenType::Macro,
        SemanticTokenType::Number,
        SemanticTokenType::String,
        SemanticTokenType::Operator,
    ]
}

/// The legend the server announces: its token types and no modifiers.
pub fn semantic_tokens_legend() -> (l: SemanticTokensLegend)
    ensures
        l.token_types@ == legend_types(),
        l.token_modifiers@.len() == 0,
{
    let token_types = vec![
        SemanticTokenType::Keyword,
        SemanticTokenType::Type,
        SemanticTokenType::Function,
        SemanticTokenType::Method,
        SemanticTokenType::Variable,
        SemanticTokenType::Parameter,
        SemanticTokenType::Macro,
        SemanticTokenType::Number,
        SemanticTokenType::String,
        SemanticTokenType::Operator,
    ];
    assert(token_types@ =~= legend_types());
    SemanticTokensLegend { token_types, token_modifiers: Vec::new() }
}

/// The index of the first macro named `name`.
pub open spec fn macro_named(macros: Seq<(String, String)>, name: Seq<char>, i: int) -> Option<int>
    decreases macros.len() - i,
{
    if i < 0 || i >= macros.len() {
        None
    } else if macros[i].0@ == name {
        Some(i)
    } else {
        macro_named(macros, name, i + 1)
    }
}

/// The hover text of a macro: its body in a P4 code block.
pub open spec fn macro_text(body: Seq<char>) -> Seq<char> {
    "```p4\n"@ + body + "\n```"@
}

/// The hover for the word at `position`, when a macro of the document has
/// that name: the body of the first such macro.
pub open spec fn macro_hover(macros: Seq<(String, String)>, text: Seq<char>, position: Position) -> Option<Seq<char>> {
    let lines = text_lines(text);
    let li = position.line as int;
    if macros.len() == 0 || li >= lines.len() {
        None
    } else {
        match word_at(lines[li], position.character as int) {
            None => None,
            Some(w) => match macro_named(macros, w, 0) {
                Some(i) => Some(macro_text(macros[i].1@)),
                None => None,
            },
        }
    }
}

/// The hover for a macro used at `position`.
pub fn get_macro_hover(doc: &Document, position: Position) -> (r: Option<String>)
    ensures
        opt_str(r) == macro_hover(doc.macros@, rope_text(doc.content), position),
{
    if doc.macros.len() == 0 {
        return None;
    }
    let line_idx = position.line as usize;
    let col_idx = position.character as usize;
    if line_idx >= rope_len_lines(&doc.content) {
        return None;
    }
    let line_str = rope_line(&doc.content, line_idx);
    let (word, _) = extract_word_and_prefix(line_str.as_str(), col_idx);
    let word = match word {
        Some(w) => w,
        None => return None,
    };
    let mut i: usize = 0;
    while i < doc.macros.len()
        invariant
            i <= doc.macros@.len(),
            macro_named(doc.macros@, word@, i as int) == macro_named(doc.macros@, word@, 0),
            doc.macros@.len() > 0,
            (position.line as int) < text_lines(rope_text(doc.content)).len(),
            Some(word@) == word_at(
                text_lines(rope_text(doc.content))[position.line as int],
                position.character as int,
            ),
        decreases doc.macros@.len() - i,
    {
        if str_eq(doc.macros[i].0.as_str(), word.as_str()) {
            let mut text = concat_str("```p4\n", doc.macros[i].1.as_str());
            text.append("\n```");
            return Some(text);
        }
        i += 1;
    }
    None
}

/// The hover for `position`: what the program says of the name there, or
/// else the body of the macro of that name. A name whose typedef aliases
/// lead back to it gets no hover from the program (following them would
/// not end).
pub open spec fn document_hover_text(doc: Document, position: Position) -> Option<Seq<char>> {
    let text = rope_text(doc.content);
    let from_program = match doc.ast {
        Some(a) => if hover_terminates(a, text, position) {
            hover_info(a, text, position)
        } else {
            None
        },
        None => None,
    };
    if from_program is Some {
        from_program
    } else {
        macro_hover(doc.macros@, text, position)
    }
}

/// The hover for `position` in a document.
pub fn document_hover(doc: &Document, position: Position) -> (r: Option<String>)
    ensures
        opt_str(r) == document_hover_text(*doc, position),
{
    if let Some(ast) = &doc.ast {
        if hover_ends(ast, &doc.content, position) {
            if let Some(h) = get_hover_info(ast, &doc.content, position) {
                return Some(h);
            }
        }
    }
    get_macro_hover(doc, position)
}

/// Where the name at `position` is declared: the file an `#include` there
/// names, or else the declaration the program has for the name.
pub open spec fn document_definition_target(doc: Document, position: Position) -> Option<(Seq<char>, crate::protocol::Range)> {
    let text = rope_text(doc.content);
    match include_location(doc.uri@, text, position) {
        Some(l) => Some(l),
        None => match doc.ast {
            Some(a) => definition_location(a, text, position),
            None => None,
        },
    }
}

/// The columns a definition lookup in `doc` at `position` computes fit.
pub open spec fn definition_fits(doc: Document, position: Position) -> bool {
    include_location(doc.uri@, rope_text(doc.content), position) is None ==> (doc.ast matches Some(a) ==> (
    definition_token(a, rope_text(doc.content), position) matches Some(t) ==> col_fits(t)))
}

/// Whether the columns a definition lookup in `doc` at `position` computes
/// fit, as `document_definition` needs: when no `#include` is under the
/// cursor, the declaration found for the name must not sit at the last
/// column a `u32` can hold.
pub fn definition_fits_at(doc: &Document, position: Position) -> (r: bool)
    ensures
        r == definition_fits(*doc, position),
{
    if get_include_location(doc, position).is_some() {
        return true;
    }
    match &doc.ast {
        Some(ast) => match find_definition_token(ast, &doc.content, position) {
            Some(t) => {
                let c: u32 = t.col as u32;
                c < u32::MAX
            },
            None => true,
        },
        None => true,
    }
}

/// Where the name at `position` in a document is declared.
pub fn document_definition(doc: &Document, position: Position) -> (r: Option<Location>)
    requires
        definition_fits(*doc, position),
    ensures
        match r {
            Some(l) => document_definition_target(*doc, position) == Some(location_view(l)),
            None => document_definition_target(*doc, position) is None,
        },
{
    if let Some(l) = get_include_location(doc, position) {
        return Some(l);
    }
    match &doc.ast {
        Some(ast) => get_definition_location(ast, &doc.content, position),
        None => None,
    }
}

/// The completions at `position` in a document, when its program was read.
pub fn document_completions(doc: &Document, position: Position) -> (r: Option<Vec<CompletionItem>>)
    ensures
        match doc.ast {
            Some(a) => r matches Some(v) && item_views(v@) == context_completions(a, rope_text(doc.content), position),
            None => r is None,
        },
{
    match &doc.ast {
        Some(ast) => Some(get_completions_with_context(ast, &doc.content, position)),
        None => None,
    }
}

} // verus!
