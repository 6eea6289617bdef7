//! Go-to-definition: the source location of the declaration under the
//! cursor.
use vstd::prelude::*;
use ropey::Rope;
use crate::ast::{copy_token, find_named, first_named, lemma_named_first, lemma_named_from, lemma_named_none, lemma_named_some, Ast, Named, Type, TypeKind};
use crate::config::is_absolute_path;
use crate::hover::{find_scoped_name, is_header_method, scoped_name_info};
use crate::scope::{enclosing_scope, Scope};
use crate::lexical::Token;
use crate::protocol::{Location, Position, Range};
use crate::scope::{find_enclosing_scope, path_type, resolve_type_for_name};
use crate::strings::str_eq;
use crate::text::{rope_len_lines, rope_line, rope_text, text_lines};
use crate::words::{extract_word_and_prefix, prefix_at, word_at};

verus! {

/// The `file:` URL of an absolute file path.
pub uninterp spec fn file_url(path: Seq<char>) -> Seq<char>;

/// The `file:` URL of a path, when the path is absolute.
///
/// Trusted: calls `Url::from_file_path` and renders the URL as a string. The
/// url crate's source (on Unix) fails exactly when the path is not absolute,
/// that is when it does not start with `/`; the URL text itself (which
/// percent-encodes the path) is named, not stated.
#[verifier::external_body]
pub(crate) fn url_from_file_path(path: &str) -> (r: Option<String>)
    ensures
        r is Some <==> is_absolute_path(path@),
        r matches Some(u) ==> u@ == file_url(path@),
{
    match tower_lsp::lsp_types::Url::from_file_path(path) {
        Ok(u) => Some(u.to_string()),
        Err(()) => None,
    }
}

/// The URL and range of a location.
pub open spec fn location_view(l: Location) -> (Seq<char>, Range) {
    (l.uri@, l.range)
}

/// The location of a token: the one-character range at its start, in the
/// file it comes from, when that file's path is absolute.
pub open spec fn token_location(t: Token) -> Option<(Seq<char>, Range)> {
    if is_absolute_path(t.file@) {
        let line = t.line as u32;
        let col = t.col as u32;
        Some(
            (
                file_url(t.file@),
                Range {
                    start: Position { line, character: col },
                    end: Position { line, character: (col + 1) as u32 },
                },
            ),
        )
    } else {
        None
    }
}

/// The column of a token leaves room for the character after it.
pub open spec fn col_fits(t: Token) -> bool {
    (t.col as u32) < u32::MAX
}

/// The location of `token`.
pub fn token_to_location(token: &Token) -> (r: Option<Location>)
    requires
        col_fits(*token),
    ensures
        match r {
            Some(l) => token_location(*token) == Some(location_view(l)),
            None => token_location(*token) is None,
        },
{
    let uri = match url_from_file_path(token.file.as_str()) {
        Some(u) => u,
        None => return None,
    };
    let line = token.line as u32;
    let col = token.col as u32;
    Some(
        Location {
            uri,
            range: Range {
                start: Position { line, character: col },
                end: Position { line, character: col + 1 },
            },
        },
    )
}

/// The token of member `member` of a value of type `ty`: a struct member,
/// else a header member (or the header itself for its built-in methods),
/// else an extern method.
pub open spec fn member_token(ast: Ast, ty: Type, member: Seq<char>) -> Option<Token> {
    match ty.kind {
        TypeKind::UserDefined(tn) => {
            let from_struct = match first_named(ast.structs@, tn@) {
                Some(si) => match first_named(ast.structs@[si].members@, member) {
                    Some(mi) => Some(ast.structs@[si].members@[mi].token),
                    None => None,
                },
                None => None,
            };
            let from_header = match first_named(ast.headers@, tn@) {
                Some(hi) => match first_named(ast.headers@[hi].members@, member) {
                    Some(mi) => Some(ast.headers@[hi].members@[mi].token),
                    None => if is_header_method(member) {
                        Some(ast.headers@[hi].token)
                    } else {
                        None
                    },
                },
                None => None,
            };
            let from_extern = match first_named(ast.externs@, tn@) {
                Some(ei) => match first_named(ast.externs@[ei].methods@, member) {
                    Some(mi) => Some(ast.externs@[ei].methods@[mi].token),
                    None => None,
                },
                None => None,
            };
            if from_struct is Some {
                from_struct
            } else if from_header is Some {
                from_header
            } else {
                from_extern
            }
        },
        _ => None,
    }
}

/// The token of member `member_name` of a value of type `ty`.
pub fn resolve_member_token(ast: &Ast, ty: &Type, member_name: &str) -> (r: Option<Token>)
    ensures
        r == member_token(*ast, *ty, member_name@),
{
    match &ty.kind {
        TypeKind::UserDefined(tn) => {
            if let Some(si) = find_named(&ast.structs, tn.as_str()) {
                if let Some(mi) = find_named(&ast.structs[si].members, member_name) {
                    return Some(copy_token(&ast.structs[si].members[mi].token));
                }
            }
            if let Some(hi) = find_named(&ast.headers, tn.as_str()) {
                if let Some(mi) = find_named(&ast.headers[hi].members, member_name) {
                    return Some(copy_token(&ast.headers[hi].members[mi].token));
                }
                if str_eq(member_name, "isValid") || str_eq(member_name, "setValid") || str_eq(
                    member_name,
                    "setInvalid",
                ) {
                    return Some(copy_token(&ast.headers[hi].token));
                }
            }
            if let Some(ei) = find_named(&ast.externs, tn.as_str()) {
                if let Some(mi) = find_named(&ast.externs[ei].methods, member_name) {
                    return Some(copy_token(&ast.externs[ei].methods[mi].token));
                }
            }
            None
        },
        _ => None,
    }
}

/// The first control at or after `i` that has an action or else a table
/// named `name`, with that declaration's token.
pub open spec fn control_decl_from(ast: Ast, name: Seq<char>, i: int) -> Option<Token>
    decreases ast.controls@.len() - i,
{
    if i < 0 || i >= ast.controls@.len() {
        None
    } else {
        let c = ast.controls@[i];
        match first_named(c.actions@, name) {
            Some(a) => Some(c.actions@[a].token),
            None => match first_named(c.tables@, name) {
                Some(t) => Some(c.tables@[t].token),
                None => control_decl_from(ast, name, i + 1),
            },
        }
    }
}

/// The first parser at or after `i` that has a state named `name`, with
/// that state's token.
pub open spec fn parser_state_from(ast: Ast, name: Seq<char>, i: int) -> Option<Token>
    decreases ast.parsers@.len() - i,
{
    if i < 0 || i >= ast.parsers@.len() {
        None
    } else {
        let p = ast.parsers@[i];
        match first_named(p.states@, name) {
            Some(s) => Some(p.states@[s].token),
            None => parser_state_from(ast, name, i + 1),
        }
    }
}

proof fn lemma_control_decl_none(ast: Ast, name: Seq<char>, i: int)
    requires
        0 <= i,
        forall|c: int, a: int|
            0 <= c < ast.controls@.len() && 0 <= a < ast.controls@[c].actions@.len() ==> (
            #[trigger] ast.controls@[c].actions@[a]).name@ != name,
        forall|c: int, t: int|
            0 <= c < ast.controls@.len() && 0 <= t < ast.controls@[c].tables@.len() ==> (
            #[trigger] ast.controls@[c].tables@[t]).name@ != name,
    ensures
        control_decl_from(ast, name, i) is None,
    decreases ast.controls@.len() - i,
{
    if i < ast.controls@.len() {
        let c = ast.controls@[i];
        assert forall|k: int| 0 <= k < c.actions@.len() implies (#[trigger] c.actions@[k]).spec_name() != name by {
            assert(ast.controls@[i].actions@[k].name@ != name);
        }
        assert forall|k: int| 0 <= k < c.tables@.len() implies (#[trigger] c.tables@[k]).spec_name() != name by {
            assert(ast.controls@[i].tables@[k].name@ != name);
        }
        lemma_named_none(c.actions@, name, 0);
        lemma_named_none(c.tables@, name, 0);
        lemma_control_decl_none(ast, name, i + 1);
    }
}

proof fn lemma_parser_state_first(ast: Ast, name: Seq<char>, i: int, p: int, s: int)
    requires
        0 <= i <= p < ast.parsers@.len(),
        0 <= s < ast.parsers@[p].states@.len(),
        ast.parsers@[p].states@[s].name@ == name,
        forall|q: int, k: int|
            i <= q < p && 0 <= k < ast.parsers@[q].states@.len() ==> (
            #[trigger] ast.parsers@[q].states@[k]).name@ != name,
        forall|k: int| 0 <= k < s ==> (#[trigger] ast.parsers@[p].states@[k]).name@ != name,
    ensures
        parser_state_from(ast, name, i) == Some(ast.parsers@[p].states@[s].token),
    decreases p - i,
{
    let st = ast.parsers@[i].states@;
    if i < p {
        assert forall|k: int| 0 <= k < st.len() implies (#[trigger] st[k]).spec_name() != name by {
            assert(ast.parsers@[i].states@[k].name@ != name);
        }
        lemma_named_none(st, name, 0);
        lemma_parser_state_first(ast, name, i + 1, p, s);
    } else {
        assert forall|k: int| 0 <= k < s implies (#[trigger] st[k]).spec_name() != name by {
            assert(ast.parsers@[p].states@[k].name@ != name);
        }
        lemma_named_first(st, name, 0, s);
    }
}

/// `t` is the token of a declaration of the program named `name`: a
/// header, struct, control, parser, extern, typedef, constant or package,
/// an action or table of a control, or a state of a parser.
pub open spec fn declares(ast: Ast, name: Seq<char>, t: Token) -> bool {
    ||| exists|i: int| 0 <= i < ast.headers@.len() && (#[trigger] ast.headers@[i]).name@ == name && ast.headers@[i].token == t
    ||| exists|i: int| 0 <= i < ast.structs@.len() && (#[trigger] ast.structs@[i]).name@ == name && ast.structs@[i].token == t
    ||| exists|i: int| 0 <= i < ast.controls@.len() && (#[trigger] ast.controls@[i]).name@ == name && ast.controls@[i].token == t
    ||| exists|i: int| 0 <= i < ast.parsers@.len() && (#[trigger] ast.parsers@[i]).name@ == name && ast.parsers@[i].token == t
    ||| exists|i: int| 0 <= i < ast.externs@.len() && (#[trigger] ast.externs@[i]).name@ == name && ast.externs@[i].token == t
    ||| exists|i: int| 0 <= i < ast.typedefs@.len() && (#[trigger] ast.typedefs@[i]).name@ == name && ast.typedefs@[i].token == t
    ||| exists|i: int| 0 <= i < ast.constants@.len() && (#[trigger] ast.constants@[i]).name@ == name && ast.constants@[i].token == t
    ||| exists|i: int| 0 <= i < ast.packages@.len() && (#[trigger] ast.packages@[i]).name@ == name && ast.packages@[i].token == t
    ||| exists|c: int, a: int|
        0 <= c < ast.controls@.len() && 0 <= a < ast.controls@[c].actions@.len() && (
        #[trigger] ast.controls@[c].actions@[a]).name@ == name && ast.controls@[c].actions@[a].token == t
    ||| exists|c: int, k: int|
        0 <= c < ast.controls@.len() && 0 <= k < ast.controls@[c].tables@.len() && (
        #[trigger] ast.controls@[c].tables@[k]).name@ == name && ast.controls@[c].tables@[k].token == t
    ||| exists|p: int, k: int|
        0 <= p < ast.parsers@.len() && 0 <= k < ast.parsers@[p].states@.len() && (
        #[trigger] ast.parsers@[p].states@[k]).name@ == name && ast.parsers@[p].states@[k].token == t
}

proof fn lemma_control_decl_sound(ast: Ast, name: Seq<char>, i: int)
    requires
        0 <= i,
    ensures
        control_decl_from(ast, name, i) matches Some(t) ==> declares(ast, name, t),
    decreases ast.controls@.len() - i,
{
    if i < ast.controls@.len() {
        let c = ast.controls@[i];
        lemma_named_from(c.actions@, name, 0);
        lemma_named_from(c.tables@, name, 0);
        lemma_control_decl_sound(ast, name, i + 1);
        if let Some(a) = first_named(c.actions@, name) {
            assert(ast.controls@[i].actions@[a].name@ == name);
        } else if let Some(k) = first_named(c.tables@, name) {
            assert(ast.controls@[i].tables@[k].name@ == name);
        }
    }
}

proof fn lemma_control_decl_complete(ast: Ast, name: Seq<char>, i: int, c: int)
    requires
        0 <= i <= c < ast.controls@.len(),
        (exists|a: int| 0 <= a < ast.controls@[c].actions@.len() && (#[trigger] ast.controls@[c].actions@[a]).name@ == name)
            || (exists|k: int| 0 <= k < ast.controls@[c].tables@.len() && (#[trigger] ast.controls@[c].tables@[k]).name@ == name),
    ensures
        control_decl_from(ast, name, i) is Some,
    decreases c - i,
{
    let x = ast.controls@[i];
    if i < c {
        if first_named(x.actions@, name) is None && first_named(x.tables@, name) is None {
            lemma_control_decl_complete(ast, name, i + 1, c);
        }
    } else {
        if exists|a: int| 0 <= a < ast.controls@[c].actions@.len() && (#[trigger] ast.controls@[c].actions@[a]).name@ == name {
            let a = choose|a: int| 0 <= a < ast.controls@[c].actions@.len() && (#[trigger] ast.controls@[c].actions@[a]).name@ == name;
            lemma_named_some(x.actions@, name, 0, a);
        } else {
            let k = choose|k: int| 0 <= k < ast.controls@[c].tables@.len() && (#[trigger] ast.controls@[c].tables@[k]).name@ == name;
            lemma_named_some(x.tables@, name, 0, k);
        }
    }
}

proof fn lemma_parser_state_sound(ast: Ast, name: Seq<char>, i: int)
    requires
        0 <= i,
    ensures
        parser_state_from(ast, name, i) matches Some(t) ==> declares(ast, name, t),
    decreases ast.parsers@.len() - i,
{
    if i < ast.parsers@.len() {
        let p = ast.parsers@[i];
        lemma_named_from(p.states@, name, 0);
        lemma_parser_state_sound(ast, name, i + 1);
        if let Some(k) = first_named(p.states@, name) {
            assert(ast.parsers@[i].states@[k].name@ == name);
        }
    }
}

proof fn lemma_parser_state_complete(ast: Ast, name: Seq<char>, i: int, p: int, k: int)
    requires
        0 <= i <= p < ast.parsers@.len(),
        0 <= k < ast.parsers@[p].states@.len(),
        ast.parsers@[p].states@[k].name@ == name,
    ensures
        parser_state_from(ast, name, i) is Some,
    decreases p - i,
{
    if i < p {
        if first_named(ast.parsers@[i].states@, name) is None {
            lemma_parser_state_complete(ast, name, i + 1, p, k);
        }
    } else {
        lemma_named_some(ast.parsers@[p].states@, name, 0, k);
    }
}

/// Law: the program-level declaration found for a name is a declaration
/// of that name (a header, struct, control, parser, extern, typedef,
/// constant, package, action, table or parser state), and one is found
/// whenever the program declares the name in any of these ways.
pub proof fn law_global_token_sound_and_complete(ast: Ast, name: Seq<char>)
    ensures
        global_token(ast, name) matches Some(t) ==> declares(ast, name, t),
        (exists|t: Token| declares(ast, name, t)) ==> global_token(ast, name) is Some,
{
    lemma_named_from(ast.headers@, name, 0);
    lemma_named_from(ast.structs@, name, 0);
    lemma_named_from(ast.controls@, name, 0);
    lemma_named_from(ast.parsers@, name, 0);
    lemma_named_from(ast.externs@, name, 0);
    lemma_named_from(ast.typedefs@, name, 0);
    lemma_named_from(ast.constants@, name, 0);
    lemma_named_from(ast.packages@, name, 0);
    lemma_control_decl_sound(ast, name, 0);
    lemma_parser_state_sound(ast, name, 0);
    if exists|t: Token| declares(ast, name, t) {
        let t = choose|t: Token| declares(ast, name, t);
        if exists|i: int| 0 <= i < ast.headers@.len() && (#[trigger] ast.headers@[i]).name@ == name && ast.headers@[i].token == t {
            let i = choose|i: int| 0 <= i < ast.headers@.len() && (#[trigger] ast.headers@[i]).name@ == name && ast.headers@[i].token == t;
            lemma_named_some(ast.headers@, name, 0, i);
        } else if exists|i: int| 0 <= i < ast.structs@.len() && (#[trigger] ast.structs@[i]).name@ == name && ast.structs@[i].token == t {
            let i = choose|i: int| 0 <= i < ast.structs@.len() && (#[trigger] ast.structs@[i]).name@ == name && ast.structs@[i].token == t;
            lemma_named_some(ast.structs@, name, 0, i);
        } else if exists|i: int| 0 <= i < ast.controls@.len() && (#[trigger] ast.controls@[i]).name@ == name && ast.controls@[i].token == t {
            let i = choose|i: int| 0 <= i < ast.controls@.len() && (#[trigger] ast.controls@[i]).name@ == name && ast.controls@[i].token == t;
            lemma_named_some(ast.controls@, name, 0, i);
        } else if exists|i: int| 0 <= i < ast.parsers@.len() && (#[trigger] ast.parsers@[i]).name@ == name && ast.parsers@[i].token == t {
            let i = choose|i: int| 0 <= i < ast.parsers@.len() && (#[trigger] ast.parsers@[i]).name@ == name && ast.parsers@[i].token == t;
            lemma_named_some(ast.parsers@, name, 0, i);
        } else if exists|i: int| 0 <= i < ast.externs@.len() && (#[trigger] ast.externs@[i]).name@ == name && ast.externs@[i].token == t {
            let i = choose|i: int| 0 <= i < ast.externs@.len() && (#[trigger] ast.externs@[i]).name@ == name && ast.externs@[i].token == t;
            lemma_named_some(ast.externs@, name, 0, i);
        } else if exists|i: int| 0 <= i < ast.typedefs@.len() && (#[trigger] ast.typedefs@[i]).name@ == name && ast.typedefs@[i].token == t {
            let i = choose|i: int| 0 <= i < ast.typedefs@.len() && (#[trigger] ast.typedefs@[i]).name@ == name && ast.typedefs@[i].token == t;
            lemma_named_some(ast.typedefs@, name, 0, i);
        } else if exists|i: int| 0 <= i < ast.constants@.len() && (#[trigger] ast.constants@[i]).name@ == name && ast.constants@[i].token == t {
            let i = choose|i: int| 0 <= i < ast.constants@.len() && (#[trigger] ast.constants@[i]).name@ == name && ast.constants@[i].token == t;
            lemma_named_some(ast.constants@, name, 0, i);
        } else if exists|i: int| 0 <= i < ast.packages@.len() && (#[trigger] ast.packages@[i]).name@ == name && ast.packages@[i].token == t {
            let i = choose|i: int| 0 <= i < ast.packages@.len() && (#[trigger] ast.packages@[i]).name@ == name && ast.packages@[i].token == t;
            lemma_named_some(ast.packages@, name, 0, i);
        } else if exists|c: int, a: int|
            0 <= c < ast.controls@.len() && 0 <= a < ast.controls@[c].actions@.len() && (
            #[trigger] ast.controls@[c].actions@[a]).name@ == name && ast.controls@[c].actions@[a].token == t {
            let (c, a) = choose|c: int, a: int|
                0 <= c < ast.controls@.len() && 0 <= a < ast.controls@[c].actions@.len() && (
                #[trigger] ast.controls@[c].actions@[a]).name@ == name && ast.controls@[c].actions@[a].token == t;
            lemma_control_decl_complete(ast, name, 0, c);
        } else if exists|c: int, k: int|
            0 <= c < ast.controls@.len() && 0 <= k < ast.controls@[c].tables@.len() && (
            #[trigger] ast.controls@[c].tables@[k]).name@ == name && ast.controls@[c].tables@[k].token == t {
            let (c, k) = choose|c: int, k: int|
                0 <= c < ast.controls@.len() && 0 <= k < ast.controls@[c].tables@.len() && (
                #[trigger] ast.controls@[c].tables@[k]).name@ == name && ast.controls@[c].tables@[k].token == t;
            lemma_control_decl_complete(ast, name, 0, c);
        } else {
            let (p, k) = choose|p: int, k: int|
                0 <= p < ast.parsers@.len() && 0 <= k < ast.parsers@[p].states@.len() && (
                #[trigger] ast.parsers@[p].states@[k]).name@ == name && ast.parsers@[p].states@[k].token == t;
            lemma_parser_state_complete(ast, name, 0, p, k);
        }
    }
}

/// Law: a name that no header, struct, control, parser, extern, typedef,
/// constant or package carries, nor any action or table of a control, but
/// that a parser state carries, is declared by the first such state:
/// parsers taken in order, and states in order within a parser.
pub proof fn law_parser_state_declares(ast: Ast, name: Seq<char>, p: int, s: int)
    requires
        forall|i: int| 0 <= i < ast.headers@.len() ==> (#[trigger] ast.headers@[i]).name@ != name,
        forall|i: int| 0 <= i < ast.structs@.len() ==> (#[trigger] ast.structs@[i]).name@ != name,
        forall|i: int| 0 <= i < ast.controls@.len() ==> (#[trigger] ast.controls@[i]).name@ != name,
        forall|i: int| 0 <= i < ast.parsers@.len() ==> (#[trigger] ast.parsers@[i]).name@ != name,
        forall|i: int| 0 <= i < ast.externs@.len() ==> (#[trigger] ast.externs@[i]).name@ != name,
        forall|i: int| 0 <= i < ast.typedefs@.len() ==> (#[trigger] ast.typedefs@[i]).name@ != name,
        forall|i: int| 0 <= i < ast.constants@.len() ==> (#[trigger] ast.constants@[i]).name@ != name,
        forall|i: int| 0 <= i < ast.packages@.len() ==> (#[trigger] ast.packages@[i]).name@ != name,
        forall|c: int, a: int|
            0 <= c < ast.controls@.len() && 0 <= a < ast.controls@[c].actions@.len() ==> (
            #[trigger] ast.controls@[c].actions@[a]).name@ != name,
        forall|c: int, t: int|
            0 <= c < ast.controls@.len() && 0 <= t < ast.controls@[c].tables@.len() ==> (
            #[trigger] ast.controls@[c].tables@[t]).name@ != name,
        0 <= p < ast.parsers@.len(),
        0 <= s < ast.parsers@[p].states@.len(),
        ast.parsers@[p].states@[s].name@ == name,
        forall|q: int, k: int|
            0 <= q < p && 0 <= k < ast.parsers@[q].states@.len() ==> (
            #[trigger] ast.parsers@[q].states@[k]).name@ != name,
        forall|k: int| 0 <= k < s ==> (#[trigger] ast.parsers@[p].states@[k]).name@ != name,
    ensures
        global_token(ast, name) == Some(ast.parsers@[p].states@[s].token),
{
    lemma_named_none(ast.headers@, name, 0);
    lemma_named_none(ast.structs@, name, 0);
    lemma_named_none(ast.controls@, name, 0);
    lemma_named_none(ast.parsers@, name, 0);
    lemma_named_none(ast.externs@, name, 0);
    lemma_named_none(ast.typedefs@, name, 0);
    lemma_named_none(ast.constants@, name, 0);
    lemma_named_none(ast.packages@, name, 0);
    lemma_control_decl_none(ast, name, 0);
    lemma_parser_state_first(ast, name, 0, p, s);
}

/// The token of the program-level declaration named `name`: a header,
/// struct, control, parser, extern, typedef, constant or package, else an
/// action or table of a control, else a parser state.
pub open spec fn global_token(ast: Ast, name: Seq<char>) -> Option<Token> {
    if let Some(i) = first_named(ast.headers@, name) {
        Some(ast.headers@[i].token)
    } else if let Some(i) = first_named(ast.structs@, name) {
        Some(ast.structs@[i].token)
    } else if let Some(i) = first_named(ast.controls@, name) {
        Some(ast.controls@[i].token)
    } else if let Some(i) = first_named(ast.parsers@, name) {
        Some(ast.parsers@[i].token)
    } else if let Some(i) = first_named(ast.externs@, name) {
        Some(ast.externs@[i].token)
    } else if let Some(i) = first_named(ast.typedefs@, name) {
        Some(ast.typedefs@[i].token)
    } else if let Some(i) = first_named(ast.constants@, name) {
        Some(ast.constants@[i].token)
    } else if let Some(i) = first_named(ast.packages@, name) {
        Some(ast.packages@[i].token)
    } else if let Some(t) = control_decl_from(ast, name, 0) {
        Some(t)
    } else {
        parser_state_from(ast, name, 0)
    }
}

/// The token of the program-level declaration named `name`.
pub fn resolve_global_token(ast: &Ast, name: &str) -> (r: Option<Token>)
    ensures
        r == global_token(*ast, name@),
{
    if let Some(i) = find_named(&ast.headers, name) {
        return Some(copy_token(&ast.headers[i].token));
    }
    if let Some(i) = find_named(&ast.structs, name) {
        return Some(copy_token(&ast.structs[i].token));
    }
    if let Some(i) = find_named(&ast.controls, name) {
        return Some(copy_token(&ast.controls[i].token));
    }
    if let Some(i) = find_named(&ast.parsers, name) {
        return Some(copy_token(&ast.parsers[i].token));
    }
    if let Some(i) = find_named(&ast.externs, name) {
        return Some(copy_token(&ast.externs[i].token));
    }
    if let Some(i) = find_named(&ast.typedefs, name) {
        return Some(copy_token(&ast.typedefs[i].token));
    }
    if let Some(i) = find_named(&ast.constants, name) {
        return Some(copy_token(&ast.constants[i].token));
    }
    if let Some(i) = find_named(&ast.packages, name) {
        return Some(copy_token(&ast.packages[i].token));
    }
    let ghost rest = if let Some(t) = control_decl_from(*ast, name@, 0) {
        Some(t)
    } else {
        parser_state_from(*ast, name@, 0)
    };
    assert(global_token(*ast, name@) == rest);
    let mut c: usize = 0;
    while c < ast.controls.len()
        invariant
            c <= ast.controls@.len(),
            control_decl_from(*ast, name@, c as int) == control_decl_from(*ast, name@, 0),
            global_token(*ast, name@) == rest,
            rest == (if let Some(t) = control_decl_from(*ast, name@, 0) {
                Some(t)
            } else {
                parser_state_from(*ast, name@, 0)
            }),
        decreases ast.controls@.len() - c,
    {
        let control = &ast.controls[c];
        if let Some(a) = find_named(&control.actions, name) {
            return Some(copy_token(&control.actions[a].token));
        }
        if let Some(t) = find_named(&control.tables, name) {
            return Some(copy_token(&control.tables[t].token));
        }
        c += 1;
    }
    let mut p: usize = 0;
    while p < ast.parsers.len()
        invariant
            p <= ast.parsers@.len(),
            parser_state_from(*ast, name@, p as int) == parser_state_from(*ast, name@, 0),
            control_decl_from(*ast, name@, 0) is None,
            global_token(*ast, name@) == rest,
            rest == (if let Some(t) = control_decl_from(*ast, name@, 0) {
                Some(t)
            } else {
                parser_state_from(*ast, name@, 0)
            }),
        decreases ast.parsers@.len() - p,
    {
        let parser = &ast.parsers[p];
        if let Some(s) = find_named(&parser.states, name) {
            return Some(copy_token(&parser.states[s].token));
        }
        p += 1;
    }
    None
}

/// The token of `name` as declared in the scope enclosing line `line`.
pub open spec fn scoped_token(ast: Ast, name: Seq<char>, text: Seq<char>, line: int) -> Option<Token> {
    match scoped_name_info(ast, name, enclosing_scope(ast, text, line)) {
        Some(info) => Some(info.token),
        None => None,
    }
}

/// The token of `name` as declared in the scope enclosing `position`.
pub fn resolve_scoped_token(ast: &Ast, name: &str, content: &Rope, position: Position) -> (r: Option<Token>)
    ensures
        r == scoped_token(*ast, name@, rope_text(*content), position.line as int),
{
    let scope = find_enclosing_scope(ast, content, position);
    match find_scoped_name(ast, name, scope) {
        None => None,
        Some((k, a, j)) => match scope {
            Some(Scope::Control(i)) => if k == 0 {
                Some(copy_token(&ast.controls[i].names[j].token))
            } else {
                Some(copy_token(&ast.controls[i].actions[a].names[j].token))
            },
            Some(Scope::Parser(i)) => Some(copy_token(&ast.parsers[i].names[j].token)),
            None => None,
        },
    }
}

/// The token of the declaration of the name at `position`: for an
/// identifier after a dotted path of known type, the member it names when
/// there is one; otherwise a program-level declaration, else one of the
/// enclosing scope.
pub open spec fn definition_token(ast: Ast, text: Seq<char>, position: Position) -> Option<Token> {
    if position.line as int >= text_lines(text).len() {
        None
    } else {
        let l = text_lines(text)[position.line as int];
        let col = position.character as int;
        match word_at(l, col) {
            None => None,
            Some(w) => {
                let via_prefix = match prefix_at(l, col) {
                    Some(p) => match path_type(ast, p, text, position.line as int) {
                        Some(ty) => member_token(ast, ty, w),
                        None => None,
                    },
                    None => None,
                };
                if via_prefix is Some {
                    via_prefix
                } else if global_token(ast, w) is Some {
                    global_token(ast, w)
                } else {
                    scoped_token(ast, w, text, position.line as int)
                }
            },
        }
    }
}

/// Law: on a name the program declares (a header, struct, control, parser,
/// extern, typedef, constant, package, action, table or parser state),
/// with no dotted path of known type before it, go-to-definition finds a
/// declaration of that name.
pub proof fn law_definition_finds_declarations(ast: Ast, text: Seq<char>, position: Position, w: Seq<char>, t: Token)
    requires
        crate::hover::cursor_on_name(ast, text, position, w),
        declares(ast, w, t),
    ensures
        definition_token(ast, text, position) matches Some(d) && declares(ast, w, d),
{
    law_global_token_sound_and_complete(ast, w);
}

/// The location of the declaration of the name at `position`.
pub open spec fn definition_location(ast: Ast, text: Seq<char>, position: Position) -> Option<(Seq<char>, Range)> {
    match definition_token(ast, text, position) {
        Some(t) => token_location(t),
        None => None,
    }
}

/// The location of the declaration of the name at `position`.
/// The declaration token of the name at `position`.
pub fn find_definition_token(ast: &Ast, content: &Rope, position: Position) -> (r: Option<Token>)
    ensures
        r == definition_token(*ast, rope_text(*content), position),
{
    let line_idx = position.line as usize;
    let col_idx = position.character as usize;
    if line_idx >= rope_len_lines(content) {
        return None;
    }
    let line_str = rope_line(content, line_idx);
    let (word, prefix) = extract_word_and_prefix(line_str.as_str(), col_idx);
    let word = match word {
        Some(w) => w,
        None => return None,
    };
    if let Some(p) = prefix {
        if let Some(ty) = resolve_type_for_name(ast, p.as_str(), content, position) {
            if let Some(token) = resolve_member_token(ast, &ty, word.as_str()) {
                return Some(token);
            }
        }
    }
    if let Some(token) = resolve_global_token(ast, word.as_str()) {
        return Some(token);
    }
    resolve_scoped_token(ast, word.as_str(), content, position)
}

/// The location of the declaration of the name at `position`.
pub fn get_definition_location(ast: &Ast, content: &Rope, position: Position) -> (r: Option<Location>)
    requires
        definition_token(*ast, rope_text(*content), position) matches Some(t) ==> col_fits(t),
    ensures
        match r {
            Some(l) => definition_location(*ast, rope_text(*content), position) == Some(location_view(l)),
            None => definition_location(*ast, rope_text(*content), position) is None,
        },
{
    match find_definition_token(ast, content, position) {
        Some(token) => token_to_location(&token),
        None => None,
    }
}

} // verus!
