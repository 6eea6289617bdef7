//! Lexical tokens of P4 source and how they are highlighted.
use vstd::prelude::*;
use ropey::Rope;
use crate::protocol::{SemanticTokenType};
use crate::semantic::{pushed, SemanticTokensBuilder};
use crate::text::{rope_len_lines, rope_text, text_lines};

verus! {

/// The kinds of lexical tokens of P4 source.
#[derive(Clone, Debug)]
pub enum Kind {
    Const,
    Header,
    Typedef,
    Control,
    Struct,
    Action,
    Parser,
    Table,
    Size,
    Key,
    Exact,
    Ternary,
    Lpm,
    Range,
    Actions,
    DefaultAction,
    Entries,
    In,
    InOut,
    Out,
    Transition,
    State,
    Select,
    Apply,
    Package,
    Extern,
    If,
    Else,
    Return,
    Bool,
    Error,
    Bit,
    Varbit,
    Int,
    String,
    PoundDefine,
    PoundInclude,
    IntLiteral(i128),
    BitLiteral(u16, u128),
    SignedLiteral(u16, i128),
    TrueLiteral,
    FalseLiteral,
    StringLiteral(String),
    DoubleEquals,
    NotEquals,
    Equals,
    Plus,
    Minus,
    Mod,
    Dot,
    Mask,
    LogicalAnd,
    And,
    Bang,
    Tilde,
    Shl,
    Pipe,
    Carat,
    GreaterThanEquals,
    LessThanEquals,
    Identifier(String),
    Eof,
    /// Any other punctuation or keyword.
    Other,
}

/// A lexical token: its kind and where it starts (zero-based line, column).
#[derive(Clone, Debug)]
pub struct Token {
    pub kind: Kind,
    pub line: usize,
    pub col: usize,
    pub file: String,
}

/// The number of UTF-8 bytes of a text.
pub open spec fn utf8_len(s: Seq<char>) -> nat {
    vstd::utf8::encode_utf8(s).len()
}

/// The number of decimal digits of `n`.
pub open spec fn dec_digits(n: nat) -> nat
    decreases n,
{
    if n < 10 {
        1
    } else {
        1 + dec_digits(n / 10)
    }
}

/// The length of the decimal text of `v`, sign included.
pub open spec fn int_text_len(v: int) -> nat {
    if v < 0 {
        1 + dec_digits((-v) as nat)
    } else {
        dec_digits(v as nat)
    }
}

/// The length of the text `{width}{sep}{value}`.
pub open spec fn sized_literal_len(width: int, value: int) -> nat {
    int_text_len(width) + 1 + int_text_len(value)
}

/// The source length of a token with text fits in a `usize`.
pub open spec fn fits_usize(k: Kind) -> bool {
    &&& k matches Kind::StringLiteral(v) ==> utf8_len(v@) + 2 <= usize::MAX
    &&& k matches Kind::Identifier(v) ==> utf8_len(v@) <= usize::MAX
}

/// Whether the source length of a token of kind `k` fits in a `usize`, as
/// `token_len` needs.
pub fn kind_fits(k: &Kind) -> (r: bool)
    ensures
        r == fits_usize(*k),
{
    match k {
        Kind::StringLiteral(v) => {
            let b = v.as_str().as_bytes();
            assert(b@ == vstd::utf8::encode_utf8(v@));
            b.len().checked_add(2).is_some()
        },
        Kind::Identifier(v) => {
            let b = v.as_str().as_bytes();
            assert(b@ == vstd::utf8::encode_utf8(v@));
            let n = b.len();
            assert(utf8_len(v@) == n);
            true
        },
        _ => true,
    }
}

/// The length in the source of a token of kind `k`.
pub open spec fn token_text_len(k: Kind) -> int {
    match k {
        Kind::Identifier(v) => utf8_len(v@) as int,
        Kind::IntLiteral(v) => int_text_len(v as int) as int,
        Kind::BitLiteral(w, v) => sized_literal_len(w as int, v as int) as int,
        Kind::SignedLiteral(w, v) => sized_literal_len(w as int, v as int) as int,
        Kind::StringLiteral(v) => (utf8_len(v@) + 2) as int,
        Kind::TrueLiteral => 4,
        Kind::FalseLiteral => 5,
        Kind::Const => 5,
        Kind::Header => 6,
        Kind::Typedef => 7,
        Kind::Control => 7,
        Kind::Struct => 6,
        Kind::Action => 6,
        Kind::Parser => 6,
        Kind::Table => 5,
        Kind::Size => 4,
        Kind::Key => 3,
        Kind::Exact => 5,
        Kind::Ternary => 7,
        Kind::Lpm => 3,
        Kind::Range => 5,
        Kind::Actions => 7,
        Kind::DefaultAction => 14,
        Kind::Entries => 7,
        Kind::In => 2,
        Kind::InOut => 5,
        Kind::Out => 3,
        Kind::Transition => 10,
        Kind::State => 5,
        Kind::Select => 6,
        Kind::Apply => 5,
        Kind::Package => 7,
        Kind::Extern => 6,
        Kind::If => 2,
        Kind::Else => 4,
        Kind::Return => 6,
        Kind::Bool => 4,
        Kind::Error => 5,
        Kind::Bit => 3,
        Kind::Varbit => 6,
        Kind::Int => 3,
        Kind::String => 6,
        Kind::PoundDefine => 7,
        Kind::PoundInclude => 8,
        Kind::DoubleEquals => 2,
        Kind::NotEquals => 2,
        Kind::Equals => 1,
        Kind::Plus => 1,
        Kind::Minus => 1,
        Kind::Mod => 1,
        Kind::Dot => 1,
        Kind::Mask => 3,
        Kind::LogicalAnd => 2,
        Kind::And => 1,
        Kind::Bang => 1,
        Kind::Tilde => 1,
        Kind::Shl => 2,
        Kind::Pipe => 1,
        Kind::Carat => 1,
        Kind::GreaterThanEquals => 2,
        Kind::LessThanEquals => 2,
        _ => 1,
    }
}

/// The number of decimal digits of `n`.
fn digits_u128(n: u128) -> (r: usize)
    ensures
        r == dec_digits(n as nat),
        1 <= r <= 39,
{
    proof {
        lemma_u128_digits(n);
    }
    let mut m = n;
    let mut count: usize = 1;
    while m >= 10
        invariant
            1 <= count,
            count + dec_digits(m as nat) == 1 + dec_digits(n as nat),
            dec_digits(n as nat) <= 39,
        decreases m,
    {
        assert(dec_digits((m / 10) as nat) >= 1);
        m = m / 10;
        count += 1;
    }
    count
}

/// Ten to the power `k`.
pub open spec fn pow10(k: nat) -> nat
    decreases k,
{
    if k == 0 {
        1
    } else {
        10 * pow10((k - 1) as nat)
    }
}

proof fn lemma_digits_bound(n: nat, k: nat)
    requires
        n < pow10(k),
        k >= 1,
    ensures
        dec_digits(n) <= k,
    decreases n,
{
    if n >= 10 {
        if k == 1 {
            assert(pow10(1) == 10) by {
                reveal_with_fuel(pow10, 2);
            }
        } else {
            let p = pow10((k - 1) as nat);
            assert(n / 10 < p) by (nonlinear_arith)
                requires
                    n < 10 * p,
            ;
            lemma_digits_bound(n / 10, (k - 1) as nat);
        }
    }
}

proof fn lemma_u128_digits(n: u128)
    ensures
        dec_digits(n as nat) <= 39,
{
    assert(pow10(39) == 1000000000000000000000000000000000000000nat) by {
        reveal_with_fuel(pow10, 40);
    }
    lemma_digits_bound(n as nat, 39);
}

/// The length of the decimal text of `v`.
fn int_len(v: i128) -> (r: usize)
    ensures
        r == int_text_len(v as int),
        r <= 40,
{
    if v < 0 {
        let a: u128 = if v == i128::MIN {
            170141183460469231731687303715884105728u128
        } else {
            (-v) as u128
        };
        1 + digits_u128(a)
    } else {
        digits_u128(v as u128)
    }
}

/// The length in the source of a token of kind `k`.
pub fn token_len(k: &Kind) -> (r: usize)
    requires
        fits_usize(*k),
    ensures
        r == token_text_len(*k),
{
    match k {
        Kind::Identifier(v) => v.as_str().len(),
        Kind::IntLiteral(v) => int_len(*v),
        Kind::BitLiteral(w, v) => digits_u128(*w as u128) + 1 + digits_u128(*v),
        Kind::SignedLiteral(w, v) => digits_u128(*w as u128) + 1 + int_len(*v),
        Kind::StringLiteral(v) => v.as_str().len() + 2,
        Kind::TrueLiteral => 4,
        Kind::FalseLiteral => 5,
        Kind::Const => 5,
        Kind::Header => 6,
        Kind::Typedef => 7,
        Kind::Control => 7,
        Kind::Struct => 6,
        Kind::Action => 6,
        Kind::Parser => 6,
        Kind::Table => 5,
        Kind::Size => 4,
        Kind::Key => 3,
        Kind::Exact => 5,
        Kind::Ternary => 7,
        Kind::Lpm => 3,
        Kind::Range => 5,
        Kind::Actions => 7,
        Kind::DefaultAction => 14,
        Kind::Entries => 7,
        Kind::In => 2,
        Kind::InOut => 5,
        Kind::Out => 3,
        Kind::Transition => 10,
        Kind::State => 5,
        Kind::Select => 6,
        Kind::Apply => 5,
        Kind::Package => 7,
        Kind::Extern => 6,
        Kind::If => 2,
        Kind::Else => 4,
        Kind::Return => 6,
        Kind::Bool => 4,
        Kind::Error => 5,
        Kind::Bit => 3,
        Kind::Varbit => 6,
        Kind::Int => 3,
        Kind::String => 6,
        Kind::PoundDefine => 7,
        Kind::PoundInclude => 8,
        Kind::DoubleEquals => 2,
        Kind::NotEquals => 2,
        Kind::Equals => 1,
        Kind::Plus => 1,
        Kind::Minus => 1,
        Kind::Mod => 1,
        Kind::Dot => 1,
        Kind::Mask => 3,
        Kind::LogicalAnd => 2,
        Kind::And => 1,
        Kind::Bang => 1,
        Kind::Tilde => 1,
        Kind::Shl => 2,
        Kind::Pipe => 1,
        Kind::Carat => 1,
        Kind::GreaterThanEquals => 2,
        Kind::LessThanEquals => 2,
        _ => 1,
    }
}

/// The highlighting of a lexical token: its semantic type, if any, and the
/// length the token is highlighted with.
pub open spec fn lexical_class(k: Kind) -> (Option<SemanticTokenType>, u32) {
    match k {
        Kind::Const | Kind::Header | Kind::Typedef | Kind::Control | Kind::Struct | Kind::Action
        | Kind::Parser | Kind::Table | Kind::Size | Kind::Key | Kind::Exact | Kind::Ternary
        | Kind::Lpm | Kind::Range | Kind::Actions | Kind::DefaultAction | Kind::Entries | Kind::In
        | Kind::InOut | Kind::Out | Kind::Transition | Kind::State | Kind::Select | Kind::Apply
        | Kind::Package | Kind::Extern | Kind::If | Kind::Else | Kind::Return => (
            Some(SemanticTokenType::Keyword),
            1,
        ),
        Kind::Bool | Kind::Error | Kind::Bit | Kind::Varbit | Kind::Int | Kind::String => (
            Some(SemanticTokenType::Type),
            1,
        ),
        Kind::PoundDefine | Kind::PoundInclude => (Some(SemanticTokenType::Macro), 1),
        Kind::IntLiteral(v) => (Some(SemanticTokenType::Number), int_text_len(v as int) as u32),
        Kind::BitLiteral(w, v) => (
            Some(SemanticTokenType::Number),
            sized_literal_len(w as int, v as int) as u32,
        ),
        Kind::SignedLiteral(w, v) => (
            Some(SemanticTokenType::Number),
            sized_literal_len(w as int, v as int) as u32,
        ),
        Kind::TrueLiteral => (Some(SemanticTokenType::Number), 4),
        Kind::FalseLiteral => (Some(SemanticTokenType::Number), 5),
        Kind::StringLiteral(v) => (Some(SemanticTokenType::String), (utf8_len(v@) + 2) as u32),
        Kind::DoubleEquals | Kind::NotEquals | Kind::LogicalAnd | Kind::Shl
        | Kind::GreaterThanEquals | Kind::LessThanEquals => (Some(SemanticTokenType::Operator), 2),
        Kind::Equals | Kind::Plus | Kind::Minus | Kind::Mod | Kind::Dot | Kind::And | Kind::Bang
        | Kind::Tilde | Kind::Pipe | Kind::Carat => (Some(SemanticTokenType::Operator), 1),
        Kind::Mask => (Some(SemanticTokenType::Operator), 3),
        Kind::Identifier(v) => (Some(SemanticTokenType::Variable), utf8_len(v@) as u32),
        _ => (None, 1),
    }
}

/// The highlighting of a lexical token.
pub fn lexical_token_class(k: &Kind) -> (r: (Option<SemanticTokenType>, u32))
    requires
        fits_usize(*k),
    ensures
        r == lexical_class(*k),
{
    match k {
        Kind::Const | Kind::Header | Kind::Typedef | Kind::Control | Kind::Struct | Kind::Action
        | Kind::Parser | Kind::Table | Kind::Size | Kind::Key | Kind::Exact | Kind::Ternary
        | Kind::Lpm | Kind::Range | Kind::Actions | Kind::DefaultAction | Kind::Entries | Kind::In
        | Kind::InOut | Kind::Out | Kind::Transition | Kind::State | Kind::Select | Kind::Apply
        | Kind::Package | Kind::Extern | Kind::If | Kind::Else | Kind::Return => (
            Some(SemanticTokenType::Keyword),
            1,
        ),
        Kind::Bool | Kind::Error | Kind::Bit | Kind::Varbit | Kind::Int | Kind::String => (
            Some(SemanticTokenType::Type),
            1,
        ),
        Kind::PoundDefine | Kind::PoundInclude => (Some(SemanticTokenType::Macro), 1),
        Kind::IntLiteral(_) | Kind::BitLiteral(_, _) | Kind::SignedLiteral(_, _) => {
            let n = token_len(k);
            (Some(SemanticTokenType::Number), n as u32)
        },
        Kind::TrueLiteral => (Some(SemanticTokenType::Number), 4),
        Kind::FalseLiteral => (Some(SemanticTokenType::Number), 5),
        Kind::StringLiteral(_) => {
            let n = token_len(k);
            (Some(SemanticTokenType::String), n as u32)
        },
        Kind::DoubleEquals | Kind::NotEquals | Kind::LogicalAnd | Kind::Shl
        | Kind::GreaterThanEquals | Kind::LessThanEquals => (Some(SemanticTokenType::Operator), 2),
        Kind::Equals | Kind::Plus | Kind::Minus | Kind::Mod | Kind::Dot | Kind::And | Kind::Bang
        | Kind::Tilde | Kind::Pipe | Kind::Carat => (Some(SemanticTokenType::Operator), 1),
        Kind::Mask => (Some(SemanticTokenType::Operator), 3),
        Kind::Identifier(_) => {
            let n = token_len(k);
            (Some(SemanticTokenType::Variable), n as u32)
        },
        _ => (None, 1),
    }
}

/// The position and length of an AST token, when its line exists in the
/// document.
pub open spec fn relative_of(token: Token, content: Seq<char>) -> Option<(u32, u32, u32)> {
    if token.line >= text_lines(content).len() {
        None
    } else {
        Some((token.line as u32, token.col as u32, token_text_len(token.kind) as u32))
    }
}

/// The line, column and length of `token` in `content`, or `None` when the
/// token's line lies past the end of the document.
pub fn token_relative(token: &Token, content: &Rope) -> (r: Option<(u32, u32, u32)>)
    requires
        fits_usize(token.kind),
    ensures
        r == relative_of(*token, rope_text(*content)),
{
    let line = token.line;
    let col = token.col;
    if line >= rope_len_lines(content) {
        return None;
    }
    let length = token_len(&token.kind);
    Some((line as u32, col as u32, length as u32))
}

/// The token data after highlighting the lexical tokens `toks` in order, up
/// to and including the first end-of-file token.
pub open spec fn lexical_pushes(
    data: Seq<crate::protocol::SemanticToken>,
    types: Seq<SemanticTokenType>,
    mods: Seq<crate::protocol::SemanticTokenModifier>,
    toks: Seq<Token>,
) -> Seq<crate::protocol::SemanticToken>
    decreases toks.len(),
{
    if toks.len() == 0 {
        data
    } else {
        let t = toks[0];
        let d1 = match lexical_class(t.kind).0 {
            Some(tt) => pushed(
                data,
                types,
                mods,
                t.line as u32,
                t.col as u32,
                lexical_class(t.kind).1,
                tt,
                Seq::empty(),
            ),
            None => data,
        };
        if t.kind is Eof {
            d1
        } else {
            lexical_pushes(d1, types, mods, toks.drop_first())
        }
    }
}

/// Highlights the tokens the lexer produced for a document, in order, up to
/// and including the end-of-file token.
pub fn add_lexical_semantic_tokens(tokens: &Vec<Token>, builder: &mut SemanticTokensBuilder)
    requires
        forall|i: int| 0 <= i < tokens.len() ==> fits_usize(#[trigger] tokens@[i].kind),
    ensures
        final(builder).token_types@ == old(builder).token_types@,
        final(builder).token_modifiers@ == old(builder).token_modifiers@,
        final(builder).data@ == lexical_pushes(
            old(builder).data@,
            old(builder).token_types@,
            old(builder).token_modifiers@,
            tokens@,
        ),
{
    let ghost types = builder.token_types@;
    let ghost mods = builder.token_modifiers@;
    let ghost goal = lexical_pushes(builder.data@, types, mods, tokens@);
    let mut i: usize = 0;
    assert(tokens@.skip(0) =~= tokens@);
    while i < tokens.len()
        invariant
            i <= tokens.len(),
            builder.token_types@ == types,
            builder.token_modifiers@ == mods,
            forall|j: int| 0 <= j < tokens.len() ==> fits_usize(#[trigger] tokens@[j].kind),
            goal == lexical_pushes(builder.data@, types, mods, tokens@.skip(i as int)),
        ensures
            builder.token_types@ == types,
            builder.token_modifiers@ == mods,
            goal == builder.data@,
        decreases tokens.len() - i,
    {
        let token = &tokens[i];
        assert(tokens@.skip(i as int)[0] == tokens@[i as int]);
        assert(tokens@.skip(i as int).drop_first() =~= tokens@.skip(i as int + 1));
        let (token_type, length) = lexical_token_class(&token.kind);
        match token_type {
            Some(tt) => {
                let empty: Vec<crate::protocol::SemanticTokenModifier> = Vec::new();
                assert(empty@ =~= Seq::<crate::protocol::SemanticTokenModifier>::empty());
                builder.push(token.line as u32, token.col as u32, length, tt, empty.as_slice());
            },
            None => {},
        }
        if matches!(token.kind, Kind::Eof) {
            break;
        }
        i += 1;
    }
}

} // verus!
