//! Semantic highlighting of a whole document: lexical tokens, declarations
//! of the program, and uses of macros.
use vstd::prelude::*;
use ropey::Rope;
use crate::ast::{
    Ast, Control, Declared, Extern, ExternMethod, Header, Member, Package, PackageParameter, Parameter, Parser, State,
    Struct, Variable,
};
use crate::lexical::{
    add_lexical_semantic_tokens, fits_usize, kind_fits, lexical_class, lexical_pushes, relative_of, token_relative, token_text_len,
    Token,
};
use crate::protocol::{
    Range, SemanticToken, SemanticTokenModifier, SemanticTokenType, SemanticTokensLegend,
};
use crate::scope::{find_chars, find_sub};
use crate::server::Document;
use crate::strings::{chars_of, string_from_chars};
use crate::text::{rope_len_lines, rope_line, rope_text, text_lines};
use crate::semantic::{
    encode_relative, encode_relative_tokens, filter_range, filter_tokens_by_range, index_from, modifier_bits,
    pushed, sort_tokens, SemanticTokensBuilder,
};

verus! {

/// A declaration token and how it is highlighted.
pub type Mark = (Token, SemanticTokenType);

/// Token data after highlighting one declaration token, when its line
/// exists.
pub open spec fn mark_step(
    data: Seq<SemanticToken>,
    types: Seq<SemanticTokenType>,
    mods: Seq<SemanticTokenModifier>,
    text: Seq<char>,
    m: Mark,
) -> Seq<SemanticToken> {
    match relative_of(m.0, text) {
        Some((l, c, n)) => pushed(data, types, mods, l, c, n, m.1, Seq::empty()),
        None => data,
    }
}

/// Token data after highlighting the declaration tokens `ms` in order.
pub open spec fn mark_all(
    data: Seq<SemanticToken>,
    types: Seq<SemanticTokenType>,
    mods: Seq<SemanticTokenModifier>,
    text: Seq<char>,
    ms: Seq<Mark>,
) -> Seq<SemanticToken>
    decreases ms.len(),
{
    if ms.len() == 0 {
        data
    } else {
        mark_step(mark_all(data, types, mods, text, ms.drop_last()), types, mods, text, ms.last())
    }
}

pub proof fn lemma_mark_all_concat(
    data: Seq<SemanticToken>,
    types: Seq<SemanticTokenType>,
    mods: Seq<SemanticTokenModifier>,
    text: Seq<char>,
    a: Seq<Mark>,
    b: Seq<Mark>,
)
    ensures
        mark_all(data, types, mods, text, a + b) == mark_all(
            mark_all(data, types, mods, text, a),
            types,
            mods,
            text,
            b,
        ),
    decreases b.len(),
{
    if b.len() == 0 {
        assert(a + b =~= a);
    } else {
        lemma_mark_all_concat(data, types, mods, text, a, b.drop_last());
        assert((a + b).drop_last() =~= a + b.drop_last());
    }
}

/// The tokens of a sequence of declarations, each highlighted with `t`.
pub open spec fn marks_of(tokens: Seq<Token>, t: SemanticTokenType) -> Seq<Mark> {
    tokens.map_values(|k: Token| (k, t))
}

pub open spec fn header_marks(h: Header) -> Seq<Mark> {
    seq![(h.token, SemanticTokenType::Type)] + marks_of(
        h.members@.map_values(|m: crate::ast::Member| m.token),
        SemanticTokenType::Variable,
    )
}

pub open spec fn struct_marks(s: Struct) -> Seq<Mark> {
    seq![(s.token, SemanticTokenType::Type)] + marks_of(
        s.members@.map_values(|m: crate::ast::Member| m.token),
        SemanticTokenType::Variable,
    )
}

pub open spec fn param_marks(ps: Seq<crate::ast::Parameter>) -> Seq<Mark> {
    marks_of(ps.map_values(|p: crate::ast::Parameter| p.name_token), SemanticTokenType::Parameter)
}

pub open spec fn package_marks(p: Package) -> Seq<Mark> {
    seq![(p.token, SemanticTokenType::Type)] + marks_of(
        p.parameters@.map_values(|q: crate::ast::PackageParameter| q.token),
        SemanticTokenType::Parameter,
    )
}

pub open spec fn action_marks(actions: Seq<crate::ast::Action>) -> Seq<Mark>
    decreases actions.len(),
{
    if actions.len() == 0 {
        Seq::empty()
    } else {
        action_marks(actions.drop_last()) + seq![(actions.last().token, SemanticTokenType::Function)]
            + param_marks(actions.last().parameters@)
    }
}

pub open spec fn control_marks(c: Control) -> Seq<Mark> {
    seq![(c.token, SemanticTokenType::Type)] + param_marks(c.parameters@) + marks_of(
        c.variables@.map_values(|v: crate::ast::Variable| v.token),
        SemanticTokenType::Variable,
    ) + action_marks(c.actions@) + marks_of(
        c.tables@.map_values(|t: crate::ast::Table| t.token),
        SemanticTokenType::Variable,
    )
}

pub open spec fn parser_marks(p: Parser) -> Seq<Mark> {
    seq![(p.token, SemanticTokenType::Type)] + param_marks(p.parameters@) + marks_of(
        p.states@.map_values(|s: crate::ast::State| s.token),
        SemanticTokenType::Function,
    )
}

pub open spec fn method_marks(ms: Seq<crate::ast::ExternMethod>) -> Seq<Mark>
    decreases ms.len(),
{
    if ms.len() == 0 {
        Seq::empty()
    } else {
        method_marks(ms.drop_last()) + seq![(ms.last().token, SemanticTokenType::Method)]
            + param_marks(ms.last().parameters@)
    }
}

pub open spec fn extern_marks(e: Extern) -> Seq<Mark> {
    seq![(e.token, SemanticTokenType::Type)] + method_marks(e.methods@)
}

/// The marks of every element of a list, in order.
pub open spec fn concat_marks<T>(v: Seq<T>, f: spec_fn(T) -> Seq<Mark>) -> Seq<Mark>
    decreases v.len(),
{
    if v.len() == 0 {
        Seq::empty()
    } else {
        concat_marks(v.drop_last(), f) + f(v.last())
    }
}

/// The declaration tokens of a program and their highlighting, in the order
/// they are highlighted: headers and their members, structs and their
/// members, typedefs, constants, packages and their parameters, controls
/// with their parameters, variables, actions (with parameters) and tables,
/// parsers with their parameters and states, externs with their methods
/// (with parameters).
pub open spec fn ast_marks(ast: Ast) -> Seq<Mark> {
    concat_marks(ast.headers@, |h: Header| header_marks(h)) + concat_marks(
        ast.structs@,
        |s: Struct| struct_marks(s),
    ) + marks_of(ast.typedefs@.map_values(|t: crate::ast::Typedef| t.token), SemanticTokenType::Type)
        + marks_of(
        ast.constants@.map_values(|c: crate::ast::Constant| c.token),
        SemanticTokenType::Variable,
    ) + concat_marks(ast.packages@, |p: Package| package_marks(p)) + concat_marks(
        ast.controls@,
        |c: Control| control_marks(c),
    ) + concat_marks(ast.parsers@, |p: Parser| parser_marks(p)) + concat_marks(
        ast.externs@,
        |e: Extern| extern_marks(e),
    )
}

/// Every token in the marks has a length that fits in memory.
pub open spec fn marks_fit(ms: Seq<Mark>) -> bool {
    forall|i: int| 0 <= i < ms.len() ==> fits_usize(#[trigger] ms[i].0.kind)
}

/// The source lengths of the parameters' name tokens fit in memory.
pub open spec fn params_fit(ps: Seq<crate::ast::Parameter>) -> bool {
    forall|i: int| 0 <= i < ps.len() ==> fits_usize(#[trigger] ps[i].name_token.kind)
}

/// The source lengths of all declaration tokens of the program fit in
/// memory.
pub open spec fn ast_fits(ast: Ast) -> bool {
    &&& forall|i: int| 0 <= i < ast.headers@.len() ==> {
        &&& fits_usize(#[trigger] ast.headers@[i].token.kind)
        &&& forall|j: int| 0 <= j < ast.headers@[i].members@.len() ==> fits_usize(#[trigger] ast.headers@[i].members@[j].token.kind)
    }
    &&& forall|i: int| 0 <= i < ast.structs@.len() ==> {
        &&& fits_usize(#[trigger] ast.structs@[i].token.kind)
        &&& forall|j: int| 0 <= j < ast.structs@[i].members@.len() ==> fits_usize(#[trigger] ast.structs@[i].members@[j].token.kind)
    }
    &&& forall|i: int| 0 <= i < ast.typedefs@.len() ==> fits_usize(#[trigger] ast.typedefs@[i].token.kind)
    &&& forall|i: int| 0 <= i < ast.constants@.len() ==> fits_usize(#[trigger] ast.constants@[i].token.kind)
    &&& forall|i: int| 0 <= i < ast.packages@.len() ==> {
        &&& fits_usize(#[trigger] ast.packages@[i].token.kind)
        &&& forall|j: int| 0 <= j < ast.packages@[i].parameters@.len() ==> fits_usize(#[trigger] ast.packages@[i].parameters@[j].token.kind)
    }
    &&& forall|i: int| 0 <= i < ast.controls@.len() ==> {
        let c = #[trigger] ast.controls@[i];
        &&& fits_usize(c.token.kind)
        &&& params_fit(c.parameters@)
        &&& forall|j: int| 0 <= j < c.variables@.len() ==> fits_usize(#[trigger] c.variables@[j].token.kind)
        &&& forall|j: int| 0 <= j < c.actions@.len() ==> {
            &&& fits_usize(#[trigger] c.actions@[j].token.kind)
            &&& params_fit(c.actions@[j].parameters@)
        }
        &&& forall|j: int| 0 <= j < c.tables@.len() ==> fits_usize(#[trigger] c.tables@[j].token.kind)
    }
    &&& forall|i: int| 0 <= i < ast.parsers@.len() ==> {
        let p = #[trigger] ast.parsers@[i];
        &&& fits_usize(p.token.kind)
        &&& params_fit(p.parameters@)
        &&& forall|j: int| 0 <= j < p.states@.len() ==> fits_usize(#[trigger] p.states@[j].token.kind)
    }
    &&& forall|i: int| 0 <= i < ast.externs@.len() ==> {
        let e = #[trigger] ast.externs@[i];
        &&& fits_usize(e.token.kind)
        &&& forall|j: int| 0 <= j < e.methods@.len() ==> {
            &&& fits_usize(#[trigger] e.methods@[j].token.kind)
            &&& params_fit(e.methods@[j].parameters@)
        }
    }
}

/// A part of a declaration that carries a token of its own.
pub trait Placed {
    spec fn placed(&self) -> Token;

    fn placed_ref(&self) -> (r: &Token)
        ensures
            *r == self.placed(),
    ;
}

impl Placed for Member {
    open spec fn placed(&self) -> Token {
        self.token
    }

    fn placed_ref(&self) -> (r: &Token) {
        &self.token
    }
}

impl Placed for Parameter {
    open spec fn placed(&self) -> Token {
        self.name_token
    }

    fn placed_ref(&self) -> (r: &Token) {
        &self.name_token
    }
}

impl Placed for Variable {
    open spec fn placed(&self) -> Token {
        self.token
    }

    fn placed_ref(&self) -> (r: &Token) {
        &self.token
    }
}

impl Placed for State {
    open spec fn placed(&self) -> Token {
        self.token
    }

    fn placed_ref(&self) -> (r: &Token) {
        &self.token
    }
}

impl Placed for PackageParameter {
    open spec fn placed(&self) -> Token {
        self.token
    }

    fn placed_ref(&self) -> (r: &Token) {
        &self.token
    }
}

/// Whether the tokens of all parts in `v` have source lengths that fit.
fn parts_fit<T: Placed>(v: &Vec<T>) -> (r: bool)
    ensures
        r == forall|j: int| 0 <= j < v@.len() ==> fits_usize((#[trigger] v@[j]).placed().kind),
{
    let mut i: usize = 0;
    while i < v.len()
        invariant
            i <= v@.len(),
            forall|j: int| 0 <= j < i ==> fits_usize((#[trigger] v@[j]).placed().kind),
        decreases v@.len() - i,
    {
        if !kind_fits(&v[i].placed_ref().kind) {
            return false;
        }
        i += 1;
    }
    true
}

/// Whether the tokens of all declarations in `v` have source lengths that
/// fit.
fn decls_fit<T: Declared>(v: &Vec<T>) -> (r: bool)
    ensures
        r == forall|j: int| 0 <= j < v@.len() ==> fits_usize((#[trigger] v@[j]).spec_token().kind),
{
    let mut i: usize = 0;
    while i < v.len()
        invariant
            i <= v@.len(),
            forall|j: int| 0 <= j < i ==> fits_usize((#[trigger] v@[j]).spec_token().kind),
        decreases v@.len() - i,
    {
        if !kind_fits(&v[i].token_ref().kind) {
            return false;
        }
        i += 1;
    }
    true
}

spec fn control_fits(c: Control) -> bool {
    &&& fits_usize(c.token.kind)
    &&& params_fit(c.parameters@)
    &&& forall|j: int| 0 <= j < c.variables@.len() ==> fits_usize(#[trigger] c.variables@[j].token.kind)
    &&& forall|j: int| 0 <= j < c.actions@.len() ==> {
        &&& fits_usize(#[trigger] c.actions@[j].token.kind)
        &&& params_fit(c.actions@[j].parameters@)
    }
    &&& forall|j: int| 0 <= j < c.tables@.len() ==> fits_usize(#[trigger] c.tables@[j].token.kind)
}

fn control_fits_at(c: &Control) -> (r: bool)
    ensures
        r == control_fits(*c),
{
    if !kind_fits(&c.token.kind) || !parts_fit(&c.parameters) || !parts_fit(&c.variables) || !decls_fit(
        &c.tables,
    ) {
        return false;
    }
    let mut i: usize = 0;
    while i < c.actions.len()
        invariant
            i <= c.actions@.len(),
            forall|j: int| 0 <= j < i ==> {
                &&& fits_usize(#[trigger] c.actions@[j].token.kind)
                &&& params_fit(c.actions@[j].parameters@)
            },
        decreases c.actions@.len() - i,
    {
        if !kind_fits(&c.actions[i].token.kind) || !parts_fit(&c.actions[i].parameters) {
            return false;
        }
        i += 1;
    }
    true
}

spec fn parser_fits(p: Parser) -> bool {
    &&& fits_usize(p.token.kind)
    &&& params_fit(p.parameters@)
    &&& forall|j: int| 0 <= j < p.states@.len() ==> fits_usize(#[trigger] p.states@[j].token.kind)
}

spec fn extern_fits(e: Extern) -> bool {
    &&& fits_usize(e.token.kind)
    &&& forall|j: int| 0 <= j < e.methods@.len() ==> {
        &&& fits_usize(#[trigger] e.methods@[j].token.kind)
        &&& params_fit(e.methods@[j].parameters@)
    }
}

fn extern_fits_at(e: &Extern) -> (r: bool)
    ensures
        r == extern_fits(*e),
{
    if !kind_fits(&e.token.kind) {
        return false;
    }
    let mut i: usize = 0;
    while i < e.methods.len()
        invariant
            i <= e.methods@.len(),
            forall|j: int| 0 <= j < i ==> {
                &&& fits_usize(#[trigger] e.methods@[j].token.kind)
                &&& params_fit(e.methods@[j].parameters@)
            },
        decreases e.methods@.len() - i,
    {
        if !kind_fits(&e.methods[i].token.kind) || !parts_fit(&e.methods[i].parameters) {
            return false;
        }
        i += 1;
    }
    true
}

/// Whether the source lengths of all declaration tokens of the program fit.
pub fn ast_fits_at(ast: &Ast) -> (r: bool)
    ensures
        r == ast_fits(*ast),
{
    if !decls_fit(&ast.typedefs) || !decls_fit(&ast.constants) {
        return false;
    }
    let mut i: usize = 0;
    while i < ast.headers.len()
        invariant
            i <= ast.headers@.len(),
            forall|k: int| 0 <= k < i ==> {
                &&& fits_usize(#[trigger] ast.headers@[k].token.kind)
                &&& forall|j: int| 0 <= j < ast.headers@[k].members@.len() ==> fits_usize(#[trigger] ast.headers@[k].members@[j].token.kind)
            },
        decreases ast.headers@.len() - i,
    {
        if !kind_fits(&ast.headers[i].token.kind) || !parts_fit(&ast.headers[i].members) {
            return false;
        }
        i += 1;
    }
    let mut i: usize = 0;
    while i < ast.structs.len()
        invariant
            i <= ast.structs@.len(),
            forall|k: int| 0 <= k < i ==> {
                &&& fits_usize(#[trigger] ast.structs@[k].token.kind)
                &&& forall|j: int| 0 <= j < ast.structs@[k].members@.len() ==> fits_usize(#[trigger] ast.structs@[k].members@[j].token.kind)
            },
        decreases ast.structs@.len() - i,
    {
        if !kind_fits(&ast.structs[i].token.kind) || !parts_fit(&ast.structs[i].members) {
            return false;
        }
        i += 1;
    }
    let mut i: usize = 0;
    while i < ast.packages.len()
        invariant
            i <= ast.packages@.len(),
            forall|k: int| 0 <= k < i ==> {
                &&& fits_usize(#[trigger] ast.packages@[k].token.kind)
                &&& forall|j: int| 0 <= j < ast.packages@[k].parameters@.len() ==> fits_usize(#[trigger] ast.packages@[k].parameters@[j].token.kind)
            },
        decreases ast.packages@.len() - i,
    {
        if !kind_fits(&ast.packages[i].token.kind) || !parts_fit(&ast.packages[i].parameters) {
            return false;
        }
        i += 1;
    }
    let mut i: usize = 0;
    while i < ast.controls.len()
        invariant
            i <= ast.controls@.len(),
            forall|k: int| 0 <= k < i ==> control_fits(#[trigger] ast.controls@[k]),
        decreases ast.controls@.len() - i,
    {
        if !control_fits_at(&ast.controls[i]) {
            return false;
        }
        i += 1;
    }
    let mut i: usize = 0;
    while i < ast.parsers.len()
        invariant
            i <= ast.parsers@.len(),
            forall|k: int| 0 <= k < i ==> parser_fits(#[trigger] ast.parsers@[k]),
        decreases ast.parsers@.len() - i,
    {
        let p = &ast.parsers[i];
        if !kind_fits(&p.token.kind) || !parts_fit(&p.parameters) || !parts_fit(&p.states) {
            return false;
        }
        i += 1;
    }
    let mut i: usize = 0;
    while i < ast.externs.len()
        invariant
            i <= ast.externs@.len(),
            forall|k: int| 0 <= k < i ==> extern_fits(#[trigger] ast.externs@[k]),
        decreases ast.externs@.len() - i,
    {
        if !extern_fits_at(&ast.externs[i]) {
            return false;
        }
        i += 1;
    }
    true
}

/// Whether the token lengths that highlighting `doc` with the tokens
/// `lexed` computes fit, as `collect_semantic_tokens` needs.
pub fn highlight_fits(doc: &Document, lexed: &Vec<Token>) -> (r: bool)
    ensures
        r == highlight_ok(*doc, lexed@),
{
    let mut i: usize = 0;
    while i < lexed.len()
        invariant
            i <= lexed@.len(),
            forall|k: int| 0 <= k < i ==> fits_usize(#[trigger] lexed@[k].kind),
        decreases lexed@.len() - i,
    {
        if !kind_fits(&lexed[i].kind) {
            return false;
        }
        i += 1;
    }
    match &doc.ast {
        Some(ast) => ast_fits_at(ast),
        None => true,
    }
}

/// The marks, with their tokens by value.
pub open spec fn mark_views(v: Seq<(&Token, SemanticTokenType)>) -> Seq<Mark> {
    v.map_values(|p: (&Token, SemanticTokenType)| (*p.0, p.1))
}

/// Appends a mark.
fn push_mark<'a>(out: &mut Vec<(&'a Token, SemanticTokenType)>, t: &'a Token, ty: SemanticTokenType)
    requires
        marks_fit(mark_views(old(out)@)),
        fits_usize(t.kind),
    ensures
        mark_views(final(out)@) == mark_views(old(out)@).push((*t, ty)),
        marks_fit(mark_views(final(out)@)),
{
    let ghost prev = mark_views(out@);
    out.push((t, ty));
    assert(mark_views(out@) =~= prev.push((*t, ty)));
}

/// Appends a mark per parameter name.
fn push_param_marks<'a>(out: &mut Vec<(&'a Token, SemanticTokenType)>, ps: &'a Vec<crate::ast::Parameter>)
    requires
        marks_fit(mark_views(old(out)@)),
        params_fit(ps@),
    ensures
        mark_views(final(out)@) == mark_views(old(out)@) + param_marks(ps@),
        marks_fit(mark_views(final(out)@)),
{
    let ghost base = mark_views(out@);
    let ghost goal = param_marks(ps@);
    let mut i: usize = 0;
    while i < ps.len()
        invariant
            i <= ps@.len(),
            params_fit(ps@),
            goal == param_marks(ps@),
            mark_views(out@) =~= base + goal.take(i as int),
            marks_fit(mark_views(out@)),
        decreases ps@.len() - i,
    {
        push_mark(out, &ps[i].name_token, SemanticTokenType::Parameter);
        assert(goal.take(i as int + 1) =~= goal.take(i as int).push(goal[i as int]));
        i += 1;
    }
    assert(goal.take(ps@.len() as int) =~= goal);
}

/// The declaration tokens of the program with their highlighting.
fn ast_mark_list<'a>(ast: &'a Ast) -> (r: Vec<(&'a Token, SemanticTokenType)>)
    requires
        ast_fits(*ast),
    ensures
        mark_views(r@) == ast_marks(*ast),
        marks_fit(mark_views(r@)),
{
    let mut out: Vec<(&'a Token, SemanticTokenType)> = Vec::new();
    assert(mark_views(out@) =~= Seq::<Mark>::empty());
    // headers
    let ghost g0 = mark_views(out@);
    let mut i: usize = 0;
    while i < ast.headers.len()
        invariant
            i <= ast.headers@.len(),
            ast_fits(*ast),
            mark_views(out@) == g0 + concat_marks(ast.headers@.take(i as int), |h: Header| header_marks(h)),
            marks_fit(mark_views(out@)),
        decreases ast.headers@.len() - i,
    {
        let h = &ast.headers[i];
        let ghost before = mark_views(out@);
        push_mark(&mut out, &h.token, SemanticTokenType::Type);
        let mut j: usize = 0;
        while j < h.members.len()
            invariant
                j <= h.members@.len(),
                *h == ast.headers@[i as int],
                i < ast.headers@.len(),
                ast_fits(*ast),
                mark_views(out@) =~= before + seq![(h.token, SemanticTokenType::Type)] + marks_of(
                    h.members@.take(j as int).map_values(|m: crate::ast::Member| m.token),
                    SemanticTokenType::Variable,
                ),
                marks_fit(mark_views(out@)),
            decreases h.members@.len() - j,
        {
            assert(fits_usize(ast.headers@[i as int].token.kind));
            assert(fits_usize(ast.headers@[i as int].members@[j as int].token.kind));
            push_mark(&mut out, &h.members[j].token, SemanticTokenType::Variable);
            assert(h.members@.take(j as int + 1).map_values(|m: crate::ast::Member| m.token) =~= h.members@.take(j as int).map_values(|m: crate::ast::Member| m.token).push(h.members@[j as int].token));
            j += 1;
        }
        assert(h.members@.take(h.members@.len() as int) =~= h.members@);
        assert(ast.headers@.take(i as int + 1).drop_last() =~= ast.headers@.take(i as int));
        i += 1;
    }
    assert(ast.headers@.take(ast.headers@.len() as int) =~= ast.headers@);
    // structs
    let ghost g1 = mark_views(out@);
    let mut i: usize = 0;
    while i < ast.structs.len()
        invariant
            i <= ast.structs@.len(),
            ast_fits(*ast),
            mark_views(out@) == g1 + concat_marks(ast.structs@.take(i as int), |s: Struct| struct_marks(s)),
            marks_fit(mark_views(out@)),
        decreases ast.structs@.len() - i,
    {
        let h = &ast.structs[i];
        let ghost before = mark_views(out@);
        push_mark(&mut out, &h.token, SemanticTokenType::Type);
        let mut j: usize = 0;
        while j < h.members.len()
            invariant
                j <= h.members@.len(),
                *h == ast.structs@[i as int],
                i < ast.structs@.len(),
                ast_fits(*ast),
                mark_views(out@) =~= before + seq![(h.token, SemanticTokenType::Type)] + marks_of(
                    h.members@.take(j as int).map_values(|m: crate::ast::Member| m.token),
                    SemanticTokenType::Variable,
                ),
                marks_fit(mark_views(out@)),
            decreases h.members@.len() - j,
        {
            assert(fits_usize(ast.structs@[i as int].token.kind));
            assert(fits_usize(ast.structs@[i as int].members@[j as int].token.kind));
            push_mark(&mut out, &h.members[j].token, SemanticTokenType::Variable);
            assert(h.members@.take(j as int + 1).map_values(|m: crate::ast::Member| m.token) =~= h.members@.take(j as int).map_values(|m: crate::ast::Member| m.token).push(h.members@[j as int].token));
            j += 1;
        }
        assert(h.members@.take(h.members@.len() as int) =~= h.members@);
        assert(ast.structs@.take(i as int + 1).drop_last() =~= ast.structs@.take(i as int));
        i += 1;
    }
    assert(ast.structs@.take(ast.structs@.len() as int) =~= ast.structs@);
    // typedefs
    let ghost g2 = mark_views(out@);
    let mut i: usize = 0;
    while i < ast.typedefs.len()
        invariant
            i <= ast.typedefs@.len(),
            ast_fits(*ast),
            mark_views(out@) =~= g2 + marks_of(ast.typedefs@.take(i as int).map_values(|t: crate::ast::Typedef| t.token), SemanticTokenType::Type),
            marks_fit(mark_views(out@)),
        decreases ast.typedefs@.len() - i,
    {
        push_mark(&mut out, &ast.typedefs[i].token, SemanticTokenType::Type);
        assert(ast.typedefs@.take(i as int + 1).map_values(|t: crate::ast::Typedef| t.token) =~= ast.typedefs@.take(i as int).map_values(|t: crate::ast::Typedef| t.token).push(ast.typedefs@[i as int].token));
        i += 1;
    }
    assert(ast.typedefs@.take(ast.typedefs@.len() as int) =~= ast.typedefs@);
    // constants
    let ghost g3 = mark_views(out@);
    let mut i: usize = 0;
    while i < ast.constants.len()
        invariant
            i <= ast.constants@.len(),
            ast_fits(*ast),
            mark_views(out@) =~= g3 + marks_of(ast.constants@.take(i as int).map_values(|t: crate::ast::Constant| t.token), SemanticTokenType::Variable),
            marks_fit(mark_views(out@)),
        decreases ast.constants@.len() - i,
    {
        push_mark(&mut out, &ast.constants[i].token, SemanticTokenType::Variable);
        assert(ast.constants@.take(i as int + 1).map_values(|t: crate::ast::Constant| t.token) =~= ast.constants@.take(i as int).map_values(|t: crate::ast::Constant| t.token).push(ast.constants@[i as int].token));
        i += 1;
    }
    assert(ast.constants@.take(ast.constants@.len() as int) =~= ast.constants@);
    // packages
    let ghost g4 = mark_views(out@);
    let mut i: usize = 0;
    while i < ast.packages.len()
        invariant
            i <= ast.packages@.len(),
            ast_fits(*ast),
            mark_views(out@) == g4 + concat_marks(ast.packages@.take(i as int), |p: Package| package_marks(p)),
            marks_fit(mark_views(out@)),
        decreases ast.packages@.len() - i,
    {
        let h = &ast.packages[i];
        let ghost before = mark_views(out@);
        push_mark(&mut out, &h.token, SemanticTokenType::Type);
        let mut j: usize = 0;
        while j < h.parameters.len()
            invariant
                j <= h.parameters@.len(),
                *h == ast.packages@[i as int],
                i < ast.packages@.len(),
                ast_fits(*ast),
                mark_views(out@) =~= before + seq![(h.token, SemanticTokenType::Type)] + marks_of(
                    h.parameters@.take(j as int).map_values(|q: crate::ast::PackageParameter| q.token),
                    SemanticTokenType::Parameter,
                ),
                marks_fit(mark_views(out@)),
            decreases h.parameters@.len() - j,
        {
            assert(fits_usize(ast.packages@[i as int].token.kind));
            assert(fits_usize(ast.packages@[i as int].parameters@[j as int].token.kind));
            push_mark(&mut out, &h.parameters[j].token, SemanticTokenType::Parameter);
            assert(h.parameters@.take(j as int + 1).map_values(|q: crate::ast::PackageParameter| q.token) =~= h.parameters@.take(j as int).map_values(|q: crate::ast::PackageParameter| q.token).push(h.parameters@[j as int].token));
            j += 1;
        }
        assert(h.parameters@.take(h.parameters@.len() as int) =~= h.parameters@);
        assert(ast.packages@.take(i as int + 1).drop_last() =~= ast.packages@.take(i as int));
        i += 1;
    }
    assert(ast.packages@.take(ast.packages@.len() as int) =~= ast.packages@);
    // controls
    let ghost g5 = mark_views(out@);
    let mut i: usize = 0;
    while i < ast.controls.len()
        invariant
            i <= ast.controls@.len(),
            ast_fits(*ast),
            mark_views(out@) == g5 + concat_marks(ast.controls@.take(i as int), |c: Control| control_marks(c)),
            marks_fit(mark_views(out@)),
        decreases ast.controls@.len() - i,
    {
        let c = &ast.controls[i];
        let ghost before = mark_views(out@);
        push_mark(&mut out, &c.token, SemanticTokenType::Type);
        push_param_marks(&mut out, &c.parameters);
        let ghost after_params = mark_views(out@);
        let mut j: usize = 0;
        while j < c.variables.len()
            invariant
                j <= c.variables@.len(),
                *c == ast.controls@[i as int],
                i < ast.controls@.len(),
                ast_fits(*ast),
                mark_views(out@) =~= after_params + marks_of(
                    c.variables@.take(j as int).map_values(|v: crate::ast::Variable| v.token),
                    SemanticTokenType::Variable,
                ),
                marks_fit(mark_views(out@)),
            decreases c.variables@.len() - j,
        {
            push_mark(&mut out, &c.variables[j].token, SemanticTokenType::Variable);
            assert(c.variables@.take(j as int + 1).map_values(|v: crate::ast::Variable| v.token) =~= c.variables@.take(j as int).map_values(|v: crate::ast::Variable| v.token).push(c.variables@[j as int].token));
            j += 1;
        }
        assert(c.variables@.take(c.variables@.len() as int) =~= c.variables@);
        let ghost after_vars = mark_views(out@);
        let mut j: usize = 0;
        while j < c.actions.len()
            invariant
                j <= c.actions@.len(),
                *c == ast.controls@[i as int],
                i < ast.controls@.len(),
                ast_fits(*ast),
                mark_views(out@) == after_vars + action_marks(c.actions@.take(j as int)),
                marks_fit(mark_views(out@)),
            decreases c.actions@.len() - j,
        {
            let a = &c.actions[j];
            push_mark(&mut out, &a.token, SemanticTokenType::Function);
            push_param_marks(&mut out, &a.parameters);
            assert(c.actions@.take(j as int + 1).drop_last() =~= c.actions@.take(j as int));
            j += 1;
        }
        assert(c.actions@.take(c.actions@.len() as int) =~= c.actions@);
        let ghost after_actions = mark_views(out@);
        let mut j: usize = 0;
        while j < c.tables.len()
            invariant
                j <= c.tables@.len(),
                *c == ast.controls@[i as int],
                i < ast.controls@.len(),
                ast_fits(*ast),
                mark_views(out@) =~= after_actions + marks_of(
                    c.tables@.take(j as int).map_values(|t: crate::ast::Table| t.token),
                    SemanticTokenType::Variable,
                ),
                marks_fit(mark_views(out@)),
            decreases c.tables@.len() - j,
        {
            push_mark(&mut out, &c.tables[j].token, SemanticTokenType::Variable);
            assert(c.tables@.take(j as int + 1).map_values(|t: crate::ast::Table| t.token) =~= c.tables@.take(j as int).map_values(|t: crate::ast::Table| t.token).push(c.tables@[j as int].token));
            j += 1;
        }
        assert(c.tables@.take(c.tables@.len() as int) =~= c.tables@);
        assert(mark_views(out@) =~= before + control_marks(*c));
        assert(ast.controls@.take(i as int + 1).drop_last() =~= ast.controls@.take(i as int));
        i += 1;
    }
    assert(ast.controls@.take(ast.controls@.len() as int) =~= ast.controls@);
    // parsers
    let ghost g6 = mark_views(out@);
    let mut i: usize = 0;
    while i < ast.parsers.len()
        invariant
            i <= ast.parsers@.len(),
            ast_fits(*ast),
            mark_views(out@) == g6 + concat_marks(ast.parsers@.take(i as int), |p: Parser| parser_marks(p)),
            marks_fit(mark_views(out@)),
        decreases ast.parsers@.len() - i,
    {
        let p = &ast.parsers[i];
        let ghost before = mark_views(out@);
        push_mark(&mut out, &p.token, SemanticTokenType::Type);
        push_param_marks(&mut out, &p.parameters);
        let ghost after_params = mark_views(out@);
        let mut j: usize = 0;
        while j < p.states.len()
            invariant
                j <= p.states@.len(),
                *p == ast.parsers@[i as int],
                i < ast.parsers@.len(),
                ast_fits(*ast),
                mark_views(out@) =~= after_params + marks_of(
                    p.states@.take(j as int).map_values(|s: crate::ast::State| s.token),
                    SemanticTokenType::Function,
                ),
                marks_fit(mark_views(out@)),
            decreases p.states@.len() - j,
        {
            push_mark(&mut out, &p.states[j].token, SemanticTokenType::Function);
            assert(p.states@.take(j as int + 1).map_values(|s: crate::ast::State| s.token) =~= p.states@.take(j as int).map_values(|s: crate::ast::State| s.token).push(p.states@[j as int].token));
            j += 1;
        }
        assert(p.states@.take(p.states@.len() as int) =~= p.states@);
        assert(mark_views(out@) =~= before + parser_marks(*p));
        assert(ast.parsers@.take(i as int + 1).drop_last() =~= ast.parsers@.take(i as int));
        i += 1;
    }
    assert(ast.parsers@.take(ast.parsers@.len() as int) =~= ast.parsers@);
    // externs
    let ghost g7 = mark_views(out@);
    let mut i: usize = 0;
    while i < ast.externs.len()
        invariant
            i <= ast.externs@.len(),
            ast_fits(*ast),
            mark_views(out@) == g7 + concat_marks(ast.externs@.take(i as int), |e: Extern| extern_marks(e)),
            marks_fit(mark_views(out@)),
        decreases ast.externs@.len() - i,
    {
        let e = &ast.externs[i];
        let ghost before = mark_views(out@);
        push_mark(&mut out, &e.token, SemanticTokenType::Type);
        let ghost after_head = mark_views(out@);
        let mut j: usize = 0;
        while j < e.methods.len()
            invariant
                j <= e.methods@.len(),
                *e == ast.externs@[i as int],
                i < ast.externs@.len(),
                ast_fits(*ast),
                mark_views(out@) == after_head + method_marks(e.methods@.take(j as int)),
                marks_fit(mark_views(out@)),
            decreases e.methods@.len() - j,
        {
            let m = &e.methods[j];
            push_mark(&mut out, &m.token, SemanticTokenType::Method);
            push_param_marks(&mut out, &m.parameters);
            assert(e.methods@.take(j as int + 1).drop_last() =~= e.methods@.take(j as int));
            j += 1;
        }
        assert(e.methods@.take(e.methods@.len() as int) =~= e.methods@);
        assert(ast.externs@.take(i as int + 1).drop_last() =~= ast.externs@.take(i as int));
        i += 1;
    }
    assert(ast.externs@.take(ast.externs@.len() as int) =~= ast.externs@);
    assert(mark_views(out@) =~= ast_marks(*ast));
    out
}

/// The number of UTF-8 bytes of a text, as `str::len` reports it.
pub open spec fn str_len(s: Seq<char>) -> usize {
    vstd::utf8::encode_utf8(s).len() as usize
}

/// Token data after marking the first use of macro `name` on each of the
/// first `n` lines: column and length in bytes.
pub open spec fn macro_line_pushes(
    data: Seq<SemanticToken>,
    types: Seq<SemanticTokenType>,
    mods: Seq<SemanticTokenModifier>,
    lines: Seq<Seq<char>>,
    name: Seq<char>,
    n: int,
) -> Seq<SemanticToken>
    decreases n,
{
    if n <= 0 {
        data
    } else {
        let d = macro_line_pushes(data, types, mods, lines, name, n - 1);
        let l = lines[n - 1];
        match find_sub(l, name) {
            Some(k) => pushed(
                d,
                types,
                mods,
                (n - 1) as u32,
                str_len(l.take(k)) as u32,
                str_len(name) as u32,
                SemanticTokenType::Macro,
                Seq::empty(),
            ),
            None => d,
        }
    }
}

/// Token data after marking the uses of each macro, macro by macro.
pub open spec fn macro_pushes(
    data: Seq<SemanticToken>,
    types: Seq<SemanticTokenType>,
    mods: Seq<SemanticTokenModifier>,
    lines: Seq<Seq<char>>,
    macros: Seq<(String, String)>,
) -> Seq<SemanticToken>
    decreases macros.len(),
{
    if macros.len() == 0 {
        data
    } else {
        macro_line_pushes(
            macro_pushes(data, types, mods, lines, macros.drop_last()),
            types,
            mods,
            lines,
            macros.last().0@,
            lines.len() as int,
        )
    }
}

/// The absolute semantic tokens of a document: its lexical tokens, then the
/// declarations of its program, then the uses of its macros.
pub open spec fn highlight_data(
    types: Seq<SemanticTokenType>,
    mods: Seq<SemanticTokenModifier>,
    text: Seq<char>,
    lexed: Seq<Token>,
    ast: Option<Ast>,
    macros: Seq<(String, String)>,
) -> Seq<SemanticToken> {
    let d1 = lexical_pushes(Seq::empty(), types, mods, lexed);
    let d2 = match ast {
        Some(a) => mark_all(d1, types, mods, text, ast_marks(a)),
        None => d1,
    };
    macro_pushes(d2, types, mods, text_lines(text), macros)
}

/// `x` is at `i` and nowhere before it: the first index of `x` is `i`.
proof fn lemma_index_first<T>(s: Seq<T>, x: T, from: int, i: int)
    requires
        0 <= from <= i < s.len(),
        s[i] == x,
        forall|j: int| from <= j < i ==> s[j] != x,
    ensures
        index_from(s, x, from) == Some(i),
    decreases i - from,
{
    if from < i {
        lemma_index_first(s, x, from + 1, i);
    }
}

/// Pushing a token keeps every token already there.
proof fn lemma_pushed_keeps(
    d: Seq<SemanticToken>,
    types: Seq<SemanticTokenType>,
    mods_legend: Seq<SemanticTokenModifier>,
    line: u32,
    start: u32,
    length: u32,
    t: SemanticTokenType,
    mods: Seq<SemanticTokenModifier>,
    x: SemanticToken,
)
    ensures
        d.contains(x) ==> pushed(d, types, mods_legend, line, start, length, t, mods).contains(x),
{
    if d.contains(x) {
        let k = choose|k: int| 0 <= k < d.len() && d[k] == x;
        assert(pushed(d, types, mods_legend, line, start, length, t, mods)[k] == x);
    }
}

proof fn lemma_macro_line_keeps(
    d: Seq<SemanticToken>,
    types: Seq<SemanticTokenType>,
    mods: Seq<SemanticTokenModifier>,
    lines: Seq<Seq<char>>,
    name: Seq<char>,
    n: int,
    x: SemanticToken,
)
    ensures
        d.contains(x) ==> macro_line_pushes(d, types, mods, lines, name, n).contains(x),
    decreases n,
{
    if n > 0 {
        lemma_macro_line_keeps(d, types, mods, lines, name, n - 1, x);
        let e = macro_line_pushes(d, types, mods, lines, name, n - 1);
        let l = lines[n - 1];
        if let Some(k) = find_sub(l, name) {
            lemma_pushed_keeps(
                e,
                types,
                mods,
                (n - 1) as u32,
                str_len(l.take(k)) as u32,
                str_len(name) as u32,
                SemanticTokenType::Macro,
                Seq::empty(),
                x,
            );
        }
    }
}

/// Marking macro uses keeps every token already there.
proof fn lemma_macro_pushes_keep(
    d: Seq<SemanticToken>,
    types: Seq<SemanticTokenType>,
    mods: Seq<SemanticTokenModifier>,
    lines: Seq<Seq<char>>,
    macros: Seq<(String, String)>,
    x: SemanticToken,
)
    ensures
        d.contains(x) ==> macro_pushes(d, types, mods, lines, macros).contains(x),
    decreases macros.len(),
{
    if macros.len() > 0 {
        lemma_macro_pushes_keep(d, types, mods, lines, macros.drop_last(), x);
        lemma_macro_line_keeps(
            macro_pushes(d, types, mods, lines, macros.drop_last()),
            types,
            mods,
            lines,
            macros.last().0@,
            lines.len() as int,
            x,
        );
    }
}

/// Highlighting marks `ms` in order yields, for mark `k` whose line
/// exists and whose highlighting the legend knows, its token.
proof fn lemma_mark_all_has(
    data: Seq<SemanticToken>,
    types: Seq<SemanticTokenType>,
    mods: Seq<SemanticTokenModifier>,
    text: Seq<char>,
    ms: Seq<Mark>,
    k: int,
    x: SemanticToken,
)
    requires
        0 <= k < ms.len(),
        relative_of(ms[k].0, text) matches Some((l, c, n)) && x == (SemanticToken {
            delta_line: l,
            delta_start: c,
            length: n,
            token_type: x.token_type,
            token_modifiers_bitset: modifier_bits(mods, Seq::empty()),
        }),
        index_from(types, ms[k].1, 0) == Some(x.token_type as int),
        0 <= x.token_type as int,
    ensures
        mark_all(data, types, mods, text, ms).contains(x),
    decreases ms.len(),
{
    let prev = mark_all(data, types, mods, text, ms.drop_last());
    let m = ms.last();
    if k == ms.len() - 1 {
        let (l, c, n) = relative_of(m.0, text).unwrap();
        assert(mark_all(data, types, mods, text, ms) == pushed(prev, types, mods, l, c, n, m.1, Seq::empty()));
        assert(pushed(prev, types, mods, l, c, n, m.1, Seq::empty())[prev.len() as int] == x);
    } else {
        assert(ms.drop_last()[k] == ms[k]);
        lemma_mark_all_has(data, types, mods, text, ms.drop_last(), k, x);
        match relative_of(m.0, text) {
            Some((l, c, n)) => {
                lemma_pushed_keeps(prev, types, mods, l, c, n, m.1, Seq::empty(), x);
            },
            None => {},
        }
    }
}

/// Law: every typedef whose token's line exists in the document is
/// highlighted as a type: the token data hold a token at that token's line
/// and column, with that token's length, of the legend's first `Type`
/// entry and with no modifier.
pub proof fn law_typedefs_highlighted(
    types: Seq<SemanticTokenType>,
    mods: Seq<SemanticTokenModifier>,
    text: Seq<char>,
    lexed: Seq<Token>,
    ast: Ast,
    macros: Seq<(String, String)>,
    i: int,
    ti: int,
)
    requires
        0 <= i < ast.typedefs@.len(),
        ast.typedefs@[i].token.line < text_lines(text).len(),
        0 <= ti < types.len(),
        ti <= u32::MAX,
        types[ti] == SemanticTokenType::Type,
        forall|j: int| 0 <= j < ti ==> types[j] != SemanticTokenType::Type,
    ensures
        highlight_data(types, mods, text, lexed, Some(ast), macros).contains(
            (SemanticToken {
                delta_line: ast.typedefs@[i].token.line as u32,
                delta_start: ast.typedefs@[i].token.col as u32,
                length: token_text_len(ast.typedefs@[i].token.kind) as u32,
                token_type: ti as u32,
                token_modifiers_bitset: 0,
            }),
        ),
{
    let tok = ast.typedefs@[i].token;
    let x = SemanticToken {
        delta_line: tok.line as u32,
        delta_start: tok.col as u32,
        length: token_text_len(tok.kind) as u32,
        token_type: ti as u32,
        token_modifiers_bitset: 0,
    };
    assert(modifier_bits(mods, Seq::empty()) == 0);
    lemma_index_first(types, SemanticTokenType::Type, 0, ti);
    let a = concat_marks(ast.headers@, |h: Header| header_marks(h)) + concat_marks(
        ast.structs@,
        |s: Struct| struct_marks(s),
    );
    let tm = marks_of(ast.typedefs@.map_values(|t: crate::ast::Typedef| t.token), SemanticTokenType::Type);
    let ms = ast_marks(ast);
    assert(tm[i] == (tok, SemanticTokenType::Type));
    assert(ms[a.len() + i] == tm[i]);
    let d1 = lexical_pushes(Seq::empty(), types, mods, lexed);
    lemma_mark_all_has(d1, types, mods, text, ms, a.len() + i, x);
    lemma_macro_pushes_keep(mark_all(d1, types, mods, text, ms), types, mods, text_lines(text), macros, x);
}

/// Law: every declaration mark whose token's line exists in the document
/// is highlighted: the token data hold a token at that token's line and
/// column, with its length, of the legend's first entry for the mark's
/// type, and with no modifier.
pub proof fn law_marks_highlighted(
    types: Seq<SemanticTokenType>,
    mods: Seq<SemanticTokenModifier>,
    text: Seq<char>,
    lexed: Seq<Token>,
    ast: Ast,
    macros: Seq<(String, String)>,
    m: Mark,
    ti: int,
)
    requires
        ast_marks(ast).contains(m),
        m.0.line < text_lines(text).len(),
        0 <= ti < types.len(),
        ti <= u32::MAX,
        types[ti] == m.1,
        forall|j: int| 0 <= j < ti ==> types[j] != m.1,
    ensures
        highlight_data(types, mods, text, lexed, Some(ast), macros).contains(
            (SemanticToken {
                delta_line: m.0.line as u32,
                delta_start: m.0.col as u32,
                length: token_text_len(m.0.kind) as u32,
                token_type: ti as u32,
                token_modifiers_bitset: 0,
            }),
        ),
{
    let x = SemanticToken {
        delta_line: m.0.line as u32,
        delta_start: m.0.col as u32,
        length: token_text_len(m.0.kind) as u32,
        token_type: ti as u32,
        token_modifiers_bitset: 0,
    };
    let ms = ast_marks(ast);
    assert(modifier_bits(mods, Seq::empty()) == 0);
    lemma_index_first(types, m.1, 0, ti);
    let k = choose|k: int| 0 <= k < ms.len() && ms[k] == m;
    let d1 = lexical_pushes(Seq::empty(), types, mods, lexed);
    lemma_mark_all_has(d1, types, mods, text, ms, k, x);
    lemma_macro_pushes_keep(mark_all(d1, types, mods, text, ms), types, mods, text_lines(text), macros, x);
}

proof fn lemma_concat_marks_has<T>(v: Seq<T>, f: spec_fn(T) -> Seq<Mark>, i: int, x: Mark)
    requires
        0 <= i < v.len(),
        f(v[i]).contains(x),
    ensures
        concat_marks(v, f).contains(x),
    decreases v.len(),
{
    let prev = concat_marks(v.drop_last(), f);
    if i < v.len() - 1 {
        assert(v.drop_last()[i] == v[i]);
        lemma_concat_marks_has(v.drop_last(), f, i, x);
    }
    crate::unit::lemma_contains_concat(prev, f(v.last()), x);
}

proof fn lemma_marks_of_has(tokens: Seq<Token>, t: SemanticTokenType, k: int)
    requires
        0 <= k < tokens.len(),
    ensures
        marks_of(tokens, t).contains((tokens[k], t)),
{
    assert(marks_of(tokens, t)[k] == (tokens[k], t));
}

proof fn lemma_param_marks_has(ps: Seq<crate::ast::Parameter>, k: int)
    requires
        0 <= k < ps.len(),
    ensures
        param_marks(ps).contains((ps[k].name_token, SemanticTokenType::Parameter)),
{
    let toks = ps.map_values(|p: crate::ast::Parameter| p.name_token);
    assert(toks[k] == ps[k].name_token);
    lemma_marks_of_has(toks, SemanticTokenType::Parameter, k);
}

proof fn lemma_action_marks_has(acts: Seq<crate::ast::Action>, a: int)
    requires
        0 <= a < acts.len(),
    ensures
        action_marks(acts).contains((acts[a].token, SemanticTokenType::Function)),
        forall|q: int|
            0 <= q < acts[a].parameters@.len() ==> action_marks(acts).contains(
                ((#[trigger] acts[a].parameters@[q]).name_token, SemanticTokenType::Parameter),
            ),
    decreases acts.len(),
{
    let prev = action_marks(acts.drop_last());
    let head = prev + seq![(acts.last().token, SemanticTokenType::Function)];
    let pm = param_marks(acts.last().parameters@);
    assert(action_marks(acts) == head + pm);
    if a < acts.len() - 1 {
        assert(acts.drop_last()[a] == acts[a]);
        lemma_action_marks_has(acts.drop_last(), a);
        assert forall|x: Mark| prev.contains(x) implies action_marks(acts).contains(x) by {
            crate::unit::lemma_contains_concat(prev, seq![(acts.last().token, SemanticTokenType::Function)], x);
            crate::unit::lemma_contains_concat(head, pm, x);
        }
        assert forall|q: int| 0 <= q < acts[a].parameters@.len() implies action_marks(acts).contains(
            ((#[trigger] acts[a].parameters@[q]).name_token, SemanticTokenType::Parameter),
        ) by {
            assert(prev.contains((acts.drop_last()[a].parameters@[q].name_token, SemanticTokenType::Parameter)));
        }
    } else {
        assert(head[prev.len() as int] == (acts.last().token, SemanticTokenType::Function));
        crate::unit::lemma_contains_concat(head, pm, (acts.last().token, SemanticTokenType::Function));
        assert forall|q: int| 0 <= q < acts[a].parameters@.len() implies action_marks(acts).contains(
            ((#[trigger] acts[a].parameters@[q]).name_token, SemanticTokenType::Parameter),
        ) by {
            lemma_param_marks_has(acts.last().parameters@, q);
            crate::unit::lemma_contains_concat(head, pm, (acts[a].parameters@[q].name_token, SemanticTokenType::Parameter));
        }
    }
}

proof fn lemma_method_marks_has(ms: Seq<crate::ast::ExternMethod>, a: int)
    requires
        0 <= a < ms.len(),
    ensures
        method_marks(ms).contains((ms[a].token, SemanticTokenType::Method)),
        forall|q: int|
            0 <= q < ms[a].parameters@.len() ==> method_marks(ms).contains(
                ((#[trigger] ms[a].parameters@[q]).name_token, SemanticTokenType::Parameter),
            ),
    decreases ms.len(),
{
    let prev = method_marks(ms.drop_last());
    let head = prev + seq![(ms.last().token, SemanticTokenType::Method)];
    let pm = param_marks(ms.last().parameters@);
    assert(method_marks(ms) == head + pm);
    if a < ms.len() - 1 {
        assert(ms.drop_last()[a] == ms[a]);
        lemma_method_marks_has(ms.drop_last(), a);
        assert forall|x: Mark| prev.contains(x) implies method_marks(ms).contains(x) by {
            crate::unit::lemma_contains_concat(prev, seq![(ms.last().token, SemanticTokenType::Method)], x);
            crate::unit::lemma_contains_concat(head, pm, x);
        }
        assert forall|q: int| 0 <= q < ms[a].parameters@.len() implies method_marks(ms).contains(
            ((#[trigger] ms[a].parameters@[q]).name_token, SemanticTokenType::Parameter),
        ) by {
            assert(prev.contains((ms.drop_last()[a].parameters@[q].name_token, SemanticTokenType::Parameter)));
        }
    } else {
        assert(head[prev.len() as int] == (ms.last().token, SemanticTokenType::Method));
        crate::unit::lemma_contains_concat(head, pm, (ms.last().token, SemanticTokenType::Method));
        assert forall|q: int| 0 <= q < ms[a].parameters@.len() implies method_marks(ms).contains(
            ((#[trigger] ms[a].parameters@[q]).name_token, SemanticTokenType::Parameter),
        ) by {
            lemma_param_marks_has(ms.last().parameters@, q);
            crate::unit::lemma_contains_concat(head, pm, (ms[a].parameters@[q].name_token, SemanticTokenType::Parameter));
        }
    }
}

/// The parts of a program's marks lie in its marks.
proof fn lemma_ast_marks_parts(ast: Ast, x: Mark)
    ensures
        ({
            let p1 = concat_marks(ast.headers@, |h: Header| header_marks(h));
            let p2 = concat_marks(ast.structs@, |s: Struct| struct_marks(s));
            let p3 = marks_of(ast.typedefs@.map_values(|t: crate::ast::Typedef| t.token), SemanticTokenType::Type);
            let p4 = marks_of(ast.constants@.map_values(|c: crate::ast::Constant| c.token), SemanticTokenType::Variable);
            let p5 = concat_marks(ast.packages@, |p: Package| package_marks(p));
            let p6 = concat_marks(ast.controls@, |c: Control| control_marks(c));
            let p7 = concat_marks(ast.parsers@, |p: Parser| parser_marks(p));
            let p8 = concat_marks(ast.externs@, |e: Extern| extern_marks(e));
            (p1.contains(x) || p2.contains(x) || p3.contains(x) || p4.contains(x) || p5.contains(x) || p6.contains(x)
                || p7.contains(x) || p8.contains(x)) ==> ast_marks(ast).contains(x)
        }),
{
    let p1 = concat_marks(ast.headers@, |h: Header| header_marks(h));
    let p2 = concat_marks(ast.structs@, |s: Struct| struct_marks(s));
    let p3 = marks_of(ast.typedefs@.map_values(|t: crate::ast::Typedef| t.token), SemanticTokenType::Type);
    let p4 = marks_of(ast.constants@.map_values(|c: crate::ast::Constant| c.token), SemanticTokenType::Variable);
    let p5 = concat_marks(ast.packages@, |p: Package| package_marks(p));
    let p6 = concat_marks(ast.controls@, |c: Control| control_marks(c));
    let p7 = concat_marks(ast.parsers@, |p: Parser| parser_marks(p));
    let p8 = concat_marks(ast.externs@, |e: Extern| extern_marks(e));
    assert(ast_marks(ast) == p1 + p2 + p3 + p4 + p5 + p6 + p7 + p8);
    crate::unit::lemma_contains_concat(p1, p2, x);
    crate::unit::lemma_contains_concat(p1 + p2, p3, x);
    crate::unit::lemma_contains_concat(p1 + p2 + p3, p4, x);
    crate::unit::lemma_contains_concat(p1 + p2 + p3 + p4, p5, x);
    crate::unit::lemma_contains_concat(p1 + p2 + p3 + p4 + p5, p6, x);
    crate::unit::lemma_contains_concat(p1 + p2 + p3 + p4 + p5 + p6, p7, x);
    crate::unit::lemma_contains_concat(p1 + p2 + p3 + p4 + p5 + p6 + p7, p8, x);
}

/// Law: the name of every header, struct, typedef, package, control,
/// parser and extern is marked as a type, and the name of every constant as
/// a variable.
pub proof fn law_declarations_marked(ast: Ast)
    ensures
        forall|i: int| 0 <= i < ast.headers@.len() ==> ast_marks(ast).contains(((#[trigger] ast.headers@[i]).token, SemanticTokenType::Type)),
        forall|i: int| 0 <= i < ast.structs@.len() ==> ast_marks(ast).contains(((#[trigger] ast.structs@[i]).token, SemanticTokenType::Type)),
        forall|i: int| 0 <= i < ast.typedefs@.len() ==> ast_marks(ast).contains(((#[trigger] ast.typedefs@[i]).token, SemanticTokenType::Type)),
        forall|i: int| 0 <= i < ast.constants@.len() ==> ast_marks(ast).contains(((#[trigger] ast.constants@[i]).token, SemanticTokenType::Variable)),
        forall|i: int| 0 <= i < ast.packages@.len() ==> ast_marks(ast).contains(((#[trigger] ast.packages@[i]).token, SemanticTokenType::Type)),
        forall|i: int| 0 <= i < ast.controls@.len() ==> ast_marks(ast).contains(((#[trigger] ast.controls@[i]).token, SemanticTokenType::Type)),
        forall|i: int| 0 <= i < ast.parsers@.len() ==> ast_marks(ast).contains(((#[trigger] ast.parsers@[i]).token, SemanticTokenType::Type)),
        forall|i: int| 0 <= i < ast.externs@.len() ==> ast_marks(ast).contains(((#[trigger] ast.externs@[i]).token, SemanticTokenType::Type)),
{
    assert forall|i: int| 0 <= i < ast.headers@.len() implies ast_marks(ast).contains(((#[trigger] ast.headers@[i]).token, SemanticTokenType::Type)) by {
        let x = (ast.headers@[i].token, SemanticTokenType::Type);
        assert(header_marks(ast.headers@[i])[0] == x);
        lemma_concat_marks_has(ast.headers@, |h: Header| header_marks(h), i, x);
        lemma_ast_marks_parts(ast, x);
    }
    assert forall|i: int| 0 <= i < ast.structs@.len() implies ast_marks(ast).contains(((#[trigger] ast.structs@[i]).token, SemanticTokenType::Type)) by {
        let x = (ast.structs@[i].token, SemanticTokenType::Type);
        assert(struct_marks(ast.structs@[i])[0] == x);
        lemma_concat_marks_has(ast.structs@, |s: Struct| struct_marks(s), i, x);
        lemma_ast_marks_parts(ast, x);
    }
    assert forall|i: int| 0 <= i < ast.typedefs@.len() implies ast_marks(ast).contains(((#[trigger] ast.typedefs@[i]).token, SemanticTokenType::Type)) by {
        let x = (ast.typedefs@[i].token, SemanticTokenType::Type);
        let toks = ast.typedefs@.map_values(|t: crate::ast::Typedef| t.token);
        assert(toks[i] == ast.typedefs@[i].token);
        lemma_marks_of_has(toks, SemanticTokenType::Type, i);
        lemma_ast_marks_parts(ast, x);
    }
    assert forall|i: int| 0 <= i < ast.constants@.len() implies ast_marks(ast).contains(((#[trigger] ast.constants@[i]).token, SemanticTokenType::Variable)) by {
        let x = (ast.constants@[i].token, SemanticTokenType::Variable);
        let toks = ast.constants@.map_values(|c: crate::ast::Constant| c.token);
        assert(toks[i] == ast.constants@[i].token);
        lemma_marks_of_has(toks, SemanticTokenType::Variable, i);
        lemma_ast_marks_parts(ast, x);
    }
    assert forall|i: int| 0 <= i < ast.packages@.len() implies ast_marks(ast).contains(((#[trigger] ast.packages@[i]).token, SemanticTokenType::Type)) by {
        let x = (ast.packages@[i].token, SemanticTokenType::Type);
        assert(package_marks(ast.packages@[i])[0] == x);
        lemma_concat_marks_has(ast.packages@, |p: Package| package_marks(p), i, x);
        lemma_ast_marks_parts(ast, x);
    }
    assert forall|i: int| 0 <= i < ast.controls@.len() implies ast_marks(ast).contains(((#[trigger] ast.controls@[i]).token, SemanticTokenType::Type)) by {
        let x = (ast.controls@[i].token, SemanticTokenType::Type);
        assert(control_marks(ast.controls@[i])[0] == x);
        lemma_concat_marks_has(ast.controls@, |c: Control| control_marks(c), i, x);
        lemma_ast_marks_parts(ast, x);
    }
    assert forall|i: int| 0 <= i < ast.parsers@.len() implies ast_marks(ast).contains(((#[trigger] ast.parsers@[i]).token, SemanticTokenType::Type)) by {
        let x = (ast.parsers@[i].token, SemanticTokenType::Type);
        assert(parser_marks(ast.parsers@[i])[0] == x);
        lemma_concat_marks_has(ast.parsers@, |p: Parser| parser_marks(p), i, x);
        lemma_ast_marks_parts(ast, x);
    }
    assert forall|i: int| 0 <= i < ast.externs@.len() implies ast_marks(ast).contains(((#[trigger] ast.externs@[i]).token, SemanticTokenType::Type)) by {
        let x = (ast.externs@[i].token, SemanticTokenType::Type);
        assert(extern_marks(ast.externs@[i])[0] == x);
        lemma_concat_marks_has(ast.externs@, |e: Extern| extern_marks(e), i, x);
        lemma_ast_marks_parts(ast, x);
    }
}

/// Law: the members of every header and struct are marked as variables,
/// and the parameters of every package as parameters.
pub proof fn law_members_marked(ast: Ast)
    ensures
        forall|i: int, j: int|
            0 <= i < ast.headers@.len() && 0 <= j < ast.headers@[i].members@.len() ==> ast_marks(ast).contains(
                ((#[trigger] ast.headers@[i].members@[j]).token, SemanticTokenType::Variable),
            ),
        forall|i: int, j: int|
            0 <= i < ast.structs@.len() && 0 <= j < ast.structs@[i].members@.len() ==> ast_marks(ast).contains(
                ((#[trigger] ast.structs@[i].members@[j]).token, SemanticTokenType::Variable),
            ),
        forall|i: int, j: int|
            0 <= i < ast.packages@.len() && 0 <= j < ast.packages@[i].parameters@.len() ==> ast_marks(ast).contains(
                ((#[trigger] ast.packages@[i].parameters@[j]).token, SemanticTokenType::Parameter),
            ),
{
    assert forall|i: int, j: int|
        0 <= i < ast.headers@.len() && 0 <= j < ast.headers@[i].members@.len() implies ast_marks(ast).contains(
        ((#[trigger] ast.headers@[i].members@[j]).token, SemanticTokenType::Variable),
    ) by {
        let h = ast.headers@[i];
        let x = (h.members@[j].token, SemanticTokenType::Variable);
        let toks = h.members@.map_values(|m: crate::ast::Member| m.token);
        assert(toks[j] == h.members@[j].token);
        lemma_marks_of_has(toks, SemanticTokenType::Variable, j);
        crate::unit::lemma_contains_concat(seq![(h.token, SemanticTokenType::Type)], marks_of(toks, SemanticTokenType::Variable), x);
        lemma_concat_marks_has(ast.headers@, |h: Header| header_marks(h), i, x);
        lemma_ast_marks_parts(ast, x);
    }
    assert forall|i: int, j: int|
        0 <= i < ast.structs@.len() && 0 <= j < ast.structs@[i].members@.len() implies ast_marks(ast).contains(
        ((#[trigger] ast.structs@[i].members@[j]).token, SemanticTokenType::Variable),
    ) by {
        let h = ast.structs@[i];
        let x = (h.members@[j].token, SemanticTokenType::Variable);
        let toks = h.members@.map_values(|m: crate::ast::Member| m.token);
        assert(toks[j] == h.members@[j].token);
        lemma_marks_of_has(toks, SemanticTokenType::Variable, j);
        crate::unit::lemma_contains_concat(seq![(h.token, SemanticTokenType::Type)], marks_of(toks, SemanticTokenType::Variable), x);
        lemma_concat_marks_has(ast.structs@, |s: Struct| struct_marks(s), i, x);
        lemma_ast_marks_parts(ast, x);
    }
    assert forall|i: int, j: int|
        0 <= i < ast.packages@.len() && 0 <= j < ast.packages@[i].parameters@.len() implies ast_marks(ast).contains(
        ((#[trigger] ast.packages@[i].parameters@[j]).token, SemanticTokenType::Parameter),
    ) by {
        let p = ast.packages@[i];
        let x = (p.parameters@[j].token, SemanticTokenType::Parameter);
        let toks = p.parameters@.map_values(|q: crate::ast::PackageParameter| q.token);
        assert(toks[j] == p.parameters@[j].token);
        lemma_marks_of_has(toks, SemanticTokenType::Parameter, j);
        crate::unit::lemma_contains_concat(seq![(p.token, SemanticTokenType::Type)], marks_of(toks, SemanticTokenType::Parameter), x);
        lemma_concat_marks_has(ast.packages@, |p: Package| package_marks(p), i, x);
        lemma_ast_marks_parts(ast, x);
    }
}

/// Law: within every control, the parameters are marked as parameters,
/// the variables and tables as variables, the actions as functions and
/// the actions' parameters as parameters.
pub proof fn law_control_parts_marked(ast: Ast, i: int)
    requires
        0 <= i < ast.controls@.len(),
    ensures
        forall|j: int| 0 <= j < ast.controls@[i].parameters@.len() ==> ast_marks(ast).contains(
            ((#[trigger] ast.controls@[i].parameters@[j]).name_token, SemanticTokenType::Parameter),
        ),
        forall|j: int| 0 <= j < ast.controls@[i].variables@.len() ==> ast_marks(ast).contains(
            ((#[trigger] ast.controls@[i].variables@[j]).token, SemanticTokenType::Variable),
        ),
        forall|j: int| 0 <= j < ast.controls@[i].actions@.len() ==> ast_marks(ast).contains(
            ((#[trigger] ast.controls@[i].actions@[j]).token, SemanticTokenType::Function),
        ),
        forall|j: int, q: int|
            0 <= j < ast.controls@[i].actions@.len() && 0 <= q < ast.controls@[i].actions@[j].parameters@.len()
                ==> ast_marks(ast).contains(
                ((#[trigger] ast.controls@[i].actions@[j].parameters@[q]).name_token, SemanticTokenType::Parameter),
            ),
        forall|j: int| 0 <= j < ast.controls@[i].tables@.len() ==> ast_marks(ast).contains(
            ((#[trigger] ast.controls@[i].tables@[j]).token, SemanticTokenType::Variable),
        ),
{
    let c = ast.controls@[i];
    let p0 = seq![(c.token, SemanticTokenType::Type)];
    let pp = param_marks(c.parameters@);
    let vv = marks_of(c.variables@.map_values(|v: crate::ast::Variable| v.token), SemanticTokenType::Variable);
    let aa = action_marks(c.actions@);
    let tt = marks_of(c.tables@.map_values(|t: crate::ast::Table| t.token), SemanticTokenType::Variable);
    assert(control_marks(c) == p0 + pp + vv + aa + tt);
    assert forall|x: Mark| (pp.contains(x) || vv.contains(x) || aa.contains(x) || tt.contains(x)) implies ast_marks(ast).contains(x) by {
        crate::unit::lemma_contains_concat(p0, pp, x);
        crate::unit::lemma_contains_concat(p0 + pp, vv, x);
        crate::unit::lemma_contains_concat(p0 + pp + vv, aa, x);
        crate::unit::lemma_contains_concat(p0 + pp + vv + aa, tt, x);
        lemma_concat_marks_has(ast.controls@, |c: Control| control_marks(c), i, x);
        lemma_ast_marks_parts(ast, x);
    }
    assert forall|j: int| 0 <= j < c.parameters@.len() implies ast_marks(ast).contains(
        ((#[trigger] ast.controls@[i].parameters@[j]).name_token, SemanticTokenType::Parameter),
    ) by {
        lemma_param_marks_has(c.parameters@, j);
    }
    assert forall|j: int| 0 <= j < c.variables@.len() implies ast_marks(ast).contains(
        ((#[trigger] ast.controls@[i].variables@[j]).token, SemanticTokenType::Variable),
    ) by {
        let toks = c.variables@.map_values(|v: crate::ast::Variable| v.token);
        assert(toks[j] == c.variables@[j].token);
        lemma_marks_of_has(toks, SemanticTokenType::Variable, j);
    }
    assert forall|j: int| 0 <= j < c.actions@.len() implies ast_marks(ast).contains(
        ((#[trigger] ast.controls@[i].actions@[j]).token, SemanticTokenType::Function),
    ) by {
        lemma_action_marks_has(c.actions@, j);
    }
    assert forall|j: int, q: int|
        0 <= j < c.actions@.len() && 0 <= q < c.actions@[j].parameters@.len() implies ast_marks(ast).contains(
        ((#[trigger] ast.controls@[i].actions@[j].parameters@[q]).name_token, SemanticTokenType::Parameter),
    ) by {
        lemma_action_marks_has(c.actions@, j);
        assert(aa.contains((c.actions@[j].parameters@[q].name_token, SemanticTokenType::Parameter)));
    }
    assert forall|j: int| 0 <= j < c.tables@.len() implies ast_marks(ast).contains(
        ((#[trigger] ast.controls@[i].tables@[j]).token, SemanticTokenType::Variable),
    ) by {
        let toks = c.tables@.map_values(|t: crate::ast::Table| t.token);
        assert(toks[j] == c.tables@[j].token);
        lemma_marks_of_has(toks, SemanticTokenType::Variable, j);
    }
}

/// Law: within every parser, the parameters are marked as parameters and
/// the states as functions; within every extern, the methods are marked as
/// methods and their parameters as parameters.
pub proof fn law_parser_and_extern_parts_marked(ast: Ast)
    ensures
        forall|i: int, j: int|
            0 <= i < ast.parsers@.len() && 0 <= j < ast.parsers@[i].parameters@.len() ==> ast_marks(ast).contains(
                ((#[trigger] ast.parsers@[i].parameters@[j]).name_token, SemanticTokenType::Parameter),
            ),
        forall|i: int, j: int|
            0 <= i < ast.parsers@.len() && 0 <= j < ast.parsers@[i].states@.len() ==> ast_marks(ast).contains(
                ((#[trigger] ast.parsers@[i].states@[j]).token, SemanticTokenType::Function),
            ),
        forall|i: int, j: int|
            0 <= i < ast.externs@.len() && 0 <= j < ast.externs@[i].methods@.len() ==> ast_marks(ast).contains(
                ((#[trigger] ast.externs@[i].methods@[j]).token, SemanticTokenType::Method),
            ),
        forall|i: int, j: int, q: int|
            0 <= i < ast.externs@.len() && 0 <= j < ast.externs@[i].methods@.len() && 0 <= q
                < ast.externs@[i].methods@[j].parameters@.len() ==> ast_marks(ast).contains(
                ((#[trigger] ast.externs@[i].methods@[j].parameters@[q]).name_token, SemanticTokenType::Parameter),
            ),
{
    assert forall|i: int, j: int|
        0 <= i < ast.parsers@.len() && 0 <= j < ast.parsers@[i].parameters@.len() implies ast_marks(ast).contains(
        ((#[trigger] ast.parsers@[i].parameters@[j]).name_token, SemanticTokenType::Parameter),
    ) by {
        let p = ast.parsers@[i];
        let x = (p.parameters@[j].name_token, SemanticTokenType::Parameter);
        let p0 = seq![(p.token, SemanticTokenType::Type)];
        let pp = param_marks(p.parameters@);
        let ss = marks_of(p.states@.map_values(|s: crate::ast::State| s.token), SemanticTokenType::Function);
        lemma_param_marks_has(p.parameters@, j);
        crate::unit::lemma_contains_concat(p0, pp, x);
        crate::unit::lemma_contains_concat(p0 + pp, ss, x);
        lemma_concat_marks_has(ast.parsers@, |p: Parser| parser_marks(p), i, x);
        lemma_ast_marks_parts(ast, x);
    }
    assert forall|i: int, j: int|
        0 <= i < ast.parsers@.len() && 0 <= j < ast.parsers@[i].states@.len() implies ast_marks(ast).contains(
        ((#[trigger] ast.parsers@[i].states@[j]).token, SemanticTokenType::Function),
    ) by {
        let p = ast.parsers@[i];
        let x = (p.states@[j].token, SemanticTokenType::Function);
        let p0 = seq![(p.token, SemanticTokenType::Type)];
        let pp = param_marks(p.parameters@);
        let toks = p.states@.map_values(|s: crate::ast::State| s.token);
        let ss = marks_of(toks, SemanticTokenType::Function);
        assert(toks[j] == p.states@[j].token);
        lemma_marks_of_has(toks, SemanticTokenType::Function, j);
        crate::unit::lemma_contains_concat(p0 + pp, ss, x);
        lemma_concat_marks_has(ast.parsers@, |p: Parser| parser_marks(p), i, x);
        lemma_ast_marks_parts(ast, x);
    }
    assert forall|i: int, j: int|
        0 <= i < ast.externs@.len() && 0 <= j < ast.externs@[i].methods@.len() implies ast_marks(ast).contains(
        ((#[trigger] ast.externs@[i].methods@[j]).token, SemanticTokenType::Method),
    ) by {
        let e = ast.externs@[i];
        let x = (e.methods@[j].token, SemanticTokenType::Method);
        lemma_method_marks_has(e.methods@, j);
        crate::unit::lemma_contains_concat(seq![(e.token, SemanticTokenType::Type)], method_marks(e.methods@), x);
        lemma_concat_marks_has(ast.externs@, |e: Extern| extern_marks(e), i, x);
        lemma_ast_marks_parts(ast, x);
    }
    assert forall|i: int, j: int, q: int|
        0 <= i < ast.externs@.len() && 0 <= j < ast.externs@[i].methods@.len() && 0 <= q
            < ast.externs@[i].methods@[j].parameters@.len() implies ast_marks(ast).contains(
        ((#[trigger] ast.externs@[i].methods@[j].parameters@[q]).name_token, SemanticTokenType::Parameter),
    ) by {
        let e = ast.externs@[i];
        let x = (e.methods@[j].parameters@[q].name_token, SemanticTokenType::Parameter);
        lemma_method_marks_has(e.methods@, j);
        assert(method_marks(e.methods@).contains(x));
        crate::unit::lemma_contains_concat(seq![(e.token, SemanticTokenType::Type)], method_marks(e.methods@), x);
        lemma_concat_marks_has(ast.externs@, |e: Extern| extern_marks(e), i, x);
        lemma_ast_marks_parts(ast, x);
    }
}

proof fn lemma_lexical_keeps(
    data: Seq<SemanticToken>,
    types: Seq<SemanticTokenType>,
    mods: Seq<SemanticTokenModifier>,
    toks: Seq<Token>,
    x: SemanticToken,
)
    ensures
        data.contains(x) ==> lexical_pushes(data, types, mods, toks).contains(x),
    decreases toks.len(),
{
    if toks.len() > 0 {
        let t = toks[0];
        let d1 = match lexical_class(t.kind).0 {
            Some(tt) => pushed(data, types, mods, t.line as u32, t.col as u32, lexical_class(t.kind).1, tt, Seq::empty()),
            None => data,
        };
        if let Some(tt) = lexical_class(t.kind).0 {
            lemma_pushed_keeps(data, types, mods, t.line as u32, t.col as u32, lexical_class(t.kind).1, tt, Seq::empty(), x);
        }
        if !(t.kind is Eof) {
            lemma_lexical_keeps(d1, types, mods, toks.drop_first(), x);
        }
    }
}

proof fn lemma_lexical_has(
    data: Seq<SemanticToken>,
    types: Seq<SemanticTokenType>,
    mods: Seq<SemanticTokenModifier>,
    toks: Seq<Token>,
    k: int,
    ti: int,
)
    requires
        0 <= k < toks.len(),
        forall|j: int| 0 <= j < k ==> !((#[trigger] toks[j]).kind is Eof),
        lexical_class(toks[k].kind).0 matches Some(ty) && index_from(types, ty, 0) == Some(ti),
        0 <= ti <= u32::MAX,
    ensures
        lexical_pushes(data, types, mods, toks).contains(
            (SemanticToken {
                delta_line: toks[k].line as u32,
                delta_start: toks[k].col as u32,
                length: lexical_class(toks[k].kind).1,
                token_type: ti as u32,
                token_modifiers_bitset: 0,
            }),
        ),
    decreases toks.len(),
{
    let t = toks[0];
    let x = SemanticToken {
        delta_line: toks[k].line as u32,
        delta_start: toks[k].col as u32,
        length: lexical_class(toks[k].kind).1,
        token_type: ti as u32,
        token_modifiers_bitset: 0,
    };
    assert(modifier_bits(mods, Seq::empty()) == 0);
    let d1 = match lexical_class(t.kind).0 {
        Some(tt) => pushed(data, types, mods, t.line as u32, t.col as u32, lexical_class(t.kind).1, tt, Seq::empty()),
        None => data,
    };
    if k == 0 {
        assert(d1[data.len() as int] == x);
        if !(t.kind is Eof) {
            lemma_lexical_keeps(d1, types, mods, toks.drop_first(), x);
        }
    } else {
        assert forall|j: int| 0 <= j < k - 1 implies !((#[trigger] toks.drop_first()[j]).kind is Eof) by {
            assert(toks.drop_first()[j] == toks[j + 1]);
        }
        assert(toks.drop_first()[k - 1] == toks[k]);
        lemma_lexical_has(d1, types, mods, toks.drop_first(), k - 1, ti);
    }
}

proof fn lemma_mark_all_keeps(
    data: Seq<SemanticToken>,
    types: Seq<SemanticTokenType>,
    mods: Seq<SemanticTokenModifier>,
    text: Seq<char>,
    ms: Seq<Mark>,
    x: SemanticToken,
)
    ensures
        data.contains(x) ==> mark_all(data, types, mods, text, ms).contains(x),
    decreases ms.len(),
{
    if ms.len() > 0 {
        lemma_mark_all_keeps(data, types, mods, text, ms.drop_last(), x);
        let prev = mark_all(data, types, mods, text, ms.drop_last());
        let m = ms.last();
        match relative_of(m.0, text) {
            Some((l, c, n)) => {
                lemma_pushed_keeps(prev, types, mods, l, c, n, m.1, Seq::empty(), x);
            },
            None => {},
        }
    }
}

/// Law: every token the lexer produced up to the first end-of-file token,
/// when its kind is highlighted, is highlighted at its line and column,
/// with the highlighted length, of the legend's first entry for its type
/// and with no modifier, whatever the program and the macros add; and
/// identifiers and literals are highlighted over their whole source length.
pub proof fn law_lexical_tokens_highlighted(
    types: Seq<SemanticTokenType>,
    mods: Seq<SemanticTokenModifier>,
    text: Seq<char>,
    lexed: Seq<Token>,
    ast: Option<Ast>,
    macros: Seq<(String, String)>,
    k: int,
    ti: int,
)
    requires
        0 <= k < lexed.len(),
        forall|j: int| 0 <= j < k ==> !((#[trigger] lexed[j]).kind is Eof),
        lexical_class(lexed[k].kind).0 matches Some(ty) && (0 <= ti < types.len() && types[ti] == ty && forall|j: int|
            0 <= j < ti ==> types[j] != ty),
        ti <= u32::MAX,
    ensures
        highlight_data(types, mods, text, lexed, ast, macros).contains(
            (SemanticToken {
                delta_line: lexed[k].line as u32,
                delta_start: lexed[k].col as u32,
                length: lexical_class(lexed[k].kind).1,
                token_type: ti as u32,
                token_modifiers_bitset: 0,
            }),
        ),
        (lexed[k].kind is Identifier || lexed[k].kind is StringLiteral || lexed[k].kind is IntLiteral
            || lexed[k].kind is BitLiteral || lexed[k].kind is SignedLiteral || lexed[k].kind is TrueLiteral
            || lexed[k].kind is FalseLiteral) ==> lexical_class(lexed[k].kind).1 == token_text_len(lexed[k].kind) as u32,
{
    let ty = lexical_class(lexed[k].kind).0.unwrap();
    lemma_index_first(types, ty, 0, ti);
    let x = SemanticToken {
        delta_line: lexed[k].line as u32,
        delta_start: lexed[k].col as u32,
        length: lexical_class(lexed[k].kind).1,
        token_type: ti as u32,
        token_modifiers_bitset: 0,
    };
    let d1 = lexical_pushes(Seq::empty(), types, mods, lexed);
    lemma_lexical_has(Seq::empty(), types, mods, lexed, k, ti);
    let d2 = match ast {
        Some(a) => mark_all(d1, types, mods, text, ast_marks(a)),
        None => d1,
    };
    if let Some(a) = ast {
        lemma_mark_all_keeps(d1, types, mods, text, ast_marks(a), x);
    }
    lemma_macro_pushes_keep(d2, types, mods, text_lines(text), macros, x);
}

/// What highlighting a document needs: token lengths that fit in memory.
pub open spec fn highlight_ok(doc: Document, lexed: Seq<Token>) -> bool {
    &&& forall|i: int| 0 <= i < lexed.len() ==> fits_usize(#[trigger] lexed[i].kind)
    &&& doc.ast matches Some(a) ==> ast_fits(a)
}

/// Marks the first use of `name` on every line of the document.
fn add_macro_tokens(builder: &mut SemanticTokensBuilder, content: &Rope, name: &str)
    ensures
        final(builder).token_types@ == old(builder).token_types@,
        final(builder).token_modifiers@ == old(builder).token_modifiers@,
        final(builder).data@ == macro_line_pushes(
            old(builder).data@,
            old(builder).token_types@,
            old(builder).token_modifiers@,
            text_lines(rope_text(*content)),
            name@,
            text_lines(rope_text(*content)).len() as int,
        ),
{
    let ghost lines = text_lines(rope_text(*content));
    let ghost d0 = builder.data@;
    let n = rope_len_lines(content);
    let pattern = chars_of(name);
    let empty: Vec<SemanticTokenModifier> = Vec::new();
    assert(empty@ =~= Seq::<SemanticTokenModifier>::empty());
    let mut line_idx: usize = 0;
    while line_idx < n
        invariant
            line_idx <= n,
            n == lines.len(),
            lines == text_lines(rope_text(*content)),
            pattern@ == name@,
            empty@ == Seq::<SemanticTokenModifier>::empty(),
            builder.token_types@ == old(builder).token_types@,
            builder.token_modifiers@ == old(builder).token_modifiers@,
            builder.data@ == macro_line_pushes(
                d0,
                builder.token_types@,
                builder.token_modifiers@,
                lines,
                name@,
                line_idx as int,
            ),
        decreases n - line_idx,
    {
        let line_str = rope_line(content, line_idx);
        let chars = chars_of(line_str.as_str());
        if let Some(k) = find_chars(&chars, &pattern) {
            proof {
                crate::scope::lemma_find_from(chars@, pattern@, 0);
            }
            let prefix = string_from_chars(&chars.as_slice()[0..k]);
            assert(prefix@ =~= chars@.take(k as int));
            let col = prefix.as_str().len();
            let len = name.len();
            builder.push(line_idx as u32, col as u32, len as u32, SemanticTokenType::Macro, empty.as_slice());
        }
        line_idx += 1;
    }
}

/// The semantic tokens of a document, given the lexical tokens of its text,
/// sorted and encoded relative to each other.
pub fn collect_semantic_tokens(legend: &SemanticTokensLegend, doc: &Document, lexed: &Vec<Token>) -> (r: Vec<SemanticToken>)
    requires
        highlight_ok(*doc, lexed@),
    ensures
        r@ == encode_relative(
            sort_tokens(
                highlight_data(
                    legend.token_types@,
                    legend.token_modifiers@,
                    rope_text(doc.content),
                    lexed@,
                    doc.ast,
                    doc.macros@,
                ),
            ),
        ),
{
    let mut builder = SemanticTokensBuilder::new(legend);
    add_lexical_semantic_tokens(lexed, &mut builder);
    let ghost types = builder.token_types@;
    let ghost mods = builder.token_modifiers@;
    let ghost text = rope_text(doc.content);
    let empty: Vec<SemanticTokenModifier> = Vec::new();
    assert(empty@ =~= Seq::<SemanticTokenModifier>::empty());
    if let Some(ast) = &doc.ast {
        let marks = ast_mark_list(ast);
        let ghost d1 = builder.data@;
        let ghost ms = mark_views(marks@);
        let mut i: usize = 0;
        while i < marks.len()
            invariant
                i <= marks@.len(),
                ms == mark_views(marks@),
                marks_fit(ms),
                empty@ == Seq::<SemanticTokenModifier>::empty(),
                builder.token_types@ == types,
                builder.token_modifiers@ == mods,
                builder.data@ == mark_all(d1, types, mods, text, ms.take(i as int)),
                text == rope_text(doc.content),
            decreases marks@.len() - i,
        {
            let (token, ty) = marks[i];
            assert(ms[i as int] == (*token, ty));
            assert(ms.take(i as int + 1).drop_last() =~= ms.take(i as int));
            assert(fits_usize(ms[i as int].0.kind));
            if let Some((l, c, n)) = token_relative(token, &doc.content) {
                builder.push(l, c, n, ty, empty.as_slice());
            }
            i += 1;
        }
        assert(ms.take(marks@.len() as int) =~= ms);
    }
    let ghost d2 = builder.data@;
    let mut m: usize = 0;
    while m < doc.macros.len()
        invariant
            m <= doc.macros@.len(),
            builder.token_types@ == types,
            builder.token_modifiers@ == mods,
            text == rope_text(doc.content),
            builder.data@ == macro_pushes(d2, types, mods, text_lines(text), doc.macros@.take(m as int)),
        decreases doc.macros@.len() - m,
    {
        assert(doc.macros@.take(m as int + 1).drop_last() =~= doc.macros@.take(m as int));
        add_macro_tokens(&mut builder, &doc.content, doc.macros[m].0.as_str());
        m += 1;
    }
    assert(doc.macros@.take(doc.macros@.len() as int) =~= doc.macros@);
    encode_relative_tokens(builder.build())
}

/// The semantic tokens of a document that lie within `range`, encoded
/// relative to each other.
pub fn collect_semantic_tokens_range(
    legend: &SemanticTokensLegend,
    doc: &Document,
    lexed: &Vec<Token>,
    range: Range,
) -> (r: Vec<SemanticToken>)
    requires
        highlight_ok(*doc, lexed@),
    ensures
        r@ == encode_relative(
            sort_tokens(
                filter_range(
                    encode_relative(
                        sort_tokens(
                            highlight_data(
                                legend.token_types@,
                                legend.token_modifiers@,
                                rope_text(doc.content),
                                lexed@,
                                doc.ast,
                                doc.macros@,
                            ),
                        ),
                    ),
                    range,
                ),
            ),
        ),
{
    let all = collect_semantic_tokens(legend, doc, lexed);
    filter_tokens_by_range(all, range)
}

} // verus!
