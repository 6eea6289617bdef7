//! The program model the analyses read: the declarations of a P4 program
//! with their names, types and source tokens.
use vstd::prelude::*;
use crate::lexical::{Kind, Token};
use crate::strings::str_eq;

verus! {

/// The direction of a parameter.
#[derive(Clone, Copy, Debug, PartialEq, Eq, Structural)]
pub enum Direction {
    In,
    Out,
    InOut,
    Unspecified,
}

/// What a type refers to.
#[derive(Debug)]
pub enum TypeKind {
    /// A type named by the program (header, struct, extern or typedef).
    UserDefined(String),
    /// A match-action table.
    Table,
    /// Any other type.
    Other,
}

/// A type and its source text.
#[derive(Debug)]
pub struct Type {
    pub kind: TypeKind,
    pub text: String,
}

/// A member of a header or struct.
#[derive(Debug)]
pub struct Member {
    pub name: String,
    pub ty: Type,
    pub token: Token,
}

#[derive(Debug)]
pub struct Header {
    pub name: String,
    pub token: Token,
    pub members: Vec<Member>,
}

#[derive(Debug)]
pub struct Struct {
    pub name: String,
    pub token: Token,
    pub members: Vec<Member>,
}

#[derive(Debug)]
pub struct Typedef {
    pub name: String,
    pub ty: Type,
    pub token: Token,
}

#[derive(Debug)]
pub struct Constant {
    pub name: String,
    pub token: Token,
}

/// A parameter of a control, parser, action or extern method.
#[derive(Debug)]
pub struct Parameter {
    pub name: String,
    pub ty: Type,
    pub direction: Direction,
    pub name_token: Token,
}

/// A variable declared in a control.
#[derive(Debug)]
pub struct Variable {
    pub name: String,
    pub ty: Type,
    pub token: Token,
}

/// How a name in a scope was declared.
#[derive(Debug)]
pub enum DeclarationInfo {
    Parameter(Direction),
    ActionParameter(Direction),
    Other,
}

/// A name visible in the scope of a control, action or parser.
#[derive(Debug)]
pub struct NameInfo {
    pub name: String,
    pub ty: Type,
    pub decl: DeclarationInfo,
    pub token: Token,
}

#[derive(Debug)]
pub struct Action {
    pub name: String,
    pub token: Token,
    pub parameters: Vec<Parameter>,
    /// The names visible in the action.
    pub names: Vec<NameInfo>,
}

#[derive(Debug)]
pub struct Table {
    pub name: String,
    pub token: Token,
}

#[derive(Debug)]
pub struct Control {
    pub name: String,
    pub token: Token,
    pub parameters: Vec<Parameter>,
    pub variables: Vec<Variable>,
    pub actions: Vec<Action>,
    pub tables: Vec<Table>,
    /// The names visible in the control.
    pub names: Vec<NameInfo>,
}

#[derive(Debug)]
pub struct State {
    pub name: String,
    pub token: Token,
}

#[derive(Debug)]
pub struct Parser {
    pub name: String,
    pub token: Token,
    pub parameters: Vec<Parameter>,
    pub states: Vec<State>,
    /// The names visible in the parser.
    pub names: Vec<NameInfo>,
}

#[derive(Debug)]
pub struct ExternMethod {
    pub name: String,
    pub return_type: Type,
    pub token: Token,
    pub parameters: Vec<Parameter>,
}

#[derive(Debug)]
pub struct Extern {
    pub name: String,
    pub token: Token,
    pub methods: Vec<ExternMethod>,
}

#[derive(Debug)]
pub struct PackageParameter {
    pub token: Token,
}

#[derive(Debug)]
pub struct Package {
    pub name: String,
    pub token: Token,
    pub parameters: Vec<PackageParameter>,
}

/// A P4 program: its declarations in source order.
#[derive(Debug)]
pub struct Ast {
    pub headers: Vec<Header>,
    pub structs: Vec<Struct>,
    pub typedefs: Vec<Typedef>,
    pub constants: Vec<Constant>,
    pub controls: Vec<Control>,
    pub parsers: Vec<Parser>,
    pub externs: Vec<Extern>,
    pub packages: Vec<Package>,
    /// How the type of a table is written.
    pub table_type_text: String,
}

/// A declaration with a name.
pub trait Named {
    spec fn spec_name(&self) -> Seq<char>;

    fn name_str(&self) -> (r: &str)
        ensures
            r@ == self.spec_name(),
    ;
}

impl Named for Member {
    open spec fn spec_name(&self) -> Seq<char> {
        self.name@
    }

    fn name_str(&self) -> (r: &str) {
        self.name.as_str()
    }
}

impl Named for Header {
    open spec fn spec_name(&self) -> Seq<char> {
        self.name@
    }

    fn name_str(&self) -> (r: &str) {
        self.name.as_str()
    }
}

impl Named for Struct {
    open spec fn spec_name(&self) -> Seq<char> {
        self.name@
    }

    fn name_str(&self) -> (r: &str) {
        self.name.as_str()
    }
}

impl Named for Typedef {
    open spec fn spec_name(&self) -> Seq<char> {
        self.name@
    }

    fn name_str(&self) -> (r: &str) {
        self.name.as_str()
    }
}

impl Named for Constant {
    open spec fn spec_name(&self) -> Seq<char> {
        self.name@
    }

    fn name_str(&self) -> (r: &str) {
        self.name.as_str()
    }
}

impl Named for Parameter {
    open spec fn spec_name(&self) -> Seq<char> {
        self.name@
    }

    fn name_str(&self) -> (r: &str) {
        self.name.as_str()
    }
}

impl Named for Variable {
    open spec fn spec_name(&self) -> Seq<char> {
        self.name@
    }

    fn name_str(&self) -> (r: &str) {
        self.name.as_str()
    }
}

impl Named for NameInfo {
    open spec fn spec_name(&self) -> Seq<char> {
        self.name@
    }

    fn name_str(&self) -> (r: &str) {
        self.name.as_str()
    }
}

impl Named for Action {
    open spec fn spec_name(&self) -> Seq<char> {
        self.name@
    }

    fn name_str(&self) -> (r: &str) {
        self.name.as_str()
    }
}

impl Named for Table {
    open spec fn spec_name(&self) -> Seq<char> {
        self.name@
    }

    fn name_str(&self) -> (r: &str) {
        self.name.as_str()
    }
}

impl Named for Control {
    open spec fn spec_name(&self) -> Seq<char> {
        self.name@
    }

    fn name_str(&self) -> (r: &str) {
        self.name.as_str()
    }
}

impl Named for State {
    open spec fn spec_name(&self) -> Seq<char> {
        self.name@
    }

    fn name_str(&self) -> (r: &str) {
        self.name.as_str()
    }
}

impl Named for Parser {
    open spec fn spec_name(&self) -> Seq<char> {
        self.name@
    }

    fn name_str(&self) -> (r: &str) {
        self.name.as_str()
    }
}

impl Named for ExternMethod {
    open spec fn spec_name(&self) -> Seq<char> {
        self.name@
    }

    fn name_str(&self) -> (r: &str) {
        self.name.as_str()
    }
}

impl Named for Extern {
    open spec fn spec_name(&self) -> Seq<char> {
        self.name@
    }

    fn name_str(&self) -> (r: &str) {
        self.name.as_str()
    }
}

impl Named for Package {
    open spec fn spec_name(&self) -> Seq<char> {
        self.name@
    }

    fn name_str(&self) -> (r: &str) {
        self.name.as_str()
    }
}

/// A named declaration with the token that introduces it.
pub trait Declared: Named {
    spec fn spec_token(&self) -> Token;

    fn token_ref(&self) -> (r: &Token)
        ensures
            *r == self.spec_token(),
    ;
}

impl Declared for Header {
    open spec fn spec_token(&self) -> Token {
        self.token
    }

    fn token_ref(&self) -> (r: &Token) {
        &self.token
    }
}

impl Declared for Struct {
    open spec fn spec_token(&self) -> Token {
        self.token
    }

    fn token_ref(&self) -> (r: &Token) {
        &self.token
    }
}

impl Declared for Typedef {
    open spec fn spec_token(&self) -> Token {
        self.token
    }

    fn token_ref(&self) -> (r: &Token) {
        &self.token
    }
}

impl Declared for Constant {
    open spec fn spec_token(&self) -> Token {
        self.token
    }

    fn token_ref(&self) -> (r: &Token) {
        &self.token
    }
}

impl Declared for Action {
    open spec fn spec_token(&self) -> Token {
        self.token
    }

    fn token_ref(&self) -> (r: &Token) {
        &self.token
    }
}

impl Declared for Table {
    open spec fn spec_token(&self) -> Token {
        self.token
    }

    fn token_ref(&self) -> (r: &Token) {
        &self.token
    }
}

impl Declared for Control {
    open spec fn spec_token(&self) -> Token {
        self.token
    }

    fn token_ref(&self) -> (r: &Token) {
        &self.token
    }
}

impl Declared for Parser {
    open spec fn spec_token(&self) -> Token {
        self.token
    }

    fn token_ref(&self) -> (r: &Token) {
        &self.token
    }
}

impl Declared for Extern {
    open spec fn spec_token(&self) -> Token {
        self.token
    }

    fn token_ref(&self) -> (r: &Token) {
        &self.token
    }
}

impl Declared for Package {
    open spec fn spec_token(&self) -> Token {
        self.token
    }

    fn token_ref(&self) -> (r: &Token) {
        &self.token
    }
}

/// The index of the first declaration at or after `i` named `name`.
pub open spec fn named_from<T: Named>(s: Seq<T>, name: Seq<char>, i: int) -> Option<int>
    decreases s.len() - i,
{
    if i < 0 || i >= s.len() {
        None
    } else if s[i].spec_name() == name {
        Some(i)
    } else {
        named_from(s, name, i + 1)
    }
}

/// The index of the first declaration named `name`.
pub open spec fn first_named<T: Named>(s: Seq<T>, name: Seq<char>) -> Option<int> {
    named_from(s, name, 0)
}

pub proof fn lemma_named_from<T: Named>(s: Seq<T>, name: Seq<char>, i: int)
    requires
        0 <= i,
    ensures
        named_from(s, name, i) matches Some(j) ==> i <= j < s.len() && s[j].spec_name() == name,
    decreases s.len() - i,
{
    if i < s.len() && s[i].spec_name() != name {
        lemma_named_from(s, name, i + 1);
    }
}

/// No declaration from `i` on is named `name`: there is no match.
pub proof fn lemma_named_none<T: Named>(s: Seq<T>, name: Seq<char>, i: int)
    requires
        0 <= i,
        forall|k: int| i <= k < s.len() ==> (#[trigger] s[k]).spec_name() != name,
    ensures
        named_from(s, name, i) is None,
    decreases s.len() - i,
{
    if i < s.len() {
        lemma_named_none(s, name, i + 1);
    }
}

/// Declaration `j` is the first from `i` on named `name`.
pub proof fn lemma_named_first<T: Named>(s: Seq<T>, name: Seq<char>, i: int, j: int)
    requires
        0 <= i <= j < s.len(),
        s[j].spec_name() == name,
        forall|k: int| i <= k < j ==> (#[trigger] s[k]).spec_name() != name,
    ensures
        named_from(s, name, i) == Some(j),
    decreases j - i,
{
    if i < j {
        lemma_named_first(s, name, i + 1, j);
    }
}

/// A declaration named `name` somewhere at or after `i`: there is a match.
pub proof fn lemma_named_some<T: Named>(s: Seq<T>, name: Seq<char>, i: int, k: int)
    requires
        0 <= i <= k < s.len(),
        s[k].spec_name() == name,
    ensures
        named_from(s, name, i) is Some,
    decreases k - i,
{
    if i < k && s[i].spec_name() != name {
        lemma_named_some(s, name, i + 1, k);
    }
}

/// The first declaration in `v` named `name`.
pub fn find_named<T: Named>(v: &Vec<T>, name: &str) -> (r: Option<usize>)
    ensures
        match r {
            Some(i) => first_named(v@, name@) == Some(i as int) && i < v@.len(),
            None => first_named(v@, name@) is None,
        },
{
    let mut i: usize = 0;
    while i < v.len()
        invariant
            i <= v@.len(),
            named_from(v@, name@, i as int) == first_named(v@, name@),
        decreases v@.len() - i,
    {
        if str_eq(v[i].name_str(), name) {
            return Some(i);
        }
        i += 1;
    }
    None
}

/// A copy of a token kind.
pub fn copy_kind(k: &Kind) -> (r: Kind)
    ensures
        r == *k,
{
    match k {
        Kind::IntLiteral(v) => Kind::IntLiteral(*v),
        Kind::BitLiteral(w, v) => Kind::BitLiteral(*w, *v),
        Kind::SignedLiteral(w, v) => Kind::SignedLiteral(*w, *v),
        Kind::StringLiteral(v) => Kind::StringLiteral(v.clone()),
        Kind::Identifier(v) => Kind::Identifier(v.clone()),
        Kind::Const => Kind::Const,
        Kind::Header => Kind::Header,
        Kind::Typedef => Kind::Typedef,
        Kind::Control => Kind::Control,
        Kind::Struct => Kind::Struct,
        Kind::Action => Kind::Action,
        Kind::Parser => Kind::Parser,
        Kind::Table => Kind::Table,
        Kind::Size => Kind::Size,
        Kind::Key => Kind::Key,
        Kind::Exact => Kind::Exact,
        Kind::Ternary => Kind::Ternary,
        Kind::Lpm => Kind::Lpm,
        Kind::Range => Kind::Range,
        Kind::Actions => Kind::Actions,
        Kind::DefaultAction => Kind::DefaultAction,
        Kind::Entries => Kind::Entries,
        Kind::In => Kind::In,
        Kind::InOut => Kind::InOut,
        Kind::Out => Kind::Out,
        Kind::Transition => Kind::Transition,
        Kind::State => Kind::State,
        Kind::Select => Kind::Select,
        Kind::Apply => Kind::Apply,
        Kind::Package => Kind::Package,
        Kind::Extern => Kind::Extern,
        Kind::If => Kind::If,
        Kind::Else => Kind::Else,
        Kind::Return => Kind::Return,
        Kind::Bool => Kind::Bool,
        Kind::Error => Kind::Error,
        Kind::Bit => Kind::Bit,
        Kind::Varbit => Kind::Varbit,
        Kind::Int => Kind::Int,
        Kind::String => Kind::String,
        Kind::PoundDefine => Kind::PoundDefine,
        Kind::PoundInclude => Kind::PoundInclude,
        Kind::TrueLiteral => Kind::TrueLiteral,
        Kind::FalseLiteral => Kind::FalseLiteral,
        Kind::DoubleEquals => Kind::DoubleEquals,
        Kind::NotEquals => Kind::NotEquals,
        Kind::Equals => Kind::Equals,
        Kind::Plus => Kind::Plus,
        Kind::Minus => Kind::Minus,
        Kind::Mod => Kind::Mod,
        Kind::Dot => Kind::Dot,
        Kind::Mask => Kind::Mask,
        Kind::LogicalAnd => Kind::LogicalAnd,
        Kind::And => Kind::And,
        Kind::Bang => Kind::Bang,
        Kind::Tilde => Kind::Tilde,
        Kind::Shl => Kind::Shl,
        Kind::Pipe => Kind::Pipe,
        Kind::Carat => Kind::Carat,
        Kind::GreaterThanEquals => Kind::GreaterThanEquals,
        Kind::LessThanEquals => Kind::LessThanEquals,
        Kind::Eof => Kind::Eof,
        Kind::Other => Kind::Other,
    }
}

/// A copy of a token.
pub fn copy_token(t: &Token) -> (r: Token)
    ensures
        r == *t,
{
    Token { kind: copy_kind(&t.kind), line: t.line, col: t.col, file: t.file.clone() }
}

/// A copy of a type.
pub fn copy_type(t: &Type) -> (r: Type)
    ensures
        r == *t,
{
    let kind = match &t.kind {
        TypeKind::UserDefined(n) => TypeKind::UserDefined(n.clone()),
        TypeKind::Table => TypeKind::Table,
        TypeKind::Other => TypeKind::Other,
    };
    Type { kind, text: t.text.clone() }
}

} // verus!
