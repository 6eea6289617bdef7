//! What compiling a document reports, turned into editor diagnostics, and
//! the document the server keeps for it.
use vstd::prelude::*;
use crate::ast::Ast;
use crate::config::texts;
use crate::highlight::str_len;
use crate::protocol::{Diagnostic, DiagnosticSeverity, Position, Range};
use crate::server::Document;
use crate::strings::{chars_of, concat_str, string_from_chars};
use crate::text::{rope_from_str, rope_text};

verus! {

/// How serious a finding of the program checker is.
#[derive(Clone, Copy, Debug, PartialEq, Eq, Structural)]
pub enum Level {
    Error,
    Warning,
    Deprecation,
    Info,
}

/// A finding of the program checker, at the token it concerns.
#[derive(Debug)]
pub struct CheckDiagnostic {
    pub level: Level,
    pub line: usize,
    pub col: usize,
    pub message: String,
}

/// A lexer error: where it starts, how many characters it spans, and how it
/// reads when displayed.
#[derive(Debug)]
pub struct LexerError {
    pub line: usize,
    pub col: usize,
    pub len: usize,
    pub text: String,
}

/// An error at a source position, with its message (from the parser or from
/// semantic checks).
#[derive(Debug)]
pub struct PositionedError {
    pub line: usize,
    pub col: usize,
    pub message: String,
}

/// Why a program could not be read.
#[derive(Debug)]
pub enum P4Error {
    Lexer(LexerError),
    Parser(PositionedError),
    Semantic(Vec<PositionedError>),
}

/// An error of the preprocessor, on a line.
#[derive(Debug)]
pub struct PreprocessorError {
    pub line: usize,
    pub message: String,
}

/// Why compiling a document failed.
#[derive(Debug)]
pub enum CompileError {
    Preprocessor(PreprocessorError),
    P4(P4Error),
}

/// What compiling a document gave: the program, the checker's findings and
/// the macros defined (name, body).
#[derive(Debug)]
pub struct Compiled {
    pub ast: Ast,
    pub diagnostics: Vec<CheckDiagnostic>,
    pub macros: Vec<(String, String)>,
}

/// What a diagnostic says: its range, severity and message.
pub type DiagView = (Range, Option<DiagnosticSeverity>, Seq<char>);

pub open spec fn diag_view(d: Diagnostic) -> DiagView {
    (d.range, d.severity, d.message@)
}

pub open spec fn diag_views(v: Seq<Diagnostic>) -> Seq<DiagView> {
    v.map_values(|d: Diagnostic| diag_view(d))
}

/// The index of the first line feed at or after `i`.
pub open spec fn newline_from(s: Seq<char>, i: int) -> Option<int>
    decreases s.len() - i,
{
    if i < 0 || i >= s.len() {
        None
    } else if s[i] == '\n' {
        Some(i)
    } else {
        newline_from(s, i + 1)
    }
}

pub proof fn lemma_newline_from(s: Seq<char>, i: int)
    requires
        0 <= i,
    ensures
        newline_from(s, i) matches Some(j) ==> i <= j < s.len() && s[j] == '\n',
    decreases s.len() - i,
{
    if i < s.len() && s[i] != '\n' {
        lemma_newline_from(s, i + 1);
    }
}

/// A line without the carriage return that ended it.
pub open spec fn strip_cr(l: Seq<char>) -> Seq<char> {
    if l.len() > 0 && l.last() == '\r' {
        l.drop_last()
    } else {
        l
    }
}

/// The lines of `s` from index `k` on.
pub open spec fn lines_from(s: Seq<char>, k: int) -> Seq<Seq<char>>
    decreases s.len() - k,
{
    if k < 0 || k >= s.len() {
        seq![]
    } else {
        match newline_from(s, k) {
            Some(j) => {
                proof {
                    lemma_newline_from(s, k);
                }
                seq![strip_cr(s.subrange(k, j))] + lines_from(s, j + 1)
            },
            None => seq![s.subrange(k, s.len() as int)],
        }
    }
}

/// The lines of a text as `str::lines` gives them: split at each line feed
/// (and a carriage return right before it), with no line after a final line
/// feed; a carriage return that ends the text stays in the last line.
pub open spec fn std_lines(s: Seq<char>) -> Seq<Seq<char>> {
    lines_from(s, 0)
}

/// The lines of `text`, as `str::lines` gives them.
pub fn str_lines(text: &str) -> (r: Vec<String>)
    ensures
        texts(r@) == std_lines(text@),
{
    let chars = chars_of(text);
    let ghost s = chars@;
    let mut out: Vec<String> = Vec::new();
    let mut k: usize = 0;
    assert(texts(out@) =~= Seq::<Seq<char>>::empty());
    while k < chars.len()
        invariant
            k <= chars.len(),
            s == chars@,
            texts(out@) + lines_from(s, k as int) == lines_from(s, 0),
        decreases chars.len() - k,
    {
        let mut j = k;
        while j < chars.len() && chars[j] != '\n'
            invariant
                k <= j <= chars.len(),
                s == chars@,
                newline_from(s, j as int) == newline_from(s, k as int),
            decreases chars.len() - j,
        {
            j += 1;
        }
        let ghost prev = out@;
        if j < chars.len() {
            assert(newline_from(s, k as int) == Some(j as int));
            let mut end = j;
            if end > k && chars[end - 1] == '\r' {
                end -= 1;
            }
            let line = string_from_chars(&chars.as_slice()[k..end]);
            assert(line@ =~= strip_cr(s.subrange(k as int, j as int)));
            out.push(line);
            assert(texts(out@) =~= texts(prev).push(line@));
            assert(lines_from(s, k as int) == seq![line@] + lines_from(s, j + 1));
            assert(texts(out@) + lines_from(s, j + 1) =~= texts(prev) + lines_from(s, k as int));
            k = j + 1;
        } else {
            assert(newline_from(s, k as int) is None);
            let line = string_from_chars(&chars.as_slice()[k..chars.len()]);
            assert(line@ =~= s.subrange(k as int, s.len() as int));
            out.push(line);
            assert(texts(out@) =~= texts(prev).push(line@));
            assert(lines_from(s, chars.len() as int) =~= Seq::<Seq<char>>::empty());
            assert(texts(out@) + lines_from(s, chars.len() as int) =~= texts(prev) + lines_from(s, k as int));
            k = chars.len();
        }
    }
    assert(lines_from(s, k as int) =~= Seq::<Seq<char>>::empty());
    assert(texts(out@) =~= texts(out@) + lines_from(s, k as int));
    out
}

/// The severity the editor shows for a checker level.
pub open spec fn severity_of(l: Level) -> DiagnosticSeverity {
    match l {
        Level::Error => DiagnosticSeverity::Error,
        Level::Warning => DiagnosticSeverity::Warning,
        Level::Deprecation => DiagnosticSeverity::Warning,
        Level::Info => DiagnosticSeverity::Information,
    }
}

/// The severity the editor shows for a checker level.
pub fn severity(l: Level) -> (r: DiagnosticSeverity)
    ensures
        r == severity_of(l),
{
    match l {
        Level::Error => DiagnosticSeverity::Error,
        Level::Warning => DiagnosticSeverity::Warning,
        Level::Deprecation => DiagnosticSeverity::Warning,
        Level::Info => DiagnosticSeverity::Information,
    }
}

/// The range on line `line` between two columns.
pub open spec fn line_range(line: usize, start: u32, end: u32) -> Range {
    Range {
        start: Position { line: line as u32, character: start },
        end: Position { line: line as u32, character: end },
    }
}

/// The length in bytes of line `i`, or `fallback` when there is no such line.
pub open spec fn line_len_or(lines: Seq<Seq<char>>, i: usize, fallback: u32) -> u32 {
    if (i as int) < lines.len() {
        str_len(lines[i as int]) as u32
    } else {
        fallback
    }
}

/// A checker finding as a diagnostic: one character at its token.
pub open spec fn check_view(d: CheckDiagnostic) -> DiagView {
    (line_range(d.line, d.col as u32, (d.col as u32 + 1) as u32), Some(severity_of(d.level)), d.message@)
}

/// A positioned error as a diagnostic: from its column to the end of its line
/// (or one character, past the last line).
pub open spec fn positioned_view(e: PositionedError, lines: Seq<Seq<char>>) -> DiagView {
    (
        line_range(e.line, e.col as u32, line_len_or(lines, e.line, (e.col as u32 + 1) as u32)),
        Some(DiagnosticSeverity::Error),
        e.message@,
    )
}

/// The diagnostics for an error that stopped reading the program.
pub open spec fn p4_error_views(e: P4Error, lines: Seq<Seq<char>>) -> Seq<DiagView> {
    match e {
        P4Error::Lexer(x) => seq![
            (
                line_range(x.line, x.col as u32, (x.col + x.len) as u32),
                Some(DiagnosticSeverity::Error),
                "Lexer error: "@ + x.text@,
            ),
        ],
        P4Error::Parser(x) => seq![positioned_view(x, lines)],
        P4Error::Semantic(v) => v@.map_values(|x: PositionedError| positioned_view(x, lines)),
    }
}

/// The columns of an error leave room for its end column.
pub open spec fn p4_error_ok(e: P4Error) -> bool {
    match e {
        P4Error::Lexer(x) => x.col + x.len <= usize::MAX,
        P4Error::Parser(x) => (x.col as u32) < u32::MAX,
        P4Error::Semantic(v) => forall|i: int| 0 <= i < v@.len() ==> ((#[trigger] v@[i]).col as u32) < u32::MAX,
    }
}

/// The columns in a compilation result leave room for the end columns of the
/// diagnostics made from it.
pub open spec fn compile_result_ok(c: Result<Compiled, CompileError>) -> bool {
    match c {
        Ok(c) => forall|i: int|
            0 <= i < c.diagnostics@.len() ==> ((#[trigger] c.diagnostics@[i]).col as u32) < u32::MAX,
        Err(CompileError::P4(e)) => p4_error_ok(e),
        Err(CompileError::Preprocessor(_)) => true,
    }
}

/// Whether a column leaves room for the column after it.
fn col_room(col: usize) -> (r: bool)
    ensures
        r == ((col as u32) < u32::MAX),
{
    let c: u32 = col as u32;
    c < u32::MAX
}

/// Whether the columns of a compilation result leave room for the end
/// columns of its diagnostics, as `build_document` needs.
pub fn compiled_fits(c: &Result<Compiled, CompileError>) -> (r: bool)
    ensures
        r == compile_result_ok(*c),
{
    match c {
        Ok(ok) => {
            let mut i: usize = 0;
            while i < ok.diagnostics.len()
                invariant
                    *c == Ok::<Compiled, CompileError>(*ok),
                    i <= ok.diagnostics@.len(),
                    forall|k: int| 0 <= k < i ==> ((#[trigger] ok.diagnostics@[k]).col as u32) < u32::MAX,
                decreases ok.diagnostics@.len() - i,
            {
                if !col_room(ok.diagnostics[i].col) {
                    assert(!((ok.diagnostics@[i as int].col as u32) < u32::MAX));
                    return false;
                }
                i += 1;
            }
            true
        },
        Err(CompileError::Preprocessor(_)) => true,
        Err(CompileError::P4(P4Error::Lexer(x))) => x.col.checked_add(x.len).is_some(),
        Err(CompileError::P4(P4Error::Parser(x))) => col_room(x.col),
        Err(CompileError::P4(P4Error::Semantic(v))) => {
            let mut i: usize = 0;
            while i < v.len()
                invariant
                    *c == Err::<Compiled, CompileError>(CompileError::P4(P4Error::Semantic(*v))),
                    i <= v@.len(),
                    forall|k: int| 0 <= k < i ==> ((#[trigger] v@[k]).col as u32) < u32::MAX,
                decreases v@.len() - i,
            {
                if !col_room(v[i].col) {
                    let ghost e = P4Error::Semantic(*v);
                    assert(e->Semantic_0@[i as int] == v@[i as int]);
                    assert(!((e->Semantic_0@[i as int].col as u32) < u32::MAX));
                    return false;
                }
                i += 1;
            }
            true
        },
    }
}

/// The diagnostics of a document with text `text` that compiled to
/// `compiled`: the checker's findings, or else the error that stopped the
/// compilation.
pub open spec fn document_diagnostics(text: Seq<char>, compiled: Result<Compiled, CompileError>) -> Seq<DiagView> {
    let lines = std_lines(text);
    match compiled {
        Ok(c) => c.diagnostics@.map_values(|d: CheckDiagnostic| check_view(d)),
        Err(CompileError::Preprocessor(e)) => seq![
            (line_range(e.line, 0, line_len_or(lines, e.line, 0)), Some(DiagnosticSeverity::Error), e.message@),
        ],
        Err(CompileError::P4(e)) => p4_error_views(e, lines),
    }
}

/// The byte length of line `i`, or `fallback`.
fn line_len(lines: &Vec<String>, i: usize, fallback: u32) -> (r: u32)
    ensures
        r == line_len_or(texts(lines@), i, fallback),
{
    if i < lines.len() {
        lines[i].as_str().len() as u32
    } else {
        fallback
    }
}

/// The diagnostic for an error at a source position.
fn positioned_diagnostic(e: &PositionedError, lines: &Vec<String>) -> (d: Diagnostic)
    requires
        (e.col as u32) < u32::MAX,
    ensures
        diag_view(d) == positioned_view(*e, texts(lines@)),
{
    let col = e.col as u32;
    let end = line_len(lines, e.line, col + 1);
    Diagnostic {
        range: Range {
            start: Position { line: e.line as u32, character: col },
            end: Position { line: e.line as u32, character: end },
        },
        severity: Some(DiagnosticSeverity::Error),
        message: e.message.clone(),
    }
}

/// Appends the diagnostics for an error that stopped reading the program.
pub fn convert_p4_error(error: &P4Error, lines: &Vec<String>, out: &mut Vec<Diagnostic>)
    requires
        p4_error_ok(*error),
    ensures
        diag_views(final(out)@) == diag_views(old(out)@) + p4_error_views(*error, texts(lines@)),
{
    let ghost start = out@;
    match error {
        P4Error::Lexer(e) => {
            let d = Diagnostic {
                range: Range {
                    start: Position { line: e.line as u32, character: e.col as u32 },
                    end: Position { line: e.line as u32, character: (e.col + e.len) as u32 },
                },
                severity: Some(DiagnosticSeverity::Error),
                message: concat_str("Lexer error: ", e.text.as_str()),
            };
            out.push(d);
            assert(diag_views(out@) =~= diag_views(start).push(diag_view(d)));
            assert(diag_views(out@) =~= diag_views(start) + p4_error_views(*error, texts(lines@)));
        },
        P4Error::Parser(e) => {
            let d = positioned_diagnostic(e, lines);
            out.push(d);
            assert(diag_views(out@) =~= diag_views(start).push(diag_view(d)));
            assert(diag_views(out@) =~= diag_views(start) + p4_error_views(*error, texts(lines@)));
        },
        P4Error::Semantic(errors) => {
            let ghost ls = texts(lines@);
            let mut i: usize = 0;
            while i < errors.len()
                invariant
                    i <= errors@.len(),
                    ls == texts(lines@),
                    forall|k: int| 0 <= k < errors@.len() ==> ((#[trigger] errors@[k]).col as u32) < u32::MAX,
                    diag_views(out@) =~= diag_views(start) + errors@.take(i as int).map_values(
                        |x: PositionedError| positioned_view(x, ls),
                    ),
                decreases errors@.len() - i,
            {
                let ghost prev = out@;
                let d = positioned_diagnostic(&errors[i], lines);
                out.push(d);
                assert(diag_views(out@) =~= diag_views(prev).push(diag_view(d)));
                assert(errors@.take(i as int + 1).map_values(|x: PositionedError| positioned_view(x, ls))
                    =~= errors@.take(i as int).map_values(|x: PositionedError| positioned_view(x, ls)).push(
                    positioned_view(errors@[i as int], ls),
                ));
                i += 1;
            }
            assert(errors@.take(errors@.len() as int) =~= errors@);
        },
    }
}

/// The diagnostic for a checker finding.
pub fn check_diagnostic(d: &CheckDiagnostic) -> (r: Diagnostic)
    requires
        (d.col as u32) < u32::MAX,
    ensures
        diag_view(r) == check_view(*d),
{
    let line = d.line as u32;
    let col = d.col as u32;
    Diagnostic {
        range: Range {
            start: Position { line, character: col },
            end: Position { line, character: col + 1 },
        },
        severity: Some(severity(d.level)),
        message: d.message.clone(),
    }
}

/// The document the server keeps for `text` at `uri`, given what compiling
/// the text gave: the program, the macros and the diagnostics when it
/// compiled, or the diagnostics of the error that stopped it.
pub fn build_document(uri: String, text: &str, compiled: Result<Compiled, CompileError>) -> (d: Document)
    requires
        compile_result_ok(compiled),
    ensures
        d.uri == uri,
        rope_text(d.content) == text@,
        diag_views(d.diagnostics@) == document_diagnostics(text@, compiled),
        compiled matches Ok(c) ==> d.ast == Some(c.ast) && d.macros == c.macros,
        compiled is Err ==> d.ast is None && d.macros@.len() == 0,
{
    let content = rope_from_str(text);
    let lines = str_lines(text);
    let ghost ls = texts(lines@);
    let mut diagnostics: Vec<Diagnostic> = Vec::new();
    assert(diag_views(diagnostics@) =~= Seq::<DiagView>::empty());
    match compiled {
        Ok(c) => {
            let Compiled { ast, diagnostics: found, macros } = c;
            let mut i: usize = 0;
            while i < found.len()
                invariant
                    i <= found@.len(),
                    forall|k: int| 0 <= k < found@.len() ==> ((#[trigger] found@[k]).col as u32) < u32::MAX,
                    diag_views(diagnostics@) =~= found@.take(i as int).map_values(
                        |x: CheckDiagnostic| check_view(x),
                    ),
                decreases found@.len() - i,
            {
                let ghost prev = diagnostics@;
                let d = check_diagnostic(&found[i]);
                diagnostics.push(d);
                assert(diag_views(diagnostics@) =~= diag_views(prev).push(diag_view(d)));
                assert(found@.take(i as int + 1).map_values(|x: CheckDiagnostic| check_view(x))
                    =~= found@.take(i as int).map_values(|x: CheckDiagnostic| check_view(x)).push(
                    check_view(found@[i as int]),
                ));
                i += 1;
            }
            assert(found@.take(found@.len() as int) =~= found@);
            Document { uri, content, ast: Some(ast), diagnostics, macros }
        },
        Err(CompileError::Preprocessor(e)) => {
            let end = line_len(&lines, e.line, 0);
            let d = Diagnostic {
                range: Range {
                    start: Position { line: e.line as u32, character: 0 },
                    end: Position { line: e.line as u32, character: end },
                },
                severity: Some(DiagnosticSeverity::Error),
                message: e.message,
            };
            diagnostics.push(d);
            assert(diag_views(diagnostics@) =~= seq![diag_view(d)]);
            Document { uri, content, ast: None, diagnostics, macros: Vec::new() }
        },
        Err(CompileError::P4(e)) => {
            convert_p4_error(&e, &lines, &mut diagnostics);
            assert(diag_views(diagnostics@) =~= p4_error_views(e, ls));
            Document { uri, content, ast: None, diagnostics, macros: Vec::new() }
        },
    }
}

/// Law: when compiling fails, every diagnostic the document shows is an
/// error; when it succeeds, the document shows one diagnostic per finding of
/// the checker, each at the line of its finding.
pub proof fn law_document_diagnostics(text: Seq<char>, compiled: Result<Compiled, CompileError>)
    ensures
        compiled is Err ==> forall|i: int|
            0 <= i < document_diagnostics(text, compiled).len() ==> (#[trigger] document_diagnostics(
                text,
                compiled,
            )[i]).1 == Some(DiagnosticSeverity::Error),
        compiled matches Ok(c) ==> document_diagnostics(text, compiled).len() == c.diagnostics@.len()
            && forall|i: int|
            0 <= i < c.diagnostics@.len() ==> (#[trigger] document_diagnostics(text, compiled)[i]).0.start.line
                == c.diagnostics@[i].line as u32,
{
}

} // verus!
