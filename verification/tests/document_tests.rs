use p4_lsp::ast::Ast;
use p4_lsp::diagnostics::{
    build_document, check_diagnostic, compiled_fits, convert_p4_error, severity, str_lines, CheckDiagnostic, CompileError,
    Compiled, LexerError, Level, P4Error, PositionedError, PreprocessorError,
};
use p4_lsp::highlight::{collect_semantic_tokens, highlight_fits};
use p4_lsp::includes::{get_include_location, include_target_from, resolve_include_path};
use p4_lsp::protocol::{DiagnosticSeverity, Position, Range, SemanticToken};
use p4_lsp::server::{get_macro_hover, semantic_tokens_legend, Document};

fn empty_ast() -> Ast {
    Ast {
        headers: vec![],
        structs: vec![],
        typedefs: vec![],
        constants: vec![],
        controls: vec![],
        parsers: vec![],
        externs: vec![],
        packages: vec![],
        table_type_text: "table".to_string(),
    }
}

fn compiled_doc(uri: &str, text: &str, macros: Vec<(String, String)>) -> Document {
    build_document(uri.to_string(), text, Ok(Compiled { ast: empty_ast(), diagnostics: vec![], macros }))
}

fn range(line: u32, start: u32, end: u32) -> Range {
    Range { start: Position { line, character: start }, end: Position { line, character: end } }
}

#[test]
fn lines_like_str_lines() {
    let lines = str_lines("a\r\nb\n\nc\r");
    assert_eq!(lines, vec!["a", "b", "", "c\r"]);
    assert!(str_lines("").is_empty());
    assert_eq!(str_lines("one\n"), vec!["one"]);
    assert_eq!(str_lines("\n"), vec![""]);
}

#[test]
fn preprocessor_error_spans_its_line() {
    let doc = build_document(
        "file:///w/m.p4".to_string(),
        "first\nsecond line\n",
        Err(CompileError::Preprocessor(PreprocessorError { line: 1, message: "bad".to_string() })),
    );
    assert!(doc.ast.is_none());
    assert!(doc.macros.is_empty());
    assert_eq!(doc.diagnostics.len(), 1);
    assert_eq!(doc.diagnostics[0].range, range(1, 0, 11));
    assert_eq!(doc.diagnostics[0].severity, Some(DiagnosticSeverity::Error));
    assert_eq!(doc.diagnostics[0].message, "bad");
    let doc = build_document(
        "file:///w/m.p4".to_string(),
        "x\n",
        Err(CompileError::Preprocessor(PreprocessorError { line: 9, message: "far".to_string() })),
    );
    assert_eq!(doc.diagnostics[0].range, range(9, 0, 0));
}

#[test]
fn lexer_error_message_and_span() {
    let doc = build_document(
        "file:///w/m.p4".to_string(),
        "abc $$ def\n",
        Err(CompileError::P4(P4Error::Lexer(LexerError { line: 0, col: 4, len: 2, text: "unexpected".to_string() }))),
    );
    assert_eq!(doc.diagnostics.len(), 1);
    assert_eq!(doc.diagnostics[0].range, range(0, 4, 6));
    assert_eq!(doc.diagnostics[0].message, "Lexer error: unexpected");
}

#[test]
fn parser_and_semantic_errors_run_to_line_end() {
    let lines = vec!["header h {".to_string(), "  bit<8> é;".to_string()];
    let mut out = Vec::new();
    convert_p4_error(
        &P4Error::Parser(PositionedError { line: 1, col: 2, message: "expected".to_string() }),
        &lines,
        &mut out,
    );
    assert_eq!(out[0].range, range(1, 2, 12));
    convert_p4_error(
        &P4Error::Semantic(vec![
            PositionedError { line: 0, col: 7, message: "one".to_string() },
            PositionedError { line: 5, col: 7, message: "two".to_string() },
        ]),
        &lines,
        &mut out,
    );
    assert_eq!(out.len(), 3);
    assert_eq!(out[1].range, range(0, 7, 10));
    assert_eq!(out[1].message, "one");
    assert_eq!(out[2].range, range(5, 7, 8));
    assert_eq!(out[2].severity, Some(DiagnosticSeverity::Error));
}

#[test]
fn checker_findings_become_diagnostics() {
    let found = vec![
        CheckDiagnostic { level: Level::Warning, line: 2, col: 4, message: "w".to_string() },
        CheckDiagnostic { level: Level::Deprecation, line: 0, col: 0, message: "d".to_string() },
        CheckDiagnostic { level: Level::Info, line: 1, col: 1, message: "i".to_string() },
        CheckDiagnostic { level: Level::Error, line: 3, col: 2, message: "e".to_string() },
    ];
    let doc = build_document(
        "file:///w/m.p4".to_string(),
        "a\nb\nc\nd\n",
        Ok(Compiled { ast: empty_ast(), diagnostics: found, macros: vec![] }),
    );
    assert!(doc.ast.is_some());
    assert_eq!(doc.diagnostics.len(), 4);
    assert_eq!(doc.diagnostics[0].range, range(2, 4, 5));
    assert_eq!(doc.diagnostics[0].severity, Some(DiagnosticSeverity::Warning));
    assert_eq!(doc.diagnostics[1].severity, Some(DiagnosticSeverity::Warning));
    assert_eq!(doc.diagnostics[2].severity, Some(DiagnosticSeverity::Information));
    assert_eq!(doc.diagnostics[3].severity, Some(DiagnosticSeverity::Error));
    assert_eq!(doc.diagnostics[3].message, "e");
    assert_eq!(severity(Level::Deprecation), DiagnosticSeverity::Warning);
    let d = check_diagnostic(&CheckDiagnostic { level: Level::Info, line: 7, col: 9, message: "m".to_string() });
    assert_eq!(d.range, range(7, 9, 10));
    assert_eq!(doc.content.to_string(), "a\nb\nc\nd\n");
}

#[test]
fn include_paths_resolve_next_to_the_file() {
    assert_eq!(resolve_include_path("/a/b/c.p4", "d.p4").as_deref(), Some("/a/b/d.p4"));
    assert_eq!(resolve_include_path("/a/b/c.p4", "/x/y.p4").as_deref(), Some("/x/y.p4"));
    assert_eq!(resolve_include_path("c.p4", "d.p4").as_deref(), Some("d.p4"));
    assert_eq!(resolve_include_path("", "d.p4").as_deref(), Some("./d.p4"));
    assert_eq!(resolve_include_path("/c.p4", "d.p4").as_deref(), Some("/d.p4"));
    assert_eq!(include_target_from(None, "d.p4"), "./d.p4");
    assert_eq!(include_target_from(Some("/w".to_string()), "d.p4"), "/w/d.p4");
}

#[test]
fn include_lines_lead_to_files() {
    let text = "  #include <core.p4>\n#include \"lib/types.p4\"\nstruct s {}\n#include \"/abs/x.p4\"\n#include core.p4\n#include <open\n";
    let doc = compiled_doc("file:///work/src/main.p4", text, vec![]);
    let l = get_include_location(&doc, Position { line: 0, character: 3 }).unwrap();
    assert_eq!(l.uri, "file:///work/src/core.p4");
    assert_eq!(l.range, range(0, 11, 18));
    let l = get_include_location(&doc, Position { line: 1, character: 0 }).unwrap();
    assert_eq!(l.uri, "file:///work/src/lib/types.p4");
    assert_eq!(l.range, range(1, 11, 23));
    assert!(get_include_location(&doc, Position { line: 2, character: 0 }).is_none());
    let l = get_include_location(&doc, Position { line: 3, character: 0 }).unwrap();
    assert_eq!(l.uri, "file:///abs/x.p4");
    assert!(get_include_location(&doc, Position { line: 4, character: 0 }).is_none());
    assert!(get_include_location(&doc, Position { line: 5, character: 0 }).is_none());
    assert!(get_include_location(&doc, Position { line: 60, character: 0 }).is_none());
}

#[test]
fn macro_hover_shows_body() {
    let doc = compiled_doc(
        "file:///w/m.p4",
        "bit<WIDTH> x;\nother\n",
        vec![("WIDTH".to_string(), "32".to_string()), ("WIDTH".to_string(), "64".to_string())],
    );
    assert_eq!(get_macro_hover(&doc, Position { line: 0, character: 5 }).as_deref(), Some("```p4\n32\n```"));
    assert_eq!(get_macro_hover(&doc, Position { line: 1, character: 1 }), None);
    assert_eq!(get_macro_hover(&doc, Position { line: 9, character: 1 }), None);
    let no_macros = compiled_doc("file:///w/m.p4", "bit<WIDTH> x;\n", vec![]);
    assert_eq!(get_macro_hover(&no_macros, Position { line: 0, character: 5 }), None);
}

#[test]
fn macro_uses_are_highlighted() {
    let doc = compiled_doc("file:///w/m.p4", "#define W 8\nbit<W> x;\n", vec![("W".to_string(), "8".to_string())]);
    let legend = semantic_tokens_legend();
    let tokens = collect_semantic_tokens(&legend, &doc, &vec![]);
    assert_eq!(
        tokens,
        vec![
            SemanticToken { delta_line: 0, delta_start: 8, length: 1, token_type: 6, token_modifiers_bitset: 0 },
            SemanticToken { delta_line: 1, delta_start: 4, length: 1, token_type: 6, token_modifiers_bitset: 0 },
        ]
    );
}

use p4_lsp::ast::{Header, Typedef, Type, TypeKind};
use p4_lsp::lexical::{kind_fits, Kind, Token};
use p4_lsp::server::{definition_fits_at, document_completions, document_definition, document_hover};
use ropey::Rope;

fn ident(name: &str, line: usize, col: usize) -> Token {
    Token { kind: Kind::Identifier(name.to_string()), line, col, file: "/w/m.p4".to_string() }
}

fn user_type(name: &str) -> Type {
    Type { kind: TypeKind::UserDefined(name.to_string()), text: name.to_string() }
}

fn doc_with_program() -> Document {
    let text = "#include \"lib.p4\"\nheader h_t { }\ntypedef a_t b_t;\ntypedef b_t a_t;\nbit<N> x;\nh_t y;\n";
    let mut ast = empty_ast();
    ast.headers.push(Header { name: "h_t".to_string(), token: ident("h_t", 1, 7), members: vec![] });
    ast.typedefs.push(Typedef { name: "b_t".to_string(), ty: user_type("a_t"), token: ident("b_t", 2, 12) });
    ast.typedefs.push(Typedef { name: "a_t".to_string(), ty: user_type("b_t"), token: ident("a_t", 3, 12) });
    Document {
        uri: "file:///w/m.p4".to_string(),
        content: Rope::from_str(text),
        ast: Some(ast),
        diagnostics: vec![],
        macros: vec![("N".to_string(), "8".to_string()), ("a_t".to_string(), "cycle".to_string())],
    }
}

#[test]
fn document_hover_prefers_program_then_macros() {
    let doc = doc_with_program();
    assert_eq!(document_hover(&doc, Position { line: 1, character: 8 }).as_deref(), Some("```p4\nheader h_t {\n}\n```"));
    assert_eq!(document_hover(&doc, Position { line: 4, character: 4 }).as_deref(), Some("```p4\n8\n```"));
    assert_eq!(document_hover(&doc, Position { line: 3, character: 13 }).as_deref(), Some("```p4\ncycle\n```"));
    assert_eq!(document_hover(&doc, Position { line: 2, character: 13 }), None);
}

#[test]
fn document_definition_prefers_includes() {
    let doc = doc_with_program();
    let l = document_definition(&doc, Position { line: 0, character: 2 }).unwrap();
    assert_eq!(l.uri, "file:///w/lib.p4");
    assert_eq!(l.range, range(0, 11, 17));
    let l = document_definition(&doc, Position { line: 5, character: 1 }).unwrap();
    assert_eq!(l.uri, "file:///w/m.p4");
    assert_eq!(l.range, range(1, 7, 8));
    assert!(document_definition(&doc, Position { line: 4, character: 9 }).is_none());
}

#[test]
fn document_completions_need_a_program() {
    let doc = doc_with_program();
    let items = document_completions(&doc, Position { line: 5, character: 0 }).unwrap();
    assert!(items.iter().any(|c| c.label == "h_t"));
    let failed = build_document(
        "file:///w/m.p4".to_string(),
        "x\n",
        Err(CompileError::Preprocessor(PreprocessorError { line: 0, message: "bad".to_string() })),
    );
    assert!(document_completions(&failed, Position { line: 0, character: 0 }).is_none());
}

#[test]
fn lexical_and_declaration_tokens() {
    let mut ast = empty_ast();
    ast.headers.push(Header { name: "h_t".to_string(), token: ident("h_t", 0, 7), members: vec![] });
    let doc = Document {
        uri: "file:///w/m.p4".to_string(),
        content: Rope::from_str("header h_t {\n}\n"),
        ast: Some(ast),
        diagnostics: vec![],
        macros: vec![],
    };
    let lexed = vec![
        Token { kind: Kind::Header, line: 0, col: 0, file: "<memory>".to_string() },
        Token { kind: Kind::Identifier("h_t".to_string()), line: 0, col: 7, file: "<memory>".to_string() },
        Token { kind: Kind::Other, line: 0, col: 11, file: "<memory>".to_string() },
        Token { kind: Kind::Eof, line: 2, col: 0, file: "<memory>".to_string() },
    ];
    let legend = semantic_tokens_legend();
    let tokens = collect_semantic_tokens(&legend, &doc, &lexed);
    assert_eq!(
        tokens,
        vec![
            SemanticToken { delta_line: 0, delta_start: 0, length: 1, token_type: 0, token_modifiers_bitset: 0 },
            SemanticToken { delta_line: 0, delta_start: 7, length: 3, token_type: 4, token_modifiers_bitset: 0 },
            SemanticToken { delta_line: 0, delta_start: 0, length: 3, token_type: 1, token_modifiers_bitset: 0 },
        ]
    );
    let in_range = p4_lsp::highlight::collect_semantic_tokens_range(&legend, &doc, &lexed, range(0, 5, 9));
    assert_eq!(
        in_range,
        vec![SemanticToken { delta_line: 0, delta_start: 7, length: 3, token_type: 4, token_modifiers_bitset: 0 }]
    );
}

use p4_lsp::standalone::{DocCompilation, DocEvent, DocTask};

#[test]
fn document_compilation_order() {
    let main = std::sync::Arc::new("/w/main.p4".to_string());
    let (mut c, t) = DocCompilation::start(&main, "m".to_string());
    assert!(matches!(t, DocTask::Preprocess(ref f, ref s) if f.as_str() == "/w/main.p4" && s == "m"));
    let t = c.step(DocEvent::Preprocessed(
        vec!["a.p4".to_string(), "/abs/b.p4".to_string()],
        vec![("X".to_string(), "1".to_string())],
    ));
    assert!(matches!(t, DocTask::Read(ref p) if p == "/w/a.p4"));
    let t = c.step(DocEvent::Text(Some("a".to_string())));
    assert!(matches!(t, DocTask::Preprocess(ref f, ref s) if f.as_str() == "/w/a.p4" && s == "a"));
    let t = c.step(DocEvent::Preprocessed(vec![], vec![("Y".to_string(), "2".to_string())]));
    assert!(matches!(t, DocTask::Parse(ref f) if f.as_str() == "/w/a.p4"));
    let t = c.step(DocEvent::Parsed);
    assert!(matches!(t, DocTask::Read(ref p) if p == "/abs/b.p4"));
    let t = c.step(DocEvent::Text(None));
    assert!(matches!(t, DocTask::Parse(ref f) if f.as_str() == "/w/main.p4"));
    let t = c.step(DocEvent::Parsed);
    assert!(matches!(t, DocTask::Done));
    assert_eq!(
        c.into_macros(),
        vec![("X".to_string(), "1".to_string()), ("Y".to_string(), "2".to_string())]
    );
}

#[test]
fn document_compilation_failure() {
    let main = std::sync::Arc::new("/w/main.p4".to_string());
    let (mut c, _) = DocCompilation::start(&main, String::new());
    assert!(matches!(c.step(DocEvent::Preprocessed(vec![], vec![])), DocTask::Parse(_)));
    assert!(matches!(c.step(DocEvent::Failed), DocTask::Failed));
    assert!(matches!(c.step(DocEvent::Parsed), DocTask::Failed));
    let (mut c, _) = DocCompilation::start(&main, String::new());
    assert!(matches!(c.step(DocEvent::Text(None)), DocTask::Failed));
}

#[test]
fn header_hover_wins_over_cyclic_typedef() {
    let text = "header a_t { }\ntypedef a_t b_t;\ntypedef b_t a_t;\n";
    let mut ast = empty_ast();
    ast.headers.push(Header { name: "a_t".to_string(), token: ident("a_t", 0, 7), members: vec![] });
    ast.typedefs.push(Typedef { name: "b_t".to_string(), ty: user_type("a_t"), token: ident("b_t", 1, 12) });
    ast.typedefs.push(Typedef { name: "a_t".to_string(), ty: user_type("b_t"), token: ident("a_t", 2, 12) });
    let content = Rope::from_str(text);
    let at_header = Position { line: 0, character: 8 };
    assert!(p4_lsp::hover::hover_ends(&ast, &content, at_header));
    assert_eq!(
        p4_lsp::hover::get_hover_info(&ast, &content, at_header).as_deref(),
        Some("```p4\nheader a_t {\n}\n```")
    );
    assert!(p4_lsp::hover::hover_ends(&ast, &content, Position { line: 2, character: 13 }));
    assert!(!p4_lsp::hover::hover_ends(&ast, &content, Position { line: 1, character: 13 }));
    let doc = Document { uri: "file:///w/m.p4".to_string(), content, ast: Some(ast), diagnostics: vec![], macros: vec![] };
    assert_eq!(document_hover(&doc, at_header).as_deref(), Some("```p4\nheader a_t {\n}\n```"));
}

#[test]
fn column_bounds_are_checked() {
    let ok = Ok(Compiled {
        ast: empty_ast(),
        diagnostics: vec![CheckDiagnostic { level: Level::Warning, line: 0, col: 3, message: "w".to_string() }],
        macros: vec![],
    });
    assert!(compiled_fits(&ok));
    let last = Ok(Compiled {
        ast: empty_ast(),
        diagnostics: vec![CheckDiagnostic { level: Level::Warning, line: 0, col: u32::MAX as usize, message: "w".to_string() }],
        macros: vec![],
    });
    assert!(!compiled_fits(&last));
    let pre: Result<Compiled, CompileError> = Err(CompileError::Preprocessor(PreprocessorError { line: 0, message: "x".to_string() }));
    assert!(compiled_fits(&pre));
    let lex: Result<Compiled, CompileError> =
        Err(CompileError::P4(P4Error::Lexer(LexerError { line: 0, col: usize::MAX, len: 1, text: "x".to_string() })));
    assert!(!compiled_fits(&lex));
    let sem: Result<Compiled, CompileError> = Err(CompileError::P4(P4Error::Semantic(vec![
        PositionedError { line: 0, col: 1, message: "a".to_string() },
        PositionedError { line: 1, col: u32::MAX as usize, message: "b".to_string() },
    ])));
    assert!(!compiled_fits(&sem));
}

#[test]
fn highlight_and_definition_bounds() {
    let doc = doc_with_program();
    assert!(highlight_fits(&doc, &vec![ident("h_t", 1, 7)]));
    assert!(kind_fits(&Kind::StringLiteral("abc".to_string())));
    assert!(kind_fits(&Kind::Identifier("x".to_string())));
    assert!(definition_fits_at(&doc, Position { line: 5, character: 1 }));
    let mut far = doc_with_program();
    far.ast.as_mut().unwrap().headers[0].token.col = u32::MAX as usize;
    assert!(!definition_fits_at(&far, Position { line: 5, character: 1 }));
    assert!(definition_fits_at(&far, Position { line: 0, character: 3 }));
}
