use p4_lsp::ast::{
    Action, Ast, Control, DeclarationInfo, Direction, Header, Member, NameInfo, Parameter, Struct, Type,
    TypeKind,
};
use p4_lsp::builtins::{builtin_token_type_for_identifier, get_builtin_hover, get_keyword_completions};
use p4_lsp::completion::{get_completions, get_member_completions};
use p4_lsp::definition::{get_definition_location, token_to_location};
use p4_lsp::hover::{format_direction, get_hover_info, get_member_hover};
use p4_lsp::lexical::{token_len, Kind, Token};
use p4_lsp::protocol::{
    CompletionItemKind, Position, Range, SemanticToken, SemanticTokenModifier, SemanticTokenType,
    SemanticTokensLegend,
};
use p4_lsp::semantic::{encode_relative_tokens, filter_tokens_by_range, SemanticTokensBuilder};
use p4_lsp::words::{extract_word_and_prefix, get_dot_prefix, is_identifier_char};
use ropey::Rope;

const FILE: &str = "/work/main.p4";

const PROGRAM: &str = "header eth_t {\n    bit<48> dst;\n}\nstruct headers_t {\n    eth_t eth;\n}\ncontrol ingress(inout headers_t hdr) {\n    action drop() { }\n    apply { hdr.eth.dst = 1; }\n}\n";

fn tok(name: &str, line: usize, col: usize) -> Token {
    Token { kind: Kind::Identifier(name.to_string()), line, col, file: FILE.to_string() }
}

fn other_type(text: &str) -> Type {
    Type { kind: TypeKind::Other, text: text.to_string() }
}

fn named_type(name: &str) -> Type {
    Type { kind: TypeKind::UserDefined(name.to_string()), text: name.to_string() }
}

fn program() -> Ast {
    let hdr_param = Parameter {
        name: "hdr".to_string(),
        ty: named_type("headers_t"),
        direction: Direction::InOut,
        name_token: tok("hdr", 6, 32),
    };
    let control = Control {
        name: "ingress".to_string(),
        token: tok("ingress", 6, 8),
        parameters: vec![hdr_param],
        variables: vec![],
        actions: vec![Action {
            name: "drop".to_string(),
            token: tok("drop", 7, 11),
            parameters: vec![],
            names: vec![],
        }],
        tables: vec![],
        names: vec![NameInfo {
            name: "hdr".to_string(),
            ty: named_type("headers_t"),
            decl: DeclarationInfo::Parameter(Direction::InOut),
            token: tok("hdr", 6, 32),
        }],
    };
    Ast {
        headers: vec![Header {
            name: "eth_t".to_string(),
            token: tok("eth_t", 0, 7),
            members: vec![Member { name: "dst".to_string(), ty: other_type("bit<48>"), token: tok("dst", 1, 12) }],
        }],
        structs: vec![Struct {
            name: "headers_t".to_string(),
            token: tok("headers_t", 3, 7),
            members: vec![Member { name: "eth".to_string(), ty: named_type("eth_t"), token: tok("eth", 4, 10) }],
        }],
        typedefs: vec![],
        constants: vec![],
        controls: vec![control],
        parsers: vec![],
        externs: vec![],
        packages: vec![],
        table_type_text: "table".to_string(),
    }
}

#[test]
fn word_and_prefix_under_cursor() {
    let (word, prefix) = extract_word_and_prefix("    apply { hdr.eth.dst = 1; }", 21);
    assert_eq!(word.as_deref(), Some("dst"));
    assert_eq!(prefix.as_deref(), Some("hdr.eth"));
    let (word, prefix) = extract_word_and_prefix("x = y", 1);
    assert_eq!(word.as_deref(), Some("x"));
    assert_eq!(prefix, None);
    let (word, prefix) = extract_word_and_prefix("", 0);
    assert_eq!(word, None);
    assert_eq!(prefix, None);
    let (word, _) = extract_word_and_prefix("a + b", 2);
    assert_eq!(word, None);
    let (word, _) = extract_word_and_prefix("end_word", 100);
    assert_eq!(word.as_deref(), Some("end_word"));
}

#[test]
fn dot_prefix_before_cursor() {
    assert_eq!(get_dot_prefix("meta.", 5).as_deref(), Some("meta"));
    assert_eq!(get_dot_prefix("meta.", 4), None);
    assert_eq!(get_dot_prefix(".", 1), None);
    assert_eq!(get_dot_prefix("a.b", 0), None);
    assert!(is_identifier_char('_'));
    assert!(!is_identifier_char('.'));
}

#[test]
fn builtin_identifiers() {
    assert_eq!(builtin_token_type_for_identifier("NoAction"), Some(SemanticTokenType::Function));
    assert_eq!(builtin_token_type_for_identifier("accept"), Some(SemanticTokenType::Keyword));
    assert_eq!(builtin_token_type_for_identifier("not_a_builtin"), None);
    let rope = Rope::from_str("transition accept;\n");
    let hover = get_builtin_hover(&rope, Position { line: 0, character: 12 });
    assert_eq!(hover.as_deref(), Some("```p4\naccept\n```\nBuilt-in parser state indicating successful parsing."));
    assert_eq!(get_builtin_hover(&rope, Position { line: 5, character: 0 }), None);
}

#[test]
fn keyword_completions_list() {
    let items = get_keyword_completions();
    assert_eq!(items.len(), 99);
    assert_eq!(items[0].label, "action");
    assert_eq!(items[0].kind, Some(CompletionItemKind::Keyword));
    assert_eq!(items[0].detail.as_deref(), Some("Define an action"));
    assert_eq!(items[47].label, "NoAction");
    assert_eq!(items[47].kind, Some(CompletionItemKind::Function));
    assert_eq!(items[40].label, "bit");
    assert_eq!(items[40].kind, Some(CompletionItemKind::TypeParameter));
    assert_eq!(items[52].label, "void");
    assert_eq!(items[52].detail.as_deref(), Some("Built-in type"));
    assert!(items.iter().any(|c| c.label == "meter" && c.kind == Some(CompletionItemKind::Class)));
    assert_eq!(items[98].label, "log_msg");
    let empty = p4_lsp::ast::Ast {
        headers: vec![],
        structs: vec![],
        typedefs: vec![],
        constants: vec![],
        controls: vec![],
        parsers: vec![],
        externs: vec![],
        packages: vec![],
        table_type_text: "table".to_string(),
    };
    assert_eq!(get_completions(&empty).len(), 99);
}

#[test]
fn hover_on_declarations() {
    let ast = program();
    let rope = Rope::from_str(PROGRAM);
    let h = get_hover_info(&ast, &rope, Position { line: 0, character: 8 });
    assert_eq!(h.as_deref(), Some("```p4\nheader eth_t {\n    bit<48> dst;\n}\n```"));
    let h = get_hover_info(&ast, &rope, Position { line: 3, character: 9 });
    assert_eq!(h.as_deref(), Some("```p4\nstruct headers_t {\n    eth_t eth;\n}\n```"));
    let h = get_hover_info(&ast, &rope, Position { line: 6, character: 9 });
    assert_eq!(h.as_deref(), Some("```p4\ncontrol ingress(inout headers_t hdr)\n```"));
    let h = get_hover_info(&ast, &rope, Position { line: 7, character: 12 });
    assert_eq!(h.as_deref(), Some("```p4\n// in control ingress\naction drop()\n```"));
    assert_eq!(get_hover_info(&ast, &rope, Position { line: 40, character: 0 }), None);
}

#[test]
fn hover_on_member_access() {
    let ast = program();
    let rope = Rope::from_str(PROGRAM);
    let h = get_hover_info(&ast, &rope, Position { line: 8, character: 21 });
    assert_eq!(h.as_deref(), Some("```p4\nbit<48> eth_t.dst\n```\nMember of header `eth_t`"));
}

#[test]
fn member_hover_of_types() {
    let ast = program();
    let h = get_member_hover(&ast, &named_type("eth_t"), "dst");
    assert_eq!(h.as_deref(), Some("```p4\nbit<48> eth_t.dst\n```\nMember of header `eth_t`"));
    let h = get_member_hover(&ast, &named_type("headers_t"), "eth");
    assert_eq!(h.as_deref(), Some("```p4\neth_t headers_t.eth\n```\nMember of struct `headers_t`"));
    let h = get_member_hover(&ast, &named_type("eth_t"), "isValid");
    assert_eq!(h.as_deref(), Some("```p4\nisValid()\n```\nHeader method"));
    assert_eq!(get_member_hover(&ast, &named_type("eth_t"), "nothing"), None);
    assert_eq!(get_member_hover(&ast, &other_type("bit<8>"), "dst"), None);
    assert_eq!(format_direction(&Direction::InOut), "inout");
    assert_eq!(format_direction(&Direction::Unspecified), "");
}

#[test]
fn completions_of_program() {
    let ast = program();
    let items = get_completions(&ast);
    let labels: Vec<&str> = items.iter().map(|c| c.label.as_str()).collect();
    assert!(labels.contains(&"eth_t"));
    assert!(labels.contains(&"headers_t"));
    assert!(labels.contains(&"ingress"));
    assert!(labels.contains(&"action"));
    let members = get_member_completions(&ast, &named_type("eth_t"));
    let labels: Vec<&str> = members.iter().map(|c| c.label.as_str()).collect();
    assert_eq!(labels, vec!["dst", "isValid", "setValid", "setInvalid"]);
    assert_eq!(members[0].kind, Some(CompletionItemKind::Field));
    assert!(get_member_completions(&ast, &other_type("bit<8>")).is_empty());
}

#[test]
fn definition_of_names() {
    let ast = program();
    let rope = Rope::from_str(PROGRAM);
    let loc = get_definition_location(&ast, &rope, Position { line: 4, character: 5 }).unwrap();
    assert_eq!(loc.uri, "file:///work/main.p4");
    assert_eq!(
        loc.range,
        Range { start: Position { line: 0, character: 7 }, end: Position { line: 0, character: 8 } }
    );
    assert!(get_definition_location(&ast, &rope, Position { line: 2, character: 0 }).is_none());
}

#[test]
fn token_locations_need_absolute_files() {
    let t = tok("x", 3, 4);
    let loc = token_to_location(&t).unwrap();
    assert_eq!(loc.uri, "file:///work/main.p4");
    assert_eq!(loc.range.start, Position { line: 3, character: 4 });
    assert_eq!(loc.range.end, Position { line: 3, character: 5 });
    let relative = Token { kind: Kind::Identifier("x".to_string()), line: 0, col: 0, file: "main.p4".to_string() };
    assert!(token_to_location(&relative).is_none());
}

#[test]
fn token_lengths() {
    assert_eq!(token_len(&Kind::Identifier("hdr".to_string())), 3);
    assert_eq!(token_len(&Kind::IntLiteral(-120)), 4);
    assert_eq!(token_len(&Kind::IntLiteral(0)), 1);
    assert_eq!(token_len(&Kind::BitLiteral(8, 255)), 5);
    assert_eq!(token_len(&Kind::SignedLiteral(16, -3)), 5);
    assert_eq!(token_len(&Kind::StringLiteral("ab".to_string())), 4);
    assert_eq!(token_len(&Kind::DefaultAction), 14);
    assert_eq!(token_len(&Kind::Other), 1);
}

fn tok_at(line: u32, start: u32, token_type: u32) -> SemanticToken {
    SemanticToken { delta_line: line, delta_start: start, length: 1, token_type, token_modifiers_bitset: 0 }
}

#[test]
fn relative_encoding_orders_and_deltas() {
    let encoded = encode_relative_tokens(vec![tok_at(2, 5, 0), tok_at(0, 3, 1), tok_at(2, 1, 2), tok_at(0, 3, 3)]);
    let pairs: Vec<(u32, u32, u32)> = encoded.iter().map(|t| (t.delta_line, t.delta_start, t.token_type)).collect();
    assert_eq!(pairs, vec![(0, 3, 1), (0, 0, 3), (2, 1, 2), (0, 4, 0)]);
    assert!(encode_relative_tokens(vec![]).is_empty());
}

#[test]
fn decoding_gives_back_positions() {
    let input = vec![tok_at(1, 4, 0), tok_at(1, 9, 0), tok_at(3, 2, 0)];
    let encoded = encode_relative_tokens(input.clone());
    let mut line = 0u32;
    let mut start = 0u32;
    let mut decoded = Vec::new();
    for t in &encoded {
        if t.delta_line == 0 {
            start += t.delta_start;
        } else {
            line += t.delta_line;
            start = t.delta_start;
        }
        decoded.push((line, start));
    }
    assert_eq!(decoded, vec![(1, 4), (1, 9), (3, 2)]);
}

#[test]
fn filtering_by_range() {
    let tokens = vec![tok_at(0, 1, 0), tok_at(1, 0, 0), tok_at(1, 8, 0), tok_at(2, 3, 0), tok_at(4, 0, 0)];
    let range = Range { start: Position { line: 1, character: 2 }, end: Position { line: 2, character: 3 } };
    let r = filter_tokens_by_range(tokens, range);
    let pairs: Vec<(u32, u32)> = r.iter().map(|t| (t.delta_line, t.delta_start)).collect();
    assert_eq!(pairs, vec![(1, 8), (1, 3)]);
}

#[test]
fn builder_uses_legend_positions() {
    let legend = SemanticTokensLegend {
        token_types: vec![SemanticTokenType::Keyword, SemanticTokenType::Type],
        token_modifiers: vec![SemanticTokenModifier::Declaration, SemanticTokenModifier::Readonly],
    };
    let mut b = SemanticTokensBuilder::new(&legend);
    b.push(2, 3, 4, SemanticTokenType::Type, &[SemanticTokenModifier::Readonly, SemanticTokenModifier::Static]);
    b.push(1, 1, 1, SemanticTokenType::Macro, &[]);
    b.push(0, 0, 5, SemanticTokenType::Keyword, &[SemanticTokenModifier::Declaration]);
    let data = b.build();
    assert_eq!(data.len(), 2);
    assert_eq!(data[0], SemanticToken { delta_line: 2, delta_start: 3, length: 4, token_type: 1, token_modifiers_bitset: 2 });
    assert_eq!(data[1], SemanticToken { delta_line: 0, delta_start: 0, length: 5, token_type: 0, token_modifiers_bitset: 1 });
}

fn typedef_program() -> Ast {
    let td = |name: &str, ty: Type, line: usize| p4_lsp::ast::Typedef { name: name.to_string(), ty, token: tok(name, line, 8) };
    let mut ast = program();
    ast.headers.clear();
    ast.structs.clear();
    ast.controls.clear();
    ast.typedefs = vec![
        td("byte_t", other_type("bit<8>"), 0),
        td("word_t", named_type("byte_t"), 1),
        td("a_t", named_type("b_t"), 2),
        td("b_t", named_type("a_t"), 3),
    ];
    ast
}

const TYPEDEFS: &str = "typedef bit<8> byte_t;\ntypedef byte_t word_t;\ntypedef b_t a_t;\ntypedef a_t b_t;\n";

#[test]
fn typedef_chains() {
    let ast = typedef_program();
    let rope = Rope::from_str(TYPEDEFS);
    assert!(p4_lsp::hover::alias_chain_ends(&ast, &named_type("word_t")));
    assert!(!p4_lsp::hover::alias_chain_ends(&ast, &named_type("a_t")));
    assert!(p4_lsp::hover::hover_ends(&ast, &rope, Position { line: 1, character: 17 }));
    assert!(!p4_lsp::hover::hover_ends(&ast, &rope, Position { line: 2, character: 13 }));
    let h = get_hover_info(&ast, &rope, Position { line: 1, character: 17 });
    assert_eq!(h.as_deref(), Some("```p4\ntypedef bit<8> word_t\n```"));
}

#[test]
fn definition_token_found() {
    let ast = program();
    let rope = Rope::from_str(PROGRAM);
    let t = p4_lsp::definition::find_definition_token(&ast, &rope, Position { line: 4, character: 5 }).unwrap();
    assert_eq!((t.line, t.col), (0, 7));
    assert!(p4_lsp::definition::find_definition_token(&ast, &rope, Position { line: 2, character: 0 }).is_none());
}

#[test]
fn words_and_prefixes_at_cursor() {
    let f = extract_word_and_prefix;
    let s = |x: &str| Some(x.to_string());
    assert_eq!(f("hdr.eth.dst", 9), (s("dst"), s("hdr.eth")));
    assert_eq!(f("meta.x", 6), (s("x"), s("meta")));
    assert_eq!(f(".x", 1), (s("x"), None));
    assert_eq!(f("foo bar", 3), (s("foo"), None));
    assert_eq!(f("foo", usize::MAX), (s("foo"), None));
    assert_eq!(f(" x", 0), (s("x"), None));
    assert_eq!(f("", 0), (None, None));
    assert_eq!(f("a + b", 2), (None, None));
    assert_eq!(f("größe", 2), (s("größe"), None));
}

#[test]
fn builtin_hover_on_parser_states() {
    let content = Rope::from_str("transition accept;");
    assert_eq!(
        get_builtin_hover(&content, Position { line: 0, character: 12 }).as_deref(),
        Some("```p4\naccept\n```\nBuilt-in parser state indicating successful parsing.")
    );
    assert_eq!(get_builtin_hover(&content, Position { line: 0, character: 3 }), None);
    assert_eq!(get_builtin_hover(&content, Position { line: 5, character: 0 }), None);
}
