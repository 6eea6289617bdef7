use std::sync::Arc;

use p4_lsp::ast::{Action, Ast, Constant, Control, Header, Struct, Table};
use p4_lsp::config::{default_version, is_p4_source, path_file_stem, resolve_path, same_path, ProjectConfig, TargetConfig};
use p4_lsp::lexical::{Kind, Token};
use p4_lsp::project::{FilePath, Symbol, SymbolKind, SymbolTable};
use p4_lsp::state::{include_candidates_with, roots_not_included, Discovery, ProjectState};
use p4_lsp::unit::{extract_symbols_from_ast, index_lookup, RootBuild};

fn path(p: &str) -> FilePath {
    Arc::new(p.to_string())
}

fn tok(name: &str, line: usize, col: usize, file: &str) -> Token {
    Token { kind: Kind::Identifier(name.to_string()), line, col, file: file.to_string() }
}

fn symbol(name: &str, kind: SymbolKind, file: &str, line: usize) -> Symbol {
    Symbol { name: name.to_string(), kind, def_file: path(file), line, col: 0 }
}

#[test]
fn test_resolve_paths() {
    let config = ProjectConfig {
        version: 1,
        include_paths: vec!["include".to_string(), "/opt/p4".to_string()],
        targets: vec![
            TargetConfig { name: String::new(), root: "src/main.p4".to_string(), include_paths: vec![] },
            TargetConfig { name: "other".to_string(), root: "/absolute/path.p4".to_string(), include_paths: vec![] },
        ],
    };
    let resolved = config.resolve("/home/user/project");

    assert_eq!(resolved.include_paths, vec!["/home/user/project/include".to_string(), "/opt/p4".to_string()]);
    assert_eq!(resolved.targets.len(), 2);
    assert_eq!(resolved.targets[0].name, "main");
    assert_eq!(resolved.targets[0].root, "/home/user/project/src/main.p4");
    assert_eq!(resolved.targets[1].name, "other");
    assert_eq!(resolved.targets[1].root, "/absolute/path.p4");
}

#[test]
fn unnamed_targets_without_stem() {
    let config = ProjectConfig {
        version: 1,
        include_paths: vec![],
        targets: vec![TargetConfig { name: String::new(), root: "..".to_string(), include_paths: vec!["inc".to_string()] }],
    };
    let resolved = config.resolve("/w/");
    assert_eq!(resolved.targets[0].name, "unnamed");
    assert_eq!(resolved.targets[0].root, "/w/..");
    assert_eq!(resolved.targets[0].include_paths, vec!["/w/inc".to_string()]);
}

#[test]
fn config_file_location() {
    assert_eq!(ProjectConfig::config_path("/home/u"), "/home/u/.p4lsp.json");
    assert_eq!(ProjectConfig::config_path("/home/u/"), "/home/u/.p4lsp.json");
    assert_eq!(default_version(), 1);
    let d = ProjectConfig::default();
    assert_eq!(d.version, 0);
    assert!(d.targets.is_empty());
}

#[test]
fn paths_and_stems() {
    assert_eq!(resolve_path("/base", "rel/x"), "/base/rel/x");
    assert_eq!(resolve_path("/base/", "rel"), "/base/rel");
    assert_eq!(resolve_path("/base", "/abs"), "/abs");
    assert_eq!(resolve_path("", "rel"), "rel");
    assert_eq!(path_file_stem("a/b/main.p4").as_deref(), Some("main"));
    assert_eq!(path_file_stem("a/b/.hidden").as_deref(), Some(".hidden"));
    assert_eq!(path_file_stem("a/b.tar.gz").as_deref(), Some("b.tar"));
    assert_eq!(path_file_stem("a/b/").as_deref(), Some("b"));
    assert_eq!(path_file_stem("a/.."), None);
    assert_eq!(path_file_stem(""), None);
}

#[test]
fn p4_sources_by_extension() {
    assert!(is_p4_source("/w/src/main.p4"));
    assert!(is_p4_source("main.p4"));
    assert!(!is_p4_source("/w/.p4"));
    assert!(!is_p4_source("/w/main.p4.bak"));
    assert!(!is_p4_source("/w/p4"));
    assert!(!is_p4_source("/w/types.h"));
    assert!(is_p4_source("/w/a.b.p4/"));
}

#[test]
fn symbol_table_lookups() {
    let mut table = SymbolTable::new();
    table.add(symbol("eth_t", SymbolKind::Header, "/w/a.p4", 1));
    table.add(symbol("main", SymbolKind::Control, "/w/b.p4", 2));
    table.add(symbol("eth_t", SymbolKind::Struct, "/w/b.p4", 3));
    let found = table.lookup("eth_t");
    assert_eq!(found.len(), 2);
    assert_eq!(found[0].line, 1);
    assert_eq!(found[1].kind, SymbolKind::Struct);
    assert!(table.lookup("none").is_empty());
    let in_b = table.symbols_in_file(&path("/w/b.p4"));
    let names: Vec<&str> = in_b.iter().map(|s| s.name.as_str()).collect();
    assert_eq!(names, vec!["main", "eth_t"]);
    assert_eq!(table.symbols().len(), 3);
}

fn two_file_ast() -> Ast {
    Ast {
        headers: vec![Header { name: "h_t".to_string(), token: tok("h_t", 0, 7, "/w/types.h"), members: vec![] }],
        structs: vec![
            Struct { name: "meta_t".to_string(), token: tok("meta_t", 1, 7, "/w/main.p4"), members: vec![] },
            Struct { name: "s_t".to_string(), token: tok("s_t", 2, 7, "/w/types.h"), members: vec![] },
        ],
        typedefs: vec![],
        constants: vec![Constant { name: "K".to_string(), token: tok("K", 3, 6, "/w/main.p4") }],
        controls: vec![Control {
            name: "ingress".to_string(),
            token: tok("ingress", 5, 8, "/w/main.p4"),
            parameters: vec![],
            variables: vec![],
            actions: vec![Action { name: "drop".to_string(), token: tok("drop", 6, 11, "/w/other.p4"), parameters: vec![], names: vec![] }],
            tables: vec![Table { name: "t".to_string(), token: tok("t", 7, 10, "/w/main.p4") }],
            names: vec![],
        }],
        parsers: vec![],
        externs: vec![],
        packages: vec![],
        table_type_text: "table".to_string(),
    }
}

#[test]
fn symbols_extracted_per_file() {
    let ast = two_file_ast();
    let mut table = SymbolTable::new();
    extract_symbols_from_ast(&ast, &path("/w/main.p4"), &mut table);
    let got: Vec<(&str, SymbolKind, usize)> = table.symbols().iter().map(|s| (s.name.as_str(), s.kind, s.line)).collect();
    assert_eq!(
        got,
        vec![
            ("meta_t", SymbolKind::Struct, 1),
            ("K", SymbolKind::Constant, 3),
            ("ingress", SymbolKind::Control, 5),
            ("drop", SymbolKind::Action, 6),
            ("t", SymbolKind::Table, 7),
        ]
    );
    assert!(table.symbols().iter().all(|s| s.def_file.as_str() == "/w/main.p4"));
    extract_symbols_from_ast(&ast, &path("/w/types.h"), &mut table);
    let names: Vec<&str> = table.symbols().iter().skip(5).map(|s| s.name.as_str()).collect();
    assert_eq!(names, vec!["s_t", "h_t"]);
}

#[test]
fn root_build_visits_each_file_once() {
    let ast = two_file_ast();
    let mut b = RootBuild::new();
    assert!(b.enter(&path("/w/main.p4")));
    assert!(b.enter(&path("/w/types.h")));
    assert!(!b.enter(&path("/w/types.h")));
    b.warn_unresolved("missing.h", &path("/w/main.p4"));
    assert_eq!(b.warnings, vec!["Cannot resolve include 'missing.h' from /w/main.p4".to_string()]);
    b.finish_file(&path("/w/types.h"));
    b.add_symbols(&ast, &path("/w/types.h"));
    b.finish_file(&path("/w/main.p4"));
    b.add_symbols(&ast, &path("/w/main.p4"));
    b.warn("later".to_string());
    assert_eq!(index_lookup(&b.include_index, "/w/main.p4"), Some(1));
    assert_eq!(index_lookup(&b.include_index, "/w/types.h"), Some(0));
    assert_eq!(index_lookup(&b.include_index, "/w/none"), None);
    let unit = b.into_unit(path("/w/main.p4"), ast);
    assert_eq!(unit.include_order.len(), 2);
    assert_eq!(unit.warnings.len(), 2);
    let at_types: Vec<&str> = unit.symbols_visible_at(&path("/w/types.h")).iter().map(|s| s.name.as_str()).collect();
    assert_eq!(at_types, vec!["s_t", "h_t"]);
    let at_main: Vec<&str> = unit.symbols_visible_at(&path("/w/main.p4")).iter().map(|s| s.name.as_str()).collect();
    assert_eq!(at_main, vec!["s_t", "h_t", "meta_t", "K", "ingress", "drop", "t"]);
    let elsewhere: Vec<&str> = unit.symbols_visible_at(&path("/w/zzz")).iter().map(|s| s.name.as_str()).collect();
    assert_eq!(elsewhere, vec!["s_t", "h_t"]);
}

#[test]
fn finishing_a_file_again_moves_it() {
    let mut b = RootBuild::new();
    b.finish_file(&path("/a"));
    b.finish_file(&path("/b"));
    b.finish_file(&path("/a"));
    assert_eq!(index_lookup(&b.include_index, "/a"), Some(2));
    assert_eq!(index_lookup(&b.include_index, "/b"), Some(1));
    assert_eq!(b.include_order.len(), 3);
    assert_eq!(b.include_index.len(), 3);
}

fn ws_config() -> ProjectConfig {
    ProjectConfig {
        version: 1,
        include_paths: vec!["include".to_string(), "include".to_string()],
        targets: vec![
            TargetConfig { name: String::new(), root: "src/main.p4".to_string(), include_paths: vec!["src/inc".to_string(), "include".to_string()] },
            TargetConfig { name: "gone".to_string(), root: "src/gone.p4".to_string(), include_paths: vec![] },
        ],
    }
}

#[test]
fn project_with_configured_targets() {
    let mut project = ProjectState::new();
    assert!(!project.has_explicit_targets());
    project.add_include_path("/opt/p4".to_string());
    project.set_workspace_root("/ws".to_string(), Some(ws_config()));
    assert!(project.config.is_some());
    assert_eq!(project.config.as_ref().unwrap().targets.len(), 2);
    assert_eq!(project.include_paths, vec!["/opt/p4".to_string(), "/ws/include".to_string()]);
    assert!(project.has_explicit_targets());
    let roots = project.explicit_roots(&vec![true, false]).unwrap();
    assert_eq!(roots.len(), 1);
    assert!(roots[0].ends_with("main.p4"));
    match project.discovery(&vec![true, true]) {
        Discovery::Explicit(r) => assert_eq!(r.len(), 2),
        _ => panic!("expected the configured roots"),
    }
    let paths = project.include_paths_for_root(&path("/ws/src/main.p4"));
    assert_eq!(paths, vec!["/opt/p4".to_string(), "/ws/include".to_string(), "/ws/src/inc".to_string()]);
    let paths = project.include_paths_for_root(&path("/ws/src/other.p4"));
    assert_eq!(paths, vec!["/opt/p4".to_string(), "/ws/include".to_string()]);
    let candidates = project.include_candidates(&path("/ws/src/main.p4"), "types.h");
    assert_eq!(candidates, vec!["/ws/src/types.h".to_string(), "/opt/p4/types.h".to_string(), "/ws/include/types.h".to_string()]);
}

#[test]
fn project_without_config_scans() {
    let mut project = ProjectState::new();
    match project.discovery(&vec![]) {
        Discovery::Nothing => {}
        _ => panic!("no workspace yet"),
    }
    project.set_workspace_root("/ws".to_string(), None);
    assert!(project.config.is_none());
    match project.discovery(&vec![]) {
        Discovery::Scan(w) => assert_eq!(w, "/ws"),
        _ => panic!("expected a scan"),
    }
    assert!(project.explicit_roots(&vec![]).is_none());
    let all = vec![path("/ws/common.p4"), path("/ws/main.p4")];
    let roots = roots_not_included(&all, &vec![path("/ws/common.p4")]);
    assert_eq!(roots.len(), 1);
    assert!(roots[0].ends_with("main.p4"));
    let c = include_candidates_with(&path("main.p4"), "/abs.p4", &vec!["/inc".to_string()]);
    assert_eq!(c, vec!["/abs.p4".to_string(), "/abs.p4".to_string()]);
}

#[test]
fn open_files_read_back() {
    let mut project = ProjectState::new();
    assert_eq!(project.open_text(&path("/ws/a.p4")), None);
    project.update_file(path("/ws/a.p4"), 1, "one".to_string());
    project.update_file(path("/ws/a.p4"), 2, "two".to_string());
    assert_eq!(project.open_text(&path("/ws/a.p4")).as_deref(), Some("two"));
    project.remove_file(&path("/ws/a.p4"));
    assert_eq!(project.open_text(&path("/ws/a.p4")), None);
}

#[test]
fn roots_recorded_for_files() {
    let mut project = ProjectState::new();
    let mut b = RootBuild::new();
    b.finish_file(&path("/ws/types.h"));
    b.finish_file(&path("/ws/main.p4"));
    let unit = b.into_unit(path("/ws/main.p4"), two_file_ast());
    project.record_root(path("/ws/main.p4"), unit);
    assert_eq!(project.find_root_for_file(&path("/ws/main.p4")).as_deref().map(|s| s.as_str()), Some("/ws/main.p4"));
    assert_eq!(project.find_root_for_file(&path("/ws/types.h")).as_deref().map(|s| s.as_str()), Some("/ws/main.p4"));
    assert_eq!(project.find_root_for_file(&path("/ws/none.h")), None);
    let roots = project.roots_of_file(&path("/ws/types.h"));
    assert_eq!(roots.len(), 1);
    assert_eq!(roots[0].as_str(), "/ws/main.p4");
    assert!(project.roots_of_file(&path("/ws/none.h")).is_empty());
}

use p4_lsp::compile::{Task, Compilation, Event};

fn is_preprocess(a: &Task, file: &str, text: &str) -> bool {
    matches!(a, Task::Preprocess(f, t) if f.as_str() == file && t == text)
}

fn is_resolve(a: &Task, file: &str, inc: &str) -> bool {
    matches!(a, Task::Resolve(f, i) if f.as_str() == file && i == inc)
}

fn is_read(a: &Task, file: &str) -> bool {
    matches!(a, Task::Read(f) if f.as_str() == file)
}

fn is_parse(a: &Task, file: &str) -> bool {
    matches!(a, Task::Parse(f) if f.as_str() == file)
}

#[test]
fn compilation_goes_depth_first_and_once() {
    let main = path("/w/main.p4");
    let (mut c, a) = Compilation::start(&main, "main text".to_string());
    assert!(is_preprocess(&a, "/w/main.p4", "main text"));
    let incs = vec!["types.h".to_string(), "missing.h".to_string(), "types.h".to_string()];
    let a = c.step(Event::Preprocessed(incs));
    assert!(is_resolve(&a, "/w/main.p4", "types.h"));
    let a = c.step(Event::Resolved(Some(path("/w/types.h"))));
    assert!(is_read(&a, "/w/types.h"));
    let a = c.step(Event::Text(Some("types text".to_string())));
    assert!(is_preprocess(&a, "/w/types.h", "types text"));
    let a = c.step(Event::Preprocessed(vec![]));
    assert!(is_parse(&a, "/w/types.h"));
    assert!(c.has_room_for(&two_file_ast()));
    let a = c.step(Event::Parsed(two_file_ast()));
    assert!(is_resolve(&a, "/w/main.p4", "missing.h"));
    let a = c.step(Event::Resolved(None));
    assert!(is_resolve(&a, "/w/main.p4", "types.h"));
    let a = c.step(Event::Resolved(Some(path("/w/types.h"))));
    assert!(is_read(&a, "/w/types.h"));
    let a = c.step(Event::Text(Some("types text".to_string())));
    assert!(is_parse(&a, "/w/main.p4"));
    let a = c.step(Event::Parsed(two_file_ast()));
    assert!(matches!(a, Task::Done));
    let unit = c.into_unit(main.clone(), two_file_ast());
    let order: Vec<&str> = unit.include_order.iter().map(|f| f.as_str()).collect();
    assert_eq!(order, vec!["/w/types.h", "/w/main.p4"]);
    assert_eq!(unit.warnings, vec!["Cannot resolve include 'missing.h' from /w/main.p4".to_string()]);
    assert_eq!(index_lookup(&unit.include_index, "/w/main.p4"), Some(1));
    let index: Vec<(&str, usize)> = unit.include_index.iter().map(|(f, k)| (f.as_str(), *k)).collect();
    assert_eq!(index, vec![("/w/types.h", 0), ("/w/main.p4", 1)]);
    assert_eq!(unit.include_order.last().map(|f| f.as_str()), Some("/w/main.p4"));
    let names: Vec<&str> = unit.symbols.symbols().iter().map(|s| s.name.as_str()).collect();
    assert_eq!(names, vec!["s_t", "h_t", "meta_t", "K", "ingress", "drop", "t"]);
}

#[test]
fn compilation_skips_unreadable_files() {
    let (mut c, _) = Compilation::start(&path("/w/main.p4"), String::new());
    let a = c.step(Event::Preprocessed(vec!["gone.h".to_string()]));
    assert!(is_resolve(&a, "/w/main.p4", "gone.h"));
    let a = c.step(Event::Resolved(Some(path("/w/gone.h"))));
    assert!(is_read(&a, "/w/gone.h"));
    let a = c.step(Event::Text(None));
    assert!(is_parse(&a, "/w/main.p4"));
}

#[test]
fn compilation_fails_on_errors() {
    let (mut c, _) = Compilation::start(&path("/w/main.p4"), String::new());
    let a = c.step(Event::PreprocessFailed("Preprocessor error in /w/main.p4: bad".to_string()));
    assert!(matches!(a, Task::Failed));
    assert!(matches!(c.step(Event::Preprocessed(vec![])), Task::Failed));
    let unit = c.into_unit(path("/w/main.p4"), two_file_ast());
    assert_eq!(unit.warnings.len(), 1);
    assert!(unit.include_order.is_empty());

    let (mut c, _) = Compilation::start(&path("/w/main.p4"), String::new());
    assert!(is_parse(&c.step(Event::Preprocessed(vec![])), "/w/main.p4"));
    assert!(matches!(c.step(Event::ParseFailed("Parser error".to_string())), Task::Failed));

    let (mut c, _) = Compilation::start(&path("/w/main.p4"), String::new());
    assert!(matches!(c.step(Event::Text(None)), Task::Failed));
}

#[test]
fn paths_compare_by_components() {
    assert!(same_path("a", "a/"));
    assert!(same_path("a/./b", "a/b"));
    assert!(same_path("/ws//include/", "/ws/include"));
    assert!(same_path("a/b/.", "a/b"));
    assert!(!same_path("/a", "a"));
    assert!(!same_path("./a", "a"));
    assert!(!same_path("a/../b", "b"));
    assert!(!same_path("a/b", "a/c"));
}

#[test]
fn include_paths_kept_once_as_paths() {
    let mut project = ProjectState::new();
    project.add_include_path("a".to_string());
    project.add_include_path("a/".to_string());
    project.add_include_path("a/.".to_string());
    assert_eq!(project.include_paths, vec!["a".to_string()]);
    project.add_include_path("./a".to_string());
    assert_eq!(project.include_paths, vec!["a".to_string(), "./a".to_string()]);
    project.add_include_path("/ws//include/".to_string());
    project.set_workspace_root("/ws".to_string(), Some(ws_config()));
    assert_eq!(project.include_paths, vec!["a".to_string(), "./a".to_string(), "/ws//include/".to_string()]);
    let paths = project.include_paths_for_root(&path("/ws/src/main.p4"));
    assert_eq!(paths, vec!["a".to_string(), "./a".to_string(), "/ws//include/".to_string(), "/ws/src/inc".to_string()]);
}
