//! Compiling a root file: the files it pulls in, in the order they are
//! finished, and the symbols they declare.
use vstd::prelude::*;
use crate::ast::{Ast, Control, Declared};
use crate::project::{file_of, select, share_path, FilePath, Symbol, SymbolKind, SymbolTable};
use crate::strings::{concat_str, owned, str_eq};

verus! {

/// What a symbol says: name, kind, defining file, line and column.
pub type SymbolView = (Seq<char>, SymbolKind, Seq<char>, usize, usize);

pub open spec fn symbol_view(s: Symbol) -> SymbolView {
    (s.name@, s.kind, s.def_file@, s.line, s.col)
}

pub open spec fn symbol_views(v: Seq<Symbol>) -> Seq<SymbolView> {
    v.map_values(|s: Symbol| symbol_view(s))
}

/// The symbol of declaration `d`, attributed to `file`.
pub open spec fn decl_view<T: Declared>(d: T, kind: SymbolKind, file: Seq<char>) -> SymbolView {
    (d.spec_name(), kind, file, d.spec_token().line, d.spec_token().col)
}

/// The symbols of the declarations of `v` whose token comes from `file`.
pub open spec fn defined_in<T: Declared>(v: Seq<T>, kind: SymbolKind, file: Seq<char>) -> Seq<SymbolView>
    decreases v.len(),
{
    if v.len() == 0 {
        seq![]
    } else {
        let prev = defined_in(v.drop_last(), kind, file);
        if v.last().spec_token().file@ == file {
            prev.push(decl_view(v.last(), kind, file))
        } else {
            prev
        }
    }
}

/// The symbols of all declarations of `v`, attributed to `file`.
pub open spec fn all_declared<T: Declared>(v: Seq<T>, kind: SymbolKind, file: Seq<char>) -> Seq<SymbolView> {
    v.map_values(|d: T| decl_view(d, kind, file))
}

/// The symbols of the controls of `cs` whose token comes from `file`: each
/// such control, then all its actions, then all its tables.
pub open spec fn control_symbols(cs: Seq<Control>, file: Seq<char>) -> Seq<SymbolView>
    decreases cs.len(),
{
    if cs.len() == 0 {
        seq![]
    } else {
        let prev = control_symbols(cs.drop_last(), file);
        let c = cs.last();
        if c.token.file@ == file {
            prev.push(decl_view(c, SymbolKind::Control, file)) + all_declared(
                c.actions@,
                SymbolKind::Action,
                file,
            ) + all_declared(c.tables@, SymbolKind::Table, file)
        } else {
            prev
        }
    }
}

/// The symbols a program declares in `file`, in the order they are
/// recorded: structs, headers, typedefs, constants, controls (with their
/// actions and tables), parsers, externs and packages.
pub open spec fn ast_symbols(ast: Ast, file: Seq<char>) -> Seq<SymbolView> {
    defined_in(ast.structs@, SymbolKind::Struct, file) + defined_in(ast.headers@, SymbolKind::Header, file)
        + defined_in(ast.typedefs@, SymbolKind::Typedef, file) + defined_in(
        ast.constants@,
        SymbolKind::Constant,
        file,
    ) + control_symbols(ast.controls@, file) + defined_in(ast.parsers@, SymbolKind::Parser, file)
        + defined_in(ast.externs@, SymbolKind::Extern, file) + defined_in(
        ast.packages@,
        SymbolKind::Package,
        file,
    )
}

/// How many declarations the controls of `cs` hold, actions and tables
/// included.
pub open spec fn control_size(cs: Seq<Control>) -> int
    decreases cs.len(),
{
    if cs.len() == 0 {
        0
    } else {
        control_size(cs.drop_last()) + 1 + cs.last().actions@.len() + cs.last().tables@.len()
    }
}

/// How many declarations a program holds.
pub open spec fn decl_count(ast: Ast) -> int {
    ast.structs@.len() + ast.headers@.len() + ast.typedefs@.len() + ast.constants@.len() + control_size(
        ast.controls@,
    ) + ast.parsers@.len() + ast.externs@.len() + ast.packages@.len()
}

pub proof fn lemma_control_size_prefix(cs: Seq<Control>, i: int)
    requires
        0 <= i <= cs.len(),
    ensures
        0 <= control_size(cs.take(i)) <= control_size(cs),
    decreases cs.len(),
{
    if i == cs.len() {
        assert(cs.take(i) =~= cs);
        if cs.len() > 0 {
            lemma_control_size_prefix(cs.drop_last(), 0);
        }
    } else {
        assert(cs.drop_last().take(i) =~= cs.take(i));
        lemma_control_size_prefix(cs.drop_last(), i);
    }
}

proof fn lemma_views_push(v: Seq<Symbol>, s: Symbol)
    ensures
        symbol_views(v.push(s)) == symbol_views(v).push(symbol_view(s)),
{
    assert(symbol_views(v.push(s)) =~= symbol_views(v).push(symbol_view(s)));
}

/// Records the symbol of declaration `d`.
fn add_symbol<T: Declared>(symbols: &mut SymbolTable, d: &T, kind: SymbolKind, file: &FilePath)
    requires
        old(symbols).view().len() + 1 < usize::MAX,
    ensures
        final(symbols).view().len() == old(symbols).view().len() + 1,
        symbol_views(final(symbols).view()) == symbol_views(old(symbols).view()).push(
            decl_view(*d, kind, file@),
        ),
{
    let t = d.token_ref();
    let s = Symbol { name: owned(d.name_str()), kind, def_file: share_path(file), line: t.line, col: t.col };
    proof {
        lemma_views_push(symbols.view(), s);
    }
    symbols.add(s);
}

/// Records the symbols of the declarations of `v` made in `file`.
fn add_defined_in<T: Declared>(v: &Vec<T>, kind: SymbolKind, file: &FilePath, symbols: &mut SymbolTable)
    requires
        old(symbols).view().len() + v@.len() + 1 < usize::MAX,
    ensures
        symbol_views(final(symbols).view()) == symbol_views(old(symbols).view()) + defined_in(v@, kind, file@),
        final(symbols).view().len() <= old(symbols).view().len() + v@.len(),
{
    let ghost start = symbols.view();
    let mut i: usize = 0;
    assert(symbol_views(start) + defined_in(v@.take(0), kind, file@) =~= symbol_views(start));
    while i < v.len()
        invariant
            i <= v@.len(),
            start == old(symbols).view(),
            start.len() + v@.len() + 1 < usize::MAX,
            symbols.view().len() <= start.len() + i,
            symbol_views(symbols.view()) == symbol_views(start) + defined_in(v@.take(i as int), kind, file@),
        decreases v@.len() - i,
    {
        let d = &v[i];
        assert(v@.take(i as int + 1).drop_last() =~= v@.take(i as int));
        if str_eq(d.token_ref().file.as_str(), file.as_str()) {
            add_symbol(symbols, d, kind, file);
        }
        i += 1;
    }
    assert(v@.take(v@.len() as int) =~= v@);
}

/// Records the symbols of all declarations of `v`, attributed to `file`.
fn add_all<T: Declared>(v: &Vec<T>, kind: SymbolKind, file: &FilePath, symbols: &mut SymbolTable)
    requires
        old(symbols).view().len() + v@.len() + 1 < usize::MAX,
    ensures
        symbol_views(final(symbols).view()) == symbol_views(old(symbols).view()) + all_declared(v@, kind, file@),
        final(symbols).view().len() == old(symbols).view().len() + v@.len(),
{
    let ghost start = symbols.view();
    let mut i: usize = 0;
    while i < v.len()
        invariant
            i <= v@.len(),
            start == old(symbols).view(),
            start.len() + v@.len() + 1 < usize::MAX,
            symbols.view().len() == start.len() + i,
            symbol_views(symbols.view()) =~= symbol_views(start) + all_declared(v@.take(i as int), kind, file@),
        decreases v@.len() - i,
    {
        add_symbol(symbols, &v[i], kind, file);
        assert(all_declared(v@.take(i as int + 1), kind, file@) =~= all_declared(v@.take(i as int), kind, file@).push(
            decl_view(v@[i as int], kind, file@),
        ));
        i += 1;
    }
    assert(v@.take(v@.len() as int) =~= v@);
}

/// Records the symbols of the controls of `cs` made in `file`.
fn add_control_symbols(cs: &Vec<Control>, file: &FilePath, symbols: &mut SymbolTable)
    requires
        old(symbols).view().len() + control_size(cs@) + 1 < usize::MAX,
    ensures
        symbol_views(final(symbols).view()) == symbol_views(old(symbols).view()) + control_symbols(cs@, file@),
        final(symbols).view().len() <= old(symbols).view().len() + control_size(cs@),
{
    let ghost start = symbols.view();
    let mut i: usize = 0;
    assert(symbol_views(start) + control_symbols(cs@.take(0), file@) =~= symbol_views(start));
    while i < cs.len()
        invariant
            i <= cs@.len(),
            start == old(symbols).view(),
            start.len() + control_size(cs@) + 1 < usize::MAX,
            symbols.view().len() <= start.len() + control_size(cs@.take(i as int)),
            symbol_views(symbols.view()) == symbol_views(start) + control_symbols(cs@.take(i as int), file@),
        decreases cs@.len() - i,
    {
        let c = &cs[i];
        let ghost before = symbols.view();
        assert(cs@.take(i as int + 1).drop_last() =~= cs@.take(i as int));
        proof {
            lemma_control_size_prefix(cs@, i as int + 1);
        }
        if str_eq(c.token.file.as_str(), file.as_str()) {
            add_symbol(symbols, c, SymbolKind::Control, file);
            add_all(&c.actions, SymbolKind::Action, file, symbols);
            add_all(&c.tables, SymbolKind::Table, file, symbols);
            assert(symbol_views(symbols.view()) =~= symbol_views(start) + control_symbols(
                cs@.take(i as int + 1),
                file@,
            ));
        }
        i += 1;
    }
    assert(cs@.take(cs@.len() as int) =~= cs@);
}

/// Records the symbols that `ast` declares in `file_path`, as
/// `ast_symbols` orders them.
pub fn extract_symbols_from_ast(ast: &Ast, file_path: &FilePath, symbols: &mut SymbolTable)
    requires
        old(symbols).view().len() + decl_count(*ast) + 1 < usize::MAX,
    ensures
        symbol_views(final(symbols).view()) == symbol_views(old(symbols).view()) + ast_symbols(*ast, file_path@),
{
    proof {
        lemma_control_size_prefix(ast.controls@, 0);
    }
    let ghost v0 = symbol_views(symbols.view());
    let ghost f = file_path@;
    add_defined_in(&ast.structs, SymbolKind::Struct, file_path, symbols);
    add_defined_in(&ast.headers, SymbolKind::Header, file_path, symbols);
    add_defined_in(&ast.typedefs, SymbolKind::Typedef, file_path, symbols);
    add_defined_in(&ast.constants, SymbolKind::Constant, file_path, symbols);
    add_control_symbols(&ast.controls, file_path, symbols);
    add_defined_in(&ast.parsers, SymbolKind::Parser, file_path, symbols);
    add_defined_in(&ast.externs, SymbolKind::Extern, file_path, symbols);
    add_defined_in(&ast.packages, SymbolKind::Package, file_path, symbols);
    assert(symbol_views(symbols.view()) =~= v0 + ast_symbols(*ast, f));
}

/// The texts of a list of paths.
pub open spec fn path_texts(v: Seq<FilePath>) -> Seq<Seq<char>> {
    v.map_values(|p: FilePath| p@)
}

/// The map an index list stands for: each path to the position recorded
/// with its latest entry.
pub open spec fn index_map(idx: Seq<(FilePath, usize)>) -> Map<Seq<char>, usize>
    decreases idx.len(),
{
    if idx.len() == 0 {
        Map::empty()
    } else {
        index_map(idx.drop_last()).insert(idx.last().0@, idx.last().1)
    }
}

/// The entries of an index list as plain values.
pub open spec fn index_entries(idx: Seq<(FilePath, usize)>) -> Seq<(Seq<char>, usize)> {
    idx.map_values(|e: (FilePath, usize)| (e.0@, e.1))
}

/// The index list holds, for each file of `order` in turn, that file and
/// its position.
pub open spec fn index_matches(idx: Seq<(FilePath, usize)>, order: Seq<FilePath>) -> bool {
    &&& idx.len() == order.len()
    &&& forall|k: int| 0 <= k < idx.len() ==> (#[trigger] idx[k]).0@ == order[k]@ && idx[k].1 == k
}

/// Where the latest entry for `k` is, if any.
fn index_find(idx: &Vec<(FilePath, usize)>, k: &str) -> (r: Option<usize>)
    ensures
        match r {
            Some(j) => j < idx@.len() && idx@[j as int].0@ == k@ && forall|i: int|
                j < i < idx@.len() ==> (#[trigger] idx@[i]).0@ != k@,
            None => forall|i: int| 0 <= i < idx@.len() ==> (#[trigger] idx@[i]).0@ != k@,
        },
{
    let mut i: usize = idx.len();
    while i > 0
        invariant
            i <= idx@.len(),
            forall|m: int| i <= m < idx@.len() ==> (#[trigger] idx@[m]).0@ != k@,
        decreases i,
    {
        if str_eq(idx[i - 1].0.as_str(), k) {
            return Some(i - 1);
        }
        i -= 1;
    }
    None
}

proof fn lemma_index_absent(s: Seq<(FilePath, usize)>, k: Seq<char>)
    requires
        forall|i: int| 0 <= i < s.len() ==> (#[trigger] s[i]).0@ != k,
    ensures
        !index_map(s).dom().contains(k),
    decreases s.len(),
{
    if s.len() > 0 {
        assert forall|i: int| 0 <= i < s.drop_last().len() implies (#[trigger] s.drop_last()[i]).0@ != k by {
            assert(s.drop_last()[i] == s[i]);
        }
        lemma_index_absent(s.drop_last(), k);
    }
}

proof fn lemma_index_latest(s: Seq<(FilePath, usize)>, j: int, k: Seq<char>)
    requires
        0 <= j < s.len(),
        s[j].0@ == k,
        forall|i: int| j < i < s.len() ==> (#[trigger] s[i]).0@ != k,
    ensures
        index_map(s).dom().contains(k),
        index_map(s)[k] == s[j].1,
    decreases s.len(),
{
    if j < s.len() - 1 {
        assert forall|i: int| j < i < s.drop_last().len() implies (#[trigger] s.drop_last()[i]).0@ != k by {
            assert(s.drop_last()[i] == s[i]);
        }
        assert(s.drop_last()[j] == s[j]);
        lemma_index_latest(s.drop_last(), j, k);
        assert(s[s.len() - 1].0@ != k);
    }
}

/// The position recorded for `k`, if any.
pub fn index_lookup(idx: &Vec<(FilePath, usize)>, k: &str) -> (r: Option<usize>)
    ensures
        match r {
            Some(p) => index_map(idx@).dom().contains(k@) && index_map(idx@)[k@] == p,
            None => !index_map(idx@).dom().contains(k@),
        },
{
    match index_find(idx, k) {
        Some(j) => {
            proof {
                lemma_index_latest(idx@, j as int, k@);
            }
            Some(idx[j].1)
        },
        None => {
            proof {
                lemma_index_absent(idx@, k@);
            }
            None
        },
    }
}

/// The symbols of the first `n` files of `order`, file by file.
pub open spec fn visible_in_order(syms: Seq<Symbol>, order: Seq<FilePath>, n: int) -> Seq<Symbol>
    decreases n,
{
    if n <= 0 {
        seq![]
    } else {
        visible_in_order(syms, order, n - 1) + select(syms, |s: Symbol| file_of(s), order[n - 1]@)
    }
}

proof fn lemma_select_has(syms: Seq<Symbol>, key: spec_fn(Symbol) -> Seq<char>, k: Seq<char>, i: int)
    requires
        0 <= i < syms.len(),
        key(syms[i]) == k,
    ensures
        select(syms, key, k).contains(syms[i]),
    decreases syms.len(),
{
    let prev = select(syms.drop_last(), key, k);
    if i == syms.len() - 1 {
        assert(select(syms, key, k)[prev.len() as int] == syms[i]);
    } else {
        assert(syms.drop_last()[i] == syms[i]);
        lemma_select_has(syms.drop_last(), key, k, i);
        if key(syms.last()) == k {
            let j = choose|j: int| 0 <= j < prev.len() && prev[j] == syms[i];
            assert(select(syms, key, k)[j] == syms[i]);
        }
    }
}

proof fn lemma_select_keys(syms: Seq<Symbol>, key: spec_fn(Symbol) -> Seq<char>, k: Seq<char>)
    ensures
        forall|j: int| 0 <= j < select(syms, key, k).len() ==> key(#[trigger] select(syms, key, k)[j]) == k,
    decreases syms.len(),
{
    if syms.len() > 0 {
        lemma_select_keys(syms.drop_last(), key, k);
        let prev = select(syms.drop_last(), key, k);
        assert forall|j: int| 0 <= j < select(syms, key, k).len() implies key(
            #[trigger] select(syms, key, k)[j],
        ) == k by {
            if j < prev.len() {
                assert(select(syms, key, k)[j] == prev[j]);
            }
        }
    }
}

/// Law: the symbols visible from the first `n` files of an order are
/// exactly those defined in one of these files: every symbol defined in
/// one of them is visible, and every visible symbol is defined in one of
/// them.
pub proof fn law_visible_symbols(syms: Seq<Symbol>, order: Seq<FilePath>, n: int)
    requires
        0 <= n <= order.len(),
    ensures
        forall|i: int, k: int|
            0 <= i < syms.len() && 0 <= k < n && (#[trigger] syms[i]).def_file@ == (#[trigger] order[k])@
                ==> visible_in_order(syms, order, n).contains(syms[i]),
        forall|j: int|
            0 <= j < visible_in_order(syms, order, n).len() ==> exists|k: int|
                0 <= k < n && (#[trigger] visible_in_order(syms, order, n)[j]).def_file@ == (#[trigger] order[k])@,
    decreases n,
{
    if n > 0 {
        law_visible_symbols(syms, order, n - 1);
        let prev = visible_in_order(syms, order, n - 1);
        let part = select(syms, |s: Symbol| file_of(s), order[n - 1]@);
        let all = visible_in_order(syms, order, n);
        assert(all == prev + part);
        lemma_select_keys(syms, |s: Symbol| file_of(s), order[n - 1]@);
        assert forall|i: int, k: int|
            0 <= i < syms.len() && 0 <= k < n && (#[trigger] syms[i]).def_file@ == (#[trigger] order[k])@ implies all.contains(
            syms[i],
        ) by {
            if k == n - 1 {
                lemma_select_has(syms, |s: Symbol| file_of(s), order[n - 1]@, i);
                lemma_contains_concat(prev, part, syms[i]);
            } else {
                assert(prev.contains(syms[i]));
                lemma_contains_concat(prev, part, syms[i]);
            }
        }
        assert forall|j: int| 0 <= j < all.len() implies exists|k: int|
            0 <= k < n && (#[trigger] all[j]).def_file@ == (#[trigger] order[k])@ by {
            if j < prev.len() {
                assert(all[j] == prev[j]);
                let k = choose|k: int| 0 <= k < n - 1 && (#[trigger] prev[j]).def_file@ == (#[trigger] order[k])@;
                assert(all[j].def_file@ == order[k]@);
            } else {
                assert(all[j] == part[j - prev.len()]);
                assert(file_of(part[j - prev.len()]) == order[n - 1]@);
                assert(all[j].def_file@ == order[n - 1]@);
            }
        }
    }
}

/// What compiling a root file gave.
#[derive(Debug)]
pub struct RootUnit {
    pub root: FilePath,
    /// The files of the unit, each after the files it pulls in.
    pub include_order: Vec<FilePath>,
    /// Each file of `include_order` with its position; when a file is
    /// listed more than once, its latest entry counts.
    pub include_index: Vec<(FilePath, usize)>,
    pub symbols: SymbolTable,
    pub ast: Ast,
    /// Warnings collected while compiling (such as unresolved includes).
    pub warnings: Vec<String>,
}

/// How many files of the unit are visible from `file`: those up to and
/// including its position (the first file only, when it has none).
pub open spec fn visible_count(u: RootUnit, file: Seq<char>) -> int {
    let m = index_map(u.include_index@);
    let pos: int = if m.dom().contains(file) {
        m[file] as int
    } else {
        0
    };
    if pos + 1 < u.include_order@.len() {
        pos + 1
    } else {
        u.include_order@.len() as int
    }
}

impl RootUnit {
    /// The symbols declared in the files up to and including `file` in the
    /// order of the unit.
    pub fn symbols_visible_at(&self, file: &FilePath) -> (r: Vec<&Symbol>)
        ensures
            r@.map_values(|s: &Symbol| *s) == visible_in_order(
                self.symbols.view(),
                self.include_order@,
                visible_count(*self, file@),
            ),
    {
        let pos = match index_lookup(&self.include_index, file.as_str()) {
            Some(p) => p,
            None => 0,
        };
        let mut result: Vec<&Symbol> = Vec::new();
        let mut i: usize = 0;
        assert(result@.map_values(|s: &Symbol| *s) =~= Seq::<Symbol>::empty());
        while i <= pos && i < self.include_order.len()
            invariant
                i <= self.include_order@.len(),
                i <= pos + 1,
                result@.map_values(|s: &Symbol| *s) == visible_in_order(
                    self.symbols.view(),
                    self.include_order@,
                    i as int,
                ),
            decreases self.include_order@.len() - i,
        {
            let mut part = self.symbols.symbols_in_file(&self.include_order[i]);
            let ghost before = result@;
            let ghost added = part@;
            result.append(&mut part);
            assert(result@.map_values(|s: &Symbol| *s) =~= before.map_values(|s: &Symbol| *s)
                + added.map_values(|s: &Symbol| *s));
            i += 1;
        }
        result
    }
}

/// The state of compiling a root file: the files seen so far, the files
/// finished in order, their symbols and the warnings met.
#[derive(Debug)]
pub struct RootBuild {
    pub visited: Vec<FilePath>,
    pub include_order: Vec<FilePath>,
    pub include_index: Vec<(FilePath, usize)>,
    pub symbols: SymbolTable,
    pub warnings: Vec<String>,
}

/// The warning for an `#include` that names no file that can be found.
pub open spec fn unresolved_warning(inc: Seq<char>, from: Seq<char>) -> Seq<char> {
    "Cannot resolve include '"@ + inc + "' from "@ + from
}

impl RootBuild {
    /// Nothing seen yet.
    pub fn new() -> (b: Self)
        ensures
            b.visited@.len() == 0,
            b.include_order@.len() == 0,
            b.include_index@.len() == 0,
            b.symbols.view().len() == 0,
            b.warnings@.len() == 0,
    {
        RootBuild {
            visited: Vec::new(),
            include_order: Vec::new(),
            include_index: Vec::new(),
            symbols: SymbolTable::new(),
            warnings: Vec::new(),
        }
    }

    /// Marks `file` as seen. Returns false, changing nothing, when it was
    /// seen before (the file is then not processed again).
    pub fn enter(&mut self, file: &FilePath) -> (first: bool)
        ensures
            first == !path_texts(old(self).visited@).contains(file@),
            path_texts(final(self).visited@) == if first {
                path_texts(old(self).visited@).push(file@)
            } else {
                path_texts(old(self).visited@)
            },
            final(self).include_order == old(self).include_order,
            final(self).include_index == old(self).include_index,
            final(self).symbols == old(self).symbols,
            final(self).warnings == old(self).warnings,
    {
        let mut i: usize = 0;
        while i < self.visited.len()
            invariant
                i <= self.visited@.len(),
                forall|m: int| 0 <= m < i ==> (#[trigger] self.visited@[m])@ != file@,
            decreases self.visited@.len() - i,
        {
            if str_eq(self.visited[i].as_str(), file.as_str()) {
                assert(path_texts(self.visited@)[i as int] == file@);
                return false;
            }
            i += 1;
        }
        assert(!path_texts(self.visited@).contains(file@)) by {
            if path_texts(self.visited@).contains(file@) {
                let m = choose|m: int| 0 <= m < path_texts(self.visited@).len() && path_texts(self.visited@)[m] == file@;
                assert(self.visited@[m]@ == file@);
            }
        }
        let ghost before = self.visited@;
        self.visited.push(share_path(file));
        assert(path_texts(self.visited@) =~= path_texts(before).push(file@));
        true
    }

    /// Records that the `#include` of `inc` in `from` names no file found.
    pub fn warn_unresolved(&mut self, inc: &str, from: &FilePath)
        ensures
            final(self).warnings@.len() == old(self).warnings@.len() + 1,
            forall|i: int| 0 <= i < old(self).warnings@.len() ==> final(self).warnings@[i] == old(self).warnings@[i],
            final(self).warnings@.last()@ == unresolved_warning(inc@, from@),
            final(self).visited == old(self).visited,
            final(self).include_order == old(self).include_order,
            final(self).include_index == old(self).include_index,
            final(self).symbols == old(self).symbols,
    {
        let mut msg = concat_str("Cannot resolve include '", inc);
        msg.append("' from ");
        msg.append(from.as_str());
        self.warnings.push(msg);
    }

    /// Records a warning.
    pub fn warn(&mut self, message: String)
        ensures
            final(self).warnings@ == old(self).warnings@.push(message),
            final(self).visited == old(self).visited,
            final(self).include_order == old(self).include_order,
            final(self).include_index == old(self).include_index,
            final(self).symbols == old(self).symbols,
    {
        self.warnings.push(message);
    }

    /// Records that `file` is finished: it takes the next position in the
    /// order of the unit.
    pub fn finish_file(&mut self, file: &FilePath)
        ensures
            path_texts(final(self).include_order@) == path_texts(old(self).include_order@).push(file@),
            index_map(final(self).include_index@) == index_map(old(self).include_index@).insert(
                file@,
                old(self).include_order@.len() as usize,
            ),
            index_entries(final(self).include_index@) == index_entries(old(self).include_index@).push(
                (file@, old(self).include_order@.len() as usize),
            ),
            index_matches(old(self).include_index@, old(self).include_order@) ==> index_matches(
                final(self).include_index@,
                final(self).include_order@,
            ),
            final(self).visited == old(self).visited,
            final(self).symbols == old(self).symbols,
            final(self).warnings == old(self).warnings,
    {
        let pos = self.include_order.len();
        let ghost idx0 = self.include_index@;
        self.include_index.push((share_path(file), pos));
        assert(self.include_index@.drop_last() =~= idx0);
        assert(index_entries(self.include_index@) =~= index_entries(idx0).push((file@, pos)));
        let ghost before = self.include_order@;
        self.include_order.push(share_path(file));
        assert(path_texts(self.include_order@) =~= path_texts(before).push(file@));
    }

    /// Records the symbols that `ast` declares in `file`.
    pub fn add_symbols(&mut self, ast: &Ast, file: &FilePath)
        requires
            old(self).symbols.view().len() + decl_count(*ast) + 1 < usize::MAX,
        ensures
            symbol_views(final(self).symbols.view()) == symbol_views(old(self).symbols.view()) + ast_symbols(
                *ast,
                file@,
            ),
            final(self).visited == old(self).visited,
            final(self).include_order == old(self).include_order,
            final(self).include_index == old(self).include_index,
            final(self).warnings == old(self).warnings,
    {
        extract_symbols_from_ast(ast, file, &mut self.symbols);
    }

    /// The unit this compilation made, for root `root` and program `ast`.
    pub fn into_unit(self, root: FilePath, ast: Ast) -> (u: RootUnit)
        ensures
            u.root == root,
            u.include_order == self.include_order,
            u.include_index == self.include_index,
            u.symbols == self.symbols,
            u.ast == ast,
            u.warnings == self.warnings,
    {
        RootUnit {
            root,
            include_order: self.include_order,
            include_index: self.include_index,
            symbols: self.symbols,
            ast,
            warnings: self.warnings,
        }
    }
}

/// What is in either part of a concatenation is in the whole.
pub proof fn lemma_contains_concat<A>(a: Seq<A>, b: Seq<A>, x: A)
    ensures
        a.contains(x) || b.contains(x) ==> (a + b).contains(x),
{
    if a.contains(x) {
        let k = choose|k: int| 0 <= k < a.len() && a[k] == x;
        assert((a + b)[k] == x);
    } else if b.contains(x) {
        let k = choose|k: int| 0 <= k < b.len() && b[k] == x;
        assert((a + b)[a.len() + k] == x);
    }
}

proof fn lemma_defined_in_has<T: Declared>(v: Seq<T>, kind: SymbolKind, file: Seq<char>, k: int)
    requires
        0 <= k < v.len(),
        v[k].spec_token().file@ == file,
    ensures
        defined_in(v, kind, file).contains(
            (v[k].spec_name(), kind, file, v[k].spec_token().line, v[k].spec_token().col),
        ),
    decreases v.len(),
{
    let prev = defined_in(v.drop_last(), kind, file);
    if k == v.len() - 1 {
        assert(defined_in(v, kind, file)[prev.len() as int] == decl_view(v.last(), kind, file));
    } else {
        assert(v.drop_last()[k] == v[k]);
        lemma_defined_in_has(v.drop_last(), kind, file, k);
        let j = choose|j: int| 0 <= j < prev.len() && prev[j] == (
            v[k].spec_name(),
            kind,
            file,
            v[k].spec_token().line,
            v[k].spec_token().col,
        );
        assert(defined_in(v, kind, file)[j] == prev[j]);
    }
}

proof fn lemma_all_declared_has<T: Declared>(v: Seq<T>, kind: SymbolKind, file: Seq<char>, k: int)
    requires
        0 <= k < v.len(),
    ensures
        all_declared(v, kind, file).contains(
            (v[k].spec_name(), kind, file, v[k].spec_token().line, v[k].spec_token().col),
        ),
{
    assert(all_declared(v, kind, file)[k] == decl_view(v[k], kind, file));
}

proof fn lemma_control_symbols_has(cs: Seq<Control>, file: Seq<char>, k: int)
    requires
        0 <= k < cs.len(),
        cs[k].token.file@ == file,
    ensures
        control_symbols(cs, file).contains(
            (cs[k].name@, SymbolKind::Control, file, cs[k].token.line, cs[k].token.col),
        ),
        forall|a: int|
            0 <= a < cs[k].actions@.len() ==> control_symbols(cs, file).contains(
                (
                    (#[trigger] cs[k].actions@[a]).name@,
                    SymbolKind::Action,
                    file,
                    cs[k].actions@[a].token.line,
                    cs[k].actions@[a].token.col,
                ),
            ),
        forall|t: int|
            0 <= t < cs[k].tables@.len() ==> control_symbols(cs, file).contains(
                (
                    (#[trigger] cs[k].tables@[t]).name@,
                    SymbolKind::Table,
                    file,
                    cs[k].tables@[t].token.line,
                    cs[k].tables@[t].token.col,
                ),
            ),
    decreases cs.len(),
{
    let prev = control_symbols(cs.drop_last(), file);
    let all = control_symbols(cs, file);
    if k == cs.len() - 1 {
        let c = cs.last();
        let head = prev.push(decl_view(c, SymbolKind::Control, file));
        let acts = all_declared(c.actions@, SymbolKind::Action, file);
        let tabs = all_declared(c.tables@, SymbolKind::Table, file);
        assert(head[prev.len() as int] == decl_view(c, SymbolKind::Control, file));
        lemma_contains_concat(head, acts, decl_view(c, SymbolKind::Control, file));
        lemma_contains_concat(head + acts, tabs, decl_view(c, SymbolKind::Control, file));
        assert forall|a: int| 0 <= a < c.actions@.len() implies all.contains(
            (
                (#[trigger] c.actions@[a]).name@,
                SymbolKind::Action,
                file,
                c.actions@[a].token.line,
                c.actions@[a].token.col,
            ),
        ) by {
            lemma_all_declared_has(c.actions@, SymbolKind::Action, file, a);
            lemma_contains_concat(head, acts, decl_view(c.actions@[a], SymbolKind::Action, file));
            lemma_contains_concat(head + acts, tabs, decl_view(c.actions@[a], SymbolKind::Action, file));
        }
        assert forall|t: int| 0 <= t < c.tables@.len() implies all.contains(
            (
                (#[trigger] c.tables@[t]).name@,
                SymbolKind::Table,
                file,
                c.tables@[t].token.line,
                c.tables@[t].token.col,
            ),
        ) by {
            lemma_all_declared_has(c.tables@, SymbolKind::Table, file, t);
            lemma_contains_concat(head + acts, tabs, decl_view(c.tables@[t], SymbolKind::Table, file));
        }
    } else {
        assert(cs.drop_last()[k] == cs[k]);
        lemma_control_symbols_has(cs.drop_last(), file, k);
        let c = cs.last();
        if c.token.file@ == file {
            let head = prev.push(decl_view(c, SymbolKind::Control, file));
            let acts = all_declared(c.actions@, SymbolKind::Action, file);
            let tabs = all_declared(c.tables@, SymbolKind::Table, file);
            assert forall|x: SymbolView| prev.contains(x) implies all.contains(x) by {
                let j = choose|j: int| 0 <= j < prev.len() && prev[j] == x;
                assert(head[j] == x);
                lemma_contains_concat(head, acts, x);
                lemma_contains_concat(head + acts, tabs, x);
            }
        }
        assert forall|a: int| 0 <= a < cs[k].actions@.len() implies all.contains(
            (
                (#[trigger] cs[k].actions@[a]).name@,
                SymbolKind::Action,
                file,
                cs[k].actions@[a].token.line,
                cs[k].actions@[a].token.col,
            ),
        ) by {
            assert(prev.contains(
                (cs[k].actions@[a].name@, SymbolKind::Action, file, cs[k].actions@[a].token.line, cs[k].actions@[a].token.col),
            ));
        }
        assert forall|t: int| 0 <= t < cs[k].tables@.len() implies all.contains(
            (
                (#[trigger] cs[k].tables@[t]).name@,
                SymbolKind::Table,
                file,
                cs[k].tables@[t].token.line,
                cs[k].tables@[t].token.col,
            ),
        ) by {
            assert(prev.contains(
                (cs[k].tables@[t].name@, SymbolKind::Table, file, cs[k].tables@[t].token.line, cs[k].tables@[t].token.col),
            ));
        }
    }
}

/// Law: extracting the symbols of `file` records every declaration whose
/// token comes from `file`: each struct, header, typedef, constant,
/// control, parser, extern and package with its name, its kind, the file
/// and its token's line and column, and, for each such control, all its
/// actions and tables.
pub proof fn law_declarations_recorded(ast: Ast, file: Seq<char>)
    ensures
        forall|i: int|
            0 <= i < ast.structs@.len() && (#[trigger] ast.structs@[i]).token.file@ == file ==> ast_symbols(
                ast,
                file,
            ).contains((ast.structs@[i].name@, SymbolKind::Struct, file, ast.structs@[i].token.line, ast.structs@[i].token.col)),
        forall|i: int|
            0 <= i < ast.headers@.len() && (#[trigger] ast.headers@[i]).token.file@ == file ==> ast_symbols(
                ast,
                file,
            ).contains((ast.headers@[i].name@, SymbolKind::Header, file, ast.headers@[i].token.line, ast.headers@[i].token.col)),
        forall|i: int|
            0 <= i < ast.typedefs@.len() && (#[trigger] ast.typedefs@[i]).token.file@ == file ==> ast_symbols(
                ast,
                file,
            ).contains((ast.typedefs@[i].name@, SymbolKind::Typedef, file, ast.typedefs@[i].token.line, ast.typedefs@[i].token.col)),
        forall|i: int|
            0 <= i < ast.constants@.len() && (#[trigger] ast.constants@[i]).token.file@ == file ==> ast_symbols(
                ast,
                file,
            ).contains((ast.constants@[i].name@, SymbolKind::Constant, file, ast.constants@[i].token.line, ast.constants@[i].token.col)),
        forall|i: int|
            0 <= i < ast.controls@.len() && (#[trigger] ast.controls@[i]).token.file@ == file ==> ast_symbols(
                ast,
                file,
            ).contains((ast.controls@[i].name@, SymbolKind::Control, file, ast.controls@[i].token.line, ast.controls@[i].token.col)),
        forall|i: int, a: int|
            0 <= i < ast.controls@.len() && ast.controls@[i].token.file@ == file && 0 <= a
                < ast.controls@[i].actions@.len() ==> ast_symbols(ast, file).contains(
                (
                    (#[trigger] ast.controls@[i].actions@[a]).name@,
                    SymbolKind::Action,
                    file,
                    ast.controls@[i].actions@[a].token.line,
                    ast.controls@[i].actions@[a].token.col,
                ),
            ),
        forall|i: int, t: int|
            0 <= i < ast.controls@.len() && ast.controls@[i].token.file@ == file && 0 <= t
                < ast.controls@[i].tables@.len() ==> ast_symbols(ast, file).contains(
                (
                    (#[trigger] ast.controls@[i].tables@[t]).name@,
                    SymbolKind::Table,
                    file,
                    ast.controls@[i].tables@[t].token.line,
                    ast.controls@[i].tables@[t].token.col,
                ),
            ),
        forall|i: int|
            0 <= i < ast.parsers@.len() && (#[trigger] ast.parsers@[i]).token.file@ == file ==> ast_symbols(
                ast,
                file,
            ).contains((ast.parsers@[i].name@, SymbolKind::Parser, file, ast.parsers@[i].token.line, ast.parsers@[i].token.col)),
        forall|i: int|
            0 <= i < ast.externs@.len() && (#[trigger] ast.externs@[i]).token.file@ == file ==> ast_symbols(
                ast,
                file,
            ).contains((ast.externs@[i].name@, SymbolKind::Extern, file, ast.externs@[i].token.line, ast.externs@[i].token.col)),
        forall|i: int|
            0 <= i < ast.packages@.len() && (#[trigger] ast.packages@[i]).token.file@ == file ==> ast_symbols(
                ast,
                file,
            ).contains((ast.packages@[i].name@, SymbolKind::Package, file, ast.packages@[i].token.line, ast.packages@[i].token.col)),
{
    let s1 = defined_in(ast.structs@, SymbolKind::Struct, file);
    let s2 = defined_in(ast.headers@, SymbolKind::Header, file);
    let s3 = defined_in(ast.typedefs@, SymbolKind::Typedef, file);
    let s4 = defined_in(ast.constants@, SymbolKind::Constant, file);
    let s5 = control_symbols(ast.controls@, file);
    let s6 = defined_in(ast.parsers@, SymbolKind::Parser, file);
    let s7 = defined_in(ast.externs@, SymbolKind::Extern, file);
    let s8 = defined_in(ast.packages@, SymbolKind::Package, file);
    assert(ast_symbols(ast, file) == s1 + s2 + s3 + s4 + s5 + s6 + s7 + s8);
    assert forall|x: SymbolView| s1.contains(x) || s2.contains(x) || s3.contains(x) || s4.contains(x) || s5.contains(x)
        || s6.contains(x) || s7.contains(x) || s8.contains(x) implies ast_symbols(ast, file).contains(x) by {
        lemma_contains_concat(s1, s2, x);
        lemma_contains_concat(s1 + s2, s3, x);
        lemma_contains_concat(s1 + s2 + s3, s4, x);
        lemma_contains_concat(s1 + s2 + s3 + s4, s5, x);
        lemma_contains_concat(s1 + s2 + s3 + s4 + s5, s6, x);
        lemma_contains_concat(s1 + s2 + s3 + s4 + s5 + s6, s7, x);
        lemma_contains_concat(s1 + s2 + s3 + s4 + s5 + s6 + s7, s8, x);
    }
    assert forall|i: int| 0 <= i < ast.structs@.len() && (#[trigger] ast.structs@[i]).token.file@ == file implies ast_symbols(
        ast,
        file,
    ).contains((ast.structs@[i].name@, SymbolKind::Struct, file, ast.structs@[i].token.line, ast.structs@[i].token.col)) by {
        lemma_defined_in_has(ast.structs@, SymbolKind::Struct, file, i);
    }
    assert forall|i: int| 0 <= i < ast.headers@.len() && (#[trigger] ast.headers@[i]).token.file@ == file implies ast_symbols(
        ast,
        file,
    ).contains((ast.headers@[i].name@, SymbolKind::Header, file, ast.headers@[i].token.line, ast.headers@[i].token.col)) by {
        lemma_defined_in_has(ast.headers@, SymbolKind::Header, file, i);
    }
    assert forall|i: int| 0 <= i < ast.typedefs@.len() && (#[trigger] ast.typedefs@[i]).token.file@ == file implies ast_symbols(
        ast,
        file,
    ).contains((ast.typedefs@[i].name@, SymbolKind::Typedef, file, ast.typedefs@[i].token.line, ast.typedefs@[i].token.col)) by {
        lemma_defined_in_has(ast.typedefs@, SymbolKind::Typedef, file, i);
    }
    assert forall|i: int| 0 <= i < ast.constants@.len() && (#[trigger] ast.constants@[i]).token.file@ == file implies ast_symbols(
        ast,
        file,
    ).contains((ast.constants@[i].name@, SymbolKind::Constant, file, ast.constants@[i].token.line, ast.constants@[i].token.col)) by {
        lemma_defined_in_has(ast.constants@, SymbolKind::Constant, file, i);
    }
    assert forall|i: int| 0 <= i < ast.parsers@.len() && (#[trigger] ast.parsers@[i]).token.file@ == file implies ast_symbols(
        ast,
        file,
    ).contains((ast.parsers@[i].name@, SymbolKind::Parser, file, ast.parsers@[i].token.line, ast.parsers@[i].token.col)) by {
        lemma_defined_in_has(ast.parsers@, SymbolKind::Parser, file, i);
    }
    assert forall|i: int| 0 <= i < ast.externs@.len() && (#[trigger] ast.externs@[i]).token.file@ == file implies ast_symbols(
        ast,
        file,
    ).contains((ast.externs@[i].name@, SymbolKind::Extern, file, ast.externs@[i].token.line, ast.externs@[i].token.col)) by {
        lemma_defined_in_has(ast.externs@, SymbolKind::Extern, file, i);
    }
    assert forall|i: int| 0 <= i < ast.packages@.len() && (#[trigger] ast.packages@[i]).token.file@ == file implies ast_symbols(
        ast,
        file,
    ).contains((ast.packages@[i].name@, SymbolKind::Package, file, ast.packages@[i].token.line, ast.packages@[i].token.col)) by {
        lemma_defined_in_has(ast.packages@, SymbolKind::Package, file, i);
    }
    assert forall|i: int| 0 <= i < ast.controls@.len() && (#[trigger] ast.controls@[i]).token.file@ == file implies ast_symbols(
        ast,
        file,
    ).contains((ast.controls@[i].name@, SymbolKind::Control, file, ast.controls@[i].token.line, ast.controls@[i].token.col)) by {
        lemma_control_symbols_has(ast.controls@, file, i);
    }
    assert forall|i: int, a: int|
        0 <= i < ast.controls@.len() && ast.controls@[i].token.file@ == file && 0 <= a
            < ast.controls@[i].actions@.len() implies ast_symbols(ast, file).contains(
        (
            (#[trigger] ast.controls@[i].actions@[a]).name@,
            SymbolKind::Action,
            file,
            ast.controls@[i].actions@[a].token.line,
            ast.controls@[i].actions@[a].token.col,
        ),
    ) by {
        lemma_control_symbols_has(ast.controls@, file, i);
    }
    assert forall|i: int, t: int|
        0 <= i < ast.controls@.len() && ast.controls@[i].token.file@ == file && 0 <= t
            < ast.controls@[i].tables@.len() implies ast_symbols(ast, file).contains(
        (
            (#[trigger] ast.controls@[i].tables@[t]).name@,
            SymbolKind::Table,
            file,
            ast.controls@[i].tables@[t].token.line,
            ast.controls@[i].tables@[t].token.col,
        ),
    ) by {
        lemma_control_symbols_has(ast.controls@, file, i);
    }
}

} // verus!
