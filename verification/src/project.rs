//! Symbols collected from the files of a project.
use vstd::prelude::*;
use std::sync::Arc;
use crate::strings::str_eq;

verus! {

/// A file path shared between the structures that mention it.
pub type FilePath = Arc<String>;

/// A second handle on the same path.
///
/// Trusted: calls `Arc::clone`, which std documents as making another pointer
/// to the same allocation, so the value seen through it is the same.
#[verifier::external_body]
pub(crate) fn share_path(p: &FilePath) -> (q: FilePath)
    ensures
        q == *p,
{
    p.clone()
}

/// What a named declaration is.
#[derive(Clone, Copy, Debug, PartialEq, Eq, Structural)]
pub enum SymbolKind {
    Struct,
    Header,
    Typedef,
    Constant,
    Action,
    Control,
    Parser,
    Table,
    Extern,
    Package,
    Enum,
    EnumMember,
    Variable,
    Parameter,
    Macro,
}

/// A named declaration and where it is.
#[derive(Debug)]
pub struct Symbol {
    pub name: String,
    pub kind: SymbolKind,
    pub def_file: FilePath,
    pub line: usize,
    pub col: usize,
}

/// The name of a symbol, as text.
pub open spec fn name_of(s: Symbol) -> Seq<char> {
    s.name@
}

/// The defining file of a symbol, as text.
pub open spec fn file_of(s: Symbol) -> Seq<char> {
    s.def_file@
}

/// The symbols of `syms` whose key is `k`, in order.
pub open spec fn select(syms: Seq<Symbol>, key: spec_fn(Symbol) -> Seq<char>, k: Seq<char>) -> Seq<Symbol>
    decreases syms.len(),
{
    if syms.len() == 0 {
        syms
    } else if key(syms.last()) == k {
        select(syms.drop_last(), key, k).push(syms.last())
    } else {
        select(syms.drop_last(), key, k)
    }
}

/// The positions in `syms` of the symbols whose key is `k`, ascending.
pub open spec fn positions_with(syms: Seq<Symbol>, key: spec_fn(Symbol) -> Seq<char>, k: Seq<char>) -> Seq<usize>
    decreases syms.len(),
{
    if syms.len() == 0 {
        seq![]
    } else if key(syms.last()) == k {
        positions_with(syms.drop_last(), key, k).push((syms.len() - 1) as usize)
    } else {
        positions_with(syms.drop_last(), key, k)
    }
}

/// An index from keys to positions: keys are distinct, each key lists the
/// positions of exactly the symbols with that key, and every symbol's key is
/// present.
pub open spec fn index_valid(
    idx: Seq<(String, Vec<usize>)>,
    syms: Seq<Symbol>,
    key: spec_fn(Symbol) -> Seq<char>,
) -> bool {
    &&& forall|i: int, j: int| 0 <= i < j < idx.len() ==> (#[trigger] idx[i]).0@ != (#[trigger] idx[j]).0@
    &&& forall|i: int| 0 <= i < idx.len() ==> (#[trigger] idx[i]).1@ == positions_with(syms, key, idx[i].0@)
    &&& forall|k: int| 0 <= k < syms.len() ==> exists|i: int| 0 <= i < idx.len() && (#[trigger] idx[i]).0@ == key(#[trigger] syms[k])
}

pub proof fn lemma_positions_with(syms: Seq<Symbol>, key: spec_fn(Symbol) -> Seq<char>, k: Seq<char>)
    requires
        syms.len() <= usize::MAX,
    ensures
        forall|j: int| 0 <= j < positions_with(syms, key, k).len() ==> {
            &&& #[trigger] positions_with(syms, key, k)[j] < syms.len()
        },
        positions_with(syms, key, k).map_values(|p: usize| syms[p as int]) == select(syms, key, k),
    decreases syms.len(),
{
    if syms.len() > 0 {
        let t = syms.drop_last();
        lemma_positions_with(t, key, k);
        let pt = positions_with(t, key, k);
        assert(pt.map_values(|p: usize| syms[p as int]) =~= pt.map_values(|p: usize| t[p as int]));
        if key(syms.last()) == k {
            assert(pt.push((syms.len() - 1) as usize).map_values(|p: usize| syms[p as int])
                =~= pt.map_values(|p: usize| syms[p as int]).push(syms.last()));
        }
    }
}

/// No symbol has key `k` when `k` is not among the keys of a valid index.
pub proof fn lemma_absent_key(
    idx: Seq<(String, Vec<usize>)>,
    syms: Seq<Symbol>,
    key: spec_fn(Symbol) -> Seq<char>,
    k: Seq<char>,
)
    requires
        index_valid(idx, syms, key),
        forall|i: int| 0 <= i < idx.len() ==> (#[trigger] idx[i]).0@ != k,
    ensures
        select(syms, key, k) == Seq::<Symbol>::empty(),
        positions_with(syms, key, k) == Seq::<usize>::empty(),
    decreases syms.len(),
{
    lemma_select_none(syms, key, k);
}

proof fn lemma_select_none(syms: Seq<Symbol>, key: spec_fn(Symbol) -> Seq<char>, k: Seq<char>)
    requires
        forall|j: int| 0 <= j < syms.len() ==> key(#[trigger] syms[j]) != k,
    ensures
        select(syms, key, k) == Seq::<Symbol>::empty(),
        positions_with(syms, key, k) == Seq::<usize>::empty(),
    decreases syms.len(),
{
    if syms.len() > 0 {
        let t = syms.drop_last();
        assert forall|j: int| 0 <= j < t.len() implies key(#[trigger] t[j]) != k by {
            assert(t[j] == syms[j]);
        }
        lemma_select_none(t, key, k);
        assert(key(syms[syms.len() - 1]) != k);
    }
}

/// An index as plain values: each key's text with its list of positions.
pub open spec fn index_view(idx: Seq<(String, Vec<usize>)>) -> Seq<(Seq<char>, Seq<usize>)> {
    idx.map_values(|e: (String, Vec<usize>)| (e.0@, e.1@))
}

/// The index `iv` after recording position `pos` under key `k`: the entry
/// of `k`, if there is one, gains `pos` at the end of its list; otherwise
/// an entry for `k` holding only `pos` comes last. Nothing else changes.
pub open spec fn index_put(iv: Seq<(Seq<char>, Seq<usize>)>, k: Seq<char>, pos: usize) -> Seq<
    (Seq<char>, Seq<usize>),
> {
    if exists|i: int| 0 <= i < iv.len() && (#[trigger] iv[i]).0 == k {
        let i = choose|i: int| 0 <= i < iv.len() && (#[trigger] iv[i]).0 == k;
        iv.update(i, (k, iv[i].1.push(pos)))
    } else {
        iv.push((k, seq![pos]))
    }
}

/// Symbols with lookup by name and by defining file.
#[derive(Debug)]
pub struct SymbolTable {
    symbols: Vec<Symbol>,
    by_name: Vec<(String, Vec<usize>)>,
    by_file: Vec<(String, Vec<usize>)>,
}

impl SymbolTable {
    /// Both indexes agree with the symbols.
    #[verifier::type_invariant]
    spec fn inv(self) -> bool {
        &&& index_valid(self.by_name@, self.symbols@, |s: Symbol| name_of(s))
        &&& index_valid(self.by_file@, self.symbols@, |s: Symbol| file_of(s))
        &&& self.symbols@.len() < usize::MAX
    }

    /// The symbols, in the order they were added.
    pub closed spec fn view(self) -> Seq<Symbol> {
        self.symbols@
    }

    /// The index by name: each name with the positions of its symbols.
    pub closed spec fn name_index(self) -> Seq<(String, Vec<usize>)> {
        self.by_name@
    }

    /// The index by defining file: each file with the positions of its
    /// symbols.
    pub closed spec fn file_index(self) -> Seq<(String, Vec<usize>)> {
        self.by_file@
    }

    /// Both indexes agree with the symbols: their keys are distinct, each
    /// key lists, ascending, the positions of exactly the symbols with that
    /// key, and every symbol's name and file are keys.
    pub open spec fn indexed(self) -> bool {
        &&& index_valid(self.name_index(), self.view(), |s: Symbol| name_of(s))
        &&& index_valid(self.file_index(), self.view(), |s: Symbol| file_of(s))
    }

    /// An empty table.
    pub fn new() -> (t: Self)
        ensures
            t.view() == Seq::<Symbol>::empty(),
            t.name_index().len() == 0,
            t.file_index().len() == 0,
            t.indexed(),
    {
        SymbolTable { symbols: Vec::new(), by_name: Vec::new(), by_file: Vec::new() }
    }

    /// The symbols named `name`, in the order they were added.
    pub fn lookup(&self, name: &str) -> (r: Vec<&Symbol>)
        ensures
            r@.map_values(|s: &Symbol| *s) == select(self.view(), |s: Symbol| name_of(s), name@),
    {
        proof {
            use_type_invariant(self);
        }
        gather(&self.by_name, &self.symbols, name, Ghost(|s: Symbol| name_of(s)))
    }

    /// The symbols defined in `file`, in the order they were added.
    pub fn symbols_in_file(&self, file: &FilePath) -> (r: Vec<&Symbol>)
        ensures
            r@.map_values(|s: &Symbol| *s) == select(self.view(), |s: Symbol| file_of(s), file@),
    {
        proof {
            use_type_invariant(self);
        }
        gather(&self.by_file, &self.symbols, file.as_str(), Ghost(|s: Symbol| file_of(s)))
    }

    /// Adds a symbol after all others.
    pub fn add(&mut self, symbol: Symbol)
        requires
            old(self).view().len() + 1 < usize::MAX,
        ensures
            final(self).view() == old(self).view().push(symbol),
            index_view(final(self).name_index()) == index_put(
                index_view(old(self).name_index()),
                symbol.name@,
                old(self).view().len() as usize,
            ),
            index_view(final(self).file_index()) == index_put(
                index_view(old(self).file_index()),
                symbol.def_file@,
                old(self).view().len() as usize,
            ),
            final(self).indexed(),
    {
        proof {
            use_type_invariant(&*self);
        }
        let mut t = SymbolTable::new();
        std::mem::swap(self, &mut t);
        let SymbolTable { symbols: mut symbols, by_name: mut by_name, by_file: mut by_file } = t;
        let ghost syms = symbols@;
        let idx = symbols.len();
        index_add(&mut by_name, symbol.name.clone(), idx, Ghost(syms), Ghost(|s: Symbol| name_of(s)), Ghost(symbol));
        let file_key = symbol.def_file.as_str().to_owned();
        index_add(&mut by_file, file_key, idx, Ghost(syms), Ghost(|s: Symbol| file_of(s)), Ghost(symbol));
        symbols.push(symbol);
        *self = SymbolTable { symbols, by_name, by_file };
        proof {
            use_type_invariant(&*self);
        }
    }

    /// The symbols, in the order they were added.
    pub fn symbols(&self) -> (s: &Vec<Symbol>)
        ensures
            s@ == self.view(),
    {
        &self.symbols
    }
}

/// Where key `k` sits in the index, if anywhere.
fn find_key(idx: &Vec<(String, Vec<usize>)>, k: &str) -> (r: Option<usize>)
    ensures
        r matches Some(i) ==> i < idx.len() && idx@[i as int].0@ == k@,
        r is None ==> forall|i: int| 0 <= i < idx.len() ==> (#[trigger] idx@[i]).0@ != k@,
{
    let mut i: usize = 0;
    while i < idx.len()
        invariant
            i <= idx.len(),
            forall|j: int| 0 <= j < i ==> (#[trigger] idx@[j]).0@ != k@,
        decreases idx.len() - i,
    {
        if str_eq(idx[i].0.as_str(), k) {
            return Some(i);
        }
        i += 1;
    }
    None
}

/// The symbols that the index lists under key `k`.
fn gather<'a>(
    idx: &Vec<(String, Vec<usize>)>,
    syms: &'a Vec<Symbol>,
    k: &str,
    Ghost(key): Ghost<spec_fn(Symbol) -> Seq<char>>,
) -> (r: Vec<&'a Symbol>)
    requires
        index_valid(idx@, syms@, key),
        syms@.len() < usize::MAX,
    ensures
        r@.map_values(|s: &Symbol| *s) == select(syms@, key, k@),
{
    proof {
        lemma_positions_with(syms@, key, k@);
    }
    let mut out: Vec<&'a Symbol> = Vec::new();
    match find_key(idx, k) {
        None => {
            proof {
                lemma_absent_key(idx@, syms@, key, k@);
            }
            assert(out@.map_values(|s: &Symbol| *s) =~= Seq::<Symbol>::empty());
        },
        Some(i) => {
            let ids = &idx[i].1;
            assert(ids@ == positions_with(syms@, key, k@));
            let mut j: usize = 0;
            while j < ids.len()
                invariant
                    j <= ids.len(),
                    ids@ == positions_with(syms@, key, k@),
                    forall|m: int| 0 <= m < ids@.len() ==> #[trigger] ids@[m] < syms@.len(),
                    out@.map_values(|s: &Symbol| *s) =~= ids@.take(j as int).map_values(
                        |p: usize| syms@[p as int],
                    ),
                decreases ids.len() - j,
            {
                let p = ids[j];
                let ghost prev = out@;
                let r = &syms[p];
                assert(*r == syms@[p as int]);
                out.push(r);
                assert(out@ == prev.push(r));
                assert(out@.map_values(|s: &Symbol| *s) =~= prev.map_values(|s: &Symbol| *s).push(syms@[p as int]));
                assert(ids@.take(j as int + 1) =~= ids@.take(j as int).push(p));
                assert(ids@.take(j as int + 1).map_values(|q: usize| syms@[q as int]) =~= ids@.take(j as int).map_values(|q: usize| syms@[q as int]).push(syms@[p as int]));
                j += 1;
            }
            assert(ids@.take(ids.len() as int) =~= ids@);
        },
    }
    out
}

/// Records that the symbol `s`, about to be added at position `pos`, has key `k`.
fn index_add(
    idx: &mut Vec<(String, Vec<usize>)>,
    k: String,
    pos: usize,
    Ghost(syms): Ghost<Seq<Symbol>>,
    Ghost(key): Ghost<spec_fn(Symbol) -> Seq<char>>,
    Ghost(s): Ghost<Symbol>,
)
    requires
        index_valid(old(idx)@, syms, key),
        pos == syms.len(),
        key(s) == k@,
        syms.len() + 1 < usize::MAX,
    ensures
        index_valid(final(idx)@, syms.push(s), key),
        index_view(final(idx)@) == index_put(index_view(old(idx)@), k@, pos),
{
    let ghost old_idx = idx@;
    let ghost syms2 = syms.push(s);
    assert(syms2.drop_last() =~= syms);
    assert forall|kk: Seq<char>| #[trigger] positions_with(syms2, key, kk) == if key(s) == kk {
        positions_with(syms, key, kk).push(pos)
    } else {
        positions_with(syms, key, kk)
    } by {}
    match find_key(idx, k.as_str()) {
        Some(i) => {
            let (name, mut ids) = idx.remove(i);
            ids.push(pos);
            idx.insert(i, (name, ids));
            assert(idx@ =~= old_idx.update(i as int, (name, ids)));
            proof {
                let iv = index_view(old_idx);
                assert(iv[i as int].0 == k@);
                let c = choose|c: int| 0 <= c < iv.len() && (#[trigger] iv[c]).0 == k@;
                if c != i as int {
                    assert(old_idx[c].0@ != old_idx[i as int].0@);
                }
                assert(index_view(idx@) =~= index_put(iv, k@, pos));
            }
            assert forall|j: int| 0 <= j < idx@.len() implies (#[trigger] idx@[j]).1@ == positions_with(
                syms2,
                key,
                idx@[j].0@,
            ) by {
                if j != i {
                    assert(idx@[j] == old_idx[j]);
                    assert(old_idx[j].0@ != old_idx[i as int].0@);
                }
            }
            assert forall|m: int| 0 <= m < syms2.len() implies exists|j: int|
                0 <= j < idx@.len() && (#[trigger] idx@[j]).0@ == key(#[trigger] syms2[m]) by {
                if m < syms.len() {
                    assert(syms2[m] == syms[m]);
                    let j = choose|j: int| 0 <= j < old_idx.len() && (#[trigger] old_idx[j]).0@ == key(syms[m]);
                    assert(idx@[j].0@ == old_idx[j].0@);
                } else {
                    assert(idx@[i as int].0@ == key(syms2[m]));
                }
            }
        },
        None => {
            let mut ids: Vec<usize> = Vec::new();
            ids.push(pos);
            let ghost kv = k@;
            idx.push((k, ids));
            assert(positions_with(syms, key, kv) == Seq::<usize>::empty()) by {
                lemma_absent_key(old_idx, syms, key, kv);
            }
            assert(ids@ =~= positions_with(syms, key, kv).push(pos));
            proof {
                let iv = index_view(old_idx);
                assert forall|c: int| 0 <= c < iv.len() implies (#[trigger] iv[c]).0 != kv by {
                    assert(old_idx[c].0@ != kv);
                }
                assert(index_view(idx@) =~= index_put(iv, kv, pos));
            }
            assert forall|j: int| 0 <= j < idx@.len() implies (#[trigger] idx@[j]).1@ == positions_with(
                syms2,
                key,
                idx@[j].0@,
            ) by {
                if j < old_idx.len() {
                    assert(idx@[j] == old_idx[j]);
                }
            }
            assert forall|m: int| 0 <= m < syms2.len() implies exists|j: int|
                0 <= j < idx@.len() && (#[trigger] idx@[j]).0@ == key(#[trigger] syms2[m]) by {
                if m < syms.len() {
                    assert(syms2[m] == syms[m]);
                    let j = choose|j: int| 0 <= j < old_idx.len() && (#[trigger] old_idx[j]).0@ == key(syms[m]);
                    assert(idx@[j] == old_idx[j]);
                } else {
                    assert(idx@[old_idx.len() as int].0@ == key(syms2[m]));
                }
            }
        },
    }
}

/// Law: a lookup after adding a symbol sees it last among the symbols of its
/// name and is unchanged for every other name; the same holds of the
/// symbols of each file.
pub proof fn law_lookup_after_add(before: Seq<Symbol>, s: Symbol, name: Seq<char>, file: Seq<char>)
    ensures
        select(before.push(s), |x: Symbol| name_of(x), name) == if s.name@ == name {
            select(before, |x: Symbol| name_of(x), name).push(s)
        } else {
            select(before, |x: Symbol| name_of(x), name)
        },
        select(before.push(s), |x: Symbol| file_of(x), file) == if s.def_file@ == file {
            select(before, |x: Symbol| file_of(x), file).push(s)
        } else {
            select(before, |x: Symbol| file_of(x), file)
        },
{
    assert(before.push(s).drop_last() =~= before);
}

} // verus!
