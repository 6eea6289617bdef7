//! Building, ordering and delta-encoding semantic tokens.
use vstd::prelude::*;
use crate::protocol::{Range, SemanticToken, SemanticTokenModifier, SemanticTokenType, SemanticTokensLegend};

verus! {

broadcast use vstd::seq_lib::group_to_multiset_ensures;

/// The first index at or after `i` where `s` holds `x`.
pub open spec fn index_from<T>(s: Seq<T>, x: T, i: int) -> Option<int>
    decreases s.len() - i,
{
    if i < 0 || i >= s.len() {
        None
    } else if s[i] == x {
        Some(i)
    } else {
        index_from(s, x, i + 1)
    }
}

/// The first index where `s` holds `x`.
pub open spec fn first_index<T>(s: Seq<T>, x: T) -> Option<int> {
    index_from(s, x, 0)
}

pub proof fn lemma_index_from<T>(s: Seq<T>, x: T, i: int)
    requires
        0 <= i,
    ensures
        index_from(s, x, i) matches Some(j) ==> i <= j < s.len() && s[j] == x,
        index_from(s, x, i) is None ==> forall|k: int| i <= k < s.len() ==> s[k] != x,
    decreases s.len() - i,
{
    if i < s.len() && s[i] != x {
        lemma_index_from(s, x, i + 1);
    }
}

/// The bit set of the legend positions of `mods`; modifiers missing from the
/// legend contribute nothing.
pub open spec fn modifier_bits(legend: Seq<SemanticTokenModifier>, mods: Seq<SemanticTokenModifier>) -> u32
    decreases mods.len(),
{
    if mods.len() == 0 {
        0
    } else {
        let b = modifier_bits(legend, mods.drop_last());
        match first_index(legend, mods.last()) {
            Some(j) => b | (1u32 << (j as u32)),
            None => b,
        }
    }
}

/// Every modifier in `mods` that the legend knows sits at a position that
/// fits in a 32-bit set.
pub open spec fn modifiers_fit(legend: Seq<SemanticTokenModifier>, mods: Seq<SemanticTokenModifier>) -> bool {
    forall|k: int|
        0 <= k < mods.len() ==> (first_index(legend, #[trigger] mods[k]) matches Some(j) ==> j < 32)
}

/// The token data after pushing one token: unchanged when its type is not in
/// the legend, else extended by the token with its legend index.
pub open spec fn pushed(
    data: Seq<SemanticToken>,
    types: Seq<SemanticTokenType>,
    mods_legend: Seq<SemanticTokenModifier>,
    line: u32,
    start: u32,
    length: u32,
    token_type: SemanticTokenType,
    mods: Seq<SemanticTokenModifier>,
) -> Seq<SemanticToken> {
    match first_index(types, token_type) {
        None => data,
        Some(i) => data.push(
            SemanticToken {
                delta_line: line,
                delta_start: start,
                length,
                token_type: i as u32,
                token_modifiers_bitset: modifier_bits(mods_legend, mods),
            },
        ),
    }
}

/// Collects semantic tokens with absolute positions.
pub struct SemanticTokensBuilder {
    pub data: Vec<SemanticToken>,
    pub token_types: Vec<SemanticTokenType>,
    pub token_modifiers: Vec<SemanticTokenModifier>,
}

impl SemanticTokensBuilder {
    /// An empty builder for the given legend.
    pub fn new(legend: &SemanticTokensLegend) -> (b: Self)
        ensures
            b.data@ == Seq::<SemanticToken>::empty(),
            b.token_types@ == legend.token_types@,
            b.token_modifiers@ == legend.token_modifiers@,
    {
        SemanticTokensBuilder {
            data: Vec::new(),
            token_types: legend.token_types.clone(),
            token_modifiers: legend.token_modifiers.clone(),
        }
    }

    /// Records a token at absolute `line` and `start`; a token whose type is
    /// not in the legend is dropped.
    pub fn push(
        &mut self,
        line: u32,
        start: u32,
        length: u32,
        token_type: SemanticTokenType,
        modifiers: &[SemanticTokenModifier],
    )
        requires
            modifiers_fit(old(self).token_modifiers@, modifiers@),
        ensures
            final(self).token_types@ == old(self).token_types@,
            final(self).token_modifiers@ == old(self).token_modifiers@,
            final(self).data@ == pushed(
                old(self).data@,
                old(self).token_types@,
                old(self).token_modifiers@,
                line,
                start,
                length,
                token_type,
                modifiers@,
            ),
    {
        let mut ti: usize = 0;
        while ti < self.token_types.len()
            invariant
                ti <= self.token_types.len(),
                index_from(self.token_types@, token_type, ti as int) == first_index(
                    self.token_types@,
                    token_type,
                ),
            ensures
                ti <= self.token_types.len(),
                index_from(self.token_types@, token_type, ti as int) == first_index(
                    self.token_types@,
                    token_type,
                ),
                ti < self.token_types.len() ==> self.token_types@[ti as int] == token_type,
            decreases self.token_types.len() - ti,
        {
            if self.token_types[ti] == token_type {
                break;
            }
            ti += 1;
        }
        if ti == self.token_types.len() {
            return;
        }
        let mut bits: u32 = 0;
        let mut k: usize = 0;
        while k < modifiers.len()
            invariant
                k <= modifiers.len(),
                modifiers_fit(self.token_modifiers@, modifiers@),
                bits == modifier_bits(self.token_modifiers@, modifiers@.take(k as int)),
            decreases modifiers.len() - k,
        {
            let m = modifiers[k];
            let mut j: usize = 0;
            while j < self.token_modifiers.len()
                invariant
                    j <= self.token_modifiers.len(),
                    index_from(self.token_modifiers@, m, j as int) == first_index(
                        self.token_modifiers@,
                        m,
                    ),
                ensures
                    j <= self.token_modifiers.len(),
                    index_from(self.token_modifiers@, m, j as int) == first_index(
                        self.token_modifiers@,
                        m,
                    ),
                    j < self.token_modifiers.len() ==> self.token_modifiers@[j as int] == m,
                decreases self.token_modifiers.len() - j,
            {
                if self.token_modifiers[j] == m {
                    break;
                }
                j += 1;
            }
            assert(modifiers@.take(k as int + 1).drop_last() =~= modifiers@.take(k as int));
            assert(modifiers@.take(k as int + 1).last() == m);
            if j < self.token_modifiers.len() {
                assert(first_index(self.token_modifiers@, m) == Some(j as int));
                assert(j < 32);
                bits = bits | (1u32 << (j as u32));
            } else {
                assert(first_index(self.token_modifiers@, m) is None);
            }
            k += 1;
        }
        assert(modifiers@.take(modifiers.len() as int) =~= modifiers@);
        assert(first_index(self.token_types@, token_type) == Some(ti as int));
        self.data.push(
            SemanticToken {
                delta_line: line,
                delta_start: start,
                length,
                token_type: ti as u32,
                token_modifiers_bitset: bits,
            },
        );
    }

    /// The collected tokens.
    pub fn build(self) -> (tokens: Vec<SemanticToken>)
        ensures
            tokens@ == self.data@,
    {
        self.data
    }
}

/// Token `a` does not come after token `b`: ordered by line, then column.
pub open spec fn key_le(a: SemanticToken, b: SemanticToken) -> bool {
    a.delta_line < b.delta_line || (a.delta_line == b.delta_line && a.delta_start <= b.delta_start)
}

/// Tokens ordered by line, then column.
pub open spec fn is_sorted(s: Seq<SemanticToken>) -> bool {
    forall|i: int, j: int| 0 <= i < j < s.len() ==> key_le(#[trigger] s[i], #[trigger] s[j])
}

/// `x` inserted into `s` after every token that does not come after it.
pub open spec fn insert_sorted(s: Seq<SemanticToken>, x: SemanticToken) -> Seq<SemanticToken>
    decreases s.len(),
{
    if s.len() == 0 {
        seq![x]
    } else if key_le(s.last(), x) {
        s.push(x)
    } else {
        insert_sorted(s.drop_last(), x).push(s.last())
    }
}

/// The stable sort of tokens by line, then column.
pub open spec fn sort_tokens(s: Seq<SemanticToken>) -> Seq<SemanticToken>
    decreases s.len(),
{
    if s.len() == 0 {
        s
    } else {
        insert_sorted(sort_tokens(s.drop_last()), s.last())
    }
}

/// Where `insert_sorted` places `x`.
pub open spec fn insert_pos(s: Seq<SemanticToken>, x: SemanticToken) -> int
    decreases s.len(),
{
    if s.len() == 0 {
        0
    } else if key_le(s.last(), x) {
        s.len() as int
    } else {
        insert_pos(s.drop_last(), x)
    }
}

pub proof fn lemma_insert_pos(s: Seq<SemanticToken>, x: SemanticToken)
    ensures
        0 <= insert_pos(s, x) <= s.len(),
        insert_sorted(s, x) == s.take(insert_pos(s, x)).push(x) + s.skip(insert_pos(s, x)),
    decreases s.len(),
{
    if s.len() == 0 {
        assert(s.take(0).push(x) + s.skip(0) =~= seq![x]);
    } else if key_le(s.last(), x) {
        assert(s.take(s.len() as int).push(x) + s.skip(s.len() as int) =~= s.push(x));
    } else {
        let t = s.drop_last();
        lemma_insert_pos(t, x);
        let p = insert_pos(t, x);
        assert(t.take(p) =~= s.take(p));
        assert((t.take(p).push(x) + t.skip(p)).push(s.last()) =~= s.take(p).push(x) + s.skip(p));
    }
}

/// Inserting into a sorted sequence keeps it sorted, adds exactly `x`, and
/// keeps every element.
pub proof fn lemma_insert_sorted(s: Seq<SemanticToken>, x: SemanticToken)
    requires
        is_sorted(s),
    ensures
        is_sorted(insert_sorted(s, x)),
        insert_sorted(s, x).to_multiset() == s.to_multiset().insert(x),
        insert_sorted(s, x).len() == s.len() + 1,
        forall|k: int|
            0 <= k < insert_sorted(s, x).len() ==> #[trigger] insert_sorted(s, x)[k] == x
                || s.contains(insert_sorted(s, x)[k]),
    decreases s.len(),
{
    let r = insert_sorted(s, x);
    if s.len() == 0 {
    } else if key_le(s.last(), x) {
        assert forall|k: int| 0 <= k < r.len() implies r[k] == x || s.contains(r[k]) by {
            if k < s.len() {
                assert(r[k] == s[k]);
            }
        }
        assert forall|i: int, j: int| 0 <= i < j < r.len() implies key_le(r[i], r[j]) by {
            if j == s.len() {
                assert(key_le(s[i], s.last()) || i == s.len() - 1);
            }
        }
    } else {
        let t = s.drop_last();
        assert(is_sorted(t)) by {
            assert forall|i: int, j: int| 0 <= i < j < t.len() implies key_le(t[i], t[j]) by {
                assert(t[i] == s[i] && t[j] == s[j]);
            }
        }
        lemma_insert_sorted(t, x);
        let r1 = insert_sorted(t, x);
        assert(s =~= t.push(s.last()));
        assert forall|k: int| 0 <= k < r.len() implies r[k] == x || s.contains(r[k]) by {
            if k < r1.len() {
                assert(r[k] == r1[k]);
                if r1[k] != x {
                    let m = choose|m: int| 0 <= m < t.len() && t[m] == r1[k];
                    assert(s[m] == r1[k]);
                }
            } else {
                assert(s[s.len() - 1] == r[k]);
            }
        }
        assert forall|i: int, j: int| 0 <= i < j < r.len() implies key_le(r[i], r[j]) by {
            if j == r.len() - 1 {
                assert(r[i] == r1[i]);
                if r1[i] == x {
                } else {
                    let m = choose|m: int| 0 <= m < t.len() && t[m] == r1[i];
                    assert(s[m] == r1[i]);
                    assert(key_le(s[m], s[s.len() - 1]));
                }
            } else {
                assert(r[i] == r1[i] && r[j] == r1[j]);
            }
        }
    }
}

/// The sort yields a sorted permutation.
pub proof fn lemma_sort_tokens(s: Seq<SemanticToken>)
    ensures
        is_sorted(sort_tokens(s)),
        sort_tokens(s).to_multiset() == s.to_multiset(),
        sort_tokens(s).len() == s.len(),
    decreases s.len(),
{
    if s.len() > 0 {
        lemma_sort_tokens(s.drop_last());
        lemma_insert_sorted(sort_tokens(s.drop_last()), s.last());
        assert(s =~= s.drop_last().push(s.last()));
    }
}

/// Sorts tokens by line, then column, keeping the order of equal positions.
fn sort_by_position(tokens: &Vec<SemanticToken>) -> (r: Vec<SemanticToken>)
    ensures
        r@ == sort_tokens(tokens@),
{
    let mut out: Vec<SemanticToken> = Vec::new();
    let mut i: usize = 0;
    while i < tokens.len()
        invariant
            i <= tokens.len(),
            out@ == sort_tokens(tokens@.take(i as int)),
        decreases tokens.len() - i,
    {
        let x = tokens[i];
        let ghost s = out@;
        let mut p: usize = out.len();
        assert(s.take(s.len() as int) =~= s);
        while p > 0
            invariant
                p <= out.len(),
                out@ == s,
                insert_pos(s.take(p as int), x) == insert_pos(s, x),
            ensures
                p <= out.len(),
                insert_pos(s, x) == p,
            decreases p,
        {
            let y = out[p - 1];
            assert(s.take(p as int).drop_last() =~= s.take(p as int - 1));
            if y.delta_line < x.delta_line || (y.delta_line == x.delta_line && y.delta_start
                <= x.delta_start) {
                break;
            }
            p -= 1;
        }
        proof {
            lemma_insert_pos(s, x);
        }
        out.insert(p, x);
        assert(out@ =~= s.take(p as int).push(x) + s.skip(p as int));
        assert(tokens@.take(i as int + 1).drop_last() =~= tokens@.take(i as int));
        i += 1;
    }
    assert(tokens@.take(tokens.len() as int) =~= tokens@);
    out
}

/// `a - b`, or zero when `b` is larger.
pub open spec fn sat_sub(a: u32, b: u32) -> u32 {
    if a >= b {
        (a - b) as u32
    } else {
        0
    }
}

/// The line of the token before position `i`, or zero for the first.
pub open spec fn prev_line(s: Seq<SemanticToken>, i: int) -> u32 {
    if i == 0 {
        0
    } else {
        s[i - 1].delta_line
    }
}

/// The column of the token before position `i`, or zero for the first.
pub open spec fn prev_start(s: Seq<SemanticToken>, i: int) -> u32 {
    if i == 0 {
        0
    } else {
        s[i - 1].delta_start
    }
}

/// Token `i` of `s` with its position made relative to the token before it:
/// the line difference, and the column difference on the same line or the
/// column itself on a new line.
pub open spec fn encode_one(s: Seq<SemanticToken>, i: int) -> SemanticToken {
    let dl = sat_sub(s[i].delta_line, prev_line(s, i));
    SemanticToken {
        delta_line: dl,
        delta_start: if dl == 0 {
            sat_sub(s[i].delta_start, prev_start(s, i))
        } else {
            s[i].delta_start
        },
        length: s[i].length,
        token_type: s[i].token_type,
        token_modifiers_bitset: s[i].token_modifiers_bitset,
    }
}

/// Every token of `s` made relative to the one before it.
pub open spec fn encode_relative(s: Seq<SemanticToken>) -> Seq<SemanticToken> {
    Seq::new(s.len(), |i: int| encode_one(s, i))
}

/// Sorts tokens by position and encodes each position relative to the token
/// before it.
pub fn encode_relative_tokens(tokens: Vec<SemanticToken>) -> (encoded: Vec<SemanticToken>)
    ensures
        encoded@ == encode_relative(sort_tokens(tokens@)),
{
    let sorted = sort_by_position(&tokens);
    let ghost s = sorted@;
    let mut last_line: u32 = 0;
    let mut last_start: u32 = 0;
    let mut encoded: Vec<SemanticToken> = Vec::new();
    let mut i: usize = 0;
    while i < sorted.len()
        invariant
            i <= sorted.len(),
            s == sorted@,
            last_line == prev_line(s, i as int),
            last_start == prev_start(s, i as int),
            encoded@ =~= encode_relative(s).take(i as int),
        decreases sorted.len() - i,
    {
        let token = sorted[i];
        let current_line = token.delta_line;
        let current_start = token.delta_start;
        let delta_line = current_line.saturating_sub(last_line);
        let delta_start = if delta_line == 0 {
            current_start.saturating_sub(last_start)
        } else {
            current_start
        };
        encoded.push(
            SemanticToken {
                delta_line,
                delta_start,
                length: token.length,
                token_type: token.token_type,
                token_modifiers_bitset: token.token_modifiers_bitset,
            },
        );
        last_line = current_line;
        last_start = current_start;
        i += 1;
    }
    encoded
}

/// Absolute positions recovered from relative ones by summing line deltas
/// and, within a line, column deltas.
pub open spec fn decode_positions(e: Seq<SemanticToken>) -> Seq<(int, int)>
    decreases e.len(),
{
    if e.len() == 0 {
        seq![]
    } else {
        let d = decode_positions(e.drop_last());
        let prev = if e.len() == 1 {
            (0int, 0int)
        } else {
            d.last()
        };
        let t = e.last();
        let line = prev.0 + t.delta_line;
        let start = if t.delta_line == 0 {
            prev.1 + t.delta_start
        } else {
            t.delta_start as int
        };
        d.push((line, start))
    }
}

/// The absolute positions of tokens.
pub open spec fn positions(s: Seq<SemanticToken>) -> Seq<(int, int)> {
    Seq::new(s.len(), |i: int| (s[i].delta_line as int, s[i].delta_start as int))
}

proof fn lemma_decode_prefix(s: Seq<SemanticToken>, n: int)
    requires
        is_sorted(s),
        0 <= n <= s.len(),
    ensures
        decode_positions(encode_relative(s).take(n)) == positions(s).take(n),
    decreases n,
{
    if n > 0 {
        lemma_decode_prefix(s, n - 1);
        let e = encode_relative(s).take(n);
        assert(e.drop_last() =~= encode_relative(s).take(n - 1));
        if n >= 2 {
            assert(key_le(s[n - 2], s[n - 1]));
        }
        assert(decode_positions(e) =~= positions(s).take(n));
    }
}

/// Law: delta encoding loses no position. Decoding what
/// `encode_relative_tokens` produces gives back the positions of the tokens
/// in sorted order, and that order is a sorted permutation of the input.
pub proof fn law_encode_decode_roundtrip(tokens: Seq<SemanticToken>)
    ensures
        decode_positions(encode_relative(sort_tokens(tokens))) == positions(sort_tokens(tokens)),
        is_sorted(sort_tokens(tokens)),
        sort_tokens(tokens).to_multiset() == tokens.to_multiset(),
        encode_relative(sort_tokens(tokens)).len() == tokens.len(),
{
    let s = sort_tokens(tokens);
    lemma_sort_tokens(tokens);
    lemma_decode_prefix(s, s.len() as int);
    assert(encode_relative(s).take(s.len() as int) =~= encode_relative(s));
    assert(positions(s).take(s.len() as int) =~= positions(s));
}

/// Whether the (absolute) token position lies within `range`, both ends
/// included.
pub open spec fn in_range(t: SemanticToken, range: Range) -> bool {
    &&& range.start.line <= t.delta_line <= range.end.line
    &&& !(t.delta_line == range.start.line && t.delta_start < range.start.character)
    &&& !(t.delta_line == range.end.line && t.delta_start > range.end.character)
}

/// The tokens of `s` that lie within `range`, in order.
pub open spec fn filter_range(s: Seq<SemanticToken>, range: Range) -> Seq<SemanticToken>
    decreases s.len(),
{
    if s.len() == 0 {
        s
    } else if in_range(s.last(), range) {
        filter_range(s.drop_last(), range).push(s.last())
    } else {
        filter_range(s.drop_last(), range)
    }
}

/// Keeps the tokens whose position lies within `range` and encodes them.
pub fn filter_tokens_by_range(tokens: Vec<SemanticToken>, range: Range) -> (r: Vec<SemanticToken>)
    ensures
        r@ == encode_relative(sort_tokens(filter_range(tokens@, range))),
{
    let mut filtered: Vec<SemanticToken> = Vec::new();
    let mut i: usize = 0;
    while i < tokens.len()
        invariant
            i <= tokens.len(),
            filtered@ == filter_range(tokens@.take(i as int), range),
        decreases tokens.len() - i,
    {
        let t = tokens[i];
        assert(tokens@.take(i as int + 1).drop_last() =~= tokens@.take(i as int));
        let line = t.delta_line;
        let col = t.delta_start;
        let keep = !(line < range.start.line || line > range.end.line) && !(line
            == range.start.line && col < range.start.character) && !(line == range.end.line && col
            > range.end.character);
        if keep {
            filtered.push(t);
        }
        i += 1;
    }
    assert(tokens@.take(tokens.len() as int) =~= tokens@);
    encode_relative_tokens(filtered)
}

proof fn lemma_filter_in_range(s: Seq<SemanticToken>, range: Range)
    ensures
        forall|i: int|
            0 <= i < filter_range(s, range).len() ==> in_range(#[trigger] filter_range(s, range)[i], range),
    decreases s.len(),
{
    if s.len() > 0 {
        lemma_filter_in_range(s.drop_last(), range);
        let p = filter_range(s.drop_last(), range);
        if in_range(s.last(), range) {
            assert forall|i: int| 0 <= i < p.push(s.last()).len() implies in_range(
                #[trigger] p.push(s.last())[i],
                range,
            ) by {
                if i < p.len() {
                    assert(p.push(s.last())[i] == p[i]);
                }
            }
        }
    }
}

/// Law: the tokens answered for a range decode to their own positions, in
/// order, and every one of them lies inside the range.
pub proof fn law_range_tokens_inside(tokens: Seq<SemanticToken>, range: Range)
    ensures
        decode_positions(encode_relative(sort_tokens(filter_range(tokens, range)))) == positions(
            sort_tokens(filter_range(tokens, range)),
        ),
        forall|i: int|
            0 <= i < sort_tokens(filter_range(tokens, range)).len() ==> in_range(
                #[trigger] sort_tokens(filter_range(tokens, range))[i],
                range,
            ),
{
    let f = filter_range(tokens, range);
    let s = sort_tokens(f);
    law_encode_decode_roundtrip(f);
    lemma_filter_in_range(tokens, range);
    assert forall|i: int| 0 <= i < s.len() implies in_range(#[trigger] s[i], range) by {
        vstd::seq_lib::to_multiset_contains(s, s[i]);
        vstd::seq_lib::to_multiset_contains(f, s[i]);
        assert(s.contains(s[i]));
        let k = choose|k: int| 0 <= k < f.len() && f[k] == s[i];
        assert(in_range(f[k], range));
    }
}

} // verus!
