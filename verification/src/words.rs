//! Locating the identifier under the cursor and the dotted path before it.
use vstd::prelude::*;
use crate::strings::{chars_of, opt_str, string_from_chars};

verus! {

/// What `char::is_alphanumeric` returns for `c`.
pub uninterp spec fn char_is_alphanumeric(c: char) -> bool;

/// ASCII letters and digits.
pub open spec fn is_ascii_alphanumeric(c: char) -> bool {
    ||| (48 <= (c as u32) && (c as u32) <= 57)
    ||| (65 <= (c as u32) && (c as u32) <= 90)
    ||| (97 <= (c as u32) && (c as u32) <= 122)
}

/// Trusted: calls `char::is_alphanumeric`. Its documentation defines it as
/// "alphabetic or numeric" in the Unicode sense; on ASCII characters those
/// are exactly the letters and the decimal digits, which is all that is
/// stated here beyond naming the result.
#[verifier::external_body]
fn alphanumeric(c: char) -> (r: bool)
    ensures
        r == char_is_alphanumeric(c),
        (c as u32) < 128 ==> (r <==> is_ascii_alphanumeric(c)),
{
    c.is_alphanumeric()
}

/// A character that may occur in a P4 identifier: on ASCII, a letter, a
/// digit or `_`; beyond ASCII, what `char::is_alphanumeric` accepts.
pub open spec fn is_ident_char(c: char) -> bool {
    if (c as u32) < 128 {
        is_ascii_alphanumeric(c) || c == '_'
    } else {
        char_is_alphanumeric(c)
    }
}

/// A character that may occur in a dotted access path such as `hdr.eth`.
pub open spec fn is_path_char(c: char) -> bool {
    is_ident_char(c) || c == '.'
}

/// Whether `c` may occur in an identifier.
pub fn is_identifier_char(c: char) -> (r: bool)
    ensures
        r == is_ident_char(c),
{
    alphanumeric(c) || c == '_'
}

/// The start of the run of identifier characters that ends just before `i`.
pub open spec fn ident_run_start(s: Seq<char>, i: int) -> int
    decreases i,
{
    if 0 < i <= s.len() && is_ident_char(s[i - 1]) {
        ident_run_start(s, i - 1)
    } else {
        i
    }
}

/// The end of the run of identifier characters that starts at `i`.
pub open spec fn ident_run_end(s: Seq<char>, i: int) -> int
    decreases s.len() - i,
{
    if 0 <= i < s.len() && is_ident_char(s[i]) {
        ident_run_end(s, i + 1)
    } else {
        i
    }
}

/// The start of the run of path characters that ends just before `i`.
pub open spec fn path_run_start(s: Seq<char>, i: int) -> int
    decreases i,
{
    if 0 < i <= s.len() && is_path_char(s[i - 1]) {
        path_run_start(s, i - 1)
    } else {
        i
    }
}

/// The index of an identifier character at or right next to column `col`
/// (clamped to the last character), preferring the column itself, then the
/// character before it, then the one after it.
pub open spec fn snap_index(s: Seq<char>, col: int) -> Option<int> {
    let idx = if col >= s.len() { s.len() - 1 } else { col };
    if is_ident_char(s[idx]) {
        Some(idx)
    } else if idx > 0 && is_ident_char(s[idx - 1]) {
        Some(idx - 1)
    } else if idx + 1 < s.len() && is_ident_char(s[idx + 1]) {
        Some(idx + 1)
    } else {
        None
    }
}

/// The identifier under column `col` of the line `s`, if any.
pub open spec fn word_at(s: Seq<char>, col: int) -> Option<Seq<char>> {
    if s.len() == 0 {
        None
    } else {
        match snap_index(s, col) {
            None => None,
            Some(idx) => Some(s.subrange(ident_run_start(s, idx), ident_run_end(s, idx + 1))),
        }
    }
}

/// The dotted path written right before the identifier under column `col`,
/// without its final dot (`hdr.eth` for the cursor on `dst` in `hdr.eth.dst`).
pub open spec fn prefix_at(s: Seq<char>, col: int) -> Option<Seq<char>> {
    if s.len() == 0 {
        None
    } else {
        match snap_index(s, col) {
            None => None,
            Some(idx) => {
                let start = ident_run_start(s, idx);
                if start > 0 && s[start - 1] == '.' {
                    let pe = start - 1;
                    let ps = path_run_start(s, pe);
                    if ps < pe {
                        Some(s.subrange(ps, pe))
                    } else {
                        None
                    }
                } else {
                    None
                }
            },
        }
    }
}

/// The identifier that ends just before column `col`, when the character
/// right before `col` is a dot (the receiver of a member access being typed).
pub open spec fn dot_prefix_at(s: Seq<char>, col: int) -> Option<Seq<char>> {
    if col == 0 || col > s.len() || s[col - 1] != '.' {
        None
    } else {
        let end = col - 1;
        let start = ident_run_start(s, end);
        if start == end {
            None
        } else {
            Some(s.subrange(start, end))
        }
    }
}

/// The run that `ident_run_start` finds is made of identifier characters and
/// cannot be extended to the left.
pub proof fn lemma_ident_run_start(s: Seq<char>, i: int)
    requires
        0 <= i <= s.len(),
    ensures
        0 <= ident_run_start(s, i) <= i,
        forall|k: int| ident_run_start(s, i) <= k < i ==> is_ident_char(#[trigger] s[k]),
        ident_run_start(s, i) == 0 || !is_ident_char(s[ident_run_start(s, i) - 1]),
    decreases i,
{
    if 0 < i && is_ident_char(s[i - 1]) {
        lemma_ident_run_start(s, i - 1);
    }
}

/// The run that `ident_run_end` finds is made of identifier characters and
/// cannot be extended to the right.
pub proof fn lemma_ident_run_end(s: Seq<char>, i: int)
    requires
        0 <= i <= s.len(),
    ensures
        i <= ident_run_end(s, i) <= s.len(),
        forall|k: int| i <= k < ident_run_end(s, i) ==> is_ident_char(#[trigger] s[k]),
        ident_run_end(s, i) == s.len() || !is_ident_char(s[ident_run_end(s, i)]),
    decreases s.len() - i,
{
    if i < s.len() && is_ident_char(s[i]) {
        lemma_ident_run_end(s, i + 1);
    }
}

/// The run that `path_run_start` finds stays within the line.
pub proof fn lemma_path_run_start(s: Seq<char>, i: int)
    requires
        0 <= i <= s.len(),
    ensures
        0 <= path_run_start(s, i) <= i,
    decreases i,
{
    if 0 < i && is_path_char(s[i - 1]) {
        lemma_path_run_start(s, i - 1);
    }
}

/// Walks left from `i` over identifier characters.
fn scan_ident_start(chars: &Vec<char>, i: usize) -> (start: usize)
    requires
        i <= chars.len(),
    ensures
        start == ident_run_start(chars@, i as int),
{
    let mut start = i;
    while start > 0
        invariant
            start <= i <= chars.len(),
            ident_run_start(chars@, start as int) == ident_run_start(chars@, i as int),
        ensures
            ident_run_start(chars@, start as int) == start as int,
            ident_run_start(chars@, start as int) == ident_run_start(chars@, i as int),
        decreases start,
    {
        if !is_identifier_char(chars[start - 1]) {
            break;
        }
        start -= 1;
    }
    start
}

/// Walks right from `i` over identifier characters.
fn scan_ident_end(chars: &Vec<char>, i: usize) -> (end: usize)
    requires
        i <= chars.len(),
    ensures
        end == ident_run_end(chars@, i as int),
{
    let mut end = i;
    while end < chars.len()
        invariant
            i <= end <= chars.len(),
            ident_run_end(chars@, end as int) == ident_run_end(chars@, i as int),
        ensures
            ident_run_end(chars@, end as int) == end as int,
            ident_run_end(chars@, end as int) == ident_run_end(chars@, i as int),
        decreases chars.len() - end,
    {
        if !is_identifier_char(chars[end]) {
            break;
        }
        end += 1;
    }
    end
}

/// Walks left from `i` over identifier characters and dots.
fn scan_path_start(chars: &Vec<char>, i: usize) -> (start: usize)
    requires
        i <= chars.len(),
    ensures
        start == path_run_start(chars@, i as int),
{
    let mut start = i;
    while start > 0
        invariant
            start <= i <= chars.len(),
            path_run_start(chars@, start as int) == path_run_start(chars@, i as int),
        ensures
            path_run_start(chars@, start as int) == start as int,
            path_run_start(chars@, start as int) == path_run_start(chars@, i as int),
        decreases start,
    {
        let c = chars[start - 1];
        if !(is_identifier_char(c) || c == '.') {
            break;
        }
        start -= 1;
    }
    start
}

/// The identifier under column `col` of `line` and the dotted path before it.
///
/// The column is clamped to the last character and, when it does not sit on
/// an identifier character, moved to an identifier character right before or
/// after it. The word is the whole identifier there; the prefix is the run of
/// identifier characters and dots that precedes it, when a dot separates them.
pub fn extract_word_and_prefix(line: &str, col: usize) -> (r: (Option<String>, Option<String>))
    ensures
        opt_str(r.0) == word_at(line@, col as int),
        opt_str(r.1) == prefix_at(line@, col as int),
        r.0 is None ==> r.1 is None,
        r.0 matches Some(w) ==> w@.len() > 0 && forall|k: int|
            0 <= k < w@.len() ==> is_ident_char(#[trigger] w@[k]),
{
    let chars = chars_of(line);
    if chars.len() == 0 {
        return (None, None);
    }
    let ghost s = chars@;
    let n = chars.len();
    let mut idx = col;
    if idx >= n {
        idx = n - 1;
    }
    if !is_identifier_char(chars[idx]) {
        if idx > 0 && is_identifier_char(chars[idx - 1]) {
            idx -= 1;
        } else if idx + 1 < n && is_identifier_char(chars[idx + 1]) {
            idx += 1;
        } else {
            return (None, None);
        }
    }
    assert(snap_index(s, col as int) == Some(idx as int));
    let start = scan_ident_start(&chars, idx);
    let end = scan_ident_end(&chars, idx + 1);
    proof {
        lemma_ident_run_start(s, idx as int);
        lemma_ident_run_end(s, idx as int + 1);
    }
    let word = string_from_chars(&chars.as_slice()[start..end]);
    assert(word@ =~= s.subrange(start as int, end as int));
    assert forall|k: int| 0 <= k < word@.len() implies is_ident_char(#[trigger] word@[k]) by {
        assert(word@[k] == s[start + k]);
        if start + k < idx {
        } else if start + k == idx {
        } else {
        }
    }
    let mut prefix: Option<String> = None;
    if start > 0 && chars[start - 1] == '.' {
        let prefix_end = start - 1;
        let prefix_start = scan_path_start(&chars, prefix_end);
        proof {
            lemma_path_run_start(s, prefix_end as int);
        }
        if prefix_start < prefix_end {
            let p = string_from_chars(&chars.as_slice()[prefix_start..prefix_end]);
            assert(p@ =~= s.subrange(prefix_start as int, prefix_end as int));
            prefix = Some(p);
        }
    }
    (Some(word), prefix)
}

/// The receiver identifier before a dot typed right before column `col`.
pub fn get_dot_prefix(line: &str, col: usize) -> (r: Option<String>)
    ensures
        opt_str(r) == dot_prefix_at(line@, col as int),
{
    let chars = chars_of(line);
    if col == 0 || col > chars.len() {
        return None;
    }
    let search_col = col - 1;
    if chars[search_col] != '.' {
        return None;
    }
    let end = search_col;
    let start = scan_ident_start(&chars, end);
    proof {
        lemma_ident_run_start(chars@, end as int);
    }
    if start == end {
        return None;
    }
    let p = string_from_chars(&chars.as_slice()[start..end]);
    assert(p@ =~= chars@.subrange(start as int, end as int));
    Some(p)
}

} // verus!
