//! Documents held as ropes, and the line structure the server relies on.
use vstd::prelude::*;
use ropey::Rope;

verus! {

#[verifier::external_type_specification]
#[verifier::external_body]
pub struct ExRope(Rope);

/// The characters a rope holds.
pub uninterp spec fn rope_text(r: Rope) -> Seq<char>;

/// The characters that end a line: LF, VT, FF, CR, NEL, LS and PS.
pub open spec fn is_break_char(c: char) -> bool {
    ||| c == '\n'
    ||| c == '\u{000B}'
    ||| c == '\u{000C}'
    ||| c == '\r'
    ||| c == '\u{0085}'
    ||| c == '\u{2028}'
    ||| c == '\u{2029}'
}

/// The length of the line break that starts at `i`: two for CR LF, one for
/// any other break character, zero where no break starts.
pub open spec fn break_len(s: Seq<char>, i: int) -> int {
    if s[i] == '\r' && i + 1 < s.len() && s[i + 1] == '\n' {
        2
    } else if is_break_char(s[i]) {
        1
    } else {
        0
    }
}

/// The index just after the first line break at or after `i`.
pub open spec fn first_break_end(s: Seq<char>, i: int) -> Option<int>
    decreases s.len() - i,
{
    if i < 0 || i >= s.len() {
        None
    } else if break_len(s, i) > 0 {
        Some(i + break_len(s, i))
    } else {
        first_break_end(s, i + 1)
    }
}

pub proof fn lemma_first_break_end(s: Seq<char>, i: int)
    requires
        0 <= i,
    ensures
        first_break_end(s, i) matches Some(e) ==> i < e <= s.len(),
    decreases s.len() - i,
{
    if i < s.len() && break_len(s, i) == 0 {
        lemma_first_break_end(s, i + 1);
    }
}

/// The lines of a text: every line but the last ends with its line break,
/// and a text always has at least one (possibly empty) line.
pub open spec fn text_lines(s: Seq<char>) -> Seq<Seq<char>>
    decreases s.len(),
{
    match first_break_end(s, 0) {
        None => seq![s],
        Some(e) => {
            proof {
                lemma_first_break_end(s, 0);
            }
            seq![s.take(e)] + text_lines(s.skip(e))
        },
    }
}

/// The number of lines of a rope.
///
/// Trusted: calls `Rope::len_lines`, which ropey documents (with its default
/// `unicode_lines` feature) as one more than the number of line breaks, CR LF
/// counting once.
#[verifier::external_body]
pub(crate) fn rope_len_lines(r: &Rope) -> (n: usize)
    ensures
        n == text_lines(rope_text(*r)).len(),
{
    r.len_lines()
}

/// Line `i` of a rope, with its line break.
///
/// Trusted: calls `Rope::line` and collects its characters; ropey documents
/// lines as ending after their break and panics past the last line, which
/// `requires` rules out.
#[verifier::external_body]
pub(crate) fn rope_line(r: &Rope, i: usize) -> (line: String)
    requires
        i < text_lines(rope_text(*r)).len(),
    ensures
        line@ == text_lines(rope_text(*r))[i as int],
{
    r.line(i).chars().collect()
}

/// All characters of a rope.
///
/// Trusted: collects `Rope::chars`, which iterates over the rope's characters.
#[verifier::external_body]
pub(crate) fn rope_string(r: &Rope) -> (s: String)
    ensures
        s@ == rope_text(*r),
{
    r.chars().collect()
}

/// A rope holding `text`.
///
/// Trusted: calls `Rope::from_str`, which ropey documents as creating a rope
/// from the string slice; the rope's characters are then the text's.
#[verifier::external_body]
pub(crate) fn rope_from_str(text: &str) -> (r: Rope)
    ensures
        rope_text(r) == text@,
{
    Rope::from_str(text)
}

} // verus!
