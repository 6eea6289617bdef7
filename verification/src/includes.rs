//! `#include` directives: where an included file is, and going to it.
use vstd::prelude::*;
use crate::config::{is_absolute_path, resolved_path};
use crate::definition::{file_url, url_from_file_path};
use crate::highlight::str_len;
use crate::protocol::{Location, Position, Range};
use crate::scope::{find_chars, find_sub};
use crate::server::Document;
use crate::strings::{chars_of, opt_str, owned, string_from_chars};
use crate::text::{rope_len_lines, rope_line, rope_text, text_lines};

verus! {

/// What `char::is_whitespace` returns for `c`.
pub uninterp spec fn char_is_whitespace(c: char) -> bool;

/// The ASCII characters with the Unicode `White_Space` property: tab, line
/// feed, vertical tab, form feed, carriage return and space.
pub open spec fn is_ascii_white(c: char) -> bool {
    ||| (9 <= (c as u32) && (c as u32) <= 13)
    ||| c == ' '
}

/// White space: on ASCII, tab, line feed, vertical tab, form feed, carriage
/// return and space; beyond ASCII, what `char::is_whitespace` accepts.
pub open spec fn is_white(c: char) -> bool {
    if (c as u32) < 128 {
        is_ascii_white(c)
    } else {
        char_is_whitespace(c)
    }
}

/// Trusted: calls `char::is_whitespace`, which std documents as the Unicode
/// `White_Space` property. Of that property only its ASCII part is stated.
#[verifier::external_body]
fn white_space(c: char) -> (r: bool)
    ensures
        r == char_is_whitespace(c),
        (c as u32) < 128 ==> (r <==> is_ascii_white(c)),
{
    c.is_whitespace()
}

/// The first index at or after `i` that does not hold white space.
pub open spec fn ws_end(s: Seq<char>, i: int) -> int
    decreases s.len() - i,
{
    if 0 <= i < s.len() && is_white(s[i]) {
        ws_end(s, i + 1)
    } else {
        i
    }
}

/// The start of the run of white space that ends at `j`.
pub open spec fn ws_start(s: Seq<char>, j: int) -> int
    decreases j,
{
    if 0 < j <= s.len() && is_white(s[j - 1]) {
        ws_start(s, j - 1)
    } else {
        j
    }
}

/// `s` without its leading white space, as `str::trim_start` gives it.
pub open spec fn trim_start(s: Seq<char>) -> Seq<char> {
    s.skip(ws_end(s, 0))
}

/// `s` without its trailing white space, as `str::trim_end` gives it.
pub open spec fn trim_end(s: Seq<char>) -> Seq<char> {
    s.take(ws_start(s, s.len() as int))
}

/// `s` without white space at either end, as `str::trim` gives it.
pub open spec fn trim(s: Seq<char>) -> Seq<char> {
    trim_end(trim_start(s))
}

proof fn lemma_ws_end(s: Seq<char>, i: int)
    requires
        0 <= i <= s.len(),
    ensures
        i <= ws_end(s, i) <= s.len(),
    decreases s.len() - i,
{
    if i < s.len() && is_white(s[i]) {
        lemma_ws_end(s, i + 1);
    }
}

proof fn lemma_ws_start(s: Seq<char>, j: int)
    requires
        0 <= j <= s.len(),
    ensures
        0 <= ws_start(s, j) <= j,
    decreases j,
{
    if 0 < j && is_white(s[j - 1]) {
        lemma_ws_start(s, j - 1);
    }
}

/// Skips white space rightwards from `i`.
fn skip_white(v: &Vec<char>, i: usize) -> (r: usize)
    requires
        i <= v.len(),
    ensures
        r == ws_end(v@, i as int),
        i <= r <= v.len(),
{
    proof {
        lemma_ws_end(v@, i as int);
    }
    let mut k = i;
    while k < v.len()
        invariant
            i <= k <= v.len(),
            ws_end(v@, k as int) == ws_end(v@, i as int),
        ensures
            ws_end(v@, k as int) == k,
            ws_end(v@, k as int) == ws_end(v@, i as int),
        decreases v.len() - k,
    {
        if !white_space(v[k]) {
            break;
        }
        k += 1;
    }
    k
}

/// Skips white space leftwards from `j`.
fn back_white(v: &Vec<char>, j: usize) -> (r: usize)
    requires
        j <= v.len(),
    ensures
        r == ws_start(v@, j as int),
        r <= j,
{
    let mut k = j;
    while k > 0
        invariant
            k <= j <= v.len(),
            ws_start(v@, k as int) == ws_start(v@, j as int),
        ensures
            ws_start(v@, k as int) == k,
            ws_start(v@, k as int) == ws_start(v@, j as int),
        decreases k,
    {
        if !white_space(v[k - 1]) {
            break;
        }
        k -= 1;
    }
    k
}

/// The characters of `v` from `a` up to `b`.
pub(crate) fn sub_chars(v: &Vec<char>, a: usize, b: usize) -> (r: Vec<char>)
    requires
        a <= b <= v.len(),
    ensures
        r@ == v@.subrange(a as int, b as int),
{
    let mut r: Vec<char> = Vec::new();
    let mut k = a;
    while k < b
        invariant
            a <= k <= b <= v.len(),
            r@ == v@.subrange(a as int, k as int),
        decreases b - k,
    {
        r.push(v[k]);
        assert(v@.subrange(a as int, k + 1) =~= v@.subrange(a as int, k as int).push(v@[k as int]));
        k += 1;
    }
    r
}

/// The directive word that starts an `#include` line.
pub open spec fn include_word() -> Seq<char> {
    seq!['#', 'i', 'n', 'c', 'l', 'u', 'd', 'e']
}

/// The path an `#include` line names, between `<` and `>` or between two
/// double quotes, once white space is trimmed around the directive and
/// around its argument.
pub open spec fn include_path_of(line: Seq<char>) -> Option<Seq<char>> {
    let t = trim_start(line);
    if !(t.len() >= 8 && t.take(8) == include_word()) {
        None
    } else {
        let sec = trim(t.skip(8));
        if sec.len() > 0 && sec[0] == '<' {
            match find_sub(sec, seq!['>']) {
                Some(e) => Some(sec.subrange(1, e)),
                None => None,
            }
        } else if sec.len() > 0 && sec[0] == '"' {
            match find_sub(sec.skip(1), seq!['"']) {
                Some(e) => Some(sec.subrange(1, e + 1)),
                None => None,
            }
        } else {
            None
        }
    }
}

/// What `Path::parent` returns for `p`.
pub uninterp spec fn path_parent(p: Seq<char>) -> Option<Seq<char>>;

/// The parent directory of a path.
///
/// Trusted: calls `Path::parent` and renders the result as a string; for a
/// path made from a `&str` that rendering loses nothing. std documents that
/// an empty path has no parent; beyond that the result is named.
#[verifier::external_body]
pub(crate) fn parent_path(p: &str) -> (r: Option<String>)
    ensures
        opt_str(r) == path_parent(p@),
        p@.len() == 0 ==> r is None,
{
    std::path::Path::new(p).parent().map(|q| q.to_string_lossy().to_string())
}


/// The directory that includes are looked up in: the parent, or `.` when
/// there is none.
pub open spec fn dir_or_dot(parent: Option<Seq<char>>) -> Seq<char> {
    match parent {
        Some(p) => p,
        None => seq!['.'],
    }
}

/// Where an `#include` of `inc` written in a file with parent directory
/// `parent` points: an absolute path as it is, a relative one joined onto
/// that directory.
pub open spec fn include_target(parent: Option<Seq<char>>, inc: Seq<char>) -> Seq<char> {
    resolved_path(dir_or_dot(parent), inc)
}

/// Law: an `#include` of an absolute path points at that path; one of a
/// relative path points under the directory of the including file (`.`
/// when it has none): that directory, then the included path at the end.
pub proof fn law_include_target(parent: Option<Seq<char>>, inc: Seq<char>)
    ensures
        is_absolute_path(inc) ==> include_target(parent, inc) == inc,
        !is_absolute_path(inc) ==> include_target(parent, inc).take(
            (match parent {
                Some(d) => d,
                None => seq!['.'],
            }).len() as int,
        ) == (match parent {
            Some(d) => d,
            None => seq!['.'],
        }),
        !is_absolute_path(inc) ==> include_target(parent, inc).skip(include_target(parent, inc).len() - inc.len())
            == inc,
{
    crate::config::law_resolved_path(dir_or_dot(parent), inc);
}

/// Where an `#include` points, given the parent directory of the including
/// file (as `Path::parent` reports it).
pub fn include_target_from(parent: Option<String>, inc: &str) -> (r: String)
    ensures
        r@ == include_target(opt_str(parent), inc@),
{
    let dir = match parent {
        Some(p) => p,
        None => owned("."),
    };
    proof {
        reveal_strlit(".");
    }
    assert(opt_str(parent) is None ==> dir@ =~= seq!['.']);
    crate::config::resolve_path(dir.as_str(), inc)
}

/// The path an inc written in `current_file` refers to: `inc` when
/// it is absolute, else `inc` joined onto the directory of
/// `current_file` (or onto `.` when that has none).
pub fn resolve_include_path(current_file: &str, inc: &str) -> (r: Option<String>)
    ensures
        r matches Some(p) && p@ == include_target(path_parent(current_file@), inc@),
{
    let inc_chars = chars_of(inc);
    if inc_chars.len() > 0 && inc_chars[0] == '/' {
        assert(is_absolute_path(inc@));
        return Some(owned(inc));
    }
    let parent = parent_path(current_file);
    Some(include_target_from(parent, inc))
}

/// What `Url::path` returns for the URL written `uri`, or none when the text
/// is no URL.
pub uninterp spec fn url_path(uri: Seq<char>) -> Option<Seq<char>>;

/// The path of the URL written `uri`.
///
/// Trusted: calls `Url::parse` and, when it succeeds, `Url::path`. The
/// result is named, as a function of the text alone.
#[verifier::external_body]
fn uri_file_path(uri: &str) -> (r: Option<String>)
    ensures
        opt_str(r) == url_path(uri@),
{
    match tower_lsp::lsp_types::Url::parse(uri) {
        Ok(u) => Some(u.path().to_string()),
        Err(_) => None,
    }
}

/// Where the `#inc` on the line at `position` leads: the URL of the
/// included file, and the range of the included path on the line. The
/// columns count UTF-8 bytes from the first character that is not white
/// space, plus one.
pub open spec fn include_location(uri: Seq<char>, text: Seq<char>, position: Position) -> Option<(Seq<char>, Range)> {
    let lines = text_lines(text);
    let li = position.line as int;
    if li >= lines.len() {
        None
    } else {
        let line = lines[li];
        match include_path_of(line) {
            None => None,
            Some(path) => match url_path(uri) {
                None => None,
                Some(file) => {
                    let target = include_target(path_parent(file), path);
                    if !is_absolute_path(target) {
                        None
                    } else {
                        let t = trim_start(line);
                        match find_sub(t, path) {
                            None => None,
                            Some(k) => {
                                let col = str_len(t.take(k)) + 1;
                                Some(
                                    (
                                        file_url(target),
                                        Range {
                                            start: Position { line: position.line, character: col as u32 },
                                            end: Position {
                                                line: position.line,
                                                character: (col + str_len(path)) as u32,
                                            },
                                        },
                                    ),
                                )
                            },
                        }
                    }
                },
            },
        }
    }
}

proof fn lemma_wrap_add(x: usize, y: usize)
    ensures
        vstd::wrapping::u32_specs::wrapping_add(x as u32, y as u32) == ((x + y) as u32),
{
    assert(vstd::wrapping::u32_specs::wrapping_add(x as u32, y as u32) == ((x + y) as u32)) by (bit_vector);
}

proof fn lemma_wrap_add3(x: usize, y: usize)
    ensures
        vstd::wrapping::u32_specs::wrapping_add(
            vstd::wrapping::u32_specs::wrapping_add(x as u32, 1u32),
            y as u32,
        ) == ((x + 1 + y) as u32),
{
    assert(vstd::wrapping::u32_specs::wrapping_add(
        vstd::wrapping::u32_specs::wrapping_add(x as u32, 1u32),
        y as u32,
    ) == ((x + 1 + y) as u32)) by (bit_vector);
}

/// The included path on an `#inc` line.
fn include_path_in(chars: &Vec<char>) -> (r: Option<Vec<char>>)
    ensures
        match r {
            Some(p) => include_path_of(chars@) == Some(p@),
            None => include_path_of(chars@) is None,
        },
{
    let ghost s = chars@;
    let a = skip_white(chars, 0);
    let t = sub_chars(chars, a, chars.len());
    assert(t@ =~= trim_start(s));
    if t.len() < 8 {
        return None;
    }
    let word = vec!['#', 'i', 'n', 'c', 'l', 'u', 'd', 'e'];
    let mut k: usize = 0;
    while k < 8
        invariant
            k <= 8 <= t.len(),
            word@ == include_word(),
            s == chars@,
            t@ == trim_start(s),
            forall|m: int| 0 <= m < k ==> t@[m] == include_word()[m],
        decreases 8 - k,
    {
        if t[k] != word[k] {
            assert(t@.take(8)[k as int] != include_word()[k as int]);
            assert(trim_start(s).take(8) != include_word());
            assert(include_path_of(s) is None);
            return None;
        }
        k += 1;
    }
    assert(t@.take(8) =~= include_word());
    let u = sub_chars(&t, 8, t.len());
    assert(u@ =~= t@.skip(8));
    let b = skip_white(&u, 0);
    let v = sub_chars(&u, b, u.len());
    assert(v@ =~= trim_start(u@));
    proof {
        lemma_ws_start(v@, v@.len() as int);
    }
    let e = back_white(&v, v.len());
    let sec = sub_chars(&v, 0, e);
    assert(sec@ =~= trim(t@.skip(8)));
    if sec.len() > 0 && sec[0] == '<' {
        let close = vec!['>'];
        assert(close@ =~= seq!['>']);
        match find_chars(&sec, &close) {
            Some(end) => {
                proof {
                    crate::scope::lemma_find_from(sec@, close@, 0);
                    crate::scope::lemma_find_from(sec@, close@, 1);
                    if end == 0 {
                        // the first character is `<`, not `>`
                        assert(crate::scope::occurs_at(sec@, close@, 0));
                        assert(sec@.subrange(0, 1)[0] == sec@[0]);
                    }
                }
                Some(sub_chars(&sec, 1, end))
            },
            None => None,
        }
    } else if sec.len() > 0 && sec[0] == '"' {
        let rest = sub_chars(&sec, 1, sec.len());
        assert(rest@ =~= sec@.skip(1));
        let quote = vec!['"'];
        assert(quote@ =~= seq!['"']);
        match find_chars(&rest, &quote) {
            Some(end) => {
                proof {
                    crate::scope::lemma_find_from(rest@, quote@, 0);
                }
                Some(sub_chars(&sec, 1, end + 1))
            },
            None => None,
        }
    } else {
        None
    }
}

/// The location an `#inc` line leads to, when the cursor is on one.
pub fn get_include_location(doc: &Document, position: Position) -> (r: Option<Location>)
    ensures
        match r {
            Some(l) => include_location(doc.uri@, rope_text(doc.content), position) == Some(
                (l.uri@, l.range),
            ),
            None => include_location(doc.uri@, rope_text(doc.content), position) is None,
        },
{
    let line_idx = position.line as usize;
    if line_idx >= rope_len_lines(&doc.content) {
        return None;
    }
    let line_str = rope_line(&doc.content, line_idx);
    let chars = chars_of(line_str.as_str());
    let path = match include_path_in(&chars) {
        Some(p) => p,
        None => return None,
    };
    let filename = match uri_file_path(doc.uri.as_str()) {
        Some(f) => f,
        None => return None,
    };
    let path_str = string_from_chars(path.as_slice());
    let target = match resolve_include_path(filename.as_str(), path_str.as_str()) {
        Some(t) => t,
        None => return None,
    };
    let include_uri = match url_from_file_path(target.as_str()) {
        Some(u) => u,
        None => return None,
    };
    let a = skip_white(&chars, 0);
    let t = sub_chars(&chars, a, chars.len());
    assert(t@ =~= trim_start(chars@));
    let k = match find_chars(&t, &path) {
        Some(k) => k,
        None => return None,
    };
    proof {
        crate::scope::lemma_find_from(t@, path@, 0);
    }
    let prefix = string_from_chars(&t.as_slice()[0..k]);
    assert(prefix@ =~= t@.take(k as int));
    let bytes = prefix.as_str().len();
    let plen = path_str.as_str().len();
    proof {
        lemma_wrap_add(bytes, 1);
        lemma_wrap_add3(bytes, plen);
    }
    let start = (bytes as u32).wrapping_add(1u32);
    let end = start.wrapping_add(plen as u32);
    let line = position.line;
    Some(
        Location {
            uri: include_uri,
            range: Range {
                start: Position { line, character: start },
                end: Position { line, character: end },
            },
        },
    )
}

} // verus!
