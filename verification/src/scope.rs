//! Which control or parser encloses a line, and the types of names seen
//! from there.
use vstd::prelude::*;
use ropey::Rope;
use crate::ast::{
    copy_type, find_named, first_named, Ast, Control, Parser, Type, TypeKind,
};
use crate::strings::{chars_of, concat_str, string_from_chars};
use crate::protocol::Position;
use crate::text::{rope_string, rope_text};

verus! {

/// Whether `n` occurs in `h` at index `k`.
pub open spec fn occurs_at(h: Seq<char>, n: Seq<char>, k: int) -> bool {
    0 <= k && k + n.len() <= h.len() && h.subrange(k, k + n.len()) == n
}

/// The first index at or after `k` where `n` occurs in `h`.
pub open spec fn find_from(h: Seq<char>, n: Seq<char>, k: int) -> Option<int>
    decreases h.len() - k + 1,
{
    if k < 0 || k + n.len() > h.len() {
        None
    } else if occurs_at(h, n, k) {
        Some(k)
    } else {
        find_from(h, n, k + 1)
    }
}

/// The first index where `n` occurs in `h`.
pub open spec fn find_sub(h: Seq<char>, n: Seq<char>) -> Option<int> {
    find_from(h, n, 0)
}

/// The number of occurrences of `c` in `s`.
pub open spec fn count_char(s: Seq<char>, c: char) -> nat
    decreases s.len(),
{
    if s.len() == 0 {
        0
    } else {
        count_char(s.drop_last(), c) + if s.last() == c {
            1nat
        } else {
            0nat
        }
    }
}

/// The line on which the block that starts in `rem` closes: lines are
/// counted from `line`, braces from `count`; the block closes at the first
/// `}` that brings the count back to zero after some `{` was seen, or at the
/// end of the text.
pub open spec fn block_end_line(rem: Seq<char>, i: int, count: int, line: int, found: bool) -> int
    decreases rem.len() - i,
{
    if i < 0 || i >= rem.len() {
        line
    } else {
        let c = rem[i];
        if c == '{' {
            block_end_line(rem, i + 1, count + 1, line, true)
        } else if c == '}' {
            if found && count - 1 == 0 {
                line
            } else {
                block_end_line(rem, i + 1, count - 1, line, found)
            }
        } else if c == '\n' {
            block_end_line(rem, i + 1, count, line + 1, found)
        } else {
            block_end_line(rem, i + 1, count, line, found)
        }
    }
}

/// Whether line `target` lies between the line where `pattern` first occurs
/// in `text` and the line where the block after it closes.
pub open spec fn in_block(text: Seq<char>, pattern: Seq<char>, target: int) -> bool {
    match find_sub(text, pattern) {
        None => false,
        Some(p) => {
            let sl = count_char(text.take(p), '\n') as int;
            sl <= target <= block_end_line(text.skip(p), 0, 0, sl, false)
        },
    }
}

/// Whether line `target` of `text` lies in the declaration of control `c`.
pub open spec fn in_control(c: Control, text: Seq<char>, target: int) -> bool {
    in_block(text, "control "@ + c.name@, target)
}

/// Whether line `target` of `text` lies in the declaration of parser `p`.
pub open spec fn in_parser(p: Parser, text: Seq<char>, target: int) -> bool {
    in_block(text, "parser "@ + p.name@, target)
}

pub proof fn lemma_find_from(h: Seq<char>, n: Seq<char>, k: int)
    requires
        0 <= k,
    ensures
        find_from(h, n, k) matches Some(j) ==> k <= j && j + n.len() <= h.len(),
    decreases h.len() - k + 1,
{
    if k + n.len() <= h.len() && !occurs_at(h, n, k) {
        lemma_find_from(h, n, k + 1);
    }
}

pub proof fn lemma_count_char(s: Seq<char>, c: char)
    ensures
        count_char(s, c) <= s.len(),
    decreases s.len(),
{
    if s.len() > 0 {
        lemma_count_char(s.drop_last(), c);
    }
}

/// Whether `n` occurs in `h` at `k`.
fn matches_at(h: &Vec<char>, n: &Vec<char>, k: usize) -> (r: bool)
    requires
        k + n.len() <= h.len(),
    ensures
        r == occurs_at(h@, n@, k as int),
{
    let mut j: usize = 0;
    while j < n.len()
        invariant
            j <= n.len(),
            k + n.len() <= h.len(),
            forall|m: int| 0 <= m < j ==> h@[k + m] == n@[m],
        decreases n.len() - j,
    {
        if h[k + j] != n[j] {
            assert(h@.subrange(k as int, k + n.len())[j as int] != n@[j as int]);
            return false;
        }
        j += 1;
    }
    assert(h@.subrange(k as int, k + n.len()) =~= n@);
    true
}

/// The first index where `n` occurs in `h`.
pub(crate) fn find_chars(h: &Vec<char>, n: &Vec<char>) -> (r: Option<usize>)
    ensures
        match r {
            Some(k) => find_sub(h@, n@) == Some(k as int),
            None => find_sub(h@, n@) is None,
        },
{
    if n.len() > h.len() {
        return None;
    }
    let last = h.len() - n.len();
    let mut k: usize = 0;
    while k <= last
        invariant
            last == h.len() - n.len(),
            n.len() <= h.len(),
            find_from(h@, n@, k as int) == find_sub(h@, n@),
        decreases last + 1 - k,
    {
        if matches_at(h, n, k) {
            return Some(k);
        }
        if k == last {
            assert(find_from(h@, n@, k as int + 1) is None);
            return None;
        }
        k += 1;
    }
    None
}

/// Whether line `target_line` lies in the block that follows the first
/// occurrence of `pattern` in `text`.
fn is_position_in_block(text: &Vec<char>, pattern: &Vec<char>, target_line: usize) -> (r: bool)
    ensures
        r == in_block(text@, pattern@, target_line as int),
{
    let start_pos = match find_chars(text, pattern) {
        None => return false,
        Some(p) => p,
    };
    proof {
        lemma_find_from(text@, pattern@, 0);
    }
    let ghost t = text@;
    let ghost rem = t.skip(start_pos as int);
    let mut start_line: usize = 0;
    let mut i: usize = 0;
    while i < start_pos
        invariant
            i <= start_pos <= t.len(),
            t == text@,
            start_line == count_char(t.take(i as int), '\n'),
            start_line <= i,
        decreases start_pos - i,
    {
        assert(t.take(i as int + 1).drop_last() =~= t.take(i as int));
        if text[i] == '\n' {
            start_line += 1;
        }
        i += 1;
    }
    let mut brace_count: i128 = 0;
    let mut end_line: usize = start_line;
    let mut found_open = false;
    let mut j: usize = start_pos;
    while j < text.len()
        invariant
            start_pos <= j <= text.len(),
            t == text@,
            rem == t.skip(start_pos as int),
            start_line <= start_pos,
            end_line <= j,
            -(j as int) <= brace_count <= j as int,
            block_end_line(rem, j - start_pos, brace_count as int, end_line as int, found_open)
                == block_end_line(rem, 0, 0, start_line as int, false),
        ensures
            end_line as int == block_end_line(rem, 0, 0, start_line as int, false),
        decreases text.len() - j,
    {
        let c = text[j];
        assert(rem[j - start_pos] == c);
        if c == '{' {
            brace_count += 1;
            found_open = true;
        } else if c == '}' {
            if found_open && brace_count == 1 {
                break;
            }
            brace_count -= 1;
        } else if c == '\n' {
            end_line += 1;
        }
        j += 1;
    }
    start_line <= target_line && target_line <= end_line
}

/// Whether line `target_line` of the document lies in the declaration of
/// `control`.
pub fn is_position_in_control(control: &Control, content: &Rope, target_line: usize) -> (r: bool)
    ensures
        r == in_control(*control, rope_text(*content), target_line as int),
{
    let content_str = rope_string(content);
    let pattern = concat_str("control ", control.name.as_str());
    is_position_in_block(&chars_of(content_str.as_str()), &chars_of(pattern.as_str()), target_line)
}

/// Whether line `target_line` of the document lies in the declaration of
/// `parser`.
pub fn is_position_in_parser(parser: &Parser, content: &Rope, target_line: usize) -> (r: bool)
    ensures
        r == in_parser(*parser, rope_text(*content), target_line as int),
{
    let content_str = rope_string(content);
    let pattern = concat_str("parser ", parser.name.as_str());
    is_position_in_block(&chars_of(content_str.as_str()), &chars_of(pattern.as_str()), target_line)
}

/// A control or parser of the program, by index.
#[derive(Clone, Copy, Debug, PartialEq, Eq, Structural)]
pub enum Scope {
    Control(usize),
    Parser(usize),
}

/// The first control at or after `i` whose declaration spans line `line`.
pub open spec fn control_from(cs: Seq<Control>, text: Seq<char>, line: int, i: int) -> Option<int>
    decreases cs.len() - i,
{
    if i < 0 || i >= cs.len() {
        None
    } else if in_control(cs[i], text, line) {
        Some(i)
    } else {
        control_from(cs, text, line, i + 1)
    }
}

/// The first parser at or after `i` whose declaration spans line `line`.
pub open spec fn parser_from(ps: Seq<Parser>, text: Seq<char>, line: int, i: int) -> Option<int>
    decreases ps.len() - i,
{
    if i < 0 || i >= ps.len() {
        None
    } else if in_parser(ps[i], text, line) {
        Some(i)
    } else {
        parser_from(ps, text, line, i + 1)
    }
}

/// The scope enclosing line `line`: the first control that spans it, or
/// else the first parser that does.
pub open spec fn enclosing_scope(ast: Ast, text: Seq<char>, line: int) -> Option<Scope> {
    match control_from(ast.controls@, text, line, 0) {
        Some(i) => Some(Scope::Control(i as usize)),
        None => match parser_from(ast.parsers@, text, line, 0) {
            Some(i) => Some(Scope::Parser(i as usize)),
            None => None,
        },
    }
}

/// The scope is one of the program's controls or parsers.
pub open spec fn scope_valid(ast: Ast, s: Option<Scope>) -> bool {
    match s {
        Some(Scope::Control(i)) => i < ast.controls@.len(),
        Some(Scope::Parser(i)) => i < ast.parsers@.len(),
        None => true,
    }
}

proof fn lemma_control_from(cs: Seq<Control>, text: Seq<char>, line: int, i: int)
    requires
        0 <= i,
    ensures
        control_from(cs, text, line, i) matches Some(j) ==> i <= j < cs.len(),
    decreases cs.len() - i,
{
    if i < cs.len() && !in_control(cs[i], text, line) {
        lemma_control_from(cs, text, line, i + 1);
    }
}

proof fn lemma_parser_from(ps: Seq<Parser>, text: Seq<char>, line: int, i: int)
    requires
        0 <= i,
    ensures
        parser_from(ps, text, line, i) matches Some(j) ==> i <= j < ps.len(),
    decreases ps.len() - i,
{
    if i < ps.len() && !in_parser(ps[i], text, line) {
        lemma_parser_from(ps, text, line, i + 1);
    }
}

/// The control or parser whose declaration spans the line of `position`.
pub fn find_enclosing_scope(ast: &Ast, content: &Rope, position: Position) -> (r: Option<Scope>)
    ensures
        r == enclosing_scope(*ast, rope_text(*content), position.line as int),
        scope_valid(*ast, r),
{
    let target_line = position.line as usize;
    proof {
        lemma_control_from(ast.controls@, rope_text(*content), position.line as int, 0);
        lemma_parser_from(ast.parsers@, rope_text(*content), position.line as int, 0);
    }
    let mut i: usize = 0;
    while i < ast.controls.len()
        invariant
            i <= ast.controls@.len(),
            target_line == position.line,
            control_from(ast.controls@, rope_text(*content), position.line as int, i as int)
                == control_from(ast.controls@, rope_text(*content), position.line as int, 0),
        decreases ast.controls@.len() - i,
    {
        if is_position_in_control(&ast.controls[i], content, target_line) {
            return Some(Scope::Control(i));
        }
        i += 1;
    }
    let mut i: usize = 0;
    while i < ast.parsers.len()
        invariant
            i <= ast.parsers@.len(),
            target_line == position.line,
            control_from(ast.controls@, rope_text(*content), position.line as int, 0) is None,
            parser_from(ast.parsers@, rope_text(*content), position.line as int, i as int)
                == parser_from(ast.parsers@, rope_text(*content), position.line as int, 0),
        decreases ast.parsers@.len() - i,
    {
        if is_position_in_parser(&ast.parsers[i], content, target_line) {
            return Some(Scope::Parser(i));
        }
        i += 1;
    }
    None
}

/// The type tables have.
pub open spec fn table_type(ast: Ast) -> Type {
    Type { kind: TypeKind::Table, text: ast.table_type_text }
}

/// The type that names the declaration called `name`.
pub open spec fn named_type(name: String) -> Type {
    Type { kind: TypeKind::UserDefined(name), text: name }
}

/// The type of `name` among the parameters, variables and tables of a
/// scope.
pub open spec fn scope_var_type(ast: Ast, name: Seq<char>, scope: Option<Scope>) -> Option<Type> {
    match scope {
        Some(Scope::Control(i)) => {
            let c = ast.controls@[i as int];
            match first_named(c.parameters@, name) {
                Some(j) => Some(c.parameters@[j].ty),
                None => match first_named(c.variables@, name) {
                    Some(j) => Some(c.variables@[j].ty),
                    None => match first_named(c.tables@, name) {
                        Some(_) => Some(table_type(ast)),
                        None => None,
                    },
                },
            }
        },
        Some(Scope::Parser(i)) => {
            let p = ast.parsers@[i as int];
            match first_named(p.parameters@, name) {
                Some(j) => Some(p.parameters@[j].ty),
                None => None,
            }
        },
        None => None,
    }
}

/// The type of the variable `name` seen from line `line`: a name of the
/// enclosing scope, or else the struct, header or extern of that name.
pub open spec fn variable_type(ast: Ast, name: Seq<char>, text: Seq<char>, line: int) -> Option<Type> {
    match scope_var_type(ast, name, enclosing_scope(ast, text, line)) {
        Some(t) => Some(t),
        None => match first_named(ast.structs@, name) {
            Some(j) => Some(named_type(ast.structs@[j].name)),
            None => match first_named(ast.headers@, name) {
                Some(j) => Some(named_type(ast.headers@[j].name)),
                None => match first_named(ast.externs@, name) {
                    Some(j) => Some(named_type(ast.externs@[j].name)),
                    None => None,
                },
            },
        },
    }
}

/// A type that names a declaration.
fn make_named_type(name: &String) -> (t: Type)
    ensures
        t == named_type(*name),
{
    Type { kind: TypeKind::UserDefined(name.clone()), text: name.clone() }
}

/// The type of `name` in scope `scope`.
fn find_scope_var_type(ast: &Ast, name: &str, scope: Option<Scope>) -> (r: Option<Type>)
    requires
        scope_valid(*ast, scope),
    ensures
        r == scope_var_type(*ast, name@, scope),
{
    match scope {
        Some(Scope::Control(i)) => {
            let c = &ast.controls[i];
            if let Some(j) = find_named(&c.parameters, name) {
                return Some(copy_type(&c.parameters[j].ty));
            }
            if let Some(j) = find_named(&c.variables, name) {
                return Some(copy_type(&c.variables[j].ty));
            }
            if let Some(_) = find_named(&c.tables, name) {
                return Some(Type { kind: TypeKind::Table, text: ast.table_type_text.clone() });
            }
            None
        },
        Some(Scope::Parser(i)) => {
            let p = &ast.parsers[i];
            if let Some(j) = find_named(&p.parameters, name) {
                return Some(copy_type(&p.parameters[j].ty));
            }
            None
        },
        None => None,
    }
}

/// The type of the variable `name` seen from `position`.
pub fn find_variable_type(ast: &Ast, name: &str, content: &Rope, position: Position) -> (r: Option<Type>)
    ensures
        r == variable_type(*ast, name@, rope_text(*content), position.line as int),
{
    let scope = find_enclosing_scope(ast, content, position);
    if let Some(t) = find_scope_var_type(ast, name, scope) {
        return Some(t);
    }
    if let Some(j) = find_named(&ast.structs, name) {
        return Some(make_named_type(&ast.structs[j].name));
    }
    if let Some(j) = find_named(&ast.headers, name) {
        return Some(make_named_type(&ast.headers[j].name));
    }
    if let Some(j) = find_named(&ast.externs, name) {
        return Some(make_named_type(&ast.externs[j].name));
    }
    None
}

/// The type of member `member` of type `ty`: a struct member, or else a
/// header member, of the declaration `ty` names.
pub open spec fn member_type(ast: Ast, ty: Type, member: Seq<char>) -> Option<Type> {
    match ty.kind {
        TypeKind::UserDefined(tn) => {
            let from_struct = match first_named(ast.structs@, tn@) {
                Some(si) => match first_named(ast.structs@[si].members@, member) {
                    Some(mi) => Some(ast.structs@[si].members@[mi].ty),
                    None => None,
                },
                None => None,
            };
            match from_struct {
                Some(t) => Some(t),
                None => match first_named(ast.headers@, tn@) {
                    Some(hi) => match first_named(ast.headers@[hi].members@, member) {
                        Some(mi) => Some(ast.headers@[hi].members@[mi].ty),
                        None => None,
                    },
                    None => None,
                },
            }
        },
        _ => None,
    }
}

/// The type of member `member` of a value of type `ty`.
pub fn resolve_member_type(ast: &Ast, ty: &Type, member: &str) -> (r: Option<Type>)
    ensures
        r == member_type(*ast, *ty, member@),
{
    match &ty.kind {
        TypeKind::UserDefined(tyname) => {
            if let Some(si) = find_named(&ast.structs, tyname.as_str()) {
                if let Some(mi) = find_named(&ast.structs[si].members, member) {
                    return Some(copy_type(&ast.structs[si].members[mi].ty));
                }
            }
            if let Some(hi) = find_named(&ast.headers, tyname.as_str()) {
                if let Some(mi) = find_named(&ast.headers[hi].members, member) {
                    return Some(copy_type(&ast.headers[hi].members[mi].ty));
                }
            }
            None
        },
        _ => None,
    }
}

/// The index of the first `c` in `s` at or after `i`.
pub open spec fn char_from(s: Seq<char>, c: char, i: int) -> Option<int>
    decreases s.len() - i,
{
    if i < 0 || i >= s.len() {
        None
    } else if s[i] == c {
        Some(i)
    } else {
        char_from(s, c, i + 1)
    }
}

pub proof fn lemma_char_from(s: Seq<char>, c: char, i: int)
    requires
        0 <= i,
    ensures
        char_from(s, c, i) matches Some(j) ==> i <= j < s.len(),
    decreases s.len() - i,
{
    if i < s.len() && s[i] != c {
        lemma_char_from(s, c, i + 1);
    }
}

/// The pieces of `s` between dots (`a..b` has an empty middle piece).
pub open spec fn split_dots(s: Seq<char>) -> Seq<Seq<char>>
    decreases s.len(),
{
    match char_from(s, '.', 0) {
        None => seq![s],
        Some(i) => {
            proof {
                lemma_char_from(s, '.', 0);
            }
            seq![s.take(i)] + split_dots(s.skip(i + 1))
        },
    }
}

/// The type reached from `cur` by the member accesses `parts`.
pub open spec fn follow_members(ast: Ast, cur: Type, parts: Seq<Seq<char>>) -> Option<Type>
    decreases parts.len(),
{
    if parts.len() == 0 {
        Some(cur)
    } else {
        match member_type(ast, cur, parts[0]) {
            Some(t) => follow_members(ast, t, parts.drop_first()),
            None => None,
        }
    }
}

/// The type of the dotted path `name` (such as `hdr.eth`) seen from line
/// `line`.
pub open spec fn path_type(ast: Ast, name: Seq<char>, text: Seq<char>, line: int) -> Option<Type> {
    let parts = split_dots(name);
    match variable_type(ast, parts[0], text, line) {
        Some(t) => follow_members(ast, t, parts.drop_first()),
        None => None,
    }
}

pub proof fn lemma_split_dots_nonempty(s: Seq<char>)
    ensures
        split_dots(s).len() >= 1,
    decreases s.len(),
{
    match char_from(s, '.', 0) {
        None => {},
        Some(i) => {
            lemma_char_from(s, '.', 0);
            lemma_split_dots_nonempty(s.skip(i + 1));
        },
    }
}

/// The pieces of `s` between dots.
fn split_on_dots(s: &str) -> (r: Vec<String>)
    ensures
        r@.map_values(|p: String| p@) == split_dots(s@),
{
    let chars = chars_of(s);
    let ghost full = chars@;
    let mut parts: Vec<String> = Vec::new();
    let mut start: usize = 0;
    let mut i: usize = 0;
    assert(full.skip(0) =~= full);
    while i < chars.len()
        invariant
            start <= i <= chars.len(),
            full == chars@,
            forall|k: int| start <= k < i ==> full[k] != '.',
            parts@.map_values(|p: String| p@) + split_dots(full.skip(start as int)) == split_dots(full),
        decreases chars.len() - i,
    {
        if chars[i] == '.' {
            let ghost rest = full.skip(start as int);
            assert(char_from(rest, '.', (i - start) as int) == Some((i - start) as int));
            assert(char_from(rest, '.', 0) == Some((i - start) as int)) by {
                lemma_char_from_skip(rest, '.', (i - start) as int);
            }
            let piece = string_from_chars(&chars.as_slice()[start..i]);
            assert(piece@ =~= rest.take((i - start) as int));
            assert(rest.skip((i - start) as int + 1) =~= full.skip(i as int + 1));
            let ghost before = parts@.map_values(|p: String| p@);
            parts.push(piece);
            assert(parts@.map_values(|p: String| p@) =~= before.push(piece@));
            assert(split_dots(rest) == seq![rest.take((i - start) as int)] + split_dots(
                rest.skip((i - start) as int + 1),
            ));
            assert(before.push(piece@) + split_dots(full.skip(i as int + 1)) =~= before + (seq![
                piece@,
            ] + split_dots(full.skip(i as int + 1))));
            start = i + 1;
        }
        i += 1;
    }
    let ghost rest = full.skip(start as int);
    assert(char_from(rest, '.', 0) is None) by {
        lemma_no_char(rest, '.');
    }
    let piece = string_from_chars(&chars.as_slice()[start..chars.len()]);
    assert(piece@ =~= rest);
    let ghost before = parts@.map_values(|p: String| p@);
    parts.push(piece);
    assert(parts@.map_values(|p: String| p@) =~= before.push(piece@));
    assert(before.push(piece@) =~= before + seq![rest]);
    parts
}

proof fn lemma_char_from_skip(s: Seq<char>, c: char, j: int)
    requires
        0 <= j < s.len(),
        s[j] == c,
        forall|k: int| 0 <= k < j ==> s[k] != c,
    ensures
        char_from(s, c, 0) == Some(j),
{
    assert forall|i: int| 0 <= i <= j implies char_from(s, c, i) == Some(j) by {
        lemma_char_from_down(s, c, j, i);
    }
}

proof fn lemma_char_from_down(s: Seq<char>, c: char, j: int, i: int)
    requires
        0 <= i <= j < s.len(),
        s[j] == c,
        forall|k: int| 0 <= k < j ==> s[k] != c,
    ensures
        char_from(s, c, i) == Some(j),
    decreases j - i,
{
    if i < j {
        lemma_char_from_down(s, c, j, i + 1);
    }
}

proof fn lemma_no_char(s: Seq<char>, c: char)
    requires
        forall|k: int| 0 <= k < s.len() ==> s[k] != c,
    ensures
        char_from(s, c, 0) is None,
{
    assert forall|i: int| 0 <= i <= s.len() implies char_from(s, c, i) is None by {
        lemma_no_char_from(s, c, i);
    }
}

proof fn lemma_no_char_from(s: Seq<char>, c: char, i: int)
    requires
        0 <= i <= s.len(),
        forall|k: int| 0 <= k < s.len() ==> s[k] != c,
    ensures
        char_from(s, c, i) is None,
    decreases s.len() - i,
{
    if i < s.len() {
        lemma_no_char_from(s, c, i + 1);
    }
}

/// The type of the dotted path `name` seen from `position`.
pub fn resolve_type_for_name(ast: &Ast, name: &str, content: &Rope, position: Position) -> (r: Option<Type>)
    ensures
        r == path_type(*ast, name@, rope_text(*content), position.line as int),
{
    let parts = split_on_dots(name);
    let ghost ps = split_dots(name@);
    proof {
        lemma_split_dots_nonempty(name@);
    }
    assert(parts@.map_values(|p: String| p@)[0] == parts@[0]@);
    let mut current_type = match find_variable_type(ast, parts[0].as_str(), content, position) {
        Some(t) => t,
        None => return None,
    };
    let ghost goal = path_type(*ast, name@, rope_text(*content), position.line as int);
    let mut i: usize = 1;
    assert(ps.drop_first() =~= ps.skip(1));
    while i < parts.len()
        invariant
            1 <= i <= parts@.len(),
            parts@.map_values(|p: String| p@) == ps,
            goal == follow_members(*ast, current_type, ps.skip(i as int)),
            goal == path_type(*ast, name@, rope_text(*content), position.line as int),
        decreases parts@.len() - i,
    {
        assert(ps.skip(i as int)[0] == parts@[i as int]@);
        assert(ps.skip(i as int).drop_first() =~= ps.skip(i as int + 1));
        assert(ps.skip(i as int).len() > 0);
        let next = resolve_member_type(ast, &current_type, parts[i].as_str());
        assert(goal == match member_type(*ast, current_type, ps.skip(i as int)[0]) {
            Some(t) => follow_members(*ast, t, ps.skip(i as int).drop_first()),
            None => None,
        });
        match next {
            Some(t) => {
                current_type = t;
            },
            None => {
                assert(member_type(*ast, current_type, ps.skip(i as int)[0]) is None);
                assert(goal is None);
                return None;
            },
        }
        i += 1;
    }
    assert(ps.skip(i as int).len() == 0);
    Some(current_type)
}

} // verus!
