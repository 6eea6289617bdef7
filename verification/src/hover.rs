//! Hover texts: what is shown for the declaration under the cursor.
use vstd::prelude::*;
use ropey::Rope;
use crate::ast::{
    find_named, first_named, lemma_named_first, lemma_named_none, Action, Ast, Control, DeclarationInfo, Direction,
    Extern, ExternMethod, Header, Member, NameInfo, Named, Parameter, Parser, Struct, Type, TypeKind,
    Typedef,
};
use crate::protocol::Position;
use crate::scope::{
    enclosing_scope, find_enclosing_scope, find_variable_type, path_type, resolve_type_for_name,
    scope_valid, variable_type, Scope,
};
use crate::strings::{owned, str_eq};
use crate::text::{rope_len_lines, rope_line, rope_text, text_lines};
use crate::words::{extract_word_and_prefix, prefix_at, word_at};
use crate::strings::opt_str;

verus! {

/// How a direction is written.
pub open spec fn direction_text(d: Direction) -> Seq<char> {
    match d {
        Direction::In => "in"@,
        Direction::Out => "out"@,
        Direction::InOut => "inout"@,
        Direction::Unspecified => ""@,
    }
}

/// How a direction is written.
pub fn format_direction(d: &Direction) -> (r: &'static str)
    ensures
        r@ == direction_text(*d),
{
    match d {
        Direction::In => "in",
        Direction::Out => "out",
        Direction::InOut => "inout",
        Direction::Unspecified => "",
    }
}

/// The items joined with `sep` between neighbours.
pub open spec fn join(items: Seq<Seq<char>>, sep: Seq<char>) -> Seq<char>
    decreases items.len(),
{
    if items.len() == 0 {
        Seq::empty()
    } else if items.len() == 1 {
        items[0]
    } else {
        join(items.drop_last(), sep) + sep + items.last()
    }
}

/// A parameter written as `direction type name`.
pub open spec fn param_text(p: Parameter) -> Seq<char> {
    direction_text(p.direction) + " "@ + p.ty.text@ + " "@ + p.name@
}

/// Parameters written as a comma-separated list.
pub open spec fn params_text(ps: Seq<Parameter>) -> Seq<char> {
    join(ps.map_values(|p: Parameter| param_text(p)), ", "@)
}

/// The members of a header or struct, one per line.
pub open spec fn members_text(ms: Seq<Member>) -> Seq<char>
    decreases ms.len(),
{
    if ms.len() == 0 {
        Seq::empty()
    } else {
        members_text(ms.drop_last()) + "    "@ + ms.last().ty.text@ + " "@ + ms.last().name@ + ";\n"@
    }
}

/// The methods of an extern, one per line.
pub open spec fn methods_text(ms: Seq<ExternMethod>) -> Seq<char>
    decreases ms.len(),
{
    if ms.len() == 0 {
        Seq::empty()
    } else {
        methods_text(ms.drop_last()) + "    "@ + ms.last().return_type.text@ + " "@ + ms.last().name@
            + "("@ + params_text(ms.last().parameters@) + ");\n"@
    }
}

pub open spec fn header_hover(h: Header) -> Seq<char> {
    "```p4\nheader "@ + h.name@ + " {\n"@ + members_text(h.members@) + "}\n```"@
}

pub open spec fn struct_hover(s: Struct) -> Seq<char> {
    "```p4\nstruct "@ + s.name@ + " {\n"@ + members_text(s.members@) + "}\n```"@
}

pub open spec fn control_hover(c: Control) -> Seq<char> {
    "```p4\ncontrol "@ + c.name@ + "("@ + params_text(c.parameters@) + ")\n```"@
}

pub open spec fn parser_hover(p: Parser) -> Seq<char> {
    "```p4\nparser "@ + p.name@ + "("@ + params_text(p.parameters@) + ")\n```"@
}

pub open spec fn extern_hover(e: Extern) -> Seq<char> {
    "```p4\nextern "@ + e.name@ + " {\n"@ + methods_text(e.methods@) + "}\n```"@
}

pub open spec fn action_hover(a: Action, control_name: Seq<char>) -> Seq<char> {
    "```p4\n// in control "@ + control_name + "\naction "@ + a.name@ + "("@ + params_text(
        a.parameters@,
    ) + ")\n```"@
}

/// Appends `dir type name` for each parameter, separated by commas.
fn push_params(out: &mut String, ps: &Vec<Parameter>)
    ensures
        final(out)@ == old(out)@ + params_text(ps@),
{
    let ghost start = out@;
    let mut i: usize = 0;
    while i < ps.len()
        invariant
            i <= ps@.len(),
            out@ == start + join(ps@.take(i as int).map_values(|p: Parameter| param_text(p)), ", "@),
        decreases ps@.len() - i,
    {
        let ghost before = out@;
        let ghost items = ps@.take(i as int).map_values(|p: Parameter| param_text(p));
        let ghost items2 = ps@.take(i as int + 1).map_values(|p: Parameter| param_text(p));
        assert(items2.drop_last() =~= items);
        assert(items2.last() == param_text(ps@[i as int]));
        if i > 0 {
            out.append(", ");
        }
        let p = &ps[i];
        out.append(format_direction(&p.direction));
        out.append(" ");
        out.append(p.ty.text.as_str());
        out.append(" ");
        out.append(p.name.as_str());
        i += 1;
    }
    assert(ps@.take(ps@.len() as int) =~= ps@);
}

/// Appends one line per member.
fn push_members(out: &mut String, ms: &Vec<Member>)
    ensures
        final(out)@ == old(out)@ + members_text(ms@),
{
    let ghost start = out@;
    let mut i: usize = 0;
    while i < ms.len()
        invariant
            i <= ms@.len(),
            out@ == start + members_text(ms@.take(i as int)),
        decreases ms@.len() - i,
    {
        assert(ms@.take(i as int + 1).drop_last() =~= ms@.take(i as int));
        let m = &ms[i];
        out.append("    ");
        out.append(m.ty.text.as_str());
        out.append(" ");
        out.append(m.name.as_str());
        out.append(";\n");
        i += 1;
    }
    assert(ms@.take(ms@.len() as int) =~= ms@);
}

/// Appends one line per extern method.
fn push_methods(out: &mut String, ms: &Vec<ExternMethod>)
    ensures
        final(out)@ == old(out)@ + methods_text(ms@),
{
    let ghost start = out@;
    let mut i: usize = 0;
    while i < ms.len()
        invariant
            i <= ms@.len(),
            out@ == start + methods_text(ms@.take(i as int)),
        decreases ms@.len() - i,
    {
        assert(ms@.take(i as int + 1).drop_last() =~= ms@.take(i as int));
        let m = &ms[i];
        out.append("    ");
        out.append(m.return_type.text.as_str());
        out.append(" ");
        out.append(m.name.as_str());
        out.append("(");
        push_params(out, &m.parameters);
        out.append(");\n");
        i += 1;
    }
    assert(ms@.take(ms@.len() as int) =~= ms@);
}

pub fn format_header_hover(header: &Header) -> (r: String)
    ensures
        r@ == header_hover(*header),
{
    let mut result = owned("```p4\nheader ");
    result.append(header.name.as_str());
    result.append(" {\n");
    push_members(&mut result, &header.members);
    result.append("}\n```");
    result
}

pub fn format_struct_hover(s: &Struct) -> (r: String)
    ensures
        r@ == struct_hover(*s),
{
    let mut result = owned("```p4\nstruct ");
    result.append(s.name.as_str());
    result.append(" {\n");
    push_members(&mut result, &s.members);
    result.append("}\n```");
    result
}

pub fn format_control_hover(control: &Control) -> (r: String)
    ensures
        r@ == control_hover(*control),
{
    let mut result = owned("```p4\ncontrol ");
    result.append(control.name.as_str());
    result.append("(");
    push_params(&mut result, &control.parameters);
    result.append(")\n```");
    result
}

pub fn format_parser_hover(parser: &Parser) -> (r: String)
    ensures
        r@ == parser_hover(*parser),
{
    let mut result = owned("```p4\nparser ");
    result.append(parser.name.as_str());
    result.append("(");
    push_params(&mut result, &parser.parameters);
    result.append(")\n```");
    result
}

pub fn format_extern_hover(ext: &Extern) -> (r: String)
    ensures
        r@ == extern_hover(*ext),
{
    let mut result = owned("```p4\nextern ");
    result.append(ext.name.as_str());
    result.append(" {\n");
    push_methods(&mut result, &ext.methods);
    result.append("}\n```");
    result
}

pub fn format_action_hover(action: &Action, control_name: &str) -> (r: String)
    ensures
        r@ == action_hover(*action, control_name@),
{
    let mut result = owned("```p4\n// in control ");
    result.append(control_name);
    result.append("\naction ");
    result.append(action.name.as_str());
    result.append("(");
    push_params(&mut result, &action.parameters);
    result.append(")\n```");
    result
}

/// How a type is written with its typedef aliases followed, taking at most
/// `fuel` steps: a user-defined name that a typedef defines is replaced by
/// that typedef's type. `None` when the steps run out.
pub open spec fn alias_text(typedefs: Seq<Typedef>, ty: Type, fuel: nat) -> Option<Seq<char>>
    decreases fuel,
{
    match ty.kind {
        TypeKind::UserDefined(name) => match first_named(typedefs, name@) {
            Some(i) => if fuel == 0 {
                None
            } else {
                alias_text(typedefs, typedefs[i].ty, (fuel - 1) as nat)
            },
            None => Some(name@),
        },
        _ => Some(ty.text@),
    }
}

/// Following the typedef aliases from `ty` ends; this holds exactly when it
/// ends within as many steps as there are typedefs.
pub open spec fn alias_ends(typedefs: Seq<Typedef>, ty: Type) -> bool {
    alias_text(typedefs, ty, typedefs.len()) is Some
}

/// Whether following the typedef aliases from `ty` ends.
pub fn alias_chain_ends(ast: &Ast, ty: &Type) -> (r: bool)
    ensures
        r == alias_ends(ast.typedefs@, *ty),
{
    let n = ast.typedefs.len();
    let mut cur: &Type = ty;
    let mut fuel: usize = n;
    loop
        invariant
            fuel <= n,
            n == ast.typedefs@.len(),
            (alias_text(ast.typedefs@, *cur, fuel as nat) is Some) == alias_ends(ast.typedefs@, *ty),
        decreases fuel,
    {
        match &cur.kind {
            TypeKind::UserDefined(name) => match find_named(&ast.typedefs, name.as_str()) {
                Some(i) => {
                    if fuel == 0 {
                        return false;
                    }
                    fuel -= 1;
                    cur = &ast.typedefs[i].ty;
                },
                None => {
                    return true;
                },
            },
            _ => {
                return true;
            },
        }
    }
}

/// The hover text of a typedef: the alias chain resolved, and the
/// definition of the header or struct it names directly.
pub open spec fn typedef_hover(ast: Ast, td: Typedef) -> Seq<char> {
    let head = "```p4\ntypedef "@ + alias_text(ast.typedefs@, td.ty, ast.typedefs@.len()).unwrap()
        + " "@ + td.name@ + "\n```"@;
    match td.ty.kind {
        TypeKind::UserDefined(n) => match first_named(ast.headers@, n@) {
            Some(h) => head + "\n\n"@ + header_hover(ast.headers@[h]),
            None => match first_named(ast.structs@, n@) {
                Some(s) => head + "\n\n"@ + struct_hover(ast.structs@[s]),
                None => head,
            },
        },
        _ => head,
    }
}

proof fn lemma_alias_fuel(typedefs: Seq<Typedef>, ty: Type, fuel: nat, more: nat)
    requires
        alias_text(typedefs, ty, fuel) is Some,
        fuel <= more,
    ensures
        alias_text(typedefs, ty, more) == alias_text(typedefs, ty, fuel),
    decreases fuel,
{
    match ty.kind {
        TypeKind::UserDefined(name) => match first_named(typedefs, name@) {
            Some(i) => {
                lemma_alias_fuel(typedefs, typedefs[i].ty, (fuel - 1) as nat, (more - 1) as nat);
            },
            None => {},
        },
        _ => {},
    }
}

/// How a type is written with its typedef aliases followed.
fn format_type_alias(ast: &Ast, ty: &Type) -> (r: String)
    requires
        alias_ends(ast.typedefs@, *ty),
    ensures
        Some(r@) == alias_text(ast.typedefs@, *ty, ast.typedefs@.len()),
{
    let ghost n = ast.typedefs@.len();
    let mut cur: &Type = ty;
    let ghost mut fuel: nat = n;
    loop
        invariant
            n == ast.typedefs@.len(),
            fuel <= n,
            alias_text(ast.typedefs@, *cur, fuel) is Some,
            alias_text(ast.typedefs@, *cur, fuel) == alias_text(ast.typedefs@, *ty, n),
        decreases fuel,
    {
        match &cur.kind {
            TypeKind::UserDefined(name) => {
                match find_named(&ast.typedefs, name.as_str()) {
                    Some(i) => {
                        proof {
                            fuel = (fuel - 1) as nat;
                        }
                        cur = &ast.typedefs[i].ty;
                    },
                    None => {
                        return name.clone();
                    },
                }
            },
            _ => {
                return cur.text.clone();
            },
        }
    }
}

pub fn format_typedef_hover(ast: &Ast, td: &Typedef) -> (r: String)
    requires
        alias_ends(ast.typedefs@, td.ty),
    ensures
        r@ == typedef_hover(*ast, *td),
{
    let mut result = owned("```p4\ntypedef ");
    let alias = format_type_alias(ast, &td.ty);
    result.append(alias.as_str());
    result.append(" ");
    result.append(td.name.as_str());
    result.append("\n```");
    if let TypeKind::UserDefined(name) = &td.ty.kind {
        if let Some(h) = find_named(&ast.headers, name.as_str()) {
            result.append("\n\n");
            let hh = format_header_hover(&ast.headers[h]);
            result.append(hh.as_str());
        } else if let Some(s) = find_named(&ast.structs, name.as_str()) {
            result.append("\n\n");
            let sh = format_struct_hover(&ast.structs[s]);
            result.append(sh.as_str());
        }
    }
    result
}

/// The hover text of a name declared in a scope.
pub open spec fn scoped_info_text(info: NameInfo, name: Seq<char>) -> Seq<char> {
    match info.decl {
        DeclarationInfo::Parameter(d) | DeclarationInfo::ActionParameter(d) => if direction_text(
            d,
        ).len() == 0 {
            "```p4\n"@ + info.ty.text@ + " "@ + name + "\n```"@
        } else {
            "```p4\n"@ + direction_text(d) + " "@ + info.ty.text@ + " "@ + name + "\n```"@
        },
        DeclarationInfo::Other => "```p4\n"@ + info.ty.text@ + " "@ + name + "\n```"@,
    }
}

pub fn format_scoped_name_info(info: &NameInfo, name: &str) -> (r: String)
    ensures
        r@ == scoped_info_text(*info, name@),
{
    let mut result = owned("```p4\n");
    match &info.decl {
        DeclarationInfo::Parameter(d) | DeclarationInfo::ActionParameter(d) => {
            let dir = format_direction(d);
            if dir.is_empty() {
                result.append(info.ty.text.as_str());
            } else {
                result.append(dir);
                result.append(" ");
                result.append(info.ty.text.as_str());
            }
        },
        DeclarationInfo::Other => {
            result.append(info.ty.text.as_str());
        },
    }
    result.append(" ");
    result.append(name);
    result.append("\n```");
    result
}

/// The first action at or after `i` among whose visible names `name` is,
/// with the position of that name.
pub open spec fn action_name_from(actions: Seq<Action>, name: Seq<char>, i: int) -> Option<(int, int)>
    decreases actions.len() - i,
{
    if i < 0 || i >= actions.len() {
        None
    } else {
        match first_named(actions[i].names@, name) {
            Some(j) => Some((i, j)),
            None => action_name_from(actions, name, i + 1),
        }
    }
}

/// Where `name` is declared in `scope`: among the names of the control, then
/// those of its actions, or among the names of the parser.
pub open spec fn scoped_name_info(ast: Ast, name: Seq<char>, scope: Option<Scope>) -> Option<NameInfo> {
    match scope {
        Some(Scope::Control(i)) => {
            let c = ast.controls@[i as int];
            match first_named(c.names@, name) {
                Some(j) => Some(c.names@[j]),
                None => match action_name_from(c.actions@, name, 0) {
                    Some((a, j)) => Some(c.actions@[a].names@[j]),
                    None => None,
                },
            }
        },
        Some(Scope::Parser(i)) => {
            let p = ast.parsers@[i as int];
            match first_named(p.names@, name) {
                Some(j) => Some(p.names@[j]),
                None => None,
            }
        },
        None => None,
    }
}

proof fn lemma_action_name_from(actions: Seq<Action>, name: Seq<char>, i: int)
    requires
        0 <= i,
    ensures
        action_name_from(actions, name, i) matches Some((a, j)) ==> i <= a < actions.len() && first_named(
            actions[a].names@,
            name,
        ) == Some(j),
    decreases actions.len() - i,
{
    if i < actions.len() && first_named(actions[i].names@, name) is None {
        lemma_action_name_from(actions, name, i + 1);
    }
}

/// Where `name` is declared in `scope`, as indices.
pub(crate) fn find_scoped_name(ast: &Ast, name: &str, scope: Option<Scope>) -> (r: Option<(usize, usize, usize)>)
    requires
        scope_valid(*ast, scope),
    ensures
        match r {
            None => scoped_name_info(*ast, name@, scope) is None,
            Some((k, a, j)) => match scope {
                Some(Scope::Control(i)) => if k == 0 {
                    j < ast.controls@[i as int].names@.len() && scoped_name_info(*ast, name@, scope)
                        == Some(ast.controls@[i as int].names@[j as int])
                } else {
                    a < ast.controls@[i as int].actions@.len() && j
                        < ast.controls@[i as int].actions@[a as int].names@.len() && scoped_name_info(
                        *ast,
                        name@,
                        scope,
                    ) == Some(ast.controls@[i as int].actions@[a as int].names@[j as int])
                },
                Some(Scope::Parser(i)) => j < ast.parsers@[i as int].names@.len() && scoped_name_info(
                    *ast,
                    name@,
                    scope,
                ) == Some(ast.parsers@[i as int].names@[j as int]),
                None => false,
            },
        },
{
    match scope {
        Some(Scope::Control(i)) => {
            let c = &ast.controls[i];
            if let Some(j) = find_named(&c.names, name) {
                return Some((0, 0, j));
            }
            let mut a: usize = 0;
            proof {
                lemma_action_name_from(c.actions@, name@, 0);
            }
            while a < c.actions.len()
                invariant
                    a <= c.actions@.len(),
                    i < ast.controls@.len(),
                    *c == ast.controls@[i as int],
                    scope == Some(Scope::Control(i)),
                    first_named(c.names@, name@) is None,
                    action_name_from(c.actions@, name@, a as int) == action_name_from(
                        c.actions@,
                        name@,
                        0,
                    ),
                decreases c.actions@.len() - a,
            {
                if let Some(j) = find_named(&c.actions[a].names, name) {
                    assert(action_name_from(c.actions@, name@, a as int) == Some((a as int, j as int)));
                    assert(first_named(c.names@, name@) is None);
                    assert(ast.controls@[i as int] == *c);
                    return Some((1, a, j));
                }
                a += 1;
            }
            None
        },
        Some(Scope::Parser(i)) => {
            let p = &ast.parsers[i];
            if let Some(j) = find_named(&p.names, name) {
                return Some((0, 0, j));
            }
            None
        },
        None => None,
    }
}

/// The hover text of `name` as declared in the scope enclosing `position`.
pub open spec fn scoped_hover(ast: Ast, name: Seq<char>, text: Seq<char>, line: int) -> Option<Seq<char>> {
    match scoped_name_info(ast, name, enclosing_scope(ast, text, line)) {
        Some(info) => Some(scoped_info_text(info, name)),
        None => None,
    }
}

pub fn format_scoped_hover(ast: &Ast, name: &str, content: &Rope, position: Position) -> (r: Option<String>)
    ensures
        opt_str(r) == scoped_hover(*ast, name@, rope_text(*content), position.line as int),
{
    let scope = find_enclosing_scope(ast, content, position);
    match find_scoped_name(ast, name, scope) {
        None => None,
        Some((k, a, j)) => {
            let info = match scope {
                Some(Scope::Control(i)) => if k == 0 {
                    &ast.controls[i].names[j]
                } else {
                    &ast.controls[i].actions[a].names[j]
                },
                Some(Scope::Parser(i)) => &ast.parsers[i].names[j],
                None => {
                    return None;
                },
            };
            Some(format_scoped_name_info(info, name))
        },
    }
}

/// The methods every header has.
pub open spec fn is_header_method(m: Seq<char>) -> bool {
    m == "isValid"@ || m == "setValid"@ || m == "setInvalid"@
}

/// The hover text of member `member` of a value of type `ty`: a struct
/// member, else a header member or header method, else an extern method.
pub open spec fn member_hover(ast: Ast, ty: Type, member: Seq<char>) -> Option<Seq<char>> {
    match ty.kind {
        TypeKind::UserDefined(tn) => {
            let from_struct = match first_named(ast.structs@, tn@) {
                Some(si) => match first_named(ast.structs@[si].members@, member) {
                    Some(mi) => {
                        let m = ast.structs@[si].members@[mi];
                        Some(
                            "```p4\n"@ + m.ty.text@ + " "@ + tn@ + "."@ + m.name@
                                + "\n```\nMember of struct `"@ + tn@ + "`"@,
                        )
                    },
                    None => None,
                },
                None => None,
            };
            let from_header = match first_named(ast.headers@, tn@) {
                Some(hi) => match first_named(ast.headers@[hi].members@, member) {
                    Some(mi) => {
                        let m = ast.headers@[hi].members@[mi];
                        Some(
                            "```p4\n"@ + m.ty.text@ + " "@ + tn@ + "."@ + m.name@
                                + "\n```\nMember of header `"@ + tn@ + "`"@,
                        )
                    },
                    None => if is_header_method(member) {
                        Some("```p4\n"@ + member + "()\n```\nHeader method"@)
                    } else {
                        None
                    },
                },
                None => None,
            };
            let from_extern = match first_named(ast.externs@, tn@) {
                Some(ei) => match first_named(ast.externs@[ei].methods@, member) {
                    Some(mi) => {
                        let m = ast.externs@[ei].methods@[mi];
                        Some(
                            "```p4\n"@ + m.return_type.text@ + " "@ + m.name@ + "("@ + params_text(
                                m.parameters@,
                            ) + ")\n```\nMethod of extern `"@ + tn@ + "`"@,
                        )
                    },
                    None => None,
                },
                None => None,
            };
            if from_struct is Some {
                from_struct
            } else if from_header is Some {
                from_header
            } else {
                from_extern
            }
        },
        _ => None,
    }
}

/// `"```p4\n{ty} {owner}.{name}\n```\nMember of {what} `{owner}`"`.
fn member_text(ty: &str, owner: &str, name: &str, what: &str) -> (r: String)
    ensures
        r@ == "```p4\n"@ + ty@ + " "@ + owner@ + "."@ + name@ + "\n```\nMember of "@ + what@ + " `"@
            + owner@ + "`"@,
{
    let mut r = owned("```p4\n");
    r.append(ty);
    r.append(" ");
    r.append(owner);
    r.append(".");
    r.append(name);
    r.append("\n```\nMember of ");
    r.append(what);
    r.append(" `");
    r.append(owner);
    r.append("`");
    r
}

/// The hover text of member `member_name` of a value of type `ty`.
pub fn get_member_hover(ast: &Ast, ty: &Type, member_name: &str) -> (r: Option<String>)
    ensures
        opt_str(r) == member_hover(*ast, *ty, member_name@),
{
    proof {
        reveal_strlit("struct");
        reveal_strlit("header");
        reveal_strlit(" `");
        reveal_strlit("\n```\nMember of ");
        reveal_strlit("\n```\nMember of struct `");
        reveal_strlit("\n```\nMember of header `");
    }
    match &ty.kind {
        TypeKind::UserDefined(tn) => {
            if let Some(si) = find_named(&ast.structs, tn.as_str()) {
                if let Some(mi) = find_named(&ast.structs[si].members, member_name) {
                    let m = &ast.structs[si].members[mi];
                    let r = member_text(m.ty.text.as_str(), tn.as_str(), m.name.as_str(), "struct");
                    assert(r@ =~= "```p4\n"@ + m.ty.text@ + " "@ + tn@ + "."@ + m.name@
                        + "\n```\nMember of struct `"@ + tn@ + "`"@);
                    return Some(r);
                }
            }
            if let Some(hi) = find_named(&ast.headers, tn.as_str()) {
                if let Some(mi) = find_named(&ast.headers[hi].members, member_name) {
                    let m = &ast.headers[hi].members[mi];
                    let r = member_text(m.ty.text.as_str(), tn.as_str(), m.name.as_str(), "header");
                    assert(r@ =~= "```p4\n"@ + m.ty.text@ + " "@ + tn@ + "."@ + m.name@
                        + "\n```\nMember of header `"@ + tn@ + "`"@);
                    return Some(r);
                }
                if str_eq(member_name, "isValid") || str_eq(member_name, "setValid") || str_eq(
                    member_name,
                    "setInvalid",
                ) {
                    let mut r = owned("```p4\n");
                    r.append(member_name);
                    r.append("()\n```\nHeader method");
                    return Some(r);
                }
            }
            if let Some(ei) = find_named(&ast.externs, tn.as_str()) {
                if let Some(mi) = find_named(&ast.externs[ei].methods, member_name) {
                    let m = &ast.externs[ei].methods[mi];
                    let mut r = owned("```p4\n");
                    r.append(m.return_type.text.as_str());
                    r.append(" ");
                    r.append(m.name.as_str());
                    r.append("(");
                    push_params(&mut r, &m.parameters);
                    r.append(")\n```\nMethod of extern `");
                    r.append(tn.as_str());
                    r.append("`");
                    return Some(r);
                }
            }
            None
        },
        _ => None,
    }
}

/// The first control at or after `i` that has an action named `name`, with
/// the position of that action.
pub open spec fn control_action_from(cs: Seq<Control>, name: Seq<char>, i: int) -> Option<(int, int)>
    decreases cs.len() - i,
{
    if i < 0 || i >= cs.len() {
        None
    } else {
        match first_named(cs[i].actions@, name) {
            Some(j) => Some((i, j)),
            None => control_action_from(cs, name, i + 1),
        }
    }
}

/// The hover text of the name `w` seen from line `line`, looked up among
/// the headers, structs, controls, parsers, externs, typedefs and actions of
/// the program, then in the enclosing scope, then as a variable.
pub open spec fn name_hover(ast: Ast, w: Seq<char>, text: Seq<char>, line: int) -> Option<Seq<char>> {
    if let Some(i) = first_named(ast.headers@, w) {
        Some(header_hover(ast.headers@[i]))
    } else if let Some(i) = first_named(ast.structs@, w) {
        Some(struct_hover(ast.structs@[i]))
    } else if let Some(i) = first_named(ast.controls@, w) {
        Some(control_hover(ast.controls@[i]))
    } else if let Some(i) = first_named(ast.parsers@, w) {
        Some(parser_hover(ast.parsers@[i]))
    } else if let Some(i) = first_named(ast.externs@, w) {
        Some(extern_hover(ast.externs@[i]))
    } else if let Some(i) = first_named(ast.typedefs@, w) {
        Some(typedef_hover(ast, ast.typedefs@[i]))
    } else if let Some((c, a)) = control_action_from(ast.controls@, w, 0) {
        Some(action_hover(ast.controls@[c].actions@[a], ast.controls@[c].name@))
    } else if let Some(h) = scoped_hover(ast, w, text, line) {
        Some(h)
    } else if let Some(ty) = variable_type(ast, w, text, line) {
        Some("```p4\n"@ + ty.text@ + " "@ + w + "\n```"@)
    } else {
        None
    }
}

/// The hover text at `position`: for an identifier after a dotted path of
/// known type, the hover of that member; otherwise the hover of the name.
pub open spec fn hover_info(ast: Ast, text: Seq<char>, position: Position) -> Option<Seq<char>> {
    if position.line as int >= text_lines(text).len() {
        None
    } else {
        let l = text_lines(text)[position.line as int];
        let col = position.character as int;
        match word_at(l, col) {
            None => None,
            Some(w) => {
                let via_prefix = match prefix_at(l, col) {
                    Some(p) => path_type(ast, p, text, position.line as int),
                    None => None,
                };
                match via_prefix {
                    Some(ty) => member_hover(ast, ty, w),
                    None => name_hover(ast, w, text, position.line as int),
                }
            }
        }
    }
}

/// How far into a list joined with a separator of length `sl` item `k`
/// starts.
pub open spec fn item_offset(items: Seq<Seq<char>>, sl: int, k: int) -> int
    decreases k,
{
    if k <= 0 {
        0
    } else {
        item_offset(items, sl, k - 1) + items[k - 1].len() + sl
    }
}

/// Where each item sits in a joined list: item `k` at its offset, the
/// separator right before every item but the first, and nothing after the
/// last item.
proof fn lemma_join_layout(items: Seq<Seq<char>>, sep: Seq<char>)
    ensures
        forall|k: int|
            0 <= k < items.len() ==> join(items, sep).subrange(
                item_offset(items, sep.len() as int, k),
                item_offset(items, sep.len() as int, k) + items[k].len(),
            ) == #[trigger] items[k],
        forall|k: int|
            0 < k < items.len() ==> join(items, sep).subrange(
                #[trigger] item_offset(items, sep.len() as int, k) - sep.len(),
                item_offset(items, sep.len() as int, k),
            ) == sep,
        items.len() > 0 ==> join(items, sep).len() == item_offset(items, sep.len() as int, items.len() - 1)
            + items.last().len(),
        items.len() == 0 ==> join(items, sep).len() == 0,
    decreases items.len(),
{
    let sl = sep.len() as int;
    if items.len() >= 2 {
        let init = items.drop_last();
        lemma_join_layout(init, sep);
        let j0 = join(init, sep);
        let j = join(items, sep);
        assert(j == j0 + sep + items.last());
        assert forall|k: int| 0 <= k <= init.len() implies item_offset(init, sl, k) == item_offset(items, sl, k) by {
            lemma_offset_prefix(items, sl, k);
        }
        assert forall|k: int| 0 <= k < items.len() implies j.subrange(
            item_offset(items, sl, k),
            item_offset(items, sl, k) + items[k].len(),
        ) == #[trigger] items[k] by {
            assert(item_offset(init, sl, k) == item_offset(items, sl, k));
            if k < init.len() {
                assert(init[k] == items[k]);
                lemma_offset_bound(init, sl, k);
                assert(j.subrange(item_offset(items, sl, k), item_offset(items, sl, k) + items[k].len())
                    =~= j0.subrange(item_offset(items, sl, k), item_offset(items, sl, k) + items[k].len()));
            } else {
                assert(j.subrange(item_offset(items, sl, k), item_offset(items, sl, k) + items[k].len())
                    =~= items.last());
            }
        }
        assert forall|k: int| 0 < k < items.len() implies j.subrange(
            #[trigger] item_offset(items, sl, k) - sl,
            item_offset(items, sl, k),
        ) == sep by {
            assert(item_offset(init, sl, k) == item_offset(items, sl, k));
            if k < init.len() {
                lemma_offset_bound(init, sl, k);
                assert(j.subrange(item_offset(items, sl, k) - sl, item_offset(items, sl, k))
                    =~= j0.subrange(item_offset(items, sl, k) - sl, item_offset(items, sl, k)));
            } else {
                assert(j.subrange(item_offset(items, sl, k) - sl, item_offset(items, sl, k)) =~= sep);
            }
        }
    } else if items.len() == 1 {
        assert(join(items, sep).subrange(0, items[0].len() as int) =~= items[0]);
    }
}

proof fn lemma_offset_prefix(items: Seq<Seq<char>>, sl: int, k: int)
    requires
        0 <= k < items.len(),
    ensures
        item_offset(items.drop_last(), sl, k) == item_offset(items, sl, k),
    decreases k,
{
    if k > 0 {
        lemma_offset_prefix(items, sl, k - 1);
    }
}

/// In a joined list, item `k` and the separator before it lie within the
/// text joined so far.
proof fn lemma_offset_bound(items: Seq<Seq<char>>, sl: int, k: int)
    requires
        0 <= k < items.len(),
        sl >= 0,
    ensures
        0 <= item_offset(items, sl, k),
        k > 0 ==> item_offset(items, sl, k) >= sl,
        item_offset(items, sl, k) + items[k].len() <= item_offset(items, sl, items.len() - 1)
            + items.last().len(),
    decreases items.len() - k,
{
    lemma_offset_nonneg(items, sl, k);
    if k + 1 < items.len() {
        lemma_offset_bound(items, sl, k + 1);
    }
}

proof fn lemma_offset_nonneg(items: Seq<Seq<char>>, sl: int, k: int)
    requires
        sl >= 0,
        k <= items.len(),
    ensures
        item_offset(items, sl, k) >= 0,
        k > 0 ==> item_offset(items, sl, k) >= sl,
    decreases k,
{
    if k > 0 {
        lemma_offset_nonneg(items, sl, k - 1);
    }
}

/// A parameter as a hover shows it: direction, type and name, separated
/// by single spaces.
pub open spec fn shown_param(p: Parameter) -> Seq<char> {
    direction_text(p.direction) + " "@ + p.ty.text@ + " "@ + p.name@
}

/// Law: the hover of a parser, reached on its name when no header, struct
/// or control of that name comes first, is its declaration: the opening
/// "```p4\nparser " with the name and "(", then each parameter written
/// `direction type name` at its place, consecutive parameters separated by
/// ", ", and the closing ")\n```", with nothing else in between.
pub proof fn law_parser_hover_shows_parameters(ast: Ast, text: Seq<char>, position: Position, j: int)
    requires
        position.line as int + 1 <= text_lines(text).len(),
        word_at(text_lines(text)[position.line as int], position.character as int) is Some,
        match prefix_at(text_lines(text)[position.line as int], position.character as int) {
            Some(pre) => path_type(ast, pre, text, position.line as int) is None,
            None => true,
        },
        0 <= j < ast.parsers@.len(),
        word_at(text_lines(text)[position.line as int], position.character as int) == Some(ast.parsers@[j].name@),
        forall|i: int| 0 <= i < ast.headers@.len() ==> (#[trigger] ast.headers@[i]).name@ != ast.parsers@[j].name@,
        forall|i: int| 0 <= i < ast.structs@.len() ==> (#[trigger] ast.structs@[i]).name@ != ast.parsers@[j].name@,
        forall|i: int| 0 <= i < ast.controls@.len() ==> (#[trigger] ast.controls@[i]).name@ != ast.parsers@[j].name@,
        forall|i: int| 0 <= i < j ==> (#[trigger] ast.parsers@[i]).name@ != ast.parsers@[j].name@,
    ensures
        ({
            let p = ast.parsers@[j];
            let ps = p.parameters@;
            let shown = ps.map_values(|q: Parameter| shown_param(q));
            let open = "```p4\nparser "@ + p.name@ + "("@;
            let close = ")\n```"@;
            &&& hover_info(ast, text, position) matches Some(h)
            &&& h.take(open.len() as int) == open
            &&& h.skip(h.len() - close.len()) == close
            &&& forall|k: int|
                0 <= k < ps.len() ==> h.subrange(
                    open.len() + item_offset(shown, 2, k),
                    open.len() + item_offset(shown, 2, k) + shown_param(ps[k]).len(),
                ) == shown_param(#[trigger] ps[k])
            &&& forall|k: int|
                0 < k < ps.len() ==> h.subrange(
                    open.len() + #[trigger] item_offset(shown, 2, k) - 2,
                    open.len() + item_offset(shown, 2, k),
                ) == ", "@
            &&& h.len() == open.len() + close.len() + (if ps.len() == 0 {
                0
            } else {
                item_offset(shown, 2, ps.len() - 1) + shown_param(ps.last()).len()
            })
        }),
{
    lemma_hover_reaches_parser(ast, text, position, j);
    lemma_parser_hover_layout(ast.parsers@[j]);
}

/// The hover on the name of the parser that comes first under that name,
/// with no header, struct or control of the name, is that parser's hover.
proof fn lemma_hover_reaches_parser(ast: Ast, text: Seq<char>, position: Position, j: int)
    requires
        position.line as int + 1 <= text_lines(text).len(),
        match prefix_at(text_lines(text)[position.line as int], position.character as int) {
            Some(pre) => path_type(ast, pre, text, position.line as int) is None,
            None => true,
        },
        0 <= j < ast.parsers@.len(),
        word_at(text_lines(text)[position.line as int], position.character as int) == Some(ast.parsers@[j].name@),
        forall|i: int| 0 <= i < ast.headers@.len() ==> (#[trigger] ast.headers@[i]).name@ != ast.parsers@[j].name@,
        forall|i: int| 0 <= i < ast.structs@.len() ==> (#[trigger] ast.structs@[i]).name@ != ast.parsers@[j].name@,
        forall|i: int| 0 <= i < ast.controls@.len() ==> (#[trigger] ast.controls@[i]).name@ != ast.parsers@[j].name@,
        forall|i: int| 0 <= i < j ==> (#[trigger] ast.parsers@[i]).name@ != ast.parsers@[j].name@,
    ensures
        hover_info(ast, text, position) == Some(parser_hover(ast.parsers@[j])),
{
    let w = ast.parsers@[j].name@;
    lemma_named_none(ast.headers@, w, 0);
    lemma_named_none(ast.structs@, w, 0);
    lemma_named_none(ast.controls@, w, 0);
    lemma_named_first(ast.parsers@, w, 0, j);
    assert(name_hover(ast, w, text, position.line as int) == Some(parser_hover(ast.parsers@[j])));
}

/// Where the parts of `open`, the items joined with `sep`, and `close` sit
/// in their concatenation.
proof fn lemma_wrapped_layout(open: Seq<char>, items: Seq<Seq<char>>, sep: Seq<char>, close: Seq<char>, sl: int)
    requires
        sl == sep.len(),
    ensures
        ({
            let h = open + join(items, sep) + close;
            &&& h.take(open.len() as int) == open
            &&& h.skip(h.len() - close.len()) == close
            &&& forall|k: int|
                0 <= k < items.len() ==> h.subrange(
                    open.len() + item_offset(items, sl, k),
                    open.len() + item_offset(items, sl, k) + items[k].len(),
                ) == #[trigger] items[k]
            &&& forall|k: int|
                0 < k < items.len() ==> h.subrange(
                    open.len() + #[trigger] item_offset(items, sl, k) - sl,
                    open.len() + item_offset(items, sl, k),
                ) == sep
            &&& h.len() == open.len() + close.len() + (if items.len() == 0 {
                0
            } else {
                item_offset(items, sl, items.len() - 1) + items.last().len()
            })
        }),
{
    let body = join(items, sep);
    let h = open + body + close;
    lemma_join_layout(items, sep);
    assert(h.take(open.len() as int) =~= open);
    assert(h.skip(h.len() - close.len()) =~= close);
    assert forall|k: int| 0 <= k < items.len() implies h.subrange(
        open.len() + item_offset(items, sl, k),
        open.len() + item_offset(items, sl, k) + items[k].len(),
    ) == #[trigger] items[k] by {
        lemma_offset_bound(items, sl, k);
        assert(h.subrange(open.len() + item_offset(items, sl, k), open.len() + item_offset(items, sl, k) + items[k].len())
            =~= body.subrange(item_offset(items, sl, k), item_offset(items, sl, k) + items[k].len()));
    }
    assert forall|k: int| 0 < k < items.len() implies h.subrange(
        open.len() + #[trigger] item_offset(items, sl, k) - sl,
        open.len() + item_offset(items, sl, k),
    ) == sep by {
        lemma_offset_bound(items, sl, k);
        assert(h.subrange(open.len() + item_offset(items, sl, k) - sl, open.len() + item_offset(items, sl, k))
            =~= body.subrange(item_offset(items, sl, k) - sl, item_offset(items, sl, k)));
    }
}

/// Where the parts of a parser's hover sit.
proof fn lemma_parser_hover_layout(p: Parser)
    ensures
        ({
            let ps = p.parameters@;
            let shown = ps.map_values(|q: Parameter| shown_param(q));
            let open = "```p4\nparser "@ + p.name@ + "("@;
            let close = ")\n```"@;
            let h = parser_hover(p);
            &&& h.take(open.len() as int) == open
            &&& h.skip(h.len() - close.len()) == close
            &&& forall|k: int|
                0 <= k < ps.len() ==> h.subrange(
                    open.len() + item_offset(shown, 2, k),
                    open.len() + item_offset(shown, 2, k) + shown_param(ps[k]).len(),
                ) == shown_param(#[trigger] ps[k])
            &&& forall|k: int|
                0 < k < ps.len() ==> h.subrange(
                    open.len() + #[trigger] item_offset(shown, 2, k) - 2,
                    open.len() + item_offset(shown, 2, k),
                ) == ", "@
            &&& h.len() == open.len() + close.len() + (if ps.len() == 0 {
                0
            } else {
                item_offset(shown, 2, ps.len() - 1) + shown_param(ps.last()).len()
            })
        }),
{
    let ps = p.parameters@;
    let shown = ps.map_values(|q: Parameter| shown_param(q));
    let open = "```p4\nparser "@ + p.name@ + "("@;
    let close = ")\n```"@;
    assert(ps.map_values(|q: Parameter| param_text(q)) =~= shown);
    assert(parser_hover(p) =~= open + join(shown, ", "@) + close);
    reveal_strlit(", ");
    assert(", "@.len() == 2);
    let h = parser_hover(p);
    lemma_wrapped_layout(open, shown, ", "@, close, 2);
    assert forall|k: int| 0 <= k < ps.len() implies h.subrange(
        open.len() + item_offset(shown, 2, k),
        open.len() + item_offset(shown, 2, k) + shown_param(ps[k]).len(),
    ) == shown_param(#[trigger] ps[k]) by {
        assert(shown[k] == shown_param(ps[k]));
    }
}

/// `h` is `open`, then the items with `sep` between neighbours, each at
/// its place, then `close`, and nothing else.
pub open spec fn laid_out(h: Seq<char>, open: Seq<char>, items: Seq<Seq<char>>, sep: Seq<char>, close: Seq<char>) -> bool {
    let sl = sep.len() as int;
    &&& h.take(open.len() as int) == open
    &&& h.skip(h.len() - close.len()) == close
    &&& forall|k: int|
        0 <= k < items.len() ==> h.subrange(
            open.len() + item_offset(items, sl, k),
            open.len() + item_offset(items, sl, k) + items[k].len(),
        ) == #[trigger] items[k]
    &&& forall|k: int|
        0 < k < items.len() ==> h.subrange(
            open.len() + #[trigger] item_offset(items, sl, k) - sl,
            open.len() + item_offset(items, sl, k),
        ) == sep
    &&& h.len() == open.len() + close.len() + (if items.len() == 0 {
        0
    } else {
        item_offset(items, sl, items.len() - 1) + items.last().len()
    })
}

/// A member as a header or struct hover shows it: indented type and name,
/// closed by a semicolon, on a line of its own.
pub open spec fn shown_member(m: Member) -> Seq<char> {
    "    "@ + m.ty.text@ + " "@ + m.name@ + ";\n"@
}

/// The cursor is on the name `w`, with no dotted path of known type before
/// it: the hover is the hover of that name.
pub open spec fn cursor_on_name(ast: Ast, text: Seq<char>, position: Position, w: Seq<char>) -> bool {
    &&& position.line as int + 1 <= text_lines(text).len()
    &&& word_at(text_lines(text)[position.line as int], position.character as int) == Some(w)
    &&& match prefix_at(text_lines(text)[position.line as int], position.character as int) {
        Some(pre) => path_type(ast, pre, text, position.line as int) is None,
        None => true,
    }
}

proof fn lemma_laid_out(open: Seq<char>, items: Seq<Seq<char>>, sep: Seq<char>, close: Seq<char>)
    ensures
        laid_out(open + join(items, sep) + close, open, items, sep, close),
{
    lemma_wrapped_layout(open, items, sep, close, sep.len() as int);
}

proof fn lemma_params_laid_out(open: Seq<char>, ps: Seq<Parameter>, close: Seq<char>)
    ensures
        laid_out(open + params_text(ps) + close, open, ps.map_values(|q: Parameter| shown_param(q)), ", "@, close),
{
    assert(ps.map_values(|q: Parameter| param_text(q)) =~= ps.map_values(|q: Parameter| shown_param(q)));
    lemma_laid_out(open, ps.map_values(|q: Parameter| shown_param(q)), ", "@, close);
}

proof fn lemma_members_join(ms: Seq<Member>)
    ensures
        members_text(ms) == join(ms.map_values(|m: Member| shown_member(m)), ""@),
    decreases ms.len(),
{
    let items = ms.map_values(|m: Member| shown_member(m));
    reveal_strlit("");
    assert(""@ =~= Seq::<char>::empty());
    if ms.len() > 0 {
        lemma_members_join(ms.drop_last());
        assert(ms.drop_last().map_values(|m: Member| shown_member(m)) =~= items.drop_last());
        if ms.len() == 1 {
            assert(members_text(ms.drop_last()) =~= Seq::<char>::empty());
            assert(members_text(ms) =~= items[0]);
        } else {
            assert(join(items, ""@) =~= join(items.drop_last(), ""@) + items.last());
        }
    } else {
        assert(join(items, ""@) =~= Seq::<char>::empty());
    }
}

proof fn lemma_members_laid_out(open: Seq<char>, ms: Seq<Member>, close: Seq<char>)
    ensures
        laid_out(open + members_text(ms) + close, open, ms.map_values(|m: Member| shown_member(m)), ""@, close),
{
    lemma_members_join(ms);
    lemma_laid_out(open, ms.map_values(|m: Member| shown_member(m)), ""@, close);
}

/// On a name, the hover is the hover of that name.
proof fn lemma_hover_of_name(ast: Ast, text: Seq<char>, position: Position, w: Seq<char>)
    requires
        cursor_on_name(ast, text, position, w),
    ensures
        hover_info(ast, text, position) == name_hover(ast, w, text, position.line as int),
{
}

/// Law: the hover on the name of a header, the first header of that name,
/// is its declaration: "```p4\nheader ", the name and " {\n", then each
/// member on a line of its own as `    type name;`, in order, then "}\n```".
pub proof fn law_header_hover_shows_members(ast: Ast, text: Seq<char>, position: Position, j: int)
    requires
        0 <= j < ast.headers@.len(),
        cursor_on_name(ast, text, position, ast.headers@[j].name@),
        forall|i: int| 0 <= i < j ==> (#[trigger] ast.headers@[i]).name@ != ast.headers@[j].name@,
    ensures
        hover_info(ast, text, position) matches Some(h) && laid_out(
            h,
            "```p4\nheader "@ + ast.headers@[j].name@ + " {\n"@,
            ast.headers@[j].members@.map_values(|m: Member| shown_member(m)),
            ""@,
            "}\n```"@,
        ),
{
    let x = ast.headers@[j];
    lemma_hover_of_name(ast, text, position, x.name@);
    lemma_named_first(ast.headers@, x.name@, 0, j);
    lemma_members_laid_out("```p4\nheader "@ + x.name@ + " {\n"@, x.members@, "}\n```"@);
    assert(header_hover(x) =~= "```p4\nheader "@ + x.name@ + " {\n"@ + members_text(x.members@) + "}\n```"@);
}

/// Law: the hover on the name of a struct, the first struct of that name
/// when no header has it, is its declaration: "```p4\nstruct ", the name
/// and " {\n", then each member on a line of its own as `    type name;`,
/// in order, then "}\n```".
pub proof fn law_struct_hover_shows_members(ast: Ast, text: Seq<char>, position: Position, j: int)
    requires
        0 <= j < ast.structs@.len(),
        cursor_on_name(ast, text, position, ast.structs@[j].name@),
        forall|i: int| 0 <= i < ast.headers@.len() ==> (#[trigger] ast.headers@[i]).name@ != ast.structs@[j].name@,
        forall|i: int| 0 <= i < j ==> (#[trigger] ast.structs@[i]).name@ != ast.structs@[j].name@,
    ensures
        hover_info(ast, text, position) matches Some(h) && laid_out(
            h,
            "```p4\nstruct "@ + ast.structs@[j].name@ + " {\n"@,
            ast.structs@[j].members@.map_values(|m: Member| shown_member(m)),
            ""@,
            "}\n```"@,
        ),
{
    let x = ast.structs@[j];
    lemma_hover_of_name(ast, text, position, x.name@);
    lemma_named_none(ast.headers@, x.name@, 0);
    lemma_named_first(ast.structs@, x.name@, 0, j);
    lemma_members_laid_out("```p4\nstruct "@ + x.name@ + " {\n"@, x.members@, "}\n```"@);
    assert(struct_hover(x) =~= "```p4\nstruct "@ + x.name@ + " {\n"@ + members_text(x.members@) + "}\n```"@);
}

/// Law: the hover on the name of a control, the first control of that name
/// when no header or struct has it, is its declaration: "```p4\ncontrol ",
/// the name and "(", its parameters written `direction type name` and
/// separated by ", ", in order, then ")\n```".
pub proof fn law_control_hover_shows_parameters(ast: Ast, text: Seq<char>, position: Position, j: int)
    requires
        0 <= j < ast.controls@.len(),
        cursor_on_name(ast, text, position, ast.controls@[j].name@),
        forall|i: int| 0 <= i < ast.headers@.len() ==> (#[trigger] ast.headers@[i]).name@ != ast.controls@[j].name@,
        forall|i: int| 0 <= i < ast.structs@.len() ==> (#[trigger] ast.structs@[i]).name@ != ast.controls@[j].name@,
        forall|i: int| 0 <= i < j ==> (#[trigger] ast.controls@[i]).name@ != ast.controls@[j].name@,
    ensures
        hover_info(ast, text, position) matches Some(h) && laid_out(
            h,
            "```p4\ncontrol "@ + ast.controls@[j].name@ + "("@,
            ast.controls@[j].parameters@.map_values(|q: Parameter| shown_param(q)),
            ", "@,
            ")\n```"@,
        ),
{
    let x = ast.controls@[j];
    lemma_hover_of_name(ast, text, position, x.name@);
    lemma_named_none(ast.headers@, x.name@, 0);
    lemma_named_none(ast.structs@, x.name@, 0);
    lemma_named_first(ast.controls@, x.name@, 0, j);
    lemma_params_laid_out("```p4\ncontrol "@ + x.name@ + "("@, x.parameters@, ")\n```"@);
    assert(control_hover(x) =~= "```p4\ncontrol "@ + x.name@ + "("@ + params_text(x.parameters@) + ")\n```"@);
}

/// A method as an extern hover shows it: indented return type and name,
/// then its parameters written `direction type name` and separated by
/// ", " in parentheses, closed by a semicolon, on a line of its own.
pub open spec fn shown_method(m: ExternMethod) -> Seq<char> {
    "    "@ + m.return_type.text@ + " "@ + m.name@ + "("@ + join(
        m.parameters@.map_values(|q: Parameter| shown_param(q)),
        ", "@,
    ) + ");\n"@
}

proof fn lemma_methods_join(ms: Seq<ExternMethod>)
    ensures
        methods_text(ms) == join(ms.map_values(|m: ExternMethod| shown_method(m)), ""@),
    decreases ms.len(),
{
    let items = ms.map_values(|m: ExternMethod| shown_method(m));
    reveal_strlit("");
    assert(""@ =~= Seq::<char>::empty());
    if ms.len() > 0 {
        lemma_methods_join(ms.drop_last());
        let m = ms.last();
        assert(m.parameters@.map_values(|q: Parameter| param_text(q)) =~= m.parameters@.map_values(
            |q: Parameter| shown_param(q),
        ));
        assert(ms.drop_last().map_values(|m: ExternMethod| shown_method(m)) =~= items.drop_last());
        if ms.len() == 1 {
            assert(methods_text(ms.drop_last()) =~= Seq::<char>::empty());
            assert(methods_text(ms) =~= items[0]);
        } else {
            assert(methods_text(ms) =~= methods_text(ms.drop_last()) + items.last());
            assert(join(items, ""@) =~= join(items.drop_last(), ""@) + items.last());
        }
    } else {
        assert(join(items, ""@) =~= Seq::<char>::empty());
    }
}

/// Law: the hover on the name of an extern, the first extern of that name
/// when no header, struct, control or parser has it, is its declaration:
/// "```p4\nextern ", the name and " {\n", then each method on a line of
/// its own as `    type name(parameters);`, in order, then "}\n```".
pub proof fn law_extern_hover_shows_methods(ast: Ast, text: Seq<char>, position: Position, j: int)
    requires
        0 <= j < ast.externs@.len(),
        cursor_on_name(ast, text, position, ast.externs@[j].name@),
        forall|i: int| 0 <= i < ast.headers@.len() ==> (#[trigger] ast.headers@[i]).name@ != ast.externs@[j].name@,
        forall|i: int| 0 <= i < ast.structs@.len() ==> (#[trigger] ast.structs@[i]).name@ != ast.externs@[j].name@,
        forall|i: int| 0 <= i < ast.controls@.len() ==> (#[trigger] ast.controls@[i]).name@ != ast.externs@[j].name@,
        forall|i: int| 0 <= i < ast.parsers@.len() ==> (#[trigger] ast.parsers@[i]).name@ != ast.externs@[j].name@,
        forall|i: int| 0 <= i < j ==> (#[trigger] ast.externs@[i]).name@ != ast.externs@[j].name@,
    ensures
        hover_info(ast, text, position) matches Some(h) && laid_out(
            h,
            "```p4\nextern "@ + ast.externs@[j].name@ + " {\n"@,
            ast.externs@[j].methods@.map_values(|m: ExternMethod| shown_method(m)),
            ""@,
            "}\n```"@,
        ),
{
    let x = ast.externs@[j];
    lemma_hover_of_name(ast, text, position, x.name@);
    lemma_named_none(ast.headers@, x.name@, 0);
    lemma_named_none(ast.structs@, x.name@, 0);
    lemma_named_none(ast.controls@, x.name@, 0);
    lemma_named_none(ast.parsers@, x.name@, 0);
    lemma_named_first(ast.externs@, x.name@, 0, j);
    lemma_methods_join(x.methods@);
    let open = "```p4\nextern "@ + x.name@ + " {\n"@;
    lemma_laid_out(open, x.methods@.map_values(|m: ExternMethod| shown_method(m)), ""@, "}\n```"@);
    assert(extern_hover(x) =~= open + methods_text(x.methods@) + "}\n```"@);
}

/// Law: the hover on the name of a typedef of a built-in type, the first
/// typedef of that name when no header, struct, control, parser or extern
/// has it, starts with "```p4\ntypedef ", that type as written, a space,
/// the name and "\n```".
pub proof fn law_typedef_hover_shows_type(ast: Ast, text: Seq<char>, position: Position, j: int)
    requires
        0 <= j < ast.typedefs@.len(),
        !(ast.typedefs@[j].ty.kind is UserDefined),
        cursor_on_name(ast, text, position, ast.typedefs@[j].name@),
        forall|i: int| 0 <= i < ast.headers@.len() ==> (#[trigger] ast.headers@[i]).name@ != ast.typedefs@[j].name@,
        forall|i: int| 0 <= i < ast.structs@.len() ==> (#[trigger] ast.structs@[i]).name@ != ast.typedefs@[j].name@,
        forall|i: int| 0 <= i < ast.controls@.len() ==> (#[trigger] ast.controls@[i]).name@ != ast.typedefs@[j].name@,
        forall|i: int| 0 <= i < ast.parsers@.len() ==> (#[trigger] ast.parsers@[i]).name@ != ast.typedefs@[j].name@,
        forall|i: int| 0 <= i < ast.externs@.len() ==> (#[trigger] ast.externs@[i]).name@ != ast.typedefs@[j].name@,
        forall|i: int| 0 <= i < j ==> (#[trigger] ast.typedefs@[i]).name@ != ast.typedefs@[j].name@,
    ensures
        hover_info(ast, text, position) matches Some(h) && h.take(
            ("```p4\ntypedef "@ + ast.typedefs@[j].ty.text@ + " "@ + ast.typedefs@[j].name@ + "\n```"@).len() as int,
        ) == "```p4\ntypedef "@ + ast.typedefs@[j].ty.text@ + " "@ + ast.typedefs@[j].name@ + "\n```"@,
{
    let x = ast.typedefs@[j];
    lemma_hover_of_name(ast, text, position, x.name@);
    lemma_named_none(ast.headers@, x.name@, 0);
    lemma_named_none(ast.structs@, x.name@, 0);
    lemma_named_none(ast.controls@, x.name@, 0);
    lemma_named_none(ast.parsers@, x.name@, 0);
    lemma_named_none(ast.externs@, x.name@, 0);
    lemma_named_first(ast.typedefs@, x.name@, 0, j);
    let head = "```p4\ntypedef "@ + x.ty.text@ + " "@ + x.name@ + "\n```"@;
    assert(typedef_hover(ast, x) == head);
    assert(head.take(head.len() as int) =~= head);
}

/// The head of a typedef's hover: "```p4\ntypedef ", the type shown, a
/// space, the name and "\n```".
pub open spec fn typedef_head(shown: Seq<char>, name: Seq<char>) -> Seq<char> {
    "```p4\ntypedef "@ + shown + " "@ + name + "\n```"@
}

/// Law: a typedef whose type names another typedef (the first of that
/// name) shows, in its hover, the same type as that typedef does: aliases
/// are followed to the end of the chain.
pub proof fn law_typedef_chain_shows_same_type(ast: Ast, i: int, j: int, n: String)
    requires
        0 <= i < ast.typedefs@.len(),
        0 <= j < ast.typedefs@.len(),
        ast.typedefs@[i].ty.kind == TypeKind::UserDefined(n),
        n@ == ast.typedefs@[j].name@,
        forall|k: int| 0 <= k < j ==> (#[trigger] ast.typedefs@[k]).name@ != n@,
        alias_ends(ast.typedefs@, ast.typedefs@[i].ty),
    ensures
        exists|t: Seq<char>|
            typedef_hover(ast, ast.typedefs@[i]).take(typedef_head(t, ast.typedefs@[i].name@).len() as int)
                == typedef_head(t, ast.typedefs@[i].name@) && typedef_hover(ast, ast.typedefs@[j]).take(
                typedef_head(t, ast.typedefs@[j].name@).len() as int,
            ) == typedef_head(t, ast.typedefs@[j].name@),
{
    let tds = ast.typedefs@;
    let len = tds.len();
    lemma_named_first(tds, n@, 0, j);
    let t = alias_text(tds, tds[j].ty, (len - 1) as nat).unwrap();
    assert(alias_text(tds, tds[i].ty, len) == alias_text(tds, tds[j].ty, (len - 1) as nat));
    lemma_alias_fuel(tds, tds[j].ty, (len - 1) as nat, len);
    let hi = typedef_head(t, tds[i].name@);
    let hj = typedef_head(t, tds[j].name@);
    assert(typedef_hover(ast, tds[i]).take(hi.len() as int) =~= hi);
    assert(typedef_hover(ast, tds[j]).take(hj.len() as int) =~= hj);
}

proof fn lemma_control_action_first(cs: Seq<Control>, w: Seq<char>, i: int, c: int, a: int)
    requires
        0 <= i <= c < cs.len(),
        0 <= a < cs[c].actions@.len(),
        cs[c].actions@[a].name@ == w,
        forall|d: int, k: int| i <= d < c && 0 <= k < cs[d].actions@.len() ==> (#[trigger] cs[d].actions@[k]).name@ != w,
        forall|k: int| 0 <= k < a ==> (#[trigger] cs[c].actions@[k]).name@ != w,
    ensures
        control_action_from(cs, w, i) == Some((c, a)),
    decreases c - i,
{
    if i < c {
        assert forall|k: int| 0 <= k < cs[i].actions@.len() implies (#[trigger] cs[i].actions@[k]).spec_name() != w by {
            assert(cs[i].actions@[k].name@ != w);
        }
        lemma_named_none(cs[i].actions@, w, 0);
        lemma_control_action_first(cs, w, i + 1, c, a);
    } else {
        assert forall|k: int| 0 <= k < a implies (#[trigger] cs[c].actions@[k]).spec_name() != w by {
            assert(cs[c].actions@[k].name@ != w);
        }
        lemma_named_first(cs[c].actions@, w, 0, a);
    }
}

/// Law: the hover on the name of an action, when no header, struct,
/// control, parser, extern or typedef has that name, is the declaration of
/// the first action of that name (controls in order, actions in order):
/// "```p4\n// in control " with its control's name, "\naction ", the
/// action's name and "(", its parameters written `direction type name` and
/// separated by ", ", in order, then ")\n```".
pub proof fn law_action_hover_shows_parameters(
    ast: Ast,
    text: Seq<char>,
    position: Position,
    c: int,
    a: int,
)
    requires
        0 <= c < ast.controls@.len(),
        0 <= a < ast.controls@[c].actions@.len(),
        cursor_on_name(ast, text, position, ast.controls@[c].actions@[a].name@),
        forall|i: int| 0 <= i < ast.headers@.len() ==> (#[trigger] ast.headers@[i]).name@ != ast.controls@[c].actions@[a].name@,
        forall|i: int| 0 <= i < ast.structs@.len() ==> (#[trigger] ast.structs@[i]).name@ != ast.controls@[c].actions@[a].name@,
        forall|i: int| 0 <= i < ast.controls@.len() ==> (#[trigger] ast.controls@[i]).name@ != ast.controls@[c].actions@[a].name@,
        forall|i: int| 0 <= i < ast.parsers@.len() ==> (#[trigger] ast.parsers@[i]).name@ != ast.controls@[c].actions@[a].name@,
        forall|i: int| 0 <= i < ast.externs@.len() ==> (#[trigger] ast.externs@[i]).name@ != ast.controls@[c].actions@[a].name@,
        forall|i: int| 0 <= i < ast.typedefs@.len() ==> (#[trigger] ast.typedefs@[i]).name@ != ast.controls@[c].actions@[a].name@,
        forall|d: int, k: int|
            0 <= d < c && 0 <= k < ast.controls@[d].actions@.len() ==> (#[trigger] ast.controls@[d].actions@[k]).name@
                != ast.controls@[c].actions@[a].name@,
        forall|k: int| 0 <= k < a ==> (#[trigger] ast.controls@[c].actions@[k]).name@ != ast.controls@[c].actions@[a].name@,
    ensures
        hover_info(ast, text, position) matches Some(h) && laid_out(
            h,
            "```p4\n// in control "@ + ast.controls@[c].name@ + "\naction "@ + ast.controls@[c].actions@[a].name@ + "("@,
            ast.controls@[c].actions@[a].parameters@.map_values(|q: Parameter| shown_param(q)),
            ", "@,
            ")\n```"@,
        ),
{
    let x = ast.controls@[c].actions@[a];
    let w = x.name@;
    lemma_hover_of_name(ast, text, position, w);
    lemma_named_none(ast.headers@, w, 0);
    lemma_named_none(ast.structs@, w, 0);
    lemma_named_none(ast.controls@, w, 0);
    lemma_named_none(ast.parsers@, w, 0);
    lemma_named_none(ast.externs@, w, 0);
    lemma_named_none(ast.typedefs@, w, 0);
    lemma_control_action_first(ast.controls@, w, 0, c, a);
    let open = "```p4\n// in control "@ + ast.controls@[c].name@ + "\naction "@ + x.name@ + "("@;
    lemma_params_laid_out(open, x.parameters@, ")\n```"@);
    assert(action_hover(x, ast.controls@[c].name@) =~= open + params_text(x.parameters@) + ")\n```"@);
}

/// Whether a header, struct, control, parser or extern is named `w`; such a
/// declaration answers a hover before any typedef of that name.
pub open spec fn declared_before_typedefs(ast: Ast, w: Seq<char>) -> bool {
    ||| first_named(ast.headers@, w) is Some
    ||| first_named(ast.structs@, w) is Some
    ||| first_named(ast.controls@, w) is Some
    ||| first_named(ast.parsers@, w) is Some
    ||| first_named(ast.externs@, w) is Some
}

/// The typedef whose hover answers at `position`, if one does: the name
/// there is not reached through a dotted path of known type, nothing
/// declared before the typedefs has that name, and a typedef has it.
pub open spec fn typedef_hovered(ast: Ast, text: Seq<char>, position: Position) -> Option<int> {
    if position.line as int >= text_lines(text).len() {
        None
    } else {
        let l = text_lines(text)[position.line as int];
        let col = position.character as int;
        match word_at(l, col) {
            None => None,
            Some(w) => {
                let via_prefix = match prefix_at(l, col) {
                    Some(p) => path_type(ast, p, text, position.line as int),
                    None => None,
                };
                if via_prefix is Some || declared_before_typedefs(ast, w) {
                    None
                } else {
                    first_named(ast.typedefs@, w)
                }
            },
        }
    }
}

/// Hovering at `position` terminates: when the hover is that of a typedef,
/// its alias chain ends.
pub open spec fn hover_terminates(ast: Ast, text: Seq<char>, position: Position) -> bool {
    match typedef_hovered(ast, text, position) {
        Some(i) => alias_ends(ast.typedefs@, ast.typedefs@[i].ty),
        None => true,
    }
}

proof fn lemma_control_action_from(cs: Seq<Control>, name: Seq<char>, i: int)
    requires
        0 <= i,
    ensures
        control_action_from(cs, name, i) matches Some((c, a)) ==> i <= c < cs.len()
            && first_named(cs[c].actions@, name) == Some(a),
    decreases cs.len() - i,
{
    if i < cs.len() && first_named(cs[i].actions@, name) is None {
        lemma_control_action_from(cs, name, i + 1);
    }
}

/// The hover text of the name `word` seen from `position`.
fn get_name_hover(ast: &Ast, word: &str, content: &Rope, position: Position) -> (r: Option<String>)
    requires
        !declared_before_typedefs(*ast, word@) ==> (first_named(ast.typedefs@, word@) matches Some(i)
            ==> alias_ends(ast.typedefs@, ast.typedefs@[i].ty)),
    ensures
        opt_str(r) == name_hover(*ast, word@, rope_text(*content), position.line as int),
{
    if let Some(i) = find_named(&ast.headers, word) {
        return Some(format_header_hover(&ast.headers[i]));
    }
    if let Some(i) = find_named(&ast.structs, word) {
        return Some(format_struct_hover(&ast.structs[i]));
    }
    if let Some(i) = find_named(&ast.controls, word) {
        return Some(format_control_hover(&ast.controls[i]));
    }
    if let Some(i) = find_named(&ast.parsers, word) {
        return Some(format_parser_hover(&ast.parsers[i]));
    }
    if let Some(i) = find_named(&ast.externs, word) {
        return Some(format_extern_hover(&ast.externs[i]));
    }
    if let Some(i) = find_named(&ast.typedefs, word) {
        return Some(format_typedef_hover(ast, &ast.typedefs[i]));
    }
    let mut c: usize = 0;
    proof {
        lemma_control_action_from(ast.controls@, word@, 0);
    }
    while c < ast.controls.len()
        invariant
            c <= ast.controls@.len(),
            control_action_from(ast.controls@, word@, c as int) == control_action_from(
                ast.controls@,
                word@,
                0,
            ),
            first_named(ast.headers@, word@) is None,
            first_named(ast.structs@, word@) is None,
            first_named(ast.controls@, word@) is None,
            first_named(ast.parsers@, word@) is None,
            first_named(ast.externs@, word@) is None,
            first_named(ast.typedefs@, word@) is None,
        decreases ast.controls@.len() - c,
    {
        if let Some(a) = find_named(&ast.controls[c].actions, word) {
            assert(control_action_from(ast.controls@, word@, c as int) == Some((c as int, a as int)));
            let control = &ast.controls[c];
            return Some(format_action_hover(&control.actions[a], control.name.as_str()));
        }
        c += 1;
    }
    if let Some(h) = format_scoped_hover(ast, word, content, position) {
        return Some(h);
    }
    if let Some(ty) = find_variable_type(ast, word, content, position) {
        let mut r = owned("```p4\n");
        r.append(ty.text.as_str());
        r.append(" ");
        r.append(word);
        r.append("\n```");
        return Some(r);
    }
    None
}

/// Whether hovering at `position` terminates: the typedef that the name
/// there may denote has an alias chain that ends.
pub fn hover_ends(ast: &Ast, content: &Rope, position: Position) -> (r: bool)
    ensures
        r == hover_terminates(*ast, rope_text(*content), position),
{
    let line_idx = position.line as usize;
    let col_idx = position.character as usize;
    if line_idx >= rope_len_lines(content) {
        return true;
    }
    let line_str = rope_line(content, line_idx);
    let (word, prefix) = extract_word_and_prefix(line_str.as_str(), col_idx);
    let word = match word {
        Some(w) => w,
        None => return true,
    };
    if let Some(p) = prefix {
        if resolve_type_for_name(ast, p.as_str(), content, position).is_some() {
            return true;
        }
    }
    if find_named(&ast.headers, word.as_str()).is_some() || find_named(&ast.structs, word.as_str()).is_some()
        || find_named(&ast.controls, word.as_str()).is_some() || find_named(&ast.parsers, word.as_str()).is_some()
        || find_named(&ast.externs, word.as_str()).is_some() {
        return true;
    }
    match find_named(&ast.typedefs, word.as_str()) {
        Some(i) => alias_chain_ends(ast, &ast.typedefs[i].ty),
        None => true,
    }
}

/// The hover text at `position` of the document `content` whose program is
/// `ast`.
pub fn get_hover_info(ast: &Ast, content: &Rope, position: Position) -> (r: Option<String>)
    requires
        hover_terminates(*ast, rope_text(*content), position),
    ensures
        opt_str(r) == hover_info(*ast, rope_text(*content), position),
{
    let line_idx = position.line as usize;
    let col_idx = position.character as usize;
    if line_idx >= rope_len_lines(content) {
        return None;
    }
    let line_str = rope_line(content, line_idx);
    let (word, prefix) = extract_word_and_prefix(line_str.as_str(), col_idx);
    let word = match word {
        Some(w) => w,
        None => return None,
    };
    if let Some(p) = prefix {
        if let Some(ty) = resolve_type_for_name(ast, p.as_str(), content, position) {
            return get_member_hover(ast, &ty, word.as_str());
        }
    }
    get_name_hover(ast, word.as_str(), content, position)
}

} // verus!
