//! Completion proposals: the program's declarations, the members of a typed
//! receiver, and the names of the enclosing scope.
use vstd::prelude::*;
use ropey::Rope;
use crate::ast::{find_named, first_named, Ast, Control, Named, Parameter, Type, TypeKind};
use crate::builtins::{add_keyword_completions, keyword_items, simple_completion};
use crate::hover::join;
use crate::protocol::{
    item_view, item_views, plain_item, CompletionItem, CompletionItemKind, ItemView, Position,
};
use crate::scope::{
    enclosing_scope, find_enclosing_scope, path_type, resolve_type_for_name, Scope,
};
use crate::strings::{concat_str, owned};
use crate::text::{rope_len_lines, rope_line, rope_text, text_lines};
use crate::words::{dot_prefix_at, get_dot_prefix};

verus! {

/// One plain item per declaration of `v`, with the given kind and detail.
pub open spec fn named_items<T: Named>(v: Seq<T>, kind: CompletionItemKind, detail: Seq<char>) -> Seq<ItemView> {
    v.map_values(|x: T| plain_item(x.spec_name(), kind, detail))
}

/// The items of one control: the control, its actions and its tables.
pub open spec fn one_control_items(c: Control) -> Seq<ItemView> {
    seq![plain_item(c.name@, CompletionItemKind::Class, "control"@)] + named_items(
        c.actions@,
        CompletionItemKind::Function,
        "action in "@ + c.name@,
    ) + named_items(c.tables@, CompletionItemKind::Variable, "table in "@ + c.name@)
}

/// The items of a list of controls, in order.
pub open spec fn control_items(cs: Seq<Control>) -> Seq<ItemView>
    decreases cs.len(),
{
    if cs.len() == 0 {
        Seq::empty()
    } else {
        control_items(cs.drop_last()) + one_control_items(cs.last())
    }
}

/// The items for the program's declarations: headers, structs, controls
/// (with their actions and tables), parsers and externs.
pub open spec fn program_items(ast: Ast) -> Seq<ItemView> {
    named_items(ast.headers@, CompletionItemKind::Struct, "header"@) + named_items(
        ast.structs@,
        CompletionItemKind::Struct,
        "struct"@,
    ) + control_items(ast.controls@) + named_items(ast.parsers@, CompletionItemKind::Class, "parser"@)
        + named_items(ast.externs@, CompletionItemKind::Interface, "extern"@)
}

/// All completions without context: the program's declarations, then the
/// keyword completions.
pub open spec fn completions_of(ast: Ast) -> Seq<ItemView> {
    program_items(ast) + keyword_items()
}

/// Appends one plain item per declaration of `v`.
fn push_named<T: Named>(out: &mut Vec<CompletionItem>, v: &Vec<T>, kind: CompletionItemKind, detail: &str)
    ensures
        item_views(final(out)@) == item_views(old(out)@) + named_items(v@, kind, detail@),
{
    let ghost base = item_views(out@);
    let ghost goal = named_items(v@, kind, detail@);
    let mut i: usize = 0;
    while i < v.len()
        invariant
            i <= v@.len(),
            goal == named_items(v@, kind, detail@),
            item_views(out@) =~= base + goal.take(i as int),
        decreases v@.len() - i,
    {
        let c = simple_completion(v[i].name_str(), kind, detail);
        let ghost prev = out@;
        out.push(c);
        assert(item_views(out@) =~= item_views(prev).push(item_view(c)));
        assert(goal.take(i as int + 1) =~= goal.take(i as int).push(goal[i as int]));
        i += 1;
    }
    assert(goal.take(v@.len() as int) =~= goal);
}

/// The completions for the program's declarations, then the keywords.
pub fn get_completions(ast: &Ast) -> (r: Vec<CompletionItem>)
    ensures
        item_views(r@) == completions_of(*ast),
{
    let mut completions: Vec<CompletionItem> = Vec::new();
    assert(item_views(completions@) =~= Seq::<ItemView>::empty());
    push_named(&mut completions, &ast.headers, CompletionItemKind::Struct, "header");
    push_named(&mut completions, &ast.structs, CompletionItemKind::Struct, "struct");
    let ghost before_controls = item_views(completions@);
    let mut i: usize = 0;
    while i < ast.controls.len()
        invariant
            i <= ast.controls@.len(),
            item_views(completions@) == before_controls + control_items(ast.controls@.take(i as int)),
        decreases ast.controls@.len() - i,
    {
        let control = &ast.controls[i];
        assert(ast.controls@.take(i as int + 1).drop_last() =~= ast.controls@.take(i as int));
        let ghost prev = item_views(completions@);
        let c = simple_completion(control.name.as_str(), CompletionItemKind::Class, "control");
        completions.push(c);
        let action_detail = concat_str("action in ", control.name.as_str());
        push_named(&mut completions, &control.actions, CompletionItemKind::Function, action_detail.as_str());
        let table_detail = concat_str("table in ", control.name.as_str());
        push_named(&mut completions, &control.tables, CompletionItemKind::Variable, table_detail.as_str());
        assert(item_views(completions@) =~= prev + one_control_items(*control));
        i += 1;
    }
    assert(ast.controls@.take(ast.controls@.len() as int) =~= ast.controls@);
    push_named(&mut completions, &ast.parsers, CompletionItemKind::Class, "parser");
    push_named(&mut completions, &ast.externs, CompletionItemKind::Interface, "extern");
    add_keyword_completions(&mut completions);
    assert(item_views(completions@) =~= completions_of(*ast));
    completions
}

/// The item for a member of a header or struct.
pub open spec fn field_item(name: Seq<char>, ty: Seq<char>, doc: Seq<char>) -> ItemView {
    (name, Some(CompletionItemKind::Field), Some(ty), Some(doc), None)
}

/// The item for a method with the given detail and inserted text.
pub open spec fn method_item(name: Seq<char>, detail: Seq<char>, doc: Option<Seq<char>>, insert: Option<Seq<char>>) -> ItemView {
    (name, Some(CompletionItemKind::Method), Some(detail), doc, insert)
}

/// The items for the members of a header or struct.
pub open spec fn member_items(ms: Seq<crate::ast::Member>, doc: Seq<char>) -> Seq<ItemView> {
    ms.map_values(|m: crate::ast::Member| field_item(m.name@, m.ty.text@, doc))
}

/// The built-in methods of headers.
pub open spec fn header_method_items() -> Seq<ItemView> {
    seq![
        method_item("isValid"@, "bool"@, Some("Check if header is valid"@), Some("isValid()"@)),
        method_item("setValid"@, "void"@, Some("Mark header as valid"@), Some("setValid()"@)),
        method_item("setInvalid"@, "void"@, Some("Mark header as invalid"@), Some("setInvalid()"@)),
    ]
}

/// A parameter written as `type name`.
pub open spec fn typed_param_text(p: Parameter) -> Seq<char> {
    p.ty.text@ + " "@ + p.name@
}

/// The items for the methods of an extern.
pub open spec fn extern_method_items(ms: Seq<crate::ast::ExternMethod>) -> Seq<ItemView> {
    ms.map_values(
        |m: crate::ast::ExternMethod|
            method_item(
                m.name@,
                m.return_type.text@ + " ("@ + join(
                    m.parameters@.map_values(|p: Parameter| typed_param_text(p)),
                    ", "@,
                ) + ")"@,
                None,
                None,
            ),
    )
}

/// The completions after `receiver.` when the receiver has type `ty`: the
/// members of the struct it names, the members and methods of the header it
/// names, the methods of the extern it names; `apply` for a table.
pub open spec fn member_completions(ast: Ast, ty: Type) -> Seq<ItemView> {
    match ty.kind {
        TypeKind::UserDefined(tn) => {
            let from_struct = match first_named(ast.structs@, tn@) {
                Some(si) => member_items(ast.structs@[si].members@, "Member of struct "@ + tn@),
                None => Seq::empty(),
            };
            let from_header = match first_named(ast.headers@, tn@) {
                Some(hi) => member_items(ast.headers@[hi].members@, "Member of header "@ + tn@)
                    + header_method_items(),
                None => Seq::empty(),
            };
            let from_extern = match first_named(ast.externs@, tn@) {
                Some(ei) => extern_method_items(ast.externs@[ei].methods@),
                None => Seq::empty(),
            };
            from_struct + from_header + from_extern
        },
        TypeKind::Table => seq![method_item("apply"@, "Apply the table"@, None, Some("apply()"@))],
        TypeKind::Other => Seq::empty(),
    }
}

/// A completion item from its parts.
fn item(
    label: &str,
    kind: CompletionItemKind,
    detail: &str,
    doc: Option<String>,
    insert: Option<&str>,
) -> (c: CompletionItem)
    ensures
        item_view(c) == (label@, Some(kind), Some(detail@), crate::strings::opt_str(doc), match insert {
            Some(s) => Some(s@),
            None => None,
        }),
{
    CompletionItem {
        label: owned(label),
        kind: Some(kind),
        detail: Some(owned(detail)),
        documentation: doc,
        insert_text: match insert {
            Some(s) => Some(owned(s)),
            None => None,
        },
    }
}

/// Appends an item per member, documented with `doc`.
fn push_members(out: &mut Vec<CompletionItem>, ms: &Vec<crate::ast::Member>, doc: &str)
    ensures
        item_views(final(out)@) == item_views(old(out)@) + member_items(ms@, doc@),
{
    let ghost base = item_views(out@);
    let ghost goal = member_items(ms@, doc@);
    let mut i: usize = 0;
    while i < ms.len()
        invariant
            i <= ms@.len(),
            goal == member_items(ms@, doc@),
            item_views(out@) =~= base + goal.take(i as int),
        decreases ms@.len() - i,
    {
        let m = &ms[i];
        let c = item(m.name.as_str(), CompletionItemKind::Field, m.ty.text.as_str(), Some(owned(doc)), None);
        let ghost prev = out@;
        out.push(c);
        assert(item_views(out@) =~= item_views(prev).push(item_view(c)));
        assert(goal.take(i as int + 1) =~= goal.take(i as int).push(goal[i as int]));
        i += 1;
    }
    assert(goal.take(ms@.len() as int) =~= goal);
}

/// The parameters written `type name`, separated by commas.
fn typed_params(ps: &Vec<Parameter>) -> (r: String)
    ensures
        r@ == join(ps@.map_values(|p: Parameter| typed_param_text(p)), ", "@),
{
    let mut out = String::new();
    assert(ps@.take(0).map_values(|p: Parameter| typed_param_text(p)) =~= Seq::<Seq<char>>::empty());
    let mut i: usize = 0;
    while i < ps.len()
        invariant
            i <= ps@.len(),
            out@ == join(ps@.take(i as int).map_values(|p: Parameter| typed_param_text(p)), ", "@),
        decreases ps@.len() - i,
    {
        let ghost items = ps@.take(i as int).map_values(|p: Parameter| typed_param_text(p));
        let ghost items2 = ps@.take(i as int + 1).map_values(|p: Parameter| typed_param_text(p));
        assert(items2.drop_last() =~= items);
        if i > 0 {
            out.append(", ");
        }
        out.append(ps[i].ty.text.as_str());
        out.append(" ");
        out.append(ps[i].name.as_str());
        i += 1;
    }
    assert(ps@.take(ps@.len() as int) =~= ps@);
    out
}

/// The completions after a receiver of type `ty`.
pub fn get_member_completions(ast: &Ast, ty: &Type) -> (r: Vec<CompletionItem>)
    ensures
        item_views(r@) == member_completions(*ast, *ty),
{
    let mut completions: Vec<CompletionItem> = Vec::new();
    assert(item_views(completions@) =~= Seq::<ItemView>::empty());
    match &ty.kind {
        TypeKind::UserDefined(tn) => {
            if let Some(si) = find_named(&ast.structs, tn.as_str()) {
                let doc = concat_str("Member of struct ", tn.as_str());
                push_members(&mut completions, &ast.structs[si].members, doc.as_str());
            }
            let ghost after_struct = item_views(completions@);
            if let Some(hi) = find_named(&ast.headers, tn.as_str()) {
                let doc = concat_str("Member of header ", tn.as_str());
                push_members(&mut completions, &ast.headers[hi].members, doc.as_str());
                let ghost mid = item_views(completions@);
                completions.push(item("isValid", CompletionItemKind::Method, "bool", Some(owned("Check if header is valid")), Some("isValid()")));
                completions.push(item("setValid", CompletionItemKind::Method, "void", Some(owned("Mark header as valid")), Some("setValid()")));
                completions.push(item("setInvalid", CompletionItemKind::Method, "void", Some(owned("Mark header as invalid")), Some("setInvalid()")));
                assert(item_views(completions@) =~= mid + header_method_items());
            }
            let ghost after_header = item_views(completions@);
            if let Some(ei) = find_named(&ast.externs, tn.as_str()) {
                let ms = &ast.externs[ei].methods;
                let ghost goal = extern_method_items(ms@);
                let mut i: usize = 0;
                while i < ms.len()
                    invariant
                        i <= ms@.len(),
                        goal == extern_method_items(ms@),
                        item_views(completions@) =~= after_header + goal.take(i as int),
                    decreases ms@.len() - i,
                {
                    let m = &ms[i];
                    let mut detail = owned(m.return_type.text.as_str());
                    detail.append(" (");
                    let params = typed_params(&m.parameters);
                    detail.append(params.as_str());
                    detail.append(")");
                    let c = item(m.name.as_str(), CompletionItemKind::Method, detail.as_str(), None, None);
                    let ghost prev = completions@;
                    completions.push(c);
                    assert(item_views(completions@) =~= item_views(prev).push(item_view(c)));
                    assert(goal.take(i as int + 1) =~= goal.take(i as int).push(goal[i as int]));
                    i += 1;
                }
                assert(goal.take(ms@.len() as int) =~= goal);
            }
        },
        TypeKind::Table => {
            completions.push(item("apply", CompletionItemKind::Method, "Apply the table", None, Some("apply()")));
            assert(item_views(completions@) =~= member_completions(*ast, *ty));
        },
        TypeKind::Other => {},
    }
    assert(item_views(completions@) =~= member_completions(*ast, *ty));
    completions
}

/// The items for parameters: their names, with `type (parameter)`.
pub open spec fn param_items(ps: Seq<Parameter>) -> Seq<ItemView> {
    ps.map_values(
        |p: Parameter| plain_item(p.name@, CompletionItemKind::Variable, p.ty.text@ + " (parameter)"@),
    )
}

/// The items for the names of a scope: a control's parameters, variables,
/// actions and tables, or a parser's parameters.
pub open spec fn scope_items(ast: Ast, scope: Option<Scope>) -> Seq<ItemView> {
    match scope {
        Some(Scope::Control(i)) => {
            let c = ast.controls@[i as int];
            param_items(c.parameters@) + c.variables@.map_values(
                |v: crate::ast::Variable| plain_item(v.name@, CompletionItemKind::Variable, v.ty.text@),
            ) + named_items(c.actions@, CompletionItemKind::Function, "action"@) + named_items(
                c.tables@,
                CompletionItemKind::Variable,
                "table"@,
            )
        },
        Some(Scope::Parser(i)) => param_items(ast.parsers@[i as int].parameters@),
        None => Seq::empty(),
    }
}

/// The completions at `position`: after `receiver.` with a receiver of known
/// type, its members; otherwise all completions followed by the names of
/// the enclosing scope.
pub open spec fn context_completions(ast: Ast, text: Seq<char>, position: Position) -> Seq<ItemView> {
    if position.line as int >= text_lines(text).len() {
        completions_of(ast)
    } else {
        let l = text_lines(text)[position.line as int];
        let receiver = match dot_prefix_at(l, position.character as int) {
            Some(p) => path_type(ast, p, text, position.line as int),
            None => None,
        };
        match receiver {
            Some(ty) => member_completions(ast, ty),
            None => completions_of(ast) + scope_items(
                ast,
                enclosing_scope(ast, text, position.line as int),
            ),
        }
    }
}

/// Law: the completions at a position past the last line are the plain
/// completions; after `receiver.` with a receiver of known type they are
/// that type's members; anywhere else the plain completions come first,
/// unchanged, and only the names of the enclosing scope follow them.
pub proof fn law_context_completions(ast: Ast, text: Seq<char>, position: Position)
    ensures
        position.line as int >= text_lines(text).len() ==> context_completions(ast, text, position)
            == completions_of(ast),
        position.line as int >= 0 && position.line as int + 1 <= text_lines(text).len() ==> {
            let l = text_lines(text)[position.line as int];
            match dot_prefix_at(l, position.character as int) {
                Some(p) => match path_type(ast, p, text, position.line as int) {
                    Some(ty) => context_completions(ast, text, position) == member_completions(ast, ty),
                    None => context_completions(ast, text, position).take(completions_of(ast).len() as int)
                        == completions_of(ast),
                },
                None => context_completions(ast, text, position).take(completions_of(ast).len() as int)
                    == completions_of(ast),
            }
        },
{
    if position.line as int + 1 <= text_lines(text).len() {
        let rest = scope_items(ast, enclosing_scope(ast, text, position.line as int));
        assert((completions_of(ast) + rest).take(completions_of(ast).len() as int) =~= completions_of(ast));
    }
}

/// Law: inside a control or a parser, and not after `receiver.` with a
/// receiver of known type, the completions offer every parameter of that
/// control or parser: its name, as a variable, with its type followed by
/// ` (parameter)` as detail.
pub proof fn law_scope_parameters_offered(ast: Ast, text: Seq<char>, position: Position, k: int)
    requires
        position.line as int + 1 <= text_lines(text).len(),
        match dot_prefix_at(text_lines(text)[position.line as int], position.character as int) {
            Some(pre) => path_type(ast, pre, text, position.line as int) is None,
            None => true,
        },
    ensures
        enclosing_scope(ast, text, position.line as int) matches Some(Scope::Control(i)) ==> (0 <= i
            < ast.controls@.len() && 0 <= k < ast.controls@[i as int].parameters@.len() ==> context_completions(
            ast,
            text,
            position,
        ).contains(
            (
                ast.controls@[i as int].parameters@[k].name@,
                Some(CompletionItemKind::Variable),
                Some(ast.controls@[i as int].parameters@[k].ty.text@ + " (parameter)"@),
                None,
                None,
            ),
        )),
        enclosing_scope(ast, text, position.line as int) matches Some(Scope::Parser(i)) ==> (0 <= i
            < ast.parsers@.len() && 0 <= k < ast.parsers@[i as int].parameters@.len() ==> context_completions(
            ast,
            text,
            position,
        ).contains(
            (
                ast.parsers@[i as int].parameters@[k].name@,
                Some(CompletionItemKind::Variable),
                Some(ast.parsers@[i as int].parameters@[k].ty.text@ + " (parameter)"@),
                None,
                None,
            ),
        )),
{
    let scope = enclosing_scope(ast, text, position.line as int);
    let items = scope_items(ast, scope);
    let all = completions_of(ast) + items;
    match scope {
        Some(Scope::Control(i)) => {
            if 0 <= i < ast.controls@.len() && 0 <= k < ast.controls@[i as int].parameters@.len() {
                let c = ast.controls@[i as int];
                let ps = param_items(c.parameters@);
                let rest = c.variables@.map_values(
                    |v: crate::ast::Variable| plain_item(v.name@, CompletionItemKind::Variable, v.ty.text@),
                ) + named_items(c.actions@, CompletionItemKind::Function, "action"@) + named_items(
                    c.tables@,
                    CompletionItemKind::Variable,
                    "table"@,
                );
                assert(items =~= ps + rest);
                assert(all[completions_of(ast).len() + k] == ps[k]);
            }
        },
        Some(Scope::Parser(i)) => {
            if 0 <= i < ast.parsers@.len() && 0 <= k < ast.parsers@[i as int].parameters@.len() {
                let ps = param_items(ast.parsers@[i as int].parameters@);
                assert(items == ps);
                assert(all[completions_of(ast).len() + k] == ps[k]);
            }
        },
        None => {},
    }
}

/// Law: inside a control, and not after `receiver.` with a receiver of
/// known type, the completions also offer every variable of the control
/// (as a variable, with its type as detail), every action (as a function,
/// with detail `action`) and every table (as a variable, with detail
/// `table`).
pub proof fn law_scope_names_offered(ast: Ast, text: Seq<char>, position: Position, i: usize, k: int)
    requires
        position.line as int + 1 <= text_lines(text).len(),
        match dot_prefix_at(text_lines(text)[position.line as int], position.character as int) {
            Some(pre) => path_type(ast, pre, text, position.line as int) is None,
            None => true,
        },
        enclosing_scope(ast, text, position.line as int) == Some(Scope::Control(i)),
        i < ast.controls@.len(),
    ensures
        0 <= k < ast.controls@[i as int].variables@.len() ==> context_completions(ast, text, position).contains(
            (
                ast.controls@[i as int].variables@[k].name@,
                Some(CompletionItemKind::Variable),
                Some(ast.controls@[i as int].variables@[k].ty.text@),
                None,
                None,
            ),
        ),
        0 <= k < ast.controls@[i as int].actions@.len() ==> context_completions(ast, text, position).contains(
            (
                ast.controls@[i as int].actions@[k].name@,
                Some(CompletionItemKind::Function),
                Some("action"@),
                None,
                None,
            ),
        ),
        0 <= k < ast.controls@[i as int].tables@.len() ==> context_completions(ast, text, position).contains(
            (
                ast.controls@[i as int].tables@[k].name@,
                Some(CompletionItemKind::Variable),
                Some("table"@),
                None,
                None,
            ),
        ),
{
    let c = ast.controls@[i as int];
    let ps = param_items(c.parameters@);
    let vs = c.variables@.map_values(
        |v: crate::ast::Variable| plain_item(v.name@, CompletionItemKind::Variable, v.ty.text@),
    );
    let acts = named_items(c.actions@, CompletionItemKind::Function, "action"@);
    let tabs = named_items(c.tables@, CompletionItemKind::Variable, "table"@);
    let base = completions_of(ast);
    let all = base + (ps + vs + acts + tabs);
    assert(scope_items(ast, Some(Scope::Control(i))) =~= ps + vs + acts + tabs);
    assert(context_completions(ast, text, position) == all);
    if 0 <= k < vs.len() {
        assert(all[base.len() + ps.len() + k] == vs[k]);
    }
    if 0 <= k < acts.len() {
        assert(all[base.len() + ps.len() + vs.len() + k] == acts[k]);
    }
    if 0 <= k < tabs.len() {
        assert(all[base.len() + ps.len() + vs.len() + acts.len() + k] == tabs[k]);
    }
}

/// Appends an item per parameter.
fn push_params(out: &mut Vec<CompletionItem>, ps: &Vec<Parameter>)
    ensures
        item_views(final(out)@) == item_views(old(out)@) + param_items(ps@),
{
    let ghost base = item_views(out@);
    let ghost goal = param_items(ps@);
    let mut i: usize = 0;
    while i < ps.len()
        invariant
            i <= ps@.len(),
            goal == param_items(ps@),
            item_views(out@) =~= base + goal.take(i as int),
        decreases ps@.len() - i,
    {
        let p = &ps[i];
        let detail = concat_str(p.ty.text.as_str(), " (parameter)");
        let c = simple_completion(p.name.as_str(), CompletionItemKind::Variable, detail.as_str());
        let ghost prev = out@;
        out.push(c);
        assert(item_views(out@) =~= item_views(prev).push(item_view(c)));
        assert(goal.take(i as int + 1) =~= goal.take(i as int).push(goal[i as int]));
        i += 1;
    }
    assert(goal.take(ps@.len() as int) =~= goal);
}

/// Appends an item per variable.
fn push_variables(out: &mut Vec<CompletionItem>, vs: &Vec<crate::ast::Variable>)
    ensures
        item_views(final(out)@) == item_views(old(out)@) + vs@.map_values(
            |v: crate::ast::Variable| plain_item(v.name@, CompletionItemKind::Variable, v.ty.text@),
        ),
{
    let ghost base = item_views(out@);
    let ghost goal = vs@.map_values(
        |v: crate::ast::Variable| plain_item(v.name@, CompletionItemKind::Variable, v.ty.text@),
    );
    let mut i: usize = 0;
    while i < vs.len()
        invariant
            i <= vs@.len(),
            goal == vs@.map_values(
                |v: crate::ast::Variable| plain_item(v.name@, CompletionItemKind::Variable, v.ty.text@),
            ),
            item_views(out@) =~= base + goal.take(i as int),
        decreases vs@.len() - i,
    {
        let v = &vs[i];
        let c = simple_completion(v.name.as_str(), CompletionItemKind::Variable, v.ty.text.as_str());
        let ghost prev = out@;
        out.push(c);
        assert(item_views(out@) =~= item_views(prev).push(item_view(c)));
        assert(goal.take(i as int + 1) =~= goal.take(i as int).push(goal[i as int]));
        i += 1;
    }
    assert(goal.take(vs@.len() as int) =~= goal);
}

/// The completions at `position` of the document `content` whose program
/// is `ast`.
pub fn get_completions_with_context(ast: &Ast, content: &Rope, position: Position) -> (r: Vec<CompletionItem>)
    ensures
        item_views(r@) == context_completions(*ast, rope_text(*content), position),
{
    let line_idx = position.line as usize;
    let col_idx = position.character as usize;
    if line_idx >= rope_len_lines(content) {
        return get_completions(ast);
    }
    let line_str = rope_line(content, line_idx);
    if let Some(prefix) = get_dot_prefix(line_str.as_str(), col_idx) {
        if let Some(ty) = resolve_type_for_name(ast, prefix.as_str(), content, position) {
            return get_member_completions(ast, &ty);
        }
    }
    let mut completions = get_completions(ast);
    let ghost base = item_views(completions@);
    let scope = find_enclosing_scope(ast, content, position);
    match scope {
        Some(Scope::Control(i)) => {
            let control = &ast.controls[i];
            push_params(&mut completions, &control.parameters);
            push_variables(&mut completions, &control.variables);
            push_named(&mut completions, &control.actions, CompletionItemKind::Function, "action");
            push_named(&mut completions, &control.tables, CompletionItemKind::Variable, "table");
        },
        Some(Scope::Parser(i)) => {
            push_params(&mut completions, &ast.parsers[i].parameters);
        },
        None => {},
    }
    assert(item_views(completions@) =~= base + scope_items(*ast, scope));
    completions
}

/// The labels of a list of items.
pub open spec fn labels(s: Seq<ItemView>) -> Seq<Seq<char>> {
    s.map_values(|v: ItemView| v.0)
}

proof fn lemma_labels_concat(a: Seq<ItemView>, b: Seq<ItemView>)
    ensures
        labels(a + b) == labels(a) + labels(b),
{
    assert(labels(a + b) =~= labels(a) + labels(b));
}

proof fn lemma_named_labels<T: Named>(v: Seq<T>, kind: CompletionItemKind, detail: Seq<char>, i: int)
    requires
        0 <= i < v.len(),
    ensures
        labels(named_items(v, kind, detail)).contains(v[i].spec_name()),
{
    assert(labels(named_items(v, kind, detail))[i] == v[i].spec_name());
}

proof fn lemma_in_concat(a: Seq<Seq<char>>, b: Seq<Seq<char>>, x: Seq<char>)
    ensures
        a.contains(x) ==> (a + b).contains(x),
        b.contains(x) ==> (a + b).contains(x),
{
    if a.contains(x) {
        let k = choose|k: int| 0 <= k < a.len() && a[k] == x;
        assert((a + b)[k] == x);
    }
    if b.contains(x) {
        let k = choose|k: int| 0 <= k < b.len() && b[k] == x;
        assert((a + b)[a.len() + k] == x);
    }
}

proof fn lemma_control_labels(cs: Seq<Control>, i: int, x: Seq<char>)
    requires
        0 <= i < cs.len(),
        labels(one_control_items(cs[i])).contains(x),
    ensures
        labels(control_items(cs)).contains(x),
    decreases cs.len(),
{
    let prev = control_items(cs.drop_last());
    lemma_labels_concat(prev, one_control_items(cs.last()));
    if i == cs.len() - 1 {
        lemma_in_concat(labels(prev), labels(one_control_items(cs.last())), x);
    } else {
        assert(cs.drop_last()[i] == cs[i]);
        lemma_control_labels(cs.drop_last(), i, x);
        lemma_in_concat(labels(prev), labels(one_control_items(cs.last())), x);
    }
}

/// Law: after `receiver.` with a receiver whose type is named `tn`, the
/// completions offer every member of the first header named `tn` together
/// with `isValid`, `setValid` and `setInvalid`, every member of the first
/// struct named `tn`, and every method of the first extern named `tn`.
pub proof fn law_member_completions_offer_members(ast: Ast, ty: Type, tn: String)
    requires
        ty.kind == TypeKind::UserDefined(tn),
    ensures
        forall|hi: int|
            #![trigger ast.headers@[hi]]
            0 <= hi < ast.headers@.len() && ast.headers@[hi].name@ == tn@ && (forall|k: int|
                0 <= k < hi ==> (#[trigger] ast.headers@[k]).name@ != tn@) ==> {
                &&& forall|j: int|
                    0 <= j < ast.headers@[hi].members@.len() ==> labels(member_completions(ast, ty)).contains(
                        (#[trigger] ast.headers@[hi].members@[j]).name@,
                    )
                &&& labels(member_completions(ast, ty)).contains("isValid"@)
                &&& labels(member_completions(ast, ty)).contains("setValid"@)
                &&& labels(member_completions(ast, ty)).contains("setInvalid"@)
            },
        forall|si: int|
            #![trigger ast.structs@[si]]
            0 <= si < ast.structs@.len() && ast.structs@[si].name@ == tn@ && (forall|k: int|
                0 <= k < si ==> (#[trigger] ast.structs@[k]).name@ != tn@) ==> forall|j: int|
                0 <= j < ast.structs@[si].members@.len() ==> labels(member_completions(ast, ty)).contains(
                    (#[trigger] ast.structs@[si].members@[j]).name@,
                ),
        forall|ei: int|
            #![trigger ast.externs@[ei]]
            0 <= ei < ast.externs@.len() && ast.externs@[ei].name@ == tn@ && (forall|k: int|
                0 <= k < ei ==> (#[trigger] ast.externs@[k]).name@ != tn@) ==> forall|j: int|
                0 <= j < ast.externs@[ei].methods@.len() ==> labels(member_completions(ast, ty)).contains(
                    (#[trigger] ast.externs@[ei].methods@[j]).name@,
                ),
{
    let r = member_completions(ast, ty);
    let fs = match first_named(ast.structs@, tn@) {
        Some(si) => member_items(ast.structs@[si].members@, "Member of struct "@ + tn@),
        None => Seq::empty(),
    };
    let fh = match first_named(ast.headers@, tn@) {
        Some(hi) => member_items(ast.headers@[hi].members@, "Member of header "@ + tn@) + header_method_items(),
        None => Seq::empty(),
    };
    let fe = match first_named(ast.externs@, tn@) {
        Some(ei) => extern_method_items(ast.externs@[ei].methods@),
        None => Seq::empty(),
    };
    assert(r == fs + fh + fe);
    lemma_labels_concat(fs, fh);
    lemma_labels_concat(fs + fh, fe);
    assert forall|x: Seq<char>| labels(fs).contains(x) || labels(fh).contains(x) || labels(fe).contains(x) implies labels(
        r,
    ).contains(x) by {
        lemma_in_concat(labels(fs), labels(fh), x);
        lemma_in_concat(labels(fs) + labels(fh), labels(fe), x);
    }
    assert forall|hi: int|
        #![trigger ast.headers@[hi]]
        0 <= hi < ast.headers@.len() && ast.headers@[hi].name@ == tn@ && (forall|k: int|
            0 <= k < hi ==> (#[trigger] ast.headers@[k]).name@ != tn@) implies {
            &&& forall|j: int|
                0 <= j < ast.headers@[hi].members@.len() ==> labels(r).contains(
                    (#[trigger] ast.headers@[hi].members@[j]).name@,
                )
            &&& labels(r).contains("isValid"@)
            &&& labels(r).contains("setValid"@)
            &&& labels(r).contains("setInvalid"@)
        } by {
        assert forall|k: int| 0 <= k < hi implies (#[trigger] ast.headers@[k]).spec_name() != tn@ by {}
        crate::ast::lemma_named_first(ast.headers@, tn@, 0, hi);
        let mi = member_items(ast.headers@[hi].members@, "Member of header "@ + tn@);
        lemma_labels_concat(mi, header_method_items());
        assert forall|j: int| 0 <= j < ast.headers@[hi].members@.len() implies labels(r).contains(
            (#[trigger] ast.headers@[hi].members@[j]).name@,
        ) by {
            assert(labels(mi)[j] == ast.headers@[hi].members@[j].name@);
            lemma_in_concat(labels(mi), labels(header_method_items()), ast.headers@[hi].members@[j].name@);
        }
        let hm = labels(header_method_items());
        assert(hm[0] == "isValid"@ && hm[1] == "setValid"@ && hm[2] == "setInvalid"@);
        lemma_in_concat(labels(mi), hm, "isValid"@);
        lemma_in_concat(labels(mi), hm, "setValid"@);
        lemma_in_concat(labels(mi), hm, "setInvalid"@);
    }
    assert forall|si: int|
        #![trigger ast.structs@[si]]
        0 <= si < ast.structs@.len() && ast.structs@[si].name@ == tn@ && (forall|k: int|
            0 <= k < si ==> (#[trigger] ast.structs@[k]).name@ != tn@) implies forall|j: int|
            0 <= j < ast.structs@[si].members@.len() ==> labels(r).contains(
                (#[trigger] ast.structs@[si].members@[j]).name@,
            ) by {
        assert forall|k: int| 0 <= k < si implies (#[trigger] ast.structs@[k]).spec_name() != tn@ by {}
        crate::ast::lemma_named_first(ast.structs@, tn@, 0, si);
        let mi = member_items(ast.structs@[si].members@, "Member of struct "@ + tn@);
        assert forall|j: int| 0 <= j < ast.structs@[si].members@.len() implies labels(r).contains(
            (#[trigger] ast.structs@[si].members@[j]).name@,
        ) by {
            assert(labels(mi)[j] == ast.structs@[si].members@[j].name@);
        }
    }
    assert forall|ei: int|
        #![trigger ast.externs@[ei]]
        0 <= ei < ast.externs@.len() && ast.externs@[ei].name@ == tn@ && (forall|k: int|
            0 <= k < ei ==> (#[trigger] ast.externs@[k]).name@ != tn@) implies forall|j: int|
            0 <= j < ast.externs@[ei].methods@.len() ==> labels(r).contains(
                (#[trigger] ast.externs@[ei].methods@[j]).name@,
            ) by {
        assert forall|k: int| 0 <= k < ei implies (#[trigger] ast.externs@[k]).spec_name() != tn@ by {}
        crate::ast::lemma_named_first(ast.externs@, tn@, 0, ei);
        let mi = extern_method_items(ast.externs@[ei].methods@);
        assert forall|j: int| 0 <= j < ast.externs@[ei].methods@.len() implies labels(r).contains(
            (#[trigger] ast.externs@[ei].methods@[j]).name@,
        ) by {
            assert(labels(mi)[j] == ast.externs@[ei].methods@[j].name@);
        }
    }
}

/// Law: completion offers every user-defined name of the program: each
/// header, struct, control, action, table, parser and extern.
pub proof fn law_completions_offer_declarations(ast: Ast)
    ensures
        forall|i: int| 0 <= i < ast.headers@.len() ==> labels(completions_of(ast)).contains(#[trigger] ast.headers@[i].name@),
        forall|i: int| 0 <= i < ast.structs@.len() ==> labels(completions_of(ast)).contains(#[trigger] ast.structs@[i].name@),
        forall|i: int| 0 <= i < ast.parsers@.len() ==> labels(completions_of(ast)).contains(#[trigger] ast.parsers@[i].name@),
        forall|i: int| 0 <= i < ast.externs@.len() ==> labels(completions_of(ast)).contains(#[trigger] ast.externs@[i].name@),
        forall|i: int| 0 <= i < ast.controls@.len() ==> labels(completions_of(ast)).contains(#[trigger] ast.controls@[i].name@),
        forall|i: int, j: int|
            0 <= i < ast.controls@.len() && 0 <= j < ast.controls@[i].actions@.len() ==> labels(
                completions_of(ast),
            ).contains(#[trigger] ast.controls@[i].actions@[j].name@),
        forall|i: int, j: int|
            0 <= i < ast.controls@.len() && 0 <= j < ast.controls@[i].tables@.len() ==> labels(
                completions_of(ast),
            ).contains(#[trigger] ast.controls@[i].tables@[j].name@),
{
    let h = named_items(ast.headers@, CompletionItemKind::Struct, "header"@);
    let st = named_items(ast.structs@, CompletionItemKind::Struct, "struct"@);
    let c = control_items(ast.controls@);
    let p = named_items(ast.parsers@, CompletionItemKind::Class, "parser"@);
    let e = named_items(ast.externs@, CompletionItemKind::Interface, "extern"@);
    let k = keyword_items();
    assert(completions_of(ast) == h + st + c + p + e + k);
    lemma_labels_concat(h, st);
    lemma_labels_concat(h + st, c);
    lemma_labels_concat(h + st + c, p);
    lemma_labels_concat(h + st + c + p, e);
    lemma_labels_concat(h + st + c + p + e, k);
    let lh = labels(h);
    let ls = labels(st);
    let lc = labels(c);
    let lp = labels(p);
    let le = labels(e);
    let lk = labels(k);
    assert(labels(completions_of(ast)) == lh + ls + lc + lp + le + lk);
    assert forall|x: Seq<char>| lh.contains(x) || ls.contains(x) || lc.contains(x) || lp.contains(x) || le.contains(x)
        implies #[trigger] labels(completions_of(ast)).contains(x) by {
        lemma_in_concat(lh, ls, x);
        lemma_in_concat(lh + ls, lc, x);
        lemma_in_concat(lh + ls + lc, lp, x);
        lemma_in_concat(lh + ls + lc + lp, le, x);
        lemma_in_concat(lh + ls + lc + lp + le, lk, x);
    }
    assert forall|i: int| 0 <= i < ast.headers@.len() implies labels(completions_of(ast)).contains(
        #[trigger] ast.headers@[i].name@,
    ) by {
        lemma_named_labels(ast.headers@, CompletionItemKind::Struct, "header"@, i);
    }
    assert forall|i: int| 0 <= i < ast.structs@.len() implies labels(completions_of(ast)).contains(
        #[trigger] ast.structs@[i].name@,
    ) by {
        lemma_named_labels(ast.structs@, CompletionItemKind::Struct, "struct"@, i);
    }
    assert forall|i: int| 0 <= i < ast.parsers@.len() implies labels(completions_of(ast)).contains(
        #[trigger] ast.parsers@[i].name@,
    ) by {
        lemma_named_labels(ast.parsers@, CompletionItemKind::Class, "parser"@, i);
    }
    assert forall|i: int| 0 <= i < ast.externs@.len() implies labels(completions_of(ast)).contains(
        #[trigger] ast.externs@[i].name@,
    ) by {
        lemma_named_labels(ast.externs@, CompletionItemKind::Interface, "extern"@, i);
    }
    assert forall|i: int| 0 <= i < ast.controls@.len() implies labels(completions_of(ast)).contains(
        #[trigger] ast.controls@[i].name@,
    ) by {
        let ci = ast.controls@[i];
        assert(labels(one_control_items(ci))[0] == ci.name@);
        lemma_control_labels(ast.controls@, i, ci.name@);
    }
    assert forall|i: int, j: int|
        0 <= i < ast.controls@.len() && 0 <= j < ast.controls@[i].actions@.len() implies labels(
            completions_of(ast),
        ).contains(#[trigger] ast.controls@[i].actions@[j].name@) by {
        let ci = ast.controls@[i];
        let head = seq![plain_item(ci.name@, CompletionItemKind::Class, "control"@)];
        let acts = named_items(ci.actions@, CompletionItemKind::Function, "action in "@ + ci.name@);
        let tabs = named_items(ci.tables@, CompletionItemKind::Variable, "table in "@ + ci.name@);
        lemma_labels_concat(head, acts);
        lemma_labels_concat(head + acts, tabs);
        lemma_named_labels(ci.actions@, CompletionItemKind::Function, "action in "@ + ci.name@, j);
        lemma_in_concat(labels(head), labels(acts), ci.actions@[j].name@);
        lemma_in_concat(labels(head) + labels(acts), labels(tabs), ci.actions@[j].name@);
        lemma_control_labels(ast.controls@, i, ci.actions@[j].name@);
    }
    assert forall|i: int, j: int|
        0 <= i < ast.controls@.len() && 0 <= j < ast.controls@[i].tables@.len() implies labels(
            completions_of(ast),
        ).contains(#[trigger] ast.controls@[i].tables@[j].name@) by {
        let ci = ast.controls@[i];
        let head = seq![plain_item(ci.name@, CompletionItemKind::Class, "control"@)];
        let acts = named_items(ci.actions@, CompletionItemKind::Function, "action in "@ + ci.name@);
        let tabs = named_items(ci.tables@, CompletionItemKind::Variable, "table in "@ + ci.name@);
        lemma_labels_concat(head, acts);
        lemma_labels_concat(head + acts, tabs);
        lemma_named_labels(ci.tables@, CompletionItemKind::Variable, "table in "@ + ci.name@, j);
        lemma_in_concat(labels(head) + labels(acts), labels(tabs), ci.tables@[j].name@);
        lemma_control_labels(ast.controls@, i, ci.tables@[j].name@);
    }
}

} // verus!
