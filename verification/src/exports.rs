//! Module export shapes: what a module returns from its top-level `return`
//! statement. Computed from the module's own syntax alone, so require
//! cycles cannot loop this analysis.

use vstd::prelude::*;
use crate::arity::{nested_returns, return_arity, has_nested_returns, return_arity_exec};
use crate::assoc::{distinct_keys, lemma_vput_distinct, vput};
use crate::require_sites::{literal_exec, literal_of};
use crate::shapes::{
    ClassInfo, ClassView, ExportShape, Member, ShapeView, get_index, lemma_members_keys,
    members_view, strs_view,
};
use crate::syntax::{
    LuaBlock, CallKind, Chunk, Expr, TableField, Arguments, FuncBody, CallExpr, FunctionName,
    IndexKind, FinalStmt, PrefixExpr, Statement, Postfix, TableExpr, Tok, TokKind, Place,
};
use crate::text::owned;

verus! {

/// The identifier text of `t`, if it is an identifier.
pub open spec fn ident(t: Tok) -> Option<Seq<char>> {
    if t.kind == TokKind::Identifier {
        Some(t.text@)
    } else {
        None
    }
}

pub fn ident_exec(t: &Tok) -> (r: Option<String>)
    ensures
        match r {
            Some(s) => ident(*t) == Some(s@),
            None => ident(*t) is None,
        },
{
    match t.kind {
        TokKind::Identifier => Some(t.text.clone()),
        _ => None,
    }
}

/// Whether `t` is the identifier `name`.
pub fn ident_is(t: &Tok, name: &str) -> (r: bool)
    ensures
        r == (ident(*t) == Some(name@)),
{
    match t.kind {
        TokKind::Identifier => t.text == owned(name),
        _ => false,
    }
}

/// Whether `e` is a plain variable reference to `name`.
pub open spec fn is_name_expr(e: Expr, name: Seq<char>) -> bool {
    match e {
        Expr::Var(Place::Name(t)) => ident(t) == Some(name),
        _ => false,
    }
}

fn is_name_expr_exec(e: &Expr, name: &str) -> (r: bool)
    ensures
        r == is_name_expr(*e, name@),
{
    match e {
        Expr::Var(Place::Name(t)) => ident_is(t, name),
        _ => false,
    }
}

/// Member kind of a function body: a recognized constructor returns one
/// value (the instance); otherwise the body's return arity, when known.
pub open spec fn function_member(body: &FuncBody, returns_instance: bool) -> Member {
    if returns_instance {
        Member::Function { arity: 1, returns_instance: true }
    } else {
        match return_arity(body) {
            Some(a) => Member::Function { arity: a as usize, returns_instance: false },
            None => Member::Value,
        }
    }
}

/// Member kind from a right-hand-side expression.
pub open spec fn member_from_value(e: &Expr, returns_instance: bool) -> Member {
    match e {
        Expr::Function(body) => function_member(body, returns_instance),
        _ => Member::Value,
    }
}

fn function_member_exec(body: &FuncBody, returns_instance: bool) -> (r: Member)
    ensures
        r == function_member(body, returns_instance),
{
    if returns_instance {
        return Member::Function { arity: 1, returns_instance: true };
    }
    match return_arity_exec(body) {
        Some(a) => Member::Function { arity: a, returns_instance: false },
        None => Member::Value,
    }
}

fn member_from_value_exec(e: &Expr, returns_instance: bool) -> (r: Member)
    ensures
        r == member_from_value(e, returns_instance),
{
    match e {
        Expr::Function(body) => function_member_exec(body, returns_instance),
        _ => Member::Value,
    }
}

/// Insert or replace member `k`.
fn put_member(v: &mut Vec<(String, Member)>, k: String, m: Member)
    ensures
        members_view(final(v)@) == vput(members_view(old(v)@), k@, m),
{
    proof {
        lemma_members_keys(v@);
    }
    match get_index(v, k.as_str()) {
        Some(i) => {
            let ghost kv = k@;
            v.set(i, (k, m));
            assert(members_view(v@) =~= members_view(old(v)@).update(i as int, (kv, m)));
        },
        None => {
            let ghost kv = k@;
            v.push((k, m));
            assert(members_view(v@) =~= members_view(old(v)@).push((kv, m)));
        },
    }
}

// ---- `return { ... }` ----

pub open spec fn ctor_members(fields: Seq<TableField>) -> Seq<(Seq<char>, Member)>
    decreases fields.len(),
{
    if fields.len() == 0 {
        Seq::empty()
    } else {
        let m = ctor_members(fields.drop_last());
        match fields.last() {
            TableField::NameKey { key, value } => match ident(key) {
                Some(n) => vput(m, n, member_from_value(&value, false)),
                None => m,
            },
            TableField::ExpressionKey { key, value } => match key {
                Expr::String(t) => match literal_of(t) {
                    Some(n) => vput(m, n, member_from_value(&value, false)),
                    None => m,
                },
                _ => m,
            },
            TableField::NoKey(_) => m,
        }
    }
}

/// Shape of `return { ... }`: name-keyed and string-keyed fields.
pub open spec fn shape_from_constructor(t: &TableExpr) -> ShapeView {
    ShapeView { members: ctor_members(t.fields@), class: None }
}

fn shape_from_constructor_exec(t: &TableExpr) -> (r: ExportShape)
    ensures
        r@ == shape_from_constructor(t),
{
    let mut members: Vec<(String, Member)> = Vec::new();
    let n = t.fields.len();
    let mut i: usize = 0;
    assert(members_view(members@) =~= ctor_members(t.fields@.take(0)));
    while i < n
        invariant
            n == t.fields@.len(),
            i <= n,
            members_view(members@) == ctor_members(t.fields@.take(i as int)),
        decreases n - i,
    {
        assert(t.fields@.take(i + 1).drop_last() =~= t.fields@.take(i as int));
        match &t.fields[i] {
            TableField::NameKey { key, value } => {
                if let Some(name) = ident_exec(key) {
                    let m = member_from_value_exec(value, false);
                    put_member(&mut members, name, m);
                }
            },
            TableField::ExpressionKey { key, value } => {
                if let Expr::String(tok) = key {
                    if let Some(name) = literal_exec(tok) {
                        let m = member_from_value_exec(value, false);
                        put_member(&mut members, name, m);
                    }
                }
            },
            TableField::NoKey(_) => {},
        }
        i = i + 1;
    }
    assert(t.fields@.take(n as int) =~= t.fields@);
    ExportShape { members, class: None }
}

// ---- helpers over assignment targets and calls ----

/// `table.member` as an assignment target: exactly one `.name` suffix on a
/// plain name.
pub open spec fn dot_target(v: Place) -> Option<(Seq<char>, Seq<char>)> {
    match v {
        Place::Expression(ve) => match ve.prefix {
            PrefixExpr::Name(p) => match ident(p) {
                Some(table) => if ve.suffixes@.len() == 1 {
                    match ve.suffixes@[0] {
                        Postfix::Index(IndexKind::Dot { name }) => match ident(name) {
                            Some(member) => Some((table, member)),
                            None => None,
                        },
                        _ => None,
                    }
                } else {
                    None
                },
                None => None,
            },
            _ => None,
        },
        _ => None,
    }
}

fn dot_target_exec(v: &Place) -> (r: Option<(String, String)>)
    ensures
        match r {
            Some((a, b)) => dot_target(*v) == Some((a@, b@)),
            None => dot_target(*v) is None,
        },
{
    let ve = match v {
        Place::Expression(ve) => ve,
        _ => return None,
    };
    let p = match &ve.prefix {
        PrefixExpr::Name(p) => p,
        _ => return None,
    };
    let table = match ident_exec(p) {
        Some(t) => t,
        None => return None,
    };
    if ve.suffixes.len() != 1 {
        return None;
    }
    match &ve.suffixes[0] {
        Postfix::Index(IndexKind::Dot { name }) => match ident_exec(name) {
            Some(member) => Some((table, member)),
            None => None,
        },
        _ => None,
    }
}

/// Does an assignment target write into table `name` (any suffix shape)?
pub open spec fn targets_table(v: Place, name: Seq<char>) -> bool {
    match v {
        Place::Expression(ve) => match ve.prefix {
            PrefixExpr::Name(p) => ident(p) == Some(name),
            _ => false,
        },
        _ => false,
    }
}

fn targets_table_exec(v: &Place, name: &str) -> (r: bool)
    ensures
        r == targets_table(*v, name@),
{
    match v {
        Place::Expression(ve) => match &ve.prefix {
            PrefixExpr::Name(p) => ident_is(p, name),
            _ => false,
        },
        _ => false,
    }
}

/// Arguments of a bare call `name(args)` with no further suffixes.
pub open spec fn bare_call_args(c: CallExpr, name: Seq<char>) -> Option<Seq<Expr>> {
    match c.prefix {
        PrefixExpr::Name(p) => if ident(p) == Some(name) && c.suffixes@.len() == 1 {
            match c.suffixes@[0] {
                Postfix::Call(CallKind::Anonymous(Arguments::Parentheses(es))) => Some(es@),
                _ => None,
            }
        } else {
            None
        },
        _ => None,
    }
}

fn bare_call_args_exec<'a>(c: &'a CallExpr, name: &str) -> (r: Option<&'a Vec<Expr>>)
    ensures
        match r {
            Some(es) => bare_call_args(*c, name@) == Some(es@),
            None => bare_call_args(*c, name@) is None,
        },
{
    let p = match &c.prefix {
        PrefixExpr::Name(p) => p,
        _ => return None,
    };
    if !ident_is(p, name) || c.suffixes.len() != 1 {
        return None;
    }
    match &c.suffixes[0] {
        Postfix::Call(CallKind::Anonymous(Arguments::Parentheses(es))) => Some(es),
        _ => None,
    }
}

/// A constructor whose final, top-level result is
/// `setmetatable(value, table)`.
pub open spec fn returns_instance(body: &FuncBody, table: Seq<char>) -> bool {
    match body.block.last {
        Some(FinalStmt::Return(es)) => es@.len() == 1 && match es@[0] {
            Expr::Call(c) => match bare_call_args(c, "setmetatable"@) {
                Some(args) => args.len() > 1 && is_name_expr(args[1], table),
                None => false,
            },
            _ => false,
        },
        _ => false,
    }
}

fn returns_instance_exec(body: &FuncBody, table: &str) -> (r: bool)
    ensures
        r == returns_instance(body, table@),
{
    match &body.block.last {
        Some(FinalStmt::Return(es)) => {
            if es.len() != 1 {
                return false;
            }
            match &es[0] {
                Expr::Call(c) => match bare_call_args_exec(c, "setmetatable") {
                    Some(args) => args.len() > 1 && is_name_expr_exec(&args[1], table),
                    None => false,
                },
                _ => false,
            }
        },
        _ => false,
    }
}

/// `Parent.new(...)`: the parent named by a constructor call.
pub open spec fn constructor_parent(e: Expr) -> Option<Seq<char>> {
    match e {
        Expr::Call(c) => match c.prefix {
            PrefixExpr::Name(p) => match ident(p) {
                Some(parent) => if c.suffixes@.len() == 2 {
                    match c.suffixes@[0] {
                        Postfix::Index(IndexKind::Dot { name }) => if ident(name) == Some("new"@)
                            && c.suffixes@[1] is Call {
                            Some(parent)
                        } else {
                            None
                        },
                        _ => None,
                    }
                } else {
                    None
                },
                None => None,
            },
            _ => None,
        },
        _ => None,
    }
}

fn constructor_parent_exec(e: &Expr) -> (r: Option<String>)
    ensures
        match r {
            Some(s) => constructor_parent(*e) == Some(s@),
            None => constructor_parent(*e) is None,
        },
{
    let c = match e {
        Expr::Call(c) => c,
        _ => return None,
    };
    let p = match &c.prefix {
        PrefixExpr::Name(p) => p,
        _ => return None,
    };
    let parent = match ident_exec(p) {
        Some(parent) => parent,
        None => return None,
    };
    if c.suffixes.len() != 2 {
        return None;
    }
    match &c.suffixes[0] {
        Postfix::Index(IndexKind::Dot { name }) => {
            if ident_is(name, "new") && matches!(c.suffixes[1], Postfix::Call(_)) {
                Some(parent)
            } else {
                None
            }
        },
        _ => None,
    }
}

// ---- class facts ----

pub open spec fn empty_class() -> ClassView {
    ClassView {
        index_self: false,
        index_other: None,
        index_unknown: false,
        metatable_name: None,
        metatable_unknown: false,
        instance_members: Seq::empty(),
        parent_constructor: None,
    }
}

/// Add `m` to the instance members unless already present.
pub open spec fn add_instance_member(c: ClassView, m: Seq<char>) -> ClassView {
    if c.instance_members.contains(m) {
        c
    } else {
        ClassView { instance_members: c.instance_members.push(m), ..c }
    }
}

/// `local self = Parent.new()` pairs.
pub open spec fn local_self_facts(names: Seq<Tok>, exprs: Seq<Expr>, k: int, c: ClassView) -> ClassView
    decreases k,
{
    if k <= 0 {
        c
    } else {
        let c1 = local_self_facts(names, exprs, k - 1, c);
        if ident(names[k - 1]) == Some("self"@) && constructor_parent(exprs[k - 1]) is Some {
            ClassView { parent_constructor: constructor_parent(exprs[k - 1]), ..c1 }
        } else {
            c1
        }
    }
}

/// `self.x = ...` and `self = Parent.new()` pairs.
pub open spec fn assign_self_facts(vars: Seq<Place>, exprs: Seq<Expr>, k: int, c: ClassView) -> ClassView
    decreases k,
{
    if k <= 0 {
        c
    } else {
        let c1 = assign_self_facts(vars, exprs, k - 1, c);
        match dot_target(vars[k - 1]) {
            Some((t, m)) => if t == "self"@ {
                add_instance_member(c1, m)
            } else {
                c1
            },
            None => if is_self_var(vars[k - 1]) && constructor_parent(exprs[k - 1]) is Some {
                ClassView { parent_constructor: constructor_parent(exprs[k - 1]), ..c1 }
            } else {
                c1
            },
        }
    }
}

pub open spec fn is_self_var(v: Place) -> bool {
    match v {
        Place::Name(t) => ident(t) == Some("self"@),
        _ => false,
    }
}

pub open spec fn min(a: int, b: int) -> int {
    if a < b {
        a
    } else {
        b
    }
}

pub open spec fn ctor_stmt_facts(s: Statement, c: ClassView) -> ClassView {
    match s {
        Statement::LocalAssignment(l) => local_self_facts(
            l.names@,
            l.exprs@,
            min(l.names@.len() as int, l.exprs@.len() as int),
            c,
        ),
        Statement::Assignment(a) => assign_self_facts(
            a.vars@,
            a.exprs@,
            min(a.vars@.len() as int, a.exprs@.len() as int),
            c,
        ),
        _ => c,
    }
}

pub open spec fn ctor_facts_fold(stmts: Seq<Statement>, c: ClassView) -> ClassView
    decreases stmts.len(),
{
    if stmts.len() == 0 {
        c
    } else {
        ctor_stmt_facts(stmts.last(), ctor_facts_fold(stmts.drop_last(), c))
    }
}

/// `self.field = ...` and `self = Parent.new(...)` facts from the top-level
/// body of a recognized constructor.
pub open spec fn constructor_facts(body: &FuncBody, c: ClassView) -> ClassView {
    ctor_facts_fold(body.block.stmts@, c)
}

pub open spec fn meta_fields_facts(fields: Seq<TableField>, c: ClassView) -> ClassView
    decreases fields.len(),
{
    if fields.len() == 0 {
        c
    } else {
        let c1 = meta_fields_facts(fields.drop_last(), c);
        match fields.last() {
            TableField::NameKey { key, value } => if ident(key) == Some("__index"@) {
                match value {
                    Expr::Var(Place::Name(n)) => ClassView { metatable_name: ident(n), ..c1 },
                    _ => ClassView { metatable_unknown: true, ..c1 },
                }
            } else {
                c1
            },
            _ => c1,
        }
    }
}

/// `setmetatable(T, { __index = Parent })` at module top level.
pub open spec fn metatable_fact(call: CallExpr, table: Seq<char>, c: ClassView) -> ClassView {
    match bare_call_args(call, "setmetatable"@) {
        None => c,
        Some(args) => if !(args.len() > 0 && is_name_expr(args[0], table)) {
            c
        } else if args.len() > 1 && args[1] is Table {
            match args[1] {
                Expr::Table(meta) => meta_fields_facts(meta.fields@, c),
                _ => c,
            }
        } else {
            ClassView { metatable_unknown: true, ..c }
        },
    }
}

fn add_instance_member_exec(c: &mut ClassInfo, m: String)
    ensures
        final(c)@ == add_instance_member(old(c)@, m@),
{
    if !crate::classes::contains_str(&c.instance_members, m.as_str()) {
        let ghost mv = m@;
        c.instance_members.push(m);
        assert(strs_view(c.instance_members@) =~= strs_view(old(c).instance_members@).push(mv));
    }
}

fn is_self_var_exec(v: &Place) -> (r: bool)
    ensures
        r == is_self_var(*v),
{
    match v {
        Place::Name(t) => ident_is(t, "self"),
        _ => false,
    }
}

fn constructor_facts_exec(body: &FuncBody, c: &mut ClassInfo)
    ensures
        final(c)@ == constructor_facts(body, old(c)@),
{
    let stmts = &body.block.stmts;
    let n = stmts.len();
    let mut i: usize = 0;
    assert(stmts@.take(0) =~= Seq::<Statement>::empty());
    while i < n
        invariant
            n == stmts@.len(),
            i <= n,
            c@ == ctor_facts_fold(stmts@.take(i as int), old(c)@),
        decreases n - i,
    {
        assert(stmts@.take(i + 1).drop_last() =~= stmts@.take(i as int));
        let ghost before = c@;
        match &stmts[i] {
            Statement::LocalAssignment(l) => {
                let m = if l.names.len() < l.exprs.len() {
                    l.names.len()
                } else {
                    l.exprs.len()
                };
                let mut k: usize = 0;
                while k < m
                    invariant
                        m == min(l.names@.len() as int, l.exprs@.len() as int),
                        k <= m,
                        c@ == local_self_facts(l.names@, l.exprs@, k as int, before),
                    decreases m - k,
                {
                    if ident_is(&l.names[k], "self") {
                        if let Some(p) = constructor_parent_exec(&l.exprs[k]) {
                            c.parent_constructor = Some(p);
                        }
                    }
                    k = k + 1;
                }
            },
            Statement::Assignment(a) => {
                let m = if a.vars.len() < a.exprs.len() {
                    a.vars.len()
                } else {
                    a.exprs.len()
                };
                let mut k: usize = 0;
                while k < m
                    invariant
                        m == min(a.vars@.len() as int, a.exprs@.len() as int),
                        k <= m,
                        c@ == assign_self_facts(a.vars@, a.exprs@, k as int, before),
                    decreases m - k,
                {
                    match dot_target_exec(&a.vars[k]) {
                        Some((t, member)) => {
                            if t == owned("self") {
                                add_instance_member_exec(c, member);
                            }
                        },
                        None => {
                            if is_self_var_exec(&a.vars[k]) {
                                if let Some(p) = constructor_parent_exec(&a.exprs[k]) {
                                    c.parent_constructor = Some(p);
                                }
                            }
                        },
                    }
                    k = k + 1;
                }
            },
            _ => {},
        }
        i = i + 1;
    }
    assert(stmts@.take(n as int) =~= stmts@);
}

fn metatable_fact_exec(call: &CallExpr, table: &str, c: &mut ClassInfo)
    ensures
        final(c)@ == metatable_fact(*call, table@, old(c)@),
{
    let args = match bare_call_args_exec(call, "setmetatable") {
        Some(args) => args,
        None => return,
    };
    if !(args.len() > 0 && is_name_expr_exec(&args[0], table)) {
        return;
    }
    if args.len() > 1 {
        if let Expr::Table(meta) = &args[1] {
            let n = meta.fields.len();
            let mut i: usize = 0;
            assert(meta.fields@.take(0) =~= Seq::<TableField>::empty());
            while i < n
                invariant
                    n == meta.fields@.len(),
                    i <= n,
                    c@ == meta_fields_facts(meta.fields@.take(i as int), old(c)@),
                decreases n - i,
            {
                assert(meta.fields@.take(i + 1).drop_last() =~= meta.fields@.take(i as int));
                if let TableField::NameKey { key, value } = &meta.fields[i] {
                    if ident_is(key, "__index") {
                        match value {
                            Expr::Var(Place::Name(nm)) => {
                                c.metatable_name = ident_exec(nm);
                            },
                            _ => {
                                c.metatable_unknown = true;
                            },
                        }
                    }
                }
                i = i + 1;
            }
            assert(meta.fields@.take(n as int) =~= meta.fields@);
            return;
        }
    }
    c.metatable_unknown = true;
}

// ---- `local M = {}; ...; return M` ----

/// Phase one: the exported local must be declared exactly once, as a table
/// constructor, and never rebound wholesale. `None` rejects; otherwise
/// whether it has been declared so far.
pub open spec fn local_decl(names: Seq<Tok>, exprs: Seq<Expr>, name: Seq<char>, k: int, d: Option<bool>) -> Option<bool>
    decreases k,
{
    if k <= 0 {
        d
    } else {
        match local_decl(names, exprs, name, k - 1, d) {
            None => None,
            Some(declared) => if ident(names[k - 1]) == Some(name) {
                if declared || !(exprs[k - 1] is Table) {
                    None
                } else {
                    Some(true)
                }
            } else {
                Some(declared)
            },
        }
    }
}

pub open spec fn rebinds(vars: Seq<Place>, name: Seq<char>) -> bool {
    exists|j: int|
        0 <= j < vars.len() && match #[trigger] vars[j] {
            Place::Name(t) => ident(t) == Some(name),
            _ => false,
        }
}

pub open spec fn decl_fold(stmts: Seq<Statement>, name: Seq<char>) -> Option<bool>
    decreases stmts.len(),
{
    if stmts.len() == 0 {
        Some(false)
    } else {
        match decl_fold(stmts.drop_last(), name) {
            None => None,
            Some(declared) => match stmts.last() {
                Statement::LocalAssignment(l) => local_decl(
                    l.names@,
                    l.exprs@,
                    name,
                    min(l.names@.len() as int, l.exprs@.len() as int),
                    Some(declared),
                ),
                Statement::Assignment(a) => if rebinds(a.vars@, name) {
                    None
                } else {
                    Some(declared)
                },
                _ => Some(declared),
            },
        }
    }
}

/// Phase two state: members so far, class facts, and whether a
/// constructor was seen.
pub struct Build {
    pub members: Seq<(Seq<char>, Member)>,
    pub class: ClassView,
    pub has_ctor: bool,
}

/// The member name of `function M.f()` / `function M:f()` on table `name`.
pub open spec fn declared_member(f: FunctionName, name: Seq<char>) -> Option<Seq<char>> {
    let parts = ident_parts(f.names@);
    match f.method {
        Some(m) => if parts.len() == 1 && parts[0] == name {
            ident(m)
        } else {
            None
        },
        None => if parts.len() == 2 && parts[0] == name {
            Some(parts[1])
        } else {
            None
        },
    }
}

/// The identifiers among `ts`, in order.
pub open spec fn ident_parts(ts: Seq<Tok>) -> Seq<Seq<char>>
    decreases ts.len(),
{
    if ts.len() == 0 {
        Seq::empty()
    } else {
        match ident(ts.last()) {
            Some(s) => ident_parts(ts.drop_last()).push(s),
            None => ident_parts(ts.drop_last()),
        }
    }
}

pub open spec fn assign_pair(b: Option<Build>, v: Place, e: Expr, name: Seq<char>) -> Option<Build> {
    match b {
        None => None,
        Some(b) => match dot_target(v) {
            Some((table, mn)) => if table == name {
                if mn == "__index"@ {
                    match e {
                        Expr::Var(Place::Name(t)) => match ident(t) {
                            None => None,
                            Some(target) => if target == name {
                                Some(Build { class: ClassView { index_self: true, ..b.class }, ..b })
                            } else {
                                Some(
                                    Build {
                                        class: ClassView { index_other: Some(target), ..b.class },
                                        ..b
                                    },
                                )
                            },
                        },
                        _ => Some(Build { class: ClassView { index_unknown: true, ..b.class }, ..b }),
                    }
                } else {
                    let ri = match e {
                        Expr::Function(f) => returns_instance(&f, name),
                        _ => false,
                    };
                    let b1 = if ri {
                        match e {
                            Expr::Function(f) => Build {
                                has_ctor: true,
                                class: constructor_facts(&f, b.class),
                                ..b
                            },
                            _ => b,
                        }
                    } else {
                        b
                    };
                    Some(Build { members: vput(b1.members, mn, member_from_value(&e, ri)), ..b1 })
                }
            } else {
                Some(b)
            },
            None => if targets_table(v, name) {
                None
            } else {
                Some(b)
            },
        },
    }
}

pub open spec fn assign_pairs(vars: Seq<Place>, exprs: Seq<Expr>, name: Seq<char>, k: int, b: Option<Build>) -> Option<Build>
    decreases k,
{
    if k <= 0 {
        b
    } else {
        assign_pair(assign_pairs(vars, exprs, name, k - 1, b), vars[k - 1], exprs[k - 1], name)
    }
}

pub open spec fn build_stmt(b: Option<Build>, s: Statement, name: Seq<char>) -> Option<Build> {
    match b {
        None => None,
        Some(bb) => match s {
            Statement::FunctionDeclaration(d) => match declared_member(d.name, name) {
                None => b,
                Some(mn) => {
                    let ri = returns_instance(&d.body, name);
                    let b1 = if ri {
                        Build { has_ctor: true, class: constructor_facts(&d.body, bb.class), ..bb }
                    } else {
                        bb
                    };
                    Some(Build { members: vput(b1.members, mn, function_member(&d.body, ri)), ..b1 })
                },
            },
            Statement::Assignment(a) => assign_pairs(
                a.vars@,
                a.exprs@,
                name,
                min(a.vars@.len() as int, a.exprs@.len() as int),
                b,
            ),
            Statement::Call(c) => Some(Build { class: metatable_fact(c, name, bb.class), ..bb }),
            _ => b,
        },
    }
}

pub open spec fn build_fold(stmts: Seq<Statement>, name: Seq<char>) -> Option<Build>
    decreases stmts.len(),
{
    if stmts.len() == 0 {
        Some(Build { members: Seq::empty(), class: empty_class(), has_ctor: false })
    } else {
        build_stmt(build_fold(stmts.drop_last(), name), stmts.last(), name)
    }
}

pub open spec fn class_present(b: Build) -> bool {
    ||| b.class.index_self
    ||| b.class.index_other is Some
    ||| b.class.index_unknown
    ||| b.class.metatable_name is Some
    ||| b.class.metatable_unknown
    ||| b.class.instance_members.len() > 0
    ||| b.class.parent_constructor is Some
    ||| b.has_ctor
}

/// Shape of `local M = {}; function M.f() ... end; M.x = ...; return M`.
/// Only top-level statements populate the shape.
pub open spec fn shape_from_builder(block: &LuaBlock, name: Seq<char>) -> Option<ShapeView> {
    if decl_fold(block.stmts@, name) != Some(true) {
        None
    } else {
        match build_fold(block.stmts@, name) {
            None => None,
            Some(b) => Some(
                ShapeView {
                    members: b.members,
                    class: if class_present(b) {
                        Some(b.class)
                    } else {
                        None
                    },
                },
            ),
        }
    }
}

/// A module's export shape, or None when unknown or ambiguous (no
/// top-level return, non-table return, conditional returns, or the
/// exported local is ever rebound wholesale).
pub open spec fn module_export(c: &Chunk) -> Option<ShapeView> {
    if nested_returns(&c.block) {
        None
    } else {
        match c.block.last {
            Some(FinalStmt::Return(es)) => if es@.len() == 1 {
                match es@[0] {
                    Expr::Table(t) => Some(shape_from_constructor(&t)),
                    Expr::Var(Place::Name(tok)) => match ident(tok) {
                        Some(name) => shape_from_builder(&c.block, name),
                        None => None,
                    },
                    _ => None,
                }
            } else {
                None
            },
            _ => None,
        }
    }
}

fn decl_check(stmts: &Vec<Statement>, name: &str) -> (r: bool)
    ensures
        r == (decl_fold(stmts@, name@) == Some(true)),
{
    let n = stmts.len();
    let mut declared = false;
    let mut i: usize = 0;
    assert(stmts@.take(0) =~= Seq::<Statement>::empty());
    while i < n
        invariant
            n == stmts@.len(),
            i <= n,
            decl_fold(stmts@.take(i as int), name@) == Some(declared),
        decreases n - i,
    {
        assert(stmts@.take(i + 1).drop_last() =~= stmts@.take(i as int));
        match &stmts[i] {
            Statement::LocalAssignment(l) => {
                match local_decl_exec(l, name, declared) {
                    Some(d) => {
                        declared = d;
                    },
                    None => {
                        proof {
                            lemma_decl_fold_none(stmts@, name@, i + 1, n as int);
                            assert(stmts@.take(n as int) =~= stmts@);
                        }
                        return false;
                    },
                }
            },
            Statement::Assignment(a) => {
                if rebinds_exec(&a.vars, name) {
                    proof {
                        lemma_decl_fold_none(stmts@, name@, i + 1, n as int);
                        assert(stmts@.take(n as int) =~= stmts@);
                    }
                    return false;
                }
            },
            _ => {},
        }
        i = i + 1;
    }
    assert(stmts@.take(n as int) =~= stmts@);
    declared
}

proof fn lemma_local_decl_none(names: Seq<Tok>, exprs: Seq<Expr>, name: Seq<char>, k: int, m: int, d: Option<bool>)
    requires
        0 <= k <= m,
        local_decl(names, exprs, name, k, d) is None,
    ensures
        local_decl(names, exprs, name, m, d) is None,
    decreases m - k,
{
    if k < m {
        lemma_local_decl_none(names, exprs, name, k + 1, m, d);
    }
}

proof fn lemma_decl_fold_none(stmts: Seq<Statement>, name: Seq<char>, k: int, m: int)
    requires
        0 <= k <= m <= stmts.len(),
        decl_fold(stmts.take(k), name) is None,
    ensures
        decl_fold(stmts.take(m), name) is None,
    decreases m - k,
{
    if k < m {
        assert(stmts.take(k + 1).drop_last() =~= stmts.take(k));
        lemma_decl_fold_none(stmts, name, k + 1, m);
    }
}

proof fn lemma_build_fold_none(stmts: Seq<Statement>, name: Seq<char>, k: int, m: int)
    requires
        0 <= k <= m <= stmts.len(),
        build_fold(stmts.take(k), name) is None,
    ensures
        build_fold(stmts.take(m), name) is None,
    decreases m - k,
{
    if k < m {
        assert(stmts.take(k + 1).drop_last() =~= stmts.take(k));
        lemma_build_fold_none(stmts, name, k + 1, m);
    }
}

proof fn lemma_assign_pairs_none(vars: Seq<Place>, exprs: Seq<Expr>, name: Seq<char>, k: int, m: int, b: Option<Build>)
    requires
        0 <= k <= m,
        assign_pairs(vars, exprs, name, k, b) is None,
    ensures
        assign_pairs(vars, exprs, name, m, b) is None,
    decreases m - k,
{
    if k < m {
        lemma_assign_pairs_none(vars, exprs, name, k + 1, m, b);
    }
}

fn ident_parts_exec(ts: &Vec<Tok>) -> (r: Vec<String>)
    ensures
        strs_view(r@) == ident_parts(ts@),
{
    let mut r: Vec<String> = Vec::new();
    let n = ts.len();
    let mut i: usize = 0;
    assert(ts@.take(0) =~= Seq::<Tok>::empty());
    assert(strs_view(r@) =~= Seq::<Seq<char>>::empty());
    while i < n
        invariant
            n == ts@.len(),
            i <= n,
            strs_view(r@) == ident_parts(ts@.take(i as int)),
        decreases n - i,
    {
        assert(ts@.take(i + 1).drop_last() =~= ts@.take(i as int));
        if let Some(s) = ident_exec(&ts[i]) {
            let ghost sv = s@;
            let ghost before = r@;
            r.push(s);
            assert(strs_view(r@) =~= strs_view(before).push(sv));
        }
        i = i + 1;
    }
    assert(ts@.take(n as int) =~= ts@);
    r
}

fn declared_member_exec(f: &FunctionName, name: &str) -> (r: Option<String>)
    ensures
        match r {
            Some(s) => declared_member(*f, name@) == Some(s@),
            None => declared_member(*f, name@) is None,
        },
{
    let parts = ident_parts_exec(&f.names);
    let key = owned(name);
    match &f.method {
        Some(m) => {
            if parts.len() == 1 && parts[0] == key {
                ident_exec(m)
            } else {
                None
            }
        },
        None => {
            if parts.len() == 2 && parts[0] == key {
                Some(parts[1].clone())
            } else {
                None
            }
        },
    }
}

/// The exec form of [`Build`].
struct Builder {
    members: Vec<(String, Member)>,
    class: ClassInfo,
    has_ctor: bool,
}

impl View for Builder {
    type V = Build;

    closed spec fn view(&self) -> Build {
        Build { members: members_view(self.members@), class: self.class@, has_ctor: self.has_ctor }
    }
}

/// One `target = value` pair of a top-level assignment. Returns false when
/// the shape becomes unknown.
fn assign_pair_exec(b: &mut Builder, v: &Place, e: &Expr, name: &str) -> (r: bool)
    ensures
        r ==> assign_pair(Some(old(b)@), *v, *e, name@) == Some(final(b)@),
        !r ==> assign_pair(Some(old(b)@), *v, *e, name@) is None,
{
    match dot_target_exec(v) {
        Some((table, mn)) => {
            if table != owned(name) {
                return true;
            }
            if mn == owned("__index") {
                match e {
                    Expr::Var(Place::Name(t)) => match ident_exec(t) {
                        None => false,
                        Some(target) => {
                            if target == owned(name) {
                                b.class.index_self = true;
                            } else {
                                b.class.index_other = Some(target);
                            }
                            true
                        },
                    },
                    _ => {
                        b.class.index_unknown = true;
                        true
                    },
                }
            } else {
                let ri = match e {
                    Expr::Function(f) => returns_instance_exec(f, name),
                    _ => false,
                };
                if ri {
                    if let Expr::Function(f) = e {
                        b.has_ctor = true;
                        constructor_facts_exec(f, &mut b.class);
                    }
                }
                let m = member_from_value_exec(e, ri);
                put_member(&mut b.members, mn, m);
                true
            }
        },
        None => !targets_table_exec(v, name),
    }
}


fn local_decl_exec(l: &crate::syntax::LocalDecl, name: &str, declared: bool) -> (r: Option<bool>)
    ensures
        r == local_decl(l.names@, l.exprs@, name@, min(l.names@.len() as int, l.exprs@.len() as int), Some(declared)),
{
    let m = if l.names.len() < l.exprs.len() {
        l.names.len()
    } else {
        l.exprs.len()
    };
    let mut d = declared;
    let mut k: usize = 0;
    while k < m
        invariant
            m == min(l.names@.len() as int, l.exprs@.len() as int),
            m <= l.names@.len(),
            m <= l.exprs@.len(),
            k <= m,
            local_decl(l.names@, l.exprs@, name@, k as int, Some(declared)) == Some(d),
        decreases m - k,
    {
        if ident_is(&l.names[k], name) {
            if d || !matches!(l.exprs[k], Expr::Table(_)) {
                proof {
                    lemma_local_decl_none(l.names@, l.exprs@, name@, k + 1, m as int, Some(declared));
                }
                return None;
            }
            d = true;
        }
        k = k + 1;
    }
    Some(d)
}

fn rebinds_exec(vars: &Vec<Place>, name: &str) -> (r: bool)
    ensures
        r == rebinds(vars@, name@),
{
    let mut j: usize = 0;
    while j < vars.len()
        invariant
            j <= vars@.len(),
            forall|q: int|
                0 <= q < j ==> !(match #[trigger] vars@[q] {
                    Place::Name(t) => ident(t) == Some(name@),
                    _ => false,
                }),
        decreases vars@.len() - j,
    {
        if let Place::Name(t) = &vars[j] {
            if ident_is(t, name) {
                assert(match vars@[j as int] {
                    Place::Name(t) => ident(t) == Some(name@),
                    _ => false,
                });
                return true;
            }
        }
        j = j + 1;
    }
    false
}

fn assign_pairs_exec(b: &mut Builder, a: &crate::syntax::AssignStmt, name: &str) -> (r: bool)
    ensures
        r ==> assign_pairs(a.vars@, a.exprs@, name@, min(a.vars@.len() as int, a.exprs@.len() as int), Some(old(b)@)) == Some(final(b)@),
        !r ==> assign_pairs(a.vars@, a.exprs@, name@, min(a.vars@.len() as int, a.exprs@.len() as int), Some(old(b)@)) is None,
{
    let m = if a.vars.len() < a.exprs.len() {
        a.vars.len()
    } else {
        a.exprs.len()
    };
    let ghost b0 = b@;
    let mut k: usize = 0;
    while k < m
        invariant
            m == min(a.vars@.len() as int, a.exprs@.len() as int),
            m <= a.vars@.len(),
            m <= a.exprs@.len(),
            k <= m,
            b0 == old(b)@,
            assign_pairs(a.vars@, a.exprs@, name@, k as int, Some(b0)) == Some(b@),
        decreases m - k,
    {
        let ghost bk = b@;
        if !assign_pair_exec(b, &a.vars[k], &a.exprs[k], name) {
            proof {
                assert(assign_pair(Some(bk), a.vars@[k as int], a.exprs@[k as int], name@) is None);
                assert(assign_pairs(a.vars@, a.exprs@, name@, k + 1, Some(b0)) is None);
                lemma_assign_pairs_none(a.vars@, a.exprs@, name@, k + 1, m as int, Some(b0));
            }
            return false;
        }
        k = k + 1;
    }
    true
}

fn shape_from_builder_exec(block: &LuaBlock, name: &str) -> (r: Option<ExportShape>)
    ensures
        match r {
            Some(s) => shape_from_builder(block, name@) == Some(s@),
            None => shape_from_builder(block, name@) is None,
        },
{
    if !decl_check(&block.stmts, name) {
        return None;
    }
    let stmts = &block.stmts;
    let mut b = Builder {
        members: Vec::new(),
        class: ClassInfo {
            index_self: false,
            index_other: None,
            index_unknown: false,
            metatable_name: None,
            metatable_unknown: false,
            instance_members: Vec::new(),
            parent_constructor: None,
        },
        has_ctor: false,
    };
    proof {
        assert(members_view(b.members@) =~= Seq::<(Seq<char>, Member)>::empty());
        assert(strs_view(b.class.instance_members@) =~= Seq::<Seq<char>>::empty());
    }
    let n = stmts.len();
    let mut i: usize = 0;
    assert(stmts@.take(0) =~= Seq::<Statement>::empty());
    while i < n
        invariant
            n == stmts@.len(),
            i <= n,
            build_fold(stmts@.take(i as int), name@) == Some(b@),
            decl_fold(stmts@, name@) == Some(true),
            stmts@ == block.stmts@,
        decreases n - i,
    {
        assert(stmts@.take(i + 1).drop_last() =~= stmts@.take(i as int));
        match &stmts[i] {
            Statement::FunctionDeclaration(d) => {
                if let Some(mn) = declared_member_exec(&d.name, name) {
                    let ri = returns_instance_exec(&d.body, name);
                    if ri {
                        b.has_ctor = true;
                        constructor_facts_exec(&d.body, &mut b.class);
                    }
                    let m = function_member_exec(&d.body, ri);
                    put_member(&mut b.members, mn, m);
                }
            },
            Statement::Assignment(a) => {
                let ghost bb = b@;
                if !assign_pairs_exec(&mut b, a, name) {
                    proof {
                        assert(stmts@.take(i + 1).last() == stmts@[i as int]);
                        assert(build_stmt(Some(bb), stmts@[i as int], name@) is None);
                        assert(build_fold(stmts@.take(i + 1), name@) is None);
                        lemma_build_fold_none(stmts@, name@, i + 1, n as int);
                        assert(stmts@.take(n as int) =~= stmts@);
                    }
                    return None;
                }
            },
            Statement::Call(c) => {
                metatable_fact_exec(c, name, &mut b.class);
            },
            _ => {},
        }
        i = i + 1;
    }
    assert(stmts@.take(n as int) =~= stmts@);
    let present = b.class.index_self || b.class.index_other.is_some() || b.class.index_unknown
        || b.class.metatable_name.is_some() || b.class.metatable_unknown
        || b.class.instance_members.len() > 0 || b.class.parent_constructor.is_some() || b.has_ctor;
    let class = if present {
        Some(b.class)
    } else {
        None
    };
    Some(ExportShape { members: b.members, class })
}

/// Compute a module's export shape.
pub fn module_export_exec(c: &Chunk) -> (r: Option<ExportShape>)
    ensures
        match r {
            Some(s) => module_export(c) == Some(s@),
            None => module_export(c) is None,
        },
{
    if has_nested_returns(&c.block) {
        return None;
    }
    match &c.block.last {
        Some(FinalStmt::Return(es)) => {
            if es.len() != 1 {
                return None;
            }
            match &es[0] {
                Expr::Table(t) => Some(shape_from_constructor_exec(t)),
                Expr::Var(Place::Name(tok)) => match ident_exec(tok) {
                    Some(name) => shape_from_builder_exec(&c.block, name.as_str()),
                    None => None,
                },
                _ => None,
            }
        },
        _ => None,
    }
}


// ---- what the builder pattern promises ----

/// Whether top-level statement `j` declares `name` as its `i`-th local
/// (a name with a value).
pub open spec fn declares_at(stmts: Seq<Statement>, name: Seq<char>, j: int, i: int) -> bool {
    &&& 0 <= j < stmts.len()
    &&& stmts[j] matches Statement::LocalAssignment(l) && 0 <= i < min(
        l.names@.len() as int,
        l.exprs@.len() as int,
    ) && ident(l.names@[i]) == Some(name)
}

proof fn lemma_local_decl_true_stays(names: Seq<Tok>, exprs: Seq<Expr>, name: Seq<char>, k: int)
    ensures
        local_decl(names, exprs, name, k, Some(true)) is None || local_decl(names, exprs, name, k, Some(true))
            == Some(true),
    decreases k,
{
    if k > 0 {
        lemma_local_decl_true_stays(names, exprs, name, k - 1);
    }
}

proof fn lemma_local_decl_hit(names: Seq<Tok>, exprs: Seq<Expr>, name: Seq<char>, k: int, d: Option<bool>, i: int)
    requires
        0 <= i < k,
        ident(names[i]) == Some(name),
    ensures
        local_decl(names, exprs, name, k, d) is None || local_decl(names, exprs, name, k, d) == Some(true),
    decreases k,
{
    if i < k - 1 {
        lemma_local_decl_hit(names, exprs, name, k - 1, d, i);
    }
}

proof fn lemma_local_decl_twice(
    names: Seq<Tok>,
    exprs: Seq<Expr>,
    name: Seq<char>,
    k: int,
    d: Option<bool>,
    i1: int,
    i2: int,
)
    requires
        0 <= i1 < i2 < k,
        ident(names[i1]) == Some(name),
        ident(names[i2]) == Some(name),
    ensures
        local_decl(names, exprs, name, k, d) is None,
{
    lemma_local_decl_hit(names, exprs, name, i2, d, i1);
    assert(local_decl(names, exprs, name, i2 + 1, d) is None);
    lemma_local_decl_none(names, exprs, name, i2 + 1, k, d);
}

proof fn lemma_decl_fold_true_stays(stmts: Seq<Statement>, name: Seq<char>, k: int, m: int)
    requires
        0 <= k <= m <= stmts.len(),
        decl_fold(stmts.take(k), name) is None || decl_fold(stmts.take(k), name) == Some(true),
    ensures
        decl_fold(stmts.take(m), name) is None || decl_fold(stmts.take(m), name) == Some(true),
    decreases m - k,
{
    if k < m {
        assert(stmts.take(k + 1).drop_last() =~= stmts.take(k));
        assert(stmts.take(k + 1).last() == stmts[k]);
        if let Statement::LocalAssignment(l) = stmts[k] {
            lemma_local_decl_true_stays(
                l.names@,
                l.exprs@,
                name,
                min(l.names@.len() as int, l.exprs@.len() as int),
            );
        }
        lemma_decl_fold_true_stays(stmts, name, k + 1, m);
    }
}

proof fn lemma_decl_rejected_at(block: &LuaBlock, name: Seq<char>, j: int)
    requires
        0 <= j < block.stmts@.len(),
        decl_fold(block.stmts@.take(j + 1), name) is None,
    ensures
        shape_from_builder(block, name) is None,
{
    let stmts = block.stmts@;
    lemma_decl_fold_none(stmts, name, j + 1, stmts.len() as int);
    assert(stmts.take(stmts.len() as int) =~= stmts);
}

/// A builder module whose table is rebound wholesale at top level
/// (`M = ...`) has no known shape.
pub proof fn lemma_builder_rejects_rebinding(block: &LuaBlock, name: Seq<char>, j: int)
    requires
        0 <= j < block.stmts@.len(),
        block.stmts@[j] matches Statement::Assignment(a) && rebinds(a.vars@, name),
    ensures
        shape_from_builder(block, name) is None,
{
    let stmts = block.stmts@;
    assert(stmts.take(j + 1).drop_last() =~= stmts.take(j));
    assert(stmts.take(j + 1).last() == stmts[j]);
    lemma_decl_rejected_at(block, name, j);
}

/// A builder module whose table is declared by a top-level `local` with a
/// value other than a table constructor has no known shape.
pub proof fn lemma_builder_rejects_non_table(block: &LuaBlock, name: Seq<char>, j: int, i: int)
    requires
        declares_at(block.stmts@, name, j, i),
        block.stmts@[j] matches Statement::LocalAssignment(l) && !(l.exprs@[i] is Table),
    ensures
        shape_from_builder(block, name) is None,
{
    let stmts = block.stmts@;
    assert(stmts.take(j + 1).drop_last() =~= stmts.take(j));
    assert(stmts.take(j + 1).last() == stmts[j]);
    if let Statement::LocalAssignment(l) = stmts[j] {
        let d = decl_fold(stmts.take(j), name);
        assert(local_decl(l.names@, l.exprs@, name, i + 1, d) is None);
        lemma_local_decl_none(
            l.names@,
            l.exprs@,
            name,
            i + 1,
            min(l.names@.len() as int, l.exprs@.len() as int),
            d,
        );
    }
    lemma_decl_rejected_at(block, name, j);
}

/// A builder module whose table is declared by two top-level `local`s
/// (or twice in one) has no known shape.
pub proof fn lemma_builder_rejects_redeclaration(
    block: &LuaBlock,
    name: Seq<char>,
    j1: int,
    i1: int,
    j2: int,
    i2: int,
)
    requires
        declares_at(block.stmts@, name, j1, i1),
        declares_at(block.stmts@, name, j2, i2),
        j1 < j2 || (j1 == j2 && i1 < i2),
    ensures
        shape_from_builder(block, name) is None,
{
    let stmts = block.stmts@;
    assert(stmts.take(j2 + 1).drop_last() =~= stmts.take(j2));
    assert(stmts.take(j2 + 1).last() == stmts[j2]);
    if let Statement::LocalAssignment(l2) = stmts[j2] {
        let k2 = min(l2.names@.len() as int, l2.exprs@.len() as int);
        if j1 == j2 {
            lemma_local_decl_twice(l2.names@, l2.exprs@, name, k2, decl_fold(stmts.take(j2), name), i1, i2);
        } else {
            assert(stmts.take(j1 + 1).drop_last() =~= stmts.take(j1));
            assert(stmts.take(j1 + 1).last() == stmts[j1]);
            if let Statement::LocalAssignment(l1) = stmts[j1] {
                lemma_local_decl_hit(
                    l1.names@,
                    l1.exprs@,
                    name,
                    min(l1.names@.len() as int, l1.exprs@.len() as int),
                    decl_fold(stmts.take(j1), name),
                    i1,
                );
            }
            lemma_decl_fold_true_stays(stmts, name, j1 + 1, j2);
            if decl_fold(stmts.take(j2), name) == Some(true) {
                lemma_local_decl_true_stays(l2.names@, l2.exprs@, name, i2);
                assert(local_decl(l2.names@, l2.exprs@, name, i2 + 1, Some(true)) is None);
                lemma_local_decl_none(l2.names@, l2.exprs@, name, i2 + 1, k2, Some(true));
            }
        }
    }
    lemma_decl_rejected_at(block, name, j2);
}

proof fn lemma_local_decl_miss(names: Seq<Tok>, exprs: Seq<Expr>, name: Seq<char>, k: int)
    requires
        forall|i: int| 0 <= i < k ==> ident(#[trigger] names[i]) != Some(name),
    ensures
        local_decl(names, exprs, name, k, Some(false)) is None || local_decl(names, exprs, name, k, Some(false))
            == Some(false),
    decreases k,
{
    if k > 0 {
        lemma_local_decl_miss(names, exprs, name, k - 1);
        assert(ident(names[k - 1]) != Some(name));
    }
}

proof fn lemma_decl_fold_never_declared(stmts: Seq<Statement>, name: Seq<char>)
    requires
        forall|j: int, i: int| !declares_at(stmts, name, j, i),
    ensures
        decl_fold(stmts, name) != Some(true),
    decreases stmts.len(),
{
    if stmts.len() > 0 {
        let d = stmts.drop_last();
        assert forall|j: int, i: int| !declares_at(d, name, j, i) by {
            if declares_at(d, name, j, i) {
                assert(d[j] == stmts[j]);
                assert(declares_at(stmts, name, j, i));
            }
        }
        lemma_decl_fold_never_declared(d, name);
        if let Statement::LocalAssignment(l) = stmts.last() {
            let k = min(l.names@.len() as int, l.exprs@.len() as int);
            assert forall|i: int| 0 <= i < k implies ident(#[trigger] l.names@[i]) != Some(name) by {
                assert(!declares_at(stmts, name, stmts.len() - 1, i));
            }
            lemma_local_decl_miss(l.names@, l.exprs@, name, k);
        }
    }
}

/// A builder module whose table no top-level `local` declares has no
/// known shape.
pub proof fn lemma_builder_needs_declaration(block: &LuaBlock, name: Seq<char>)
    requires
        forall|j: int, i: int| !declares_at(block.stmts@, name, j, i),
    ensures
        shape_from_builder(block, name) is None,
{
    lemma_decl_fold_never_declared(block.stmts@, name);
}

/// A builder module with a top-level assignment to a field of its table
/// that is not a plain `M.name` (such as `M[k] = v` or `M.a.b = v`) has no
/// known shape.
pub proof fn lemma_builder_rejects_nested_target(block: &LuaBlock, name: Seq<char>, j: int, i: int)
    requires
        0 <= j < block.stmts@.len(),
        block.stmts@[j] matches Statement::Assignment(a) && 0 <= i < min(
            a.vars@.len() as int,
            a.exprs@.len() as int,
        ) && dot_target(a.vars@[i]) is None && targets_table(a.vars@[i], name),
    ensures
        shape_from_builder(block, name) is None,
{
    let stmts = block.stmts@;
    assert(stmts.take(j + 1).drop_last() =~= stmts.take(j));
    assert(stmts.take(j + 1).last() == stmts[j]);
    if let Statement::Assignment(a) = stmts[j] {
        let b = build_fold(stmts.take(j), name);
        assert(assign_pairs(a.vars@, a.exprs@, name, i + 1, b) is None);
        lemma_assign_pairs_none(
            a.vars@,
            a.exprs@,
            name,
            i + 1,
            min(a.vars@.len() as int, a.exprs@.len() as int),
            b,
        );
    }
    assert(build_fold(stmts.take(j + 1), name) is None);
    lemma_build_fold_none(stmts, name, j + 1, stmts.len() as int);
    assert(stmts.take(stmts.len() as int) =~= stmts);
}

/// `M.__index = e` adds no member: it only records where instances look
/// up (`M` itself, another module name, or an unknown value).
pub proof fn lemma_index_assignment_adds_no_member(b: Build, v: Place, e: Expr, name: Seq<char>)
    requires
        dot_target(v) == Some((name, "__index"@)),
    ensures
        assign_pair(Some(b), v, e, name) matches Some(r) ==> r.members == b.members && r.has_ctor
            == b.has_ctor && (r.class == ClassView { index_self: true, ..b.class } || (
        r.class.index_other is Some && r.class == ClassView { index_other: r.class.index_other, ..b.class })
            || r.class == ClassView { index_unknown: true, ..b.class }),
{
}

proof fn lemma_ctor_members_distinct(fields: Seq<TableField>)
    ensures
        distinct_keys(ctor_members(fields)),
    decreases fields.len(),
{
    if fields.len() > 0 {
        lemma_ctor_members_distinct(fields.drop_last());
        let m = ctor_members(fields.drop_last());
        match fields.last() {
            TableField::NameKey { key, value } => match ident(key) {
                Some(n) => lemma_vput_distinct(m, n, member_from_value(&value, false)),
                None => {},
            },
            TableField::ExpressionKey { key, value } => match key {
                Expr::String(t) => match literal_of(t) {
                    Some(n) => lemma_vput_distinct(m, n, member_from_value(&value, false)),
                    None => {},
                },
                _ => {},
            },
            TableField::NoKey(_) => {},
        }
    }
}

proof fn lemma_assign_pairs_distinct(vars: Seq<Place>, exprs: Seq<Expr>, name: Seq<char>, k: int, b: Option<Build>)
    requires
        b matches Some(bb) ==> distinct_keys(bb.members),
    ensures
        assign_pairs(vars, exprs, name, k, b) matches Some(r) ==> distinct_keys(r.members),
    decreases k,
{
    if k > 0 {
        lemma_assign_pairs_distinct(vars, exprs, name, k - 1, b);
        let prev = assign_pairs(vars, exprs, name, k - 1, b);
        if let Some(pb) = prev {
            if let Some((table, mn)) = dot_target(vars[k - 1]) {
                if table == name && mn != "__index"@ {
                    let e = exprs[k - 1];
                    let ri = match e {
                        Expr::Function(f) => returns_instance(&f, name),
                        _ => false,
                    };
                    lemma_vput_distinct(pb.members, mn, member_from_value(&e, ri));
                }
            }
        }
    }
}

proof fn lemma_build_fold_distinct(stmts: Seq<Statement>, name: Seq<char>)
    ensures
        build_fold(stmts, name) matches Some(b) ==> distinct_keys(b.members),
    decreases stmts.len(),
{
    if stmts.len() == 0 {
        assert(Seq::<(Seq<char>, Member)>::empty().map_values(|e: (Seq<char>, Member)| e.0) =~= Seq::<
            Seq<char>,
        >::empty());
    } else {
        lemma_build_fold_distinct(stmts.drop_last(), name);
        let prev = build_fold(stmts.drop_last(), name);
        if let Some(bb) = prev {
            match stmts.last() {
                Statement::FunctionDeclaration(d) => match declared_member(d.name, name) {
                    None => {},
                    Some(mn) => {
                        let ri = returns_instance(&d.body, name);
                        lemma_vput_distinct(bb.members, mn, function_member(&d.body, ri));
                    },
                },
                Statement::Assignment(a) => lemma_assign_pairs_distinct(
                    a.vars@,
                    a.exprs@,
                    name,
                    min(a.vars@.len() as int, a.exprs@.len() as int),
                    prev,
                ),
                _ => {},
            }
        }
    }
}

/// A module's known export shape names each member once.
pub proof fn lemma_export_names_each_member_once(c: &Chunk)
    ensures
        module_export(c) matches Some(s) ==> distinct_keys(s.members),
{
    if let Some(FinalStmt::Return(es)) = c.block.last {
        if es@.len() == 1 {
            match es@[0] {
                Expr::Table(t) => lemma_ctor_members_distinct(t.fields@),
                Expr::Var(Place::Name(tok)) => match ident(tok) {
                    Some(name) => lemma_build_fold_distinct(c.block.stmts@, name),
                    None => {},
                },
                _ => {},
            }
        }
    }
}

} // verus!
