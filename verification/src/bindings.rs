//! Require bindings: `local name = require("mod")` connects a local name
//! to the required module's export shape (when fully known), and
//! `local obj = Class.new()` connects a local name to an instance.

use vstd::prelude::*;
use crate::assoc::{keys_of, vget, vhas, vput};
use crate::exports::{ident, ident_exec, ident_is, min};
use crate::require_sites::{literal_exec, literal_of};
use crate::shapes::{
    Bindings, BindingsView, ExportShape, Member, ShapeView, get_index, lemma_members_keys,
    lemma_pairs_keys, lemma_shapes_keys, pairs_view, shapes_view,
};
use crate::syntax::{
    CallKind, Chunk, Event, Expr, Arguments, CallExpr, IndexKind, LocalDecl, PrefixExpr, Postfix,
    chunk_events, ev_chunk,
};
use crate::text::owned;

verus! {

/// Where each required module name resolved to, if anywhere.
pub open spec fn resolution_of(table: Seq<(Seq<char>, Option<Seq<char>>)>, module: Seq<char>) -> Option<Seq<char>> {
    match vget(table, module) {
        Some(r) => r,
        None => None,
    }
}

pub open spec fn resolutions_view(v: Seq<(String, Option<String>)>) -> Seq<(Seq<char>, Option<Seq<char>>)> {
    v.map_values(|e: (String, Option<String>)| (e.0@, crate::diagnostic::opt_str_view(e.1)))
}

/// If `call` is a bare `require("m")` / `require "m"` call, the module
/// name. Chained calls (`require("m"):new()`) yield the call result, not
/// the module.
pub open spec fn require_module_name(call: CallExpr) -> Option<Seq<char>> {
    match call.prefix {
        PrefixExpr::Name(p) => if ident(p) == Some("require"@) && call.suffixes@.len() == 1 {
            match call.suffixes@[0] {
                Postfix::Call(CallKind::Anonymous(args)) => match args {
                    Arguments::String(t) => literal_of(t),
                    Arguments::Parentheses(es) => if es@.len() > 0 {
                        match es@[0] {
                            Expr::String(t) => literal_of(t),
                            _ => None,
                        }
                    } else {
                        None
                    },
                    _ => None,
                },
                _ => None,
            }
        } else {
            None
        },
        _ => None,
    }
}

/// `Class.new(...)` where `Class` is bound to a module whose member `new`
/// is a recognized instance-returning constructor.
pub open spec fn instance_class(
    e: Expr,
    modules: Seq<(Seq<char>, Seq<char>)>,
    shapes: Seq<(Seq<char>, ShapeView)>,
) -> Option<Seq<char>> {
    match e {
        Expr::Call(c) => match c.prefix {
            PrefixExpr::Name(p) => match ident(p) {
                Some(class_name) => match vget(modules, class_name) {
                    Some(class_path) => if c.suffixes@.len() == 2 {
                        match (c.suffixes@[0], c.suffixes@[1]) {
                            (
                                Postfix::Index(IndexKind::Dot { name }),
                                Postfix::Call(CallKind::Anonymous(_)),
                            ) => match ident(name) {
                                Some(method) => match vget(shapes, class_path) {
                                    Some(shape) => match vget(shape.members, method) {
                                        Some(Member::Function { returns_instance: true, .. }) => Some(
                                            class_path,
                                        ),
                                        _ => None,
                                    },
                                    None => None,
                                },
                                None => None,
                            },
                            _ => None,
                        }
                    } else {
                        None
                    },
                    None => None,
                },
                None => None,
            },
            _ => None,
        },
        _ => None,
    }
}

pub open spec fn module_pairs(
    names: Seq<crate::syntax::Tok>,
    exprs: Seq<Expr>,
    k: int,
    b: BindingsView,
    table: Seq<(Seq<char>, Option<Seq<char>>)>,
    shapes: Seq<(Seq<char>, ShapeView)>,
) -> BindingsView
    decreases k,
{
    if k <= 0 {
        b
    } else {
        let b1 = module_pairs(names, exprs, k - 1, b, table, shapes);
        match exprs[k - 1] {
            Expr::Call(c) => match require_module_name(c) {
                Some(module) => match resolution_of(table, module) {
                    Some(path) => match ident(names[k - 1]) {
                        Some(name) => if vhas(shapes, path) {
                            BindingsView { modules: vput(b1.modules, name, path), ..b1 }
                        } else {
                            b1
                        },
                        None => b1,
                    },
                    None => b1,
                },
                None => b1,
            },
            _ => b1,
        }
    }
}

pub open spec fn instance_pairs(
    names: Seq<crate::syntax::Tok>,
    exprs: Seq<Expr>,
    k: int,
    b: BindingsView,
    shapes: Seq<(Seq<char>, ShapeView)>,
) -> BindingsView
    decreases k,
{
    if k <= 0 {
        b
    } else {
        let b1 = instance_pairs(names, exprs, k - 1, b, shapes);
        match instance_class(exprs[k - 1], b1.modules, shapes) {
            Some(class_path) => match ident(names[k - 1]) {
                Some(name) => if name == "self"@ {
                    b1
                } else {
                    BindingsView { instances: vput(b1.instances, name, class_path), ..b1 }
                },
                None => b1,
            },
            None => b1,
        }
    }
}

/// Module bindings first, then instance bindings, for one `local`
/// statement. `self` is never bound: it is method-local.
pub open spec fn binding_step(
    b: BindingsView,
    e: Event,
    table: Seq<(Seq<char>, Option<Seq<char>>)>,
    shapes: Seq<(Seq<char>, ShapeView)>,
) -> BindingsView {
    match e {
        Event::LocalAssign(l) => {
            let k = min(l.names@.len() as int, l.exprs@.len() as int);
            let b1 = module_pairs(l.names@, l.exprs@, k, b, table, shapes);
            instance_pairs(l.names@, l.exprs@, k, b1, shapes)
        },
        _ => b,
    }
}

pub open spec fn fold_bindings(
    evs: Seq<Event>,
    table: Seq<(Seq<char>, Option<Seq<char>>)>,
    shapes: Seq<(Seq<char>, ShapeView)>,
) -> BindingsView
    decreases evs.len(),
{
    if evs.len() == 0 {
        BindingsView { modules: Seq::empty(), instances: Seq::empty() }
    } else {
        binding_step(fold_bindings(evs.drop_last(), table, shapes), evs.last(), table, shapes)
    }
}

/// The bindings of a chunk: scope-blind, the last binding in document
/// order wins.
pub open spec fn bindings_of(
    c: &Chunk,
    table: Seq<(Seq<char>, Option<Seq<char>>)>,
    shapes: Seq<(Seq<char>, ShapeView)>,
) -> BindingsView {
    fold_bindings(ev_chunk(c), table, shapes)
}

fn require_module_name_exec(call: &CallExpr) -> (r: Option<String>)
    ensures
        match r {
            Some(s) => require_module_name(*call) == Some(s@),
            None => require_module_name(*call) is None,
        },
{
    let p = match &call.prefix {
        PrefixExpr::Name(p) => p,
        _ => return None,
    };
    if !ident_is(p, "require") || call.suffixes.len() != 1 {
        return None;
    }
    match &call.suffixes[0] {
        Postfix::Call(CallKind::Anonymous(args)) => match args {
            Arguments::String(t) => literal_exec(t),
            Arguments::Parentheses(es) => {
                if es.len() > 0 {
                    match &es[0] {
                        Expr::String(t) => literal_exec(t),
                        _ => None,
                    }
                } else {
                    None
                }
            },
            _ => None,
        },
        _ => None,
    }
}

/// Look up a module's resolution in the table.
pub fn resolution_exec(table: &Vec<(String, Option<String>)>, module: &str) -> (r: Option<String>)
    ensures
        crate::diagnostic::opt_str_view(r) == resolution_of(resolutions_view(table@), module@),
{
    proof {
        assert(resolutions_view(table@).map_values(|e: (Seq<char>, Option<Seq<char>>)| e.0)
            =~= keys_of(table@));
    }
    match get_index(table, module) {
        Some(i) => crate::diagnostic::clone_opt_string(&table[i].1),
        None => None,
    }
}

fn has_shape(shapes: &Vec<(String, ExportShape)>, path: &str) -> (r: bool)
    ensures
        r == vhas(shapes_view(shapes@), path@),
{
    proof {
        lemma_shapes_keys(shapes@);
    }
    get_index(shapes, path).is_some()
}

fn put_pair(v: &mut Vec<(String, String)>, k: String, val: String)
    ensures
        pairs_view(final(v)@) == vput(pairs_view(old(v)@), k@, val@),
{
    proof {
        lemma_pairs_keys(v@);
    }
    let ghost kv = k@;
    let ghost vv = val@;
    match get_index(v, k.as_str()) {
        Some(i) => {
            v.set(i, (k, val));
            assert(pairs_view(v@) =~= pairs_view(old(v)@).update(i as int, (kv, vv)));
        },
        None => {
            v.push((k, val));
            assert(pairs_view(v@) =~= pairs_view(old(v)@).push((kv, vv)));
        },
    }
}

fn instance_class_exec(
    e: &Expr,
    modules: &Vec<(String, String)>,
    shapes: &Vec<(String, ExportShape)>,
) -> (r: Option<String>)
    ensures
        match r {
            Some(s) => instance_class(*e, pairs_view(modules@), shapes_view(shapes@)) == Some(s@),
            None => instance_class(*e, pairs_view(modules@), shapes_view(shapes@)) is None,
        },
{
    let c = match e {
        Expr::Call(c) => c,
        _ => return None,
    };
    let p = match &c.prefix {
        PrefixExpr::Name(p) => p,
        _ => return None,
    };
    let class_name = match ident_exec(p) {
        Some(n) => n,
        None => return None,
    };
    proof {
        lemma_pairs_keys(modules@);
        lemma_shapes_keys(shapes@);
    }
    let mi = match get_index(modules, class_name.as_str()) {
        Some(i) => i,
        None => return None,
    };
    let class_path = &modules[mi].1;
    if c.suffixes.len() != 2 {
        return None;
    }
    let name = match (&c.suffixes[0], &c.suffixes[1]) {
        (Postfix::Index(IndexKind::Dot { name }), Postfix::Call(CallKind::Anonymous(_))) => name,
        _ => return None,
    };
    let method = match ident_exec(name) {
        Some(m) => m,
        None => return None,
    };
    let si = match get_index(shapes, class_path.as_str()) {
        Some(i) => i,
        None => return None,
    };
    let shape = &shapes[si].1;
    proof {
        lemma_members_keys(shape.members@);
    }
    match get_index(&shape.members, method.as_str()) {
        Some(j) => match shape.members[j].1 {
            Member::Function { returns_instance: true, .. } => Some(class_path.clone()),
            _ => None,
        },
        None => None,
    }
}

fn local_step(
    b: &mut Bindings,
    l: &LocalDecl,
    table: &Vec<(String, Option<String>)>,
    shapes: &Vec<(String, ExportShape)>,
)
    ensures
        final(b)@ == binding_step(
            old(b)@,
            Event::LocalAssign(l),
            resolutions_view(table@),
            shapes_view(shapes@),
        ),
{
    let m = if l.names.len() < l.exprs.len() {
        l.names.len()
    } else {
        l.exprs.len()
    };
    let ghost b0 = b@;
    let mut k: usize = 0;
    while k < m
        invariant
            m == min(l.names@.len() as int, l.exprs@.len() as int),
            m <= l.names@.len(),
            m <= l.exprs@.len(),
            k <= m,
            b@ == module_pairs(
                l.names@,
                l.exprs@,
                k as int,
                b0,
                resolutions_view(table@),
                shapes_view(shapes@),
            ),
        decreases m - k,
    {
        if let Expr::Call(c) = &l.exprs[k] {
            if let Some(module) = require_module_name_exec(c) {
                if let Some(path) = resolution_exec(table, module.as_str()) {
                    if let Some(name) = ident_exec(&l.names[k]) {
                        if has_shape(shapes, path.as_str()) {
                            put_pair(&mut b.modules, name, path);
                        }
                    }
                }
            }
        }
        k = k + 1;
    }
    let ghost b1 = b@;
    let mut k: usize = 0;
    while k < m
        invariant
            m == min(l.names@.len() as int, l.exprs@.len() as int),
            m <= l.names@.len(),
            m <= l.exprs@.len(),
            k <= m,
            b@ == instance_pairs(l.names@, l.exprs@, k as int, b1, shapes_view(shapes@)),
        decreases m - k,
    {
        if let Some(class_path) = instance_class_exec(&l.exprs[k], &b.modules, shapes) {
            if let Some(name) = ident_exec(&l.names[k]) {
                if name != owned("self") {
                    put_pair(&mut b.instances, name, class_path);
                }
            }
        }
        k = k + 1;
    }
}

impl Bindings {
    /// Collect the module and instance bindings of `chunk`. `table` gives
    /// the resolution of each required module name; unresolvable modules
    /// and modules with unknown export shape produce no binding.
    pub fn collect(
        chunk: &Chunk,
        table: &Vec<(String, Option<String>)>,
        shapes: &Vec<(String, ExportShape)>,
    ) -> (r: Bindings)
        ensures
            r@ == bindings_of(chunk, resolutions_view(table@), shapes_view(shapes@)),
    {
        let events = chunk_events(chunk);
        let mut b = Bindings { modules: Vec::new(), instances: Vec::new() };
        assert(b@.modules =~= Seq::<(Seq<char>, Seq<char>)>::empty());
        assert(b@.instances =~= Seq::<(Seq<char>, Seq<char>)>::empty());
        let n = events.len();
        let mut i: usize = 0;
        assert(events@.take(0) =~= Seq::<Event>::empty());
        while i < n
            invariant
                n == events@.len(),
                i <= n,
                b@ == fold_bindings(
                    events@.take(i as int),
                    resolutions_view(table@),
                    shapes_view(shapes@),
                ),
            decreases n - i,
        {
            assert(events@.take(i + 1).drop_last() =~= events@.take(i as int));
            match &events[i] {
                Event::LocalAssign(l) => local_step(&mut b, l, table, shapes),
                _ => {},
            }
            i = i + 1;
        }
        assert(events@.take(n as int) =~= events@);
        b
    }
}

} // verus!
