//! `require` call sites of one file.

use vstd::prelude::*;
use crate::syntax::{
    CallKind, Chunk, Event, Expr, Arguments, CallExpr, PrefixExpr, Postfix, Tok, TokKind, chunk_events,
    ev_chunk,
};
use crate::text::owned;

verus! {

/// A static `require("...")` call site.
#[derive(Debug, PartialEq, Eq)]
pub struct RequireCall {
    /// Module name exactly as written, e.g. `"a.b.c"`; escape sequences are
    /// not unescaped.
    pub name: String,
    /// 1-based line of the `require` identifier.
    pub line: usize,
    /// 1-based column of the `require` identifier.
    pub column: usize,
}

/// All `require` calls found in one Lua source file.
#[derive(Debug, PartialEq, Eq)]
pub struct FileRequires {
    pub static_requires: Vec<RequireCall>,
    /// `(line, column)` of `require(expr)` calls whose argument is not a
    /// string literal.
    pub dynamic_requires: Vec<(usize, usize)>,
}

pub struct RequiresView {
    pub static_requires: Seq<(Seq<char>, usize, usize)>,
    pub dynamic_requires: Seq<(usize, usize)>,
}

impl View for FileRequires {
    type V = RequiresView;

    open spec fn view(&self) -> RequiresView {
        RequiresView {
            static_requires: self.static_requires@.map_values(
                |r: RequireCall| (r.name@, r.line, r.column),
            ),
            dynamic_requires: self.dynamic_requires@,
        }
    }
}

/// Whether `t` is the identifier `name`.
pub open spec fn is_ident(t: Tok, name: Seq<char>) -> bool {
    t.kind == TokKind::Identifier && t.text@ == name
}

/// The string-literal text of `t`, if it is a string literal.
pub open spec fn literal_of(t: Tok) -> Option<Seq<char>> {
    if t.kind == TokKind::StringLiteral {
        Some(t.text@)
    } else {
        None
    }
}

/// What a call `require args` contributes: a static site, a dynamic site,
/// or nothing.
pub open spec fn require_site(prefix: PrefixExpr, args: Arguments) -> Option<Result<Seq<char>, ()>> {
    match prefix {
        PrefixExpr::Name(t) => if is_ident(t, "require"@) {
            match args {
                Arguments::String(s) => match literal_of(s) {
                    Some(name) => Some(Ok(name)),
                    None => None,
                },
                Arguments::Parentheses(es) => if es@.len() > 0 && es@[0] is String {
                    match es@[0] {
                        Expr::String(s) => match literal_of(s) {
                            Some(name) => Some(Ok(name)),
                            None => None,
                        },
                        _ => None,
                    }
                } else {
                    Some(Err(()))
                },
                Arguments::Table(_) => Some(Err(())),
            }
        } else {
            None
        },
        _ => None,
    }
}

/// Only the first suffix belongs to the prefix: later suffixes, as in
/// `require("a").setup({})`, call methods on the result.
pub open spec fn require_step(r: RequiresView, e: Event) -> RequiresView {
    match e {
        Event::Call(c) => if c.suffixes@.len() > 0 && c.suffixes@[0] is Call {
            match c.suffixes@[0] {
                Postfix::Call(CallKind::Anonymous(args)) => match c.prefix {
                    PrefixExpr::Name(t) => match require_site(c.prefix, args) {
                        Some(Ok(name)) => RequiresView {
                            static_requires: r.static_requires.push(
                                (name, t.start.line, t.start.column),
                            ),
                            ..r
                        },
                        Some(Err(())) => RequiresView {
                            dynamic_requires: r.dynamic_requires.push(
                                (t.start.line, t.start.column),
                            ),
                            ..r
                        },
                        None => r,
                    },
                    _ => r,
                },
                _ => r,
            }
        } else {
            r
        },
        _ => r,
    }
}

pub open spec fn fold_requires(evs: Seq<Event>) -> RequiresView
    decreases evs.len(),
{
    if evs.len() == 0 {
        RequiresView { static_requires: Seq::empty(), dynamic_requires: Seq::empty() }
    } else {
        require_step(fold_requires(evs.drop_last()), evs.last())
    }
}

/// The `require` sites of a chunk, in walk order.
pub open spec fn requires_of(c: &Chunk) -> RequiresView {
    fold_requires(ev_chunk(c))
}

/// Whether `t` is the identifier `name`.
pub fn is_ident_exec(t: &Tok, name: &str) -> (r: bool)
    ensures
        r == is_ident(*t, name@),
{
    match t.kind {
        TokKind::Identifier => t.text == owned(name),
        _ => false,
    }
}

pub fn literal_exec(t: &Tok) -> (r: Option<String>)
    ensures
        match r {
            Some(s) => literal_of(*t) == Some(s@),
            None => literal_of(*t) is None,
        },
{
    match t.kind {
        TokKind::StringLiteral => Some(t.text.clone()),
        _ => None,
    }
}

fn require_site_exec(prefix: &PrefixExpr, args: &Arguments) -> (r: Option<Result<String, ()>>)
    ensures
        match r {
            Some(Ok(s)) => require_site(*prefix, *args) == Some(Ok::<Seq<char>, ()>(s@)),
            Some(Err(())) => require_site(*prefix, *args) == Some(Err::<Seq<char>, ()>(())),
            None => require_site(*prefix, *args) is None,
        },
{
    let t = match prefix {
        PrefixExpr::Name(t) => t,
        _ => return None,
    };
    if !is_ident_exec(t, "require") {
        return None;
    }
    match args {
        Arguments::String(s) => match literal_exec(s) {
            Some(name) => Some(Ok(name)),
            None => None,
        },
        Arguments::Parentheses(es) => {
            if es.len() > 0 {
                match &es[0] {
                    Expr::String(s) => {
                        return match literal_exec(s) {
                            Some(name) => Some(Ok(name)),
                            None => None,
                        };
                    },
                    _ => {},
                }
            }
            Some(Err(()))
        },
        Arguments::Table(_) => Some(Err(())),
    }
}

fn require_step_exec(r: &mut FileRequires, e: &Event)
    ensures
        final(r)@ == require_step(old(r)@, *e),
{
    let c: &CallExpr = match e {
        Event::Call(c) => c,
        _ => return,
    };
    if c.suffixes.len() == 0 {
        return;
    }
    let args = match &c.suffixes[0] {
        Postfix::Call(CallKind::Anonymous(args)) => args,
        _ => return,
    };
    let t = match &c.prefix {
        PrefixExpr::Name(t) => t,
        _ => return,
    };
    match require_site_exec(&c.prefix, args) {
        Some(Ok(name)) => {
            let ghost before = r@;
            r.static_requires.push(RequireCall { name, line: t.start.line, column: t.start.column });
            assert(r@.static_requires =~= before.static_requires.push(
                (name@, t.start.line, t.start.column),
            ));
        },
        Some(Err(())) => {
            r.dynamic_requires.push((t.start.line, t.start.column));
        },
        None => {},
    }
}

/// Extract all `require` calls from a parsed chunk.
///
/// Static requires (string-literal argument: `require("m")`, `require "m"`,
/// `require[[m]]`) are recorded with the 1-based position of the `require`
/// identifier. Requires with any other argument are recorded as dynamic.
pub fn chunk_requires(chunk: &Chunk) -> (r: FileRequires)
    ensures
        r@ == requires_of(chunk),
{
    let events = chunk_events(chunk);
    let mut r = FileRequires { static_requires: Vec::new(), dynamic_requires: Vec::new() };
    let n = events.len();
    let mut i: usize = 0;
    assert(r@.static_requires =~= Seq::<(Seq<char>, usize, usize)>::empty());
    assert(events@.take(0) =~= Seq::<Event>::empty());
    while i < n
        invariant
            n == events@.len(),
            i <= n,
            r@ == fold_requires(events@.take(i as int)),
        decreases n - i,
    {
        assert(events@.take(i + 1).drop_last() =~= events@.take(i as int));
        require_step_exec(&mut r, &events[i]);
        i = i + 1;
    }
    assert(events@.take(n as int) =~= events@);
    r
}

/// The first of a parse's errors.
pub open spec fn first_error(es: Seq<Seq<char>>) -> Seq<char> {
    if es.len() > 0 {
        es[0]
    } else {
        Seq::empty()
    }
}

/// Every `require` call of Lua source text, or the first parse error when
/// the text does not parse.
pub fn extract_requires(source: &str) -> (r: Result<FileRequires, String>)
    ensures
        match crate::parse::lua_parse(source@) {
            Ok(p) => r matches Ok(f) && f@ == requires_of(&p.0),
            Err(es) => r matches Err(e) && e@ == first_error(es),
        },
{
    match crate::parse::parse_source(source) {
        Ok(p) => Ok(chunk_requires(&p.0)),
        Err(es) => {
            let first = es[0].clone();
            Err(first)
        },
    }
}


/// A `require(...)` call whose first argument is anything but a string
/// literal (a variable, a concatenation, a call, a table, no argument at
/// all, ...) is a dynamic require, and so is `require { ... }`.
pub proof fn lemma_non_literal_require_is_dynamic(t: Tok, args: Arguments)
    requires
        is_ident(t, "require"@),
        match args {
            Arguments::Parentheses(es) => !(es@.len() > 0 && es@[0] is String),
            Arguments::Table(_) => true,
            Arguments::String(_) => false,
        },
    ensures
        require_site(PrefixExpr::Name(t), args) == Some(Err::<Seq<char>, ()>(())),
{
}

/// A `require` call with a string-literal argument, in either call form,
/// is a static require of that name.
pub proof fn lemma_literal_require_is_static(t: Tok, args: Arguments, lit: Tok, name: Seq<char>)
    requires
        is_ident(t, "require"@),
        literal_of(lit) == Some(name),
        match args {
            Arguments::Parentheses(es) => es@.len() > 0 && es@[0] == Expr::String(lit),
            Arguments::String(s) => s == lit,
            Arguments::Table(_) => false,
        },
    ensures
        require_site(PrefixExpr::Name(t), args) == Some(Ok::<Seq<char>, ()>(name)),
{
}

/// Each `require` call that is not a string-literal require adds one
/// dynamic site, at the `require` token, and no static one.
pub proof fn lemma_dynamic_require_recorded(r: RequiresView, c: &CallExpr, t: Tok, args: Arguments)
    requires
        c.prefix == PrefixExpr::Name(t),
        c.suffixes@.len() > 0,
        c.suffixes@[0] == Postfix::Call(CallKind::Anonymous(args)),
        is_ident(t, "require"@),
        match args {
            Arguments::Parentheses(es) => !(es@.len() > 0 && es@[0] is String),
            Arguments::Table(_) => true,
            Arguments::String(_) => false,
        },
    ensures
        require_step(r, Event::Call(c)).dynamic_requires == r.dynamic_requires.push(
            (t.start.line, t.start.column),
        ),
        require_step(r, Event::Call(c)).static_requires == r.static_requires,
{
    lemma_non_literal_require_is_dynamic(t, args);
}

} // verus!
