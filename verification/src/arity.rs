//! Return arity of function bodies.

use vstd::prelude::*;
use crate::syntax::{LuaBlock, Event, Expr, FuncBody, FinalStmt, Tok, TokKind, block_events, ev_block};
use crate::text::owned;

verus! {

/// Nesting depths and the verdict of the nested-return search.
pub struct NestState {
    pub block_depth: nat,
    pub function_depth: nat,
    pub found: bool,
}

pub open spec fn dec(n: nat) -> nat {
    if n > 0 {
        (n - 1) as nat
    } else {
        0
    }
}

pub open spec fn nest_step(s: NestState, e: Event) -> NestState {
    match e {
        Event::FuncBody(_) => NestState { function_depth: s.function_depth + 1, ..s },
        Event::FuncBodyEnd(_) => NestState { function_depth: dec(s.function_depth), ..s },
        Event::If(_) | Event::While(_) | Event::Repeat(_) | Event::NumericFor(_)
        | Event::GenericFor(_) | Event::Do(_) => NestState { block_depth: s.block_depth + 1, ..s },
        Event::IfEnd(_) | Event::WhileEnd(_) | Event::RepeatEnd(_) | Event::NumericForEnd(_)
        | Event::GenericForEnd(_) | Event::DoEnd(_) => NestState {
            block_depth: dec(s.block_depth),
            ..s
        },
        Event::Return(_) => if s.function_depth == 0 && s.block_depth > 0 {
            NestState { found: true, ..s }
        } else {
            s
        },
        _ => s,
    }
}

pub open spec fn fold_nest(evs: Seq<Event>) -> NestState
    decreases evs.len(),
{
    if evs.len() == 0 {
        NestState { block_depth: 0, function_depth: 0, found: false }
    } else {
        nest_step(fold_nest(evs.drop_last()), evs.last())
    }
}

/// Whether `block` has a `return` inside a nested `if`, loop or `do`
/// block, not counting returns inside nested function bodies.
pub open spec fn nested_returns(b: &LuaBlock) -> bool {
    fold_nest(ev_block(b)).found
}

/// Whether `t` is the `...` symbol.
pub open spec fn is_vararg(t: Tok) -> bool {
    t.kind == TokKind::Symbol && t.text@ == "..."@
}

/// Return arity of a function body, or None when unknown: conditional or
/// nested returns, a tail call (`return f()`), or varargs in the return
/// list all make the arity unknowable to this analysis.
pub open spec fn return_arity(body: &FuncBody) -> Option<nat> {
    if nested_returns(&body.block) {
        None
    } else {
        match body.block.last {
            Some(FinalStmt::Return(es)) => if es@.len() == 0 {
                Some(0)
            } else {
                match es@.last() {
                    Expr::Call(_) => None,
                    Expr::Symbol(t) => if is_vararg(t) {
                        None
                    } else {
                        Some(es@.len())
                    },
                    _ => Some(es@.len()),
                }
            },
            _ => Some(0),
        }
    }
}

pub fn is_vararg_exec(t: &Tok) -> (r: bool)
    ensures
        r == is_vararg(*t),
{
    match t.kind {
        TokKind::Symbol => t.text == owned("..."),
        _ => false,
    }
}

pub fn has_nested_returns(b: &LuaBlock) -> (r: bool)
    ensures
        r == nested_returns(b),
{
    let events = block_events(b);
    let n = events.len();
    let mut block_depth: usize = 0;
    let mut function_depth: usize = 0;
    let mut found = false;
    let mut i: usize = 0;
    assert(events@.take(0) =~= Seq::<Event>::empty());
    while i < n
        invariant
            n == events@.len(),
            i <= n,
            block_depth <= i,
            function_depth <= i,
            fold_nest(events@.take(i as int)) == (NestState {
                block_depth: block_depth as nat,
                function_depth: function_depth as nat,
                found,
            }),
        decreases n - i,
    {
        assert(events@.take(i + 1).drop_last() =~= events@.take(i as int));
        match &events[i] {
            Event::FuncBody(_) => {
                function_depth = function_depth + 1;
            },
            Event::FuncBodyEnd(_) => {
                if function_depth > 0 {
                    function_depth = function_depth - 1;
                }
            },
            Event::If(_) | Event::While(_) | Event::Repeat(_) | Event::NumericFor(_)
            | Event::GenericFor(_) | Event::Do(_) => {
                block_depth = block_depth + 1;
            },
            Event::IfEnd(_) | Event::WhileEnd(_) | Event::RepeatEnd(_) | Event::NumericForEnd(_)
            | Event::GenericForEnd(_) | Event::DoEnd(_) => {
                if block_depth > 0 {
                    block_depth = block_depth - 1;
                }
            },
            Event::Return(_) => {
                if function_depth == 0 && block_depth > 0 {
                    found = true;
                }
            },
            _ => {},
        }
        i = i + 1;
    }
    assert(events@.take(n as int) =~= events@);
    found
}

/// The return arity of `body`, when known.
pub fn return_arity_exec(body: &FuncBody) -> (r: Option<usize>)
    ensures
        match r {
            Some(a) => return_arity(body) == Some(a as nat),
            None => return_arity(body) is None,
        },
{
    if has_nested_returns(&body.block) {
        return None;
    }
    match &body.block.last {
        Some(FinalStmt::Return(es)) => {
            let n = es.len();
            if n == 0 {
                return Some(0);
            }
            match &es[n - 1] {
                Expr::Call(_) => None,
                Expr::Symbol(t) => if is_vararg_exec(t) {
                    None
                } else {
                    Some(n)
                },
                _ => Some(n),
            }
        },
        _ => Some(0),
    }
}


// ---- what the arity depends on ----

/// Whether event `i` is a `return` met inside a nested `if`, loop or `do`
/// block and outside every nested function body.
pub open spec fn nested_return_at(evs: Seq<Event>, i: int) -> bool {
    &&& 0 <= i < evs.len()
    &&& evs[i] is Return
    &&& fold_nest(evs.take(i)).function_depth == 0
    &&& fold_nest(evs.take(i)).block_depth > 0
}

/// The nested-return search finds exactly the returns met inside a nested
/// block and outside nested function bodies: it reports one when some
/// event is such a return, and only then.
pub proof fn lemma_nested_returns_exactly(evs: Seq<Event>)
    ensures
        fold_nest(evs).found <==> exists|i: int| #[trigger] nested_return_at(evs, i),
    decreases evs.len(),
{
    if evs.len() > 0 {
        let d = evs.drop_last();
        let n = evs.len() - 1;
        lemma_nested_returns_exactly(d);
        assert(evs.take(n) =~= d);
        assert forall|i: int| 0 <= i < n implies #[trigger] nested_return_at(evs, i) == nested_return_at(d, i) by {
            assert(evs.take(i) =~= d.take(i));
            assert(evs[i] == d[i]);
        }
        if fold_nest(evs).found {
            if fold_nest(d).found {
                let i = choose|i: int| #[trigger] nested_return_at(d, i);
                assert(nested_return_at(evs, i));
            } else {
                assert(nested_return_at(evs, n));
            }
        }
        if exists|i: int| #[trigger] nested_return_at(evs, i) {
            let i = choose|i: int| #[trigger] nested_return_at(evs, i);
            if i < n {
                assert(nested_return_at(d, i));
            }
        }
    }
}

/// The return arity of a body: unknown with a nested return; otherwise 0
/// without a final `return` or with an empty one; unknown when the last
/// returned value is a call or `...`; else the number of returned values.
pub proof fn lemma_return_arity_cases(body: &FuncBody)
    ensures
        nested_returns(&body.block) ==> return_arity(body) is None,
        !nested_returns(&body.block) ==> return_arity(body) == match body.block.last {
            Some(FinalStmt::Return(es)) => if es@.len() == 0 {
                Some(0nat)
            } else if es@.last() is Call || (es@.last() matches Expr::Symbol(t) && is_vararg(t)) {
                None
            } else {
                Some(es@.len())
            },
            _ => Some(0nat),
        },
{
}

} // verus!
