//! Sequence heuristics: zero-based indexing, off-by-one loops, sparse
//! arrays, and ambiguous `#t`. Each diagnostic requires positive, same-file
//! evidence of sequence intent: no evidence, no warning.

use vstd::prelude::*;
use crate::assoc::{
    keys_of, lemma_vappend_get, lemma_vhas_push, multi_push, multi_view, vappend, vget, vhas,
};
use crate::classes::contains_str;
use crate::diagnostic::{
    Diagnostic, DiagnosticKind, DiagnosticView, all_in_file, diag_at, diags_view, lemma_of_kind_all,
    lemma_of_kind_add, lemma_of_kind_none, of_kind,
};
use crate::exports::{ident, ident_exec, ident_is};
use crate::shapes::{get_index, strs_view};
use crate::syntax::{
    BinaryOp, CallKind, Chunk, Event, Expr, TableField, Arguments, IndexKind, Pos, PrefixExpr, Postfix, TokKind,
    UnaryOp, Place, chunk_events, ev_chunk,
};
use crate::text::{concat, decimal, owned, i64_text, signed_decimal};

verus! {

#[derive(Debug, Clone, Copy, PartialEq, Eq, Structural)]
pub enum OffByOne {
    StartsAtZero,
    MissesLast,
}

pub open spec fn is_digit(c: char) -> bool {
    '0' <= c && c <= '9'
}

/// Value of a string of decimal digits.
pub open spec fn digits_value(s: Seq<char>) -> int
    decreases s.len(),
{
    if s.len() == 0 {
        0
    } else {
        digits_value(s.drop_last()) * 10 + ((s.last() as u32) - ('0' as u32))
    }
}

/// A plain decimal integer literal that fits in `i64` (hex and float
/// literals have no value here).
pub open spec fn number_value(e: Expr) -> Option<int> {
    match e {
        Expr::Number(t) => if t.kind == TokKind::Number && t.text@.len() > 0 && (forall|i: int|
            0 <= i < t.text@.len() ==> is_digit(#[trigger] t.text@[i])) && digits_value(t.text@)
            <= i64::MAX {
            Some(digits_value(t.text@))
        } else {
            None
        },
        _ => None,
    }
}

/// 1-based position of a simple expression's token.
pub open spec fn expression_position(e: Expr) -> Option<(usize, usize)> {
    match e {
        Expr::Number(t) => Some((t.start.line, t.start.column)),
        Expr::String(t) => Some((t.start.line, t.start.column)),
        Expr::Symbol(t) => Some((t.start.line, t.start.column)),
        Expr::Var(Place::Name(t)) => Some((t.start.line, t.start.column)),
        _ => None,
    }
}

/// The name of a plain variable reference.
pub open spec fn variable_name(e: Expr) -> Option<Seq<char>> {
    match e {
        Expr::Var(Place::Name(t)) => ident(t),
        _ => None,
    }
}

/// The table of `#name`.
pub open spec fn length_target(e: Expr) -> Option<Seq<char>> {
    match e {
        Expr::Unary { op: UnaryOp::Hash, operand, .. } => variable_name(*operand),
        _ => None,
    }
}

/// `#t + 1`, the idiomatic append index, for `table`.
pub open spec fn is_append(e: Expr, table: Seq<char>) -> bool {
    match e {
        Expr::Binary { lhs, op: BinaryOp::Plus, rhs, .. } => number_value(*rhs) == Some(1int)
            && length_target(*lhs) == Some(table),
        _ => false,
    }
}

/// `name[expr]`: the table name, the index expression, and the position of
/// the `[`.
pub open spec fn bracket_index(v: Place) -> Option<(Seq<char>, Expr, Pos)> {
    match v {
        Place::Expression(ve) => match ve.prefix {
            PrefixExpr::Name(p) => match ident(p) {
                Some(table) => if ve.suffixes@.len() > 0 {
                    match ve.suffixes@[0] {
                        Postfix::Index(IndexKind::Brackets { open, expr }) => Some((table, expr, open.start)),
                        _ => None,
                    }
                } else {
                    None
                },
                None => None,
            },
            _ => None,
        },
        _ => None,
    }
}

/// A call's first argument when it is a plain variable: its name and
/// position.
pub open spec fn first_call_arg(s: Postfix) -> Option<(Seq<char>, usize, usize)> {
    match s {
        Postfix::Call(CallKind::Anonymous(Arguments::Parentheses(args))) => if args@.len() > 0 {
            match (variable_name(args@[0]), expression_position(args@[0])) {
                (Some(n), Some(p)) => Some((n, p.0, p.1)),
                _ => None,
            }
        } else {
            None
        },
        _ => None,
    }
}

/// Everything the walk has gathered.
pub struct SeqState {
    /// Numeric-`for` variables in scope, innermost last.
    pub loop_vars: Seq<Seq<char>>,
    /// Tables with observed sequence intent, with the first evidence.
    pub intent: Seq<(Seq<char>, (usize, usize))>,
    /// `t[0]` occurrences per table.
    pub zero_uses: Seq<(Seq<char>, Seq<(usize, usize)>)>,
    /// `#t` occurrences per table.
    pub length_uses: Seq<(Seq<char>, Seq<(usize, usize)>)>,
    /// Explicit integer keys per table: (key, line, column).
    pub explicit_keys: Seq<(Seq<char>, Seq<(i64, usize, usize)>)>,
    /// (loop variable, table, line, column, kind).
    pub off_by_one: Seq<(Seq<char>, Seq<char>, usize, usize, OffByOne)>,
}

pub open spec fn add_intent(s: SeqState, table: Seq<char>, line: usize, column: usize) -> SeqState {
    if vhas(s.intent, table) {
        s
    } else {
        SeqState { intent: s.intent.push((table, (line, column))), ..s }
    }
}

pub open spec fn table_fields(fields: Seq<TableField>, name: Seq<char>, s: SeqState) -> (SeqState, bool)
    decreases fields.len(),
{
    if fields.len() == 0 {
        (s, false)
    } else {
        let r = table_fields(fields.drop_last(), name, s);
        match fields.last() {
            TableField::NoKey(_) => (r.0, true),
            TableField::ExpressionKey { key, .. } => match (number_value(key), expression_position(key)) {
                (Some(k), Some(p)) => (
                    SeqState {
                        explicit_keys: vappend(r.0.explicit_keys, name, (k as i64, p.0, p.1)),
                        ..r.0
                    },
                    r.1,
                ),
                _ => r,
            },
            _ => r,
        }
    }
}

pub open spec fn local_pairs(names: Seq<crate::syntax::Tok>, exprs: Seq<Expr>, k: int, s: SeqState) -> SeqState
    decreases k,
{
    if k <= 0 {
        s
    } else {
        let s1 = local_pairs(names, exprs, k - 1, s);
        match (ident(names[k - 1]), exprs[k - 1]) {
            (Some(name), Expr::Table(t)) => {
                let r = table_fields(t.fields@, name, s1);
                if r.1 {
                    add_intent(r.0, name, names[k - 1].start.line, names[k - 1].start.column)
                } else {
                    r.0
                }
            },
            _ => s1,
        }
    }
}

pub open spec fn assign_keys(vars: Seq<Place>, s: SeqState) -> SeqState
    decreases vars.len(),
{
    if vars.len() == 0 {
        s
    } else {
        let s1 = assign_keys(vars.drop_last(), s);
        match bracket_index(vars.last()) {
            Some((table, idx, pos)) => match number_value(idx) {
                Some(k) => SeqState {
                    explicit_keys: vappend(s1.explicit_keys, table, (k as i64, pos.line, pos.column)),
                    ..s1
                },
                None => s1,
            },
            None => s1,
        }
    }
}

pub open spec fn var_step(s: SeqState, v: Place) -> SeqState {
    match bracket_index(v) {
        Some((table, idx, pos)) => {
            let (line, column) = (pos.line, pos.column);
            let s1 = if number_value(idx) == Some(0int) {
                SeqState { zero_uses: vappend(s.zero_uses, table, (line, column)), ..s }
            } else {
                s
            };
            let s2 = if number_value(idx) == Some(1int) {
                add_intent(s1, table, line, column)
            } else {
                s1
            };
            let s3 = match variable_name(idx) {
                Some(n) => if s2.loop_vars.contains(n) {
                    add_intent(s2, table, line, column)
                } else {
                    s2
                },
                None => s2,
            };
            if is_append(idx, table) {
                add_intent(s3, table, line, column)
            } else {
                s3
            }
        },
        None => s,
    }
}

pub open spec fn numeric_for_step(s: SeqState, f: crate::syntax::ForRange) -> SeqState {
    match ident(f.var) {
        None => s,
        Some(var) => {
            let s1 = SeqState { loop_vars: s.loop_vars.push(var), ..s };
            let (line, column) = (f.var.start.line, f.var.start.column);
            if number_value(f.start) == Some(0int) && length_target(f.end) is Some {
                SeqState {
                    off_by_one: s1.off_by_one.push(
                        (var, length_target(f.end)->0, line, column, OffByOne::StartsAtZero),
                    ),
                    ..s1
                }
            } else if number_value(f.start) == Some(1int) {
                match f.end {
                    Expr::Binary { lhs, op: BinaryOp::Minus, rhs, .. } => if number_value(*rhs) == Some(
                        1int,
                    ) && length_target(*lhs) is Some {
                        SeqState {
                            off_by_one: s1.off_by_one.push(
                                (var, length_target(*lhs)->0, line, column, OffByOne::MissesLast),
                            ),
                            ..s1
                        }
                    } else {
                        s1
                    },
                    _ => s1,
                }
            } else {
                s1
            }
        },
    }
}

pub open spec fn call_step(s: SeqState, c: crate::syntax::CallExpr) -> SeqState {
    match c.prefix {
        PrefixExpr::Name(p) => match ident(p) {
            Some(name) => if name == "ipairs"@ {
                if c.suffixes@.len() > 0 {
                    match first_call_arg(c.suffixes@[0]) {
                        Some((t, l, col)) => add_intent(s, t, l, col),
                        None => s,
                    }
                } else {
                    s
                }
            } else if name == "table"@ {
                if c.suffixes@.len() > 1 {
                    match c.suffixes@[0] {
                        Postfix::Index(IndexKind::Dot { name: m }) => if ident(m) == Some("insert"@) {
                            match first_call_arg(c.suffixes@[1]) {
                                Some((t, l, col)) => add_intent(s, t, l, col),
                                None => s,
                            }
                        } else {
                            s
                        },
                        _ => s,
                    }
                } else {
                    s
                }
            } else {
                s
            },
            None => s,
        },
        _ => s,
    }
}

pub open spec fn sequence_step(s: SeqState, e: Event) -> SeqState {
    match e {
        Event::LocalAssign(l) => local_pairs(
            l.names@,
            l.exprs@,
            crate::exports::min(l.names@.len() as int, l.exprs@.len() as int),
            s,
        ),
        Event::Assign(a) => assign_keys(a.vars@, s),
        Event::Var(v) => var_step(s, *v),
        Event::Expr(e) => match *e {
            Expr::Unary { op: UnaryOp::Hash, op_tok, operand } => match variable_name(*operand) {
                Some(name) => add_intent(
                    SeqState {
                        length_uses: vappend(
                            s.length_uses,
                            name,
                            (op_tok.start.line, op_tok.start.column),
                        ),
                        ..s
                    },
                    name,
                    op_tok.start.line,
                    op_tok.start.column,
                ),
                None => s,
            },
            _ => s,
        },
        Event::NumericFor(f) => numeric_for_step(s, *f),
        Event::NumericForEnd(_) => SeqState {
            loop_vars: if s.loop_vars.len() > 0 {
                s.loop_vars.drop_last()
            } else {
                s.loop_vars
            },
            ..s
        },
        Event::Call(c) => call_step(s, *c),
        _ => s,
    }
}

pub open spec fn empty_seq_state() -> SeqState {
    SeqState {
        loop_vars: Seq::empty(),
        intent: Seq::empty(),
        zero_uses: Seq::empty(),
        length_uses: Seq::empty(),
        explicit_keys: Seq::empty(),
        off_by_one: Seq::empty(),
    }
}

pub open spec fn fold_sequence(evs: Seq<Event>) -> SeqState
    decreases evs.len(),
{
    if evs.len() == 0 {
        empty_seq_state()
    } else {
        sequence_step(fold_sequence(evs.drop_last()), evs.last())
    }
}

// ---- turning the gathered facts into diagnostics ----

/// Insert `x` after every element whose key is not greater (stable).
pub open spec fn insert_by_key(sorted: Seq<(i64, usize, usize)>, x: (i64, usize, usize)) -> Seq<(i64, usize, usize)>
    decreases sorted.len(),
{
    if sorted.len() == 0 {
        seq![x]
    } else if sorted.last().0 <= x.0 {
        sorted.push(x)
    } else {
        insert_by_key(sorted.drop_last(), x).push(sorted.last())
    }
}

/// Stable sort by key (`sort_by_key`).
pub open spec fn sort_by_key(s: Seq<(i64, usize, usize)>) -> Seq<(i64, usize, usize)>
    decreases s.len(),
{
    if s.len() == 0 {
        Seq::empty()
    } else {
        insert_by_key(sort_by_key(s.drop_last()), s.last())
    }
}

pub open spec fn zero_index_message(table: Seq<char>) -> Seq<char> {
    "zero-based index `"@ + table + "[0]` on sequence-like table `"@ + table + "`"@
}

pub open spec fn length_message(table: Seq<char>) -> Seq<char> {
    "`#"@ + table + "` on a table with holes has an implementation-defined result"@
}

pub open spec fn zero_messages(
    table: Seq<char>,
    uses: Seq<(usize, usize)>,
    path: Seq<char>,
) -> Seq<DiagnosticView>
    decreases uses.len(),
{
    if uses.len() == 0 {
        Seq::empty()
    } else {
        zero_messages(table, uses.drop_last(), path).push(
            diag_at(
                DiagnosticKind::ZeroIndexAccess,
                zero_index_message(table),
                path,
                uses.last().0,
                uses.last().1,
            ),
        )
    }
}

/// `t[0]` uses on tables with sequence intent.
pub open spec fn zero_diags(
    zs: Seq<(Seq<char>, Seq<(usize, usize)>)>,
    intent: Seq<(Seq<char>, (usize, usize))>,
    path: Seq<char>,
) -> Seq<DiagnosticView>
    decreases zs.len(),
{
    if zs.len() == 0 {
        Seq::empty()
    } else {
        zero_diags(zs.drop_last(), intent, path) + if vhas(intent, zs.last().0) {
            zero_messages(zs.last().0, zs.last().1, path)
        } else {
            Seq::empty()
        }
    }
}

/// Whether the key after `prev` leaves a hole before `cur`.
pub open spec fn is_gap(prev: i64, cur: i64) -> bool {
    prev < i64::MAX && cur > prev + 1
}

pub open spec fn sparse_message(table: Seq<char>, cur: i64, prev: i64) -> Seq<char> {
    "sparse array `"@ + table + "`: key "@ + signed_decimal(cur as int) + " leaves a hole after key "@
        + signed_decimal(prev as int)
}

/// Gaps between consecutive sorted keys, the first `k` pairs.
pub open spec fn gap_diags(
    table: Seq<char>,
    sorted: Seq<(i64, usize, usize)>,
    k: int,
    path: Seq<char>,
) -> Seq<DiagnosticView>
    decreases k,
{
    if k <= 0 {
        Seq::empty()
    } else {
        let prev = sorted[k - 1];
        let cur = sorted[k];
        gap_diags(table, sorted, k - 1, path) + if is_gap(prev.0, cur.0) {
            seq![
                diag_at(
                    DiagnosticKind::SparseArray,
                    sparse_message(table, cur.0, prev.0),
                    path,
                    cur.1,
                    cur.2,
                ),
            ]
        } else {
            Seq::<DiagnosticView>::empty()
        }
    }
}

pub open spec fn has_gap(sorted: Seq<(i64, usize, usize)>) -> bool {
    exists|k: int| 0 < k < sorted.len() && #[trigger] is_gap(sorted[k - 1].0, sorted[k].0)
}

pub open spec fn pair_count(sorted: Seq<(i64, usize, usize)>) -> int {
    if sorted.len() == 0 {
        0
    } else {
        sorted.len() - 1
    }
}

/// Sparse-array diagnostics, per table in first-key order.
pub open spec fn sparse_diags(
    ks: Seq<(Seq<char>, Seq<(i64, usize, usize)>)>,
    path: Seq<char>,
) -> Seq<DiagnosticView>
    decreases ks.len(),
{
    if ks.len() == 0 {
        Seq::empty()
    } else {
        let sorted = sort_by_key(ks.last().1);
        sparse_diags(ks.drop_last(), path) + gap_diags(ks.last().0, sorted, pair_count(sorted), path)
    }
}

/// Whether the explicit keys recorded for `table` leave a hole.
pub open spec fn has_holes(ks: Seq<(Seq<char>, Seq<(i64, usize, usize)>)>, table: Seq<char>) -> bool {
    match vget(ks, table) {
        Some(keys) => has_gap(sort_by_key(keys)),
        None => false,
    }
}

pub open spec fn length_messages(table: Seq<char>, uses: Seq<(usize, usize)>, path: Seq<char>) -> Seq<DiagnosticView>
    decreases uses.len(),
{
    if uses.len() == 0 {
        Seq::empty()
    } else {
        length_messages(table, uses.drop_last(), path).push(
            diag_at(
                DiagnosticKind::AmbiguousLength,
                length_message(table),
                path,
                uses.last().0,
                uses.last().1,
            ),
        )
    }
}

/// `#t` uses on tables known to have holes.
pub open spec fn length_diags(
    ls: Seq<(Seq<char>, Seq<(usize, usize)>)>,
    ks: Seq<(Seq<char>, Seq<(i64, usize, usize)>)>,
    path: Seq<char>,
) -> Seq<DiagnosticView>
    decreases ls.len(),
{
    if ls.len() == 0 {
        Seq::empty()
    } else {
        length_diags(ls.drop_last(), ks, path) + if has_holes(ks, ls.last().0) {
            length_messages(ls.last().0, ls.last().1, path)
        } else {
            Seq::empty()
        }
    }
}

pub open spec fn off_by_one_message(var: Seq<char>, table: Seq<char>, kind: OffByOne) -> Seq<char> {
    match kind {
        OffByOne::StartsAtZero => "loop `for "@ + var + " = 0, #"@ + table
            + "` starts at 0; Lua sequences start at 1"@,
        OffByOne::MissesLast => "loop `for "@ + var + " = 1, #"@ + table
            + " - 1` skips the last element"@,
    }
}

pub open spec fn off_by_one_diags(
    os: Seq<(Seq<char>, Seq<char>, usize, usize, OffByOne)>,
    path: Seq<char>,
) -> Seq<DiagnosticView> {
    os.map_values(
        |o: (Seq<char>, Seq<char>, usize, usize, OffByOne)|
            diag_at(DiagnosticKind::OffByOneLoop, off_by_one_message(o.0, o.1, o.4), path, o.2, o.3),
    )
}

/// All sequence diagnostics: zero-based indexing, then sparse arrays, then
/// ambiguous lengths, then off-by-one loops.
pub open spec fn into_diagnostics(s: SeqState, path: Seq<char>) -> Seq<DiagnosticView> {
    zero_diags(s.zero_uses, s.intent, path) + sparse_diags(s.explicit_keys, path) + length_diags(
        s.length_uses,
        s.explicit_keys,
        path,
    ) + off_by_one_diags(s.off_by_one, path)
}

/// The sequence diagnostics of one file.
pub open spec fn sequence_diagnostics(c: &Chunk, path: Seq<char>) -> Seq<DiagnosticView> {
    into_diagnostics(fold_sequence(ev_chunk(c)), path)
}


// ---- executable ----

/// The facts gathered by a walk, in executable form.
pub struct SequenceVisitor {
    loop_vars: Vec<String>,
    intent: Vec<(String, (usize, usize))>,
    zero_uses: Vec<(String, Vec<(usize, usize)>)>,
    length_uses: Vec<(String, Vec<(usize, usize)>)>,
    explicit_keys: Vec<(String, Vec<(i64, usize, usize)>)>,
    off_by_one: Vec<(String, String, usize, usize, OffByOne)>,
}

pub open spec fn intent_view(v: Seq<(String, (usize, usize))>) -> Seq<(Seq<char>, (usize, usize))> {
    v.map_values(|e: (String, (usize, usize))| (e.0@, e.1))
}

pub open spec fn obo_view(v: Seq<(String, String, usize, usize, OffByOne)>) -> Seq<(Seq<char>, Seq<char>, usize, usize, OffByOne)> {
    v.map_values(|e: (String, String, usize, usize, OffByOne)| (e.0@, e.1@, e.2, e.3, e.4))
}

impl View for SequenceVisitor {
    type V = SeqState;

    closed spec fn view(&self) -> SeqState {
        SeqState {
            loop_vars: strs_view(self.loop_vars@),
            intent: intent_view(self.intent@),
            zero_uses: multi_view(self.zero_uses@),
            length_uses: multi_view(self.length_uses@),
            explicit_keys: multi_view(self.explicit_keys@),
            off_by_one: obo_view(self.off_by_one@),
        }
    }
}

fn number_value_exec(e: &Expr) -> (r: Option<i64>)
    ensures
        r is Some ==> number_value(*e) == Some(r->0 as int),
        r is None ==> number_value(*e) is None,
{
    let t = match e {
        Expr::Number(t) => t,
        _ => return None,
    };
    match t.kind {
        TokKind::Number => {},
        _ => return None,
    }
    let text = t.text.as_str();
    let n = text.unicode_len();
    if n == 0 {
        return None;
    }
    let mut i: usize = 0;
    while i < n
        invariant
            n == text@.len(),
            text@ == t.text@,
            *e == Expr::Number(*t),
            t.kind == TokKind::Number,
            n > 0,
            i <= n,
            forall|j: int| 0 <= j < i ==> is_digit(#[trigger] text@[j]),
        decreases n - i,
    {
        let c = text.get_char(i);
        if !('0' <= c && c <= '9') {
            proof {
                assert(!is_digit(text@[i as int]));
                assert(!(forall|j: int| 0 <= j < t.text@.len() ==> is_digit(#[trigger] t.text@[j])));
            }
            return None;
        }
        i = i + 1;
    }
    let mut v: i64 = 0;
    let mut i: usize = 0;
    while i < n
        invariant
            n == text@.len(),
            text@ == t.text@,
            *e == Expr::Number(*t),
            t.kind == TokKind::Number,
            n > 0,
            i <= n,
            forall|j: int| 0 <= j < n ==> is_digit(#[trigger] text@[j]),
            v as int == digits_value(text@.take(i as int)),
            0 <= v,
        decreases n - i,
    {
        let c = text.get_char(i);
        assert(text@.take(i + 1).drop_last() =~= text@.take(i as int));
        assert(is_digit(text@[i as int]));
        let d = (c as u32 - '0' as u32) as i64;
        if v > (i64::MAX - d) / 10 {
            proof {
                let m = i64::MAX as int;
                assert(v * 10 + d > m) by (nonlinear_arith)
                    requires
                        v > (m - d) / 10,
                        0 <= d <= 9,
                ;
                assert(digits_value(text@.take(i + 1)) > i64::MAX);
                lemma_digits_grow(text@, i + 1, n as int);
                assert(text@.take(n as int) =~= text@);
                assert(digits_value(t.text@) > i64::MAX);
            }
            return None;
        }
        assert(v * 10 + d <= i64::MAX) by (nonlinear_arith)
            requires
                v <= (i64::MAX - d) / 10,
                0 <= d <= 9,
                0 <= v,
        ;
        v = v * 10 + d;
        i = i + 1;
    }
    assert(text@.take(n as int) =~= text@);
    Some(v)
}

proof fn lemma_digits_grow(s: Seq<char>, k: int, m: int)
    requires
        0 <= k <= m <= s.len(),
        forall|j: int| 0 <= j < m ==> is_digit(#[trigger] s[j]),
    ensures
        digits_value(s.take(k)) <= digits_value(s.take(m)),
    decreases m - k,
{
    if k < m {
        lemma_digits_grow(s, k + 1, m);
        assert(s.take(k + 1).drop_last() =~= s.take(k));
        lemma_digits_nonneg(s.take(k));
        assert(is_digit(s[k]));
    }
}

proof fn lemma_digits_nonneg(s: Seq<char>)
    requires
        forall|j: int| 0 <= j < s.len() ==> is_digit(#[trigger] s[j]),
    ensures
        digits_value(s) >= 0,
    decreases s.len(),
{
    if s.len() > 0 {
        lemma_digits_nonneg(s.drop_last());
        assert(is_digit(s[s.len() - 1]));
    }
}

fn expression_position_exec(e: &Expr) -> (r: Option<(usize, usize)>)
    ensures
        r == expression_position(*e),
{
    match e {
        Expr::Number(t) => Some((t.start.line, t.start.column)),
        Expr::String(t) => Some((t.start.line, t.start.column)),
        Expr::Symbol(t) => Some((t.start.line, t.start.column)),
        Expr::Var(Place::Name(t)) => Some((t.start.line, t.start.column)),
        _ => None,
    }
}

fn variable_name_exec(e: &Expr) -> (r: Option<String>)
    ensures
        crate::diagnostic::opt_str_view(r) == variable_name(*e),
{
    match e {
        Expr::Var(Place::Name(t)) => ident_exec(t),
        _ => None,
    }
}

fn length_target_exec(e: &Expr) -> (r: Option<String>)
    ensures
        crate::diagnostic::opt_str_view(r) == length_target(*e),
{
    match e {
        Expr::Unary { op: UnaryOp::Hash, operand, .. } => variable_name_exec(operand),
        _ => None,
    }
}

fn is_append_exec(e: &Expr, table: &String) -> (r: bool)
    ensures
        r == is_append(*e, table@),
{
    match e {
        Expr::Binary { lhs, op: BinaryOp::Plus, rhs, .. } => {
            match number_value_exec(rhs) {
                Some(1) => {},
                _ => return false,
            }
            match length_target_exec(lhs) {
                Some(n) => n == *table,
                None => false,
            }
        },
        _ => false,
    }
}

fn bracket_index_exec<'a>(v: &'a Place) -> (r: Option<(String, &'a Expr, Pos)>)
    ensures
        match r {
            Some((t, e, p)) => bracket_index(*v) == Some((t@, *e, p)),
            None => bracket_index(*v) is None,
        },
{
    let ve = match v {
        Place::Expression(ve) => ve,
        _ => return None,
    };
    let p = match &ve.prefix {
        PrefixExpr::Name(p) => p,
        _ => return None,
    };
    let table = match ident_exec(p) {
        Some(t) => t,
        None => return None,
    };
    if ve.suffixes.len() == 0 {
        return None;
    }
    match &ve.suffixes[0] {
        Postfix::Index(IndexKind::Brackets { open, expr }) => Some((table, expr, open.start)),
        _ => None,
    }
}

fn first_call_arg_exec(s: &Postfix) -> (r: Option<(String, usize, usize)>)
    ensures
        match r {
            Some((n, l, c)) => first_call_arg(*s) == Some((n@, l, c)),
            None => first_call_arg(*s) is None,
        },
{
    match s {
        Postfix::Call(CallKind::Anonymous(Arguments::Parentheses(args))) => {
            if args.len() == 0 {
                return None;
            }
            match (variable_name_exec(&args[0]), expression_position_exec(&args[0])) {
                (Some(n), Some(p)) => Some((n, p.0, p.1)),
                _ => None,
            }
        },
        _ => None,
    }
}

impl SequenceVisitor {
    fn new() -> (r: Self)
        ensures
            r@ == empty_seq_state(),
    {
        let r = SequenceVisitor {
            loop_vars: Vec::new(),
            intent: Vec::new(),
            zero_uses: Vec::new(),
            length_uses: Vec::new(),
            explicit_keys: Vec::new(),
            off_by_one: Vec::new(),
        };
        assert(r@.loop_vars =~= Seq::<Seq<char>>::empty());
        assert(r@.intent =~= Seq::<(Seq<char>, (usize, usize))>::empty());
        assert(r@.zero_uses =~= Seq::<(Seq<char>, Seq<(usize, usize)>)>::empty());
        assert(r@.length_uses =~= Seq::<(Seq<char>, Seq<(usize, usize)>)>::empty());
        assert(r@.explicit_keys =~= Seq::<(Seq<char>, Seq<(i64, usize, usize)>)>::empty());
        assert(r@.off_by_one =~= Seq::<(Seq<char>, Seq<char>, usize, usize, OffByOne)>::empty());
        r
    }

    /// Record sequence intent for `table`, keeping the first evidence.
    fn add_intent(&mut self, table: String, line: usize, column: usize)
        ensures
            final(self)@ == add_intent(old(self)@, table@, line, column),
    {
        proof {
            assert(intent_view(self.intent@).map_values(|e: (Seq<char>, (usize, usize))| e.0)
                =~= keys_of(self.intent@));
        }
        if get_index(&self.intent, table.as_str()).is_none() {
            let ghost tv = table@;
            self.intent.push((table, (line, column)));
            assert(intent_view(self.intent@) =~= intent_view(old(self).intent@).push(
                (tv, (line, column)),
            ));
        }
    }

    fn table_fields(&mut self, fields: &Vec<TableField>, name: &String) -> (r: bool)
        ensures
            (final(self)@, r) == table_fields(fields@, name@, old(self)@),
    {
        let n = fields.len();
        let mut has_array = false;
        let mut i: usize = 0;
        assert(fields@.take(0) =~= Seq::<TableField>::empty());
        while i < n
            invariant
                n == fields@.len(),
                i <= n,
                (self@, has_array) == table_fields(fields@.take(i as int), name@, old(self)@),
            decreases n - i,
        {
            assert(fields@.take(i + 1).drop_last() =~= fields@.take(i as int));
            match &fields[i] {
                TableField::NoKey(_) => {
                    has_array = true;
                },
                TableField::ExpressionKey { key, .. } => {
                    match (number_value_exec(key), expression_position_exec(key)) {
                        (Some(k), Some(p)) => {
                            multi_push(&mut self.explicit_keys, name.as_str(), (k, p.0, p.1));
                        },
                        _ => {},
                    }
                },
                _ => {},
            }
            i = i + 1;
        }
        assert(fields@.take(n as int) =~= fields@);
        has_array
    }

    fn local_step(&mut self, l: &crate::syntax::LocalDecl)
        ensures
            final(self)@ == sequence_step(old(self)@, Event::LocalAssign(l)),
    {
        let m = if l.names.len() < l.exprs.len() {
            l.names.len()
        } else {
            l.exprs.len()
        };
        let mut k: usize = 0;
        while k < m
            invariant
                m == crate::exports::min(l.names@.len() as int, l.exprs@.len() as int),
                m <= l.names@.len(),
                m <= l.exprs@.len(),
                k <= m,
                self@ == local_pairs(l.names@, l.exprs@, k as int, old(self)@),
            decreases m - k,
        {
            if let Some(name) = ident_exec(&l.names[k]) {
                if let Expr::Table(t) = &l.exprs[k] {
                    let has_array = self.table_fields(&t.fields, &name);
                    if has_array {
                        self.add_intent(name, l.names[k].start.line, l.names[k].start.column);
                    }
                }
            }
            k = k + 1;
        }
    }

    fn assign_step(&mut self, vars: &Vec<Place>)
        ensures
            final(self)@ == assign_keys(vars@, old(self)@),
    {
        let n = vars.len();
        let mut i: usize = 0;
        assert(vars@.take(0) =~= Seq::<Place>::empty());
        while i < n
            invariant
                n == vars@.len(),
                i <= n,
                self@ == assign_keys(vars@.take(i as int), old(self)@),
            decreases n - i,
        {
            assert(vars@.take(i + 1).drop_last() =~= vars@.take(i as int));
            if let Some((table, idx, pos)) = bracket_index_exec(&vars[i]) {
                if let Some(k) = number_value_exec(idx) {
                    multi_push(&mut self.explicit_keys, table.as_str(), (k, pos.line, pos.column));
                }
            }
            i = i + 1;
        }
        assert(vars@.take(n as int) =~= vars@);
    }

    fn var_step(&mut self, v: &Place)
        ensures
            final(self)@ == var_step(old(self)@, *v),
    {
        if let Some((table, idx, pos)) = bracket_index_exec(v) {
            let (line, column) = (pos.line, pos.column);
            let nv = number_value_exec(idx);
            if nv == Some(0i64) {
                multi_push(&mut self.zero_uses, table.as_str(), (line, column));
            }
            if nv == Some(1i64) {
                self.add_intent(table.clone(), line, column);
            }
            if let Some(n) = variable_name_exec(idx) {
                if contains_str(&self.loop_vars, n.as_str()) {
                    self.add_intent(table.clone(), line, column);
                }
            }
            if is_append_exec(idx, &table) {
                self.add_intent(table, line, column);
            }
        }
    }

    fn numeric_for_step(&mut self, f: &crate::syntax::ForRange)
        ensures
            final(self)@ == numeric_for_step(old(self)@, *f),
    {
        let var = match ident_exec(&f.var) {
            Some(v) => v,
            None => return,
        };
        let ghost vv = var@;
        self.loop_vars.push(var.clone());
        assert(strs_view(self.loop_vars@) =~= old(self)@.loop_vars.push(vv));
        let (line, column) = (f.var.start.line, f.var.start.column);
        let start = number_value_exec(&f.start);
        if start == Some(0i64) {
            if let Some(table) = length_target_exec(&f.end) {
                let ghost before = self.off_by_one@;
                let ghost tv = table@;
                self.off_by_one.push((var, table, line, column, OffByOne::StartsAtZero));
                assert(obo_view(self.off_by_one@) =~= obo_view(before).push(
                    (vv, tv, line, column, OffByOne::StartsAtZero),
                ));
                return;
            }
        }
        if start == Some(1i64) {
            if let Expr::Binary { lhs, op: BinaryOp::Minus, rhs, .. } = &f.end {
                if number_value_exec(rhs) == Some(1i64) {
                    if let Some(table) = length_target_exec(lhs) {
                        let ghost before = self.off_by_one@;
                        let ghost tv = table@;
                        self.off_by_one.push((var, table, line, column, OffByOne::MissesLast));
                        assert(obo_view(self.off_by_one@) =~= obo_view(before).push(
                            (vv, tv, line, column, OffByOne::MissesLast),
                        ));
                    }
                }
            }
        }
    }

    fn call_step(&mut self, c: &crate::syntax::CallExpr)
        ensures
            final(self)@ == call_step(old(self)@, *c),
    {
        let p = match &c.prefix {
            PrefixExpr::Name(p) => p,
            _ => return,
        };
        let name = match ident_exec(p) {
            Some(n) => n,
            None => return,
        };
        if name == owned("ipairs") {
            if c.suffixes.len() > 0 {
                if let Some((t, l, col)) = first_call_arg_exec(&c.suffixes[0]) {
                    self.add_intent(t, l, col);
                }
            }
        } else if name == owned("table") {
            if c.suffixes.len() > 1 {
                if let Postfix::Index(IndexKind::Dot { name: m }) = &c.suffixes[0] {
                    if ident_is(m, "insert") {
                        if let Some((t, l, col)) = first_call_arg_exec(&c.suffixes[1]) {
                            self.add_intent(t, l, col);
                        }
                    }
                }
            }
        }
    }

    fn step(&mut self, e: &Event)
        ensures
            final(self)@ == sequence_step(old(self)@, *e),
    {
        match e {
            Event::LocalAssign(l) => self.local_step(l),
            Event::Assign(a) => self.assign_step(&a.vars),
            Event::Var(v) => self.var_step(v),
            Event::Expr(x) => {
                if let Expr::Unary { op: UnaryOp::Hash, op_tok, operand } = x {
                    if let Some(name) = variable_name_exec(operand) {
                        multi_push(
                            &mut self.length_uses,
                            name.as_str(),
                            (op_tok.start.line, op_tok.start.column),
                        );
                        self.add_intent(name, op_tok.start.line, op_tok.start.column);
                    }
                }
            },
            Event::NumericFor(f) => self.numeric_for_step(f),
            Event::NumericForEnd(_) => {
                if self.loop_vars.len() > 0 {
                    self.loop_vars.pop();
                    assert(strs_view(self.loop_vars@) =~= old(self)@.loop_vars.drop_last());
                }
            },
            Event::Call(c) => self.call_step(c),
            _ => {},
        }
    }
}

proof fn lemma_insert_by_key(s: Seq<(i64, usize, usize)>, x: (i64, usize, usize), j: int)
    requires
        0 <= j <= s.len(),
        j == 0 || s[j - 1].0 <= x.0,
        forall|t: int| j <= t < s.len() ==> s[t].0 > x.0,
    ensures
        insert_by_key(s, x) == s.take(j) + seq![x] + s.skip(j),
    decreases s.len(),
{
    if s.len() == 0 {
        assert(s.take(j) + seq![x] + s.skip(j) =~= seq![x]);
    } else if s.last().0 <= x.0 {
        assert(j == s.len());
        assert(s.take(j) + seq![x] + s.skip(j) =~= s.push(x));
    } else {
        lemma_insert_by_key(s.drop_last(), x, j);
        assert(s.take(j) + seq![x] + s.skip(j) =~= (s.drop_last().take(j) + seq![x]
            + s.drop_last().skip(j)).push(s.last()));
    }
}

fn insert_sorted(v: &mut Vec<(i64, usize, usize)>, x: (i64, usize, usize))
    ensures
        final(v)@ == insert_by_key(old(v)@, x),
{
    let mut j = v.len();
    while j > 0 && v[j - 1].0 > x.0
        invariant
            j <= v@.len(),
            forall|t: int| j <= t < v@.len() ==> v@[t].0 > x.0,
        decreases j,
    {
        j = j - 1;
    }
    proof {
        lemma_insert_by_key(v@, x, j as int);
    }
    v.insert(j, x);
    assert(v@ =~= old(v)@.take(j as int) + seq![x] + old(v)@.skip(j as int));
}

fn sort_keys(v: &Vec<(i64, usize, usize)>) -> (r: Vec<(i64, usize, usize)>)
    ensures
        r@ == sort_by_key(v@),
{
    let mut r: Vec<(i64, usize, usize)> = Vec::new();
    let n = v.len();
    let mut i: usize = 0;
    assert(v@.take(0) =~= Seq::<(i64, usize, usize)>::empty());
    while i < n
        invariant
            n == v@.len(),
            i <= n,
            r@ == sort_by_key(v@.take(i as int)),
        decreases n - i,
    {
        assert(v@.take(i + 1).drop_last() =~= v@.take(i as int));
        insert_sorted(&mut r, v[i]);
        i = i + 1;
    }
    assert(v@.take(n as int) =~= v@);
    r
}

fn push_diag(out: &mut Vec<Diagnostic>, d: Diagnostic)
    ensures
        diags_view(final(out)@) == diags_view(old(out)@).push(d@),
{
    out.push(d);
    assert(diags_view(out@) =~= diags_view(old(out)@).push(d@));
}

impl SequenceVisitor {
    /// Turn the gathered facts into diagnostics.
    fn into_diagnostics(self, path: &str) -> (r: Vec<Diagnostic>)
        ensures
            diags_view(r@) == into_diagnostics(self@, path@),
    {
        let ghost st = self@;
        let mut out: Vec<Diagnostic> = Vec::new();
        // zero_index_access: t[0] with sequence intent
        proof {
            assert(intent_view(self.intent@).map_values(|e: (Seq<char>, (usize, usize))| e.0)
                =~= keys_of(self.intent@));
        }
        let nz = self.zero_uses.len();
        let mut i: usize = 0;
        assert(self@.zero_uses.take(0) =~= Seq::<(Seq<char>, Seq<(usize, usize)>)>::empty());
        assert(diags_view(out@) =~= Seq::<DiagnosticView>::empty());
        while i < nz
            invariant
                nz == self.zero_uses@.len(),
                st == self@,
                i <= nz,
                st.intent.map_values(|e: (Seq<char>, (usize, usize))| e.0) == keys_of(self.intent@),
                diags_view(out@) == zero_diags(st.zero_uses.take(i as int), st.intent, path@),
            decreases nz - i,
        {
            assert(st.zero_uses.take(i + 1).drop_last() =~= st.zero_uses.take(i as int));
            let ghost before = diags_view(out@);
            let table = &self.zero_uses[i].0;
            if get_index(&self.intent, table.as_str()).is_some() {
                let uses = &self.zero_uses[i].1;
                let ghost base = diags_view(out@);
                let mut k: usize = 0;
                assert(uses@.take(0) =~= Seq::<(usize, usize)>::empty());
                while k < uses.len()
                    invariant
                        k <= uses@.len(),
                        diags_view(out@) == base + zero_messages(table@, uses@.take(k as int), path@),
                    decreases uses@.len() - k,
                {
                    assert(uses@.take(k + 1).drop_last() =~= uses@.take(k as int));
                    let (line, column) = uses[k];
                    let mut message = concat("zero-based index `", table.as_str());
                    message.append("[0]` on sequence-like table `");
                    message.append(table.as_str());
                    message.append("`");
                    push_diag(
                        &mut out,
                        Diagnostic::new(DiagnosticKind::ZeroIndexAccess, message.as_str()).at(
                            owned(path),
                            line,
                            column,
                        ),
                    );
                    k = k + 1;
                    assert(diags_view(out@) =~= base + zero_messages(table@, uses@.take(k as int), path@));
                }
                assert(uses@.take(uses@.len() as int) =~= uses@);
            }
            assert(st.zero_uses.take(i + 1).last() == st.zero_uses[i as int]);
            assert(diags_view(out@) =~= zero_diags(st.zero_uses.take(i + 1), st.intent, path@));
            i = i + 1;
        }
        assert(st.zero_uses.take(nz as int) =~= st.zero_uses);
        // sparse_array: gaps between explicit integer keys
        let ghost after_zero = diags_view(out@);
        let mut gaps: Vec<bool> = Vec::new();
        let nk = self.explicit_keys.len();
        let mut i: usize = 0;
        assert(st.explicit_keys.take(0) =~= Seq::<(Seq<char>, Seq<(i64, usize, usize)>)>::empty());
        while i < nk
            invariant
                nk == self.explicit_keys@.len(),
                st == self@,
                i <= nk,
                gaps@.len() == i,
                forall|q: int| 0 <= q < i ==> gaps@[q] == has_gap(sort_by_key(st.explicit_keys[q].1)),
                diags_view(out@) == after_zero + sparse_diags(st.explicit_keys.take(i as int), path@),
            decreases nk - i,
        {
            assert(st.explicit_keys.take(i + 1).drop_last() =~= st.explicit_keys.take(i as int));
            let table = &self.explicit_keys[i].0;
            let sorted = sort_keys(&self.explicit_keys[i].1);
            let ghost base = diags_view(out@);
            let mut any = false;
            if sorted.len() > 1 {
                let mut k: usize = 1;
                while k < sorted.len()
                    invariant
                        1 <= k <= sorted@.len(),
                        any == exists|j: int| 0 < j < k && #[trigger] is_gap(sorted@[j - 1].0, sorted@[j].0),
                        diags_view(out@) == base + gap_diags(table@, sorted@, (k - 1) as int, path@),
                    decreases sorted@.len() - k,
                {
                    let prev = sorted[k - 1];
                    let cur = sorted[k];
                    if prev.0 < i64::MAX && cur.0 > prev.0 + 1 {
                        any = true;
                        let mut message = concat("sparse array `", table.as_str());
                        message.append("`: key ");
                        message.append(i64_text(cur.0).as_str());
                        message.append(" leaves a hole after key ");
                        message.append(i64_text(prev.0).as_str());
                        push_diag(
                            &mut out,
                            Diagnostic::new(DiagnosticKind::SparseArray, message.as_str()).at(
                                owned(path),
                                cur.1,
                                cur.2,
                            ),
                        );
                    }
                    k = k + 1;
                    assert(diags_view(out@) =~= base + gap_diags(table@, sorted@, (k - 1) as int, path@));
                }
            } else {
                assert(diags_view(out@) =~= base + gap_diags(table@, sorted@, pair_count(sorted@), path@));
            }
            gaps.push(any);
            i = i + 1;
            assert(diags_view(out@) =~= after_zero + sparse_diags(st.explicit_keys.take(i as int), path@));
        }
        assert(st.explicit_keys.take(nk as int) =~= st.explicit_keys);
        // ambiguous_length: #t on a table with known holes
        let ghost after_sparse = diags_view(out@);
        proof {
            assert(multi_view(self.explicit_keys@).map_values(
                |e: (Seq<char>, Seq<(i64, usize, usize)>)| e.0,
            ) =~= keys_of(self.explicit_keys@));
        }
        let nl = self.length_uses.len();
        let mut i: usize = 0;
        assert(st.length_uses.take(0) =~= Seq::<(Seq<char>, Seq<(usize, usize)>)>::empty());
        while i < nl
            invariant
                nl == self.length_uses@.len(),
                st == self@,
                i <= nl,
                st.explicit_keys.map_values(|e: (Seq<char>, Seq<(i64, usize, usize)>)| e.0)
                    == keys_of(self.explicit_keys@),
                gaps@.len() == st.explicit_keys.len(),
                forall|q: int| 0 <= q < gaps@.len() ==> gaps@[q] == has_gap(sort_by_key(st.explicit_keys[q].1)),
                diags_view(out@) == after_sparse + length_diags(st.length_uses.take(i as int), st.explicit_keys, path@),
            decreases nl - i,
        {
            assert(st.length_uses.take(i + 1).drop_last() =~= st.length_uses.take(i as int));
            let table = &self.length_uses[i].0;
            let holes = match get_index(&self.explicit_keys, table.as_str()) {
                Some(q) => gaps[q],
                None => false,
            };
            assert(holes == has_holes(st.explicit_keys, st.length_uses[i as int].0));
            assert(st.length_uses.take(i + 1).last() == st.length_uses[i as int]);
            if holes {
                let uses = &self.length_uses[i].1;
                let ghost base = diags_view(out@);
                let mut k: usize = 0;
                assert(uses@.take(0) =~= Seq::<(usize, usize)>::empty());
                while k < uses.len()
                    invariant
                        k <= uses@.len(),
                        diags_view(out@) == base + length_messages(table@, uses@.take(k as int), path@),
                    decreases uses@.len() - k,
                {
                    assert(uses@.take(k + 1).drop_last() =~= uses@.take(k as int));
                    let (line, column) = uses[k];
                    let mut message = concat("`#", table.as_str());
                    message.append("` on a table with holes has an implementation-defined result");
                    push_diag(
                        &mut out,
                        Diagnostic::new(DiagnosticKind::AmbiguousLength, message.as_str()).at(
                            owned(path),
                            line,
                            column,
                        ),
                    );
                    k = k + 1;
                    assert(diags_view(out@) =~= base + length_messages(table@, uses@.take(k as int), path@));
                }
                assert(uses@.take(uses@.len() as int) =~= uses@);
            }
            i = i + 1;
            assert(diags_view(out@) =~= after_sparse + length_diags(st.length_uses.take(i as int), st.explicit_keys, path@));
        }
        assert(st.length_uses.take(nl as int) =~= st.length_uses);
        // off_by_one_loop
        let ghost after_length = diags_view(out@);
        let no = self.off_by_one.len();
        let mut i: usize = 0;
        while i < no
            invariant
                no == self.off_by_one@.len(),
                st == self@,
                i <= no,
                diags_view(out@) == after_length + off_by_one_diags(st.off_by_one.take(i as int), path@),
            decreases no - i,
        {
            let (var, table, line, column, kind) = (
                &self.off_by_one[i].0,
                &self.off_by_one[i].1,
                self.off_by_one[i].2,
                self.off_by_one[i].3,
                self.off_by_one[i].4,
            );
            let mut message = concat("loop `for ", var.as_str());
            match kind {
                OffByOne::StartsAtZero => {
                    message.append(" = 0, #");
                    message.append(table.as_str());
                    message.append("` starts at 0; Lua sequences start at 1");
                },
                OffByOne::MissesLast => {
                    message.append(" = 1, #");
                    message.append(table.as_str());
                    message.append(" - 1` skips the last element");
                },
            }
            push_diag(
                &mut out,
                Diagnostic::new(DiagnosticKind::OffByOneLoop, message.as_str()).at(
                    owned(path),
                    line,
                    column,
                ),
            );
            i = i + 1;
            assert(off_by_one_diags(st.off_by_one.take(i as int), path@) =~= off_by_one_diags(
                st.off_by_one.take(i - 1),
                path@,
            ).push(off_by_one_diags(st.off_by_one, path@)[i - 1]));
            assert(diags_view(out@) =~= after_length + off_by_one_diags(st.off_by_one.take(i as int), path@));
        }
        assert(st.off_by_one.take(no as int) =~= st.off_by_one);
        out
    }
}

/// Run the sequence heuristics over one parsed file.
pub fn check_sequence(path: &str, chunk: &Chunk) -> (r: Vec<Diagnostic>)
    ensures
        diags_view(r@) == sequence_diagnostics(chunk, path@),
{
    let events = chunk_events(chunk);
    let mut visitor = SequenceVisitor::new();
    let n = events.len();
    let mut i: usize = 0;
    assert(events@.take(0) =~= Seq::<Event>::empty());
    while i < n
        invariant
            n == events@.len(),
            i <= n,
            visitor@ == fold_sequence(events@.take(i as int)),
        decreases n - i,
    {
        assert(events@.take(i + 1).drop_last() =~= events@.take(i as int));
        visitor.step(&events[i]);
        i = i + 1;
    }
    assert(events@.take(n as int) =~= events@);
    visitor.into_diagnostics(path)
}

// ---- evidence behind each warning ----

proof fn lemma_zero_messages(table: Seq<char>, uses: Seq<(usize, usize)>, path: Seq<char>)
    ensures
        forall|j: int|
            0 <= j < zero_messages(table, uses, path).len() ==> (#[trigger] zero_messages(
                table,
                uses,
                path,
            )[j]).kind == DiagnosticKind::ZeroIndexAccess && zero_messages(table, uses, path)[j].message
                == zero_index_message(table),
    decreases uses.len(),
{
    if uses.len() > 0 {
        lemma_zero_messages(table, uses.drop_last(), path);
    }
}

/// A zero-based index is reported only on a table with positive evidence
/// of sequence intent in the same file.
pub proof fn lemma_zero_index_needs_intent(
    zs: Seq<(Seq<char>, Seq<(usize, usize)>)>,
    intent: Seq<(Seq<char>, (usize, usize))>,
    path: Seq<char>,
)
    ensures
        forall|i: int|
            0 <= i < zero_diags(zs, intent, path).len() ==> (#[trigger] zero_diags(zs, intent, path)[i]).kind
                == DiagnosticKind::ZeroIndexAccess && exists|t: Seq<char>|
                vhas(intent, t) && zero_diags(zs, intent, path)[i].message == zero_index_message(t),
    decreases zs.len(),
{
    if zs.len() > 0 {
        lemma_zero_index_needs_intent(zs.drop_last(), intent, path);
        let front = zero_diags(zs.drop_last(), intent, path);
        let t = zs.last().0;
        lemma_zero_messages(t, zs.last().1, path);
        let back = if vhas(intent, t) {
            zero_messages(t, zs.last().1, path)
        } else {
            Seq::empty()
        };
        assert(zero_diags(zs, intent, path) == front + back);
        assert forall|i: int| 0 <= i < zero_diags(zs, intent, path).len() implies (#[trigger] zero_diags(
            zs,
            intent,
            path,
        )[i]).kind == DiagnosticKind::ZeroIndexAccess && exists|u: Seq<char>|
            vhas(intent, u) && zero_diags(zs, intent, path)[i].message == zero_index_message(u) by {
            if i < front.len() {
                assert(zero_diags(zs, intent, path)[i] == front[i]);
            } else {
                assert(zero_diags(zs, intent, path)[i] == back[i - front.len()]);
                assert(vhas(intent, t));
            }
        }
    }
}

proof fn lemma_length_messages(table: Seq<char>, uses: Seq<(usize, usize)>, path: Seq<char>)
    ensures
        forall|j: int|
            0 <= j < length_messages(table, uses, path).len() ==> (#[trigger] length_messages(
                table,
                uses,
                path,
            )[j]).kind == DiagnosticKind::AmbiguousLength && length_messages(table, uses, path)[j].message
                == length_message(table),
    decreases uses.len(),
{
    if uses.len() > 0 {
        lemma_length_messages(table, uses.drop_last(), path);
    }
}

/// `#t` is reported ambiguous only on a table whose explicit integer keys,
/// seen in the same file, leave a hole.
pub proof fn lemma_ambiguous_length_needs_holes(
    ls: Seq<(Seq<char>, Seq<(usize, usize)>)>,
    ks: Seq<(Seq<char>, Seq<(i64, usize, usize)>)>,
    path: Seq<char>,
)
    ensures
        forall|i: int|
            0 <= i < length_diags(ls, ks, path).len() ==> (#[trigger] length_diags(ls, ks, path)[i]).kind
                == DiagnosticKind::AmbiguousLength && exists|t: Seq<char>|
                has_holes(ks, t) && length_diags(ls, ks, path)[i].message == length_message(t),
    decreases ls.len(),
{
    if ls.len() > 0 {
        lemma_ambiguous_length_needs_holes(ls.drop_last(), ks, path);
        let front = length_diags(ls.drop_last(), ks, path);
        let t = ls.last().0;
        lemma_length_messages(t, ls.last().1, path);
        let back = if has_holes(ks, t) {
            length_messages(t, ls.last().1, path)
        } else {
            Seq::empty()
        };
        assert(length_diags(ls, ks, path) == front + back);
        assert forall|i: int| 0 <= i < length_diags(ls, ks, path).len() implies (#[trigger] length_diags(
            ls,
            ks,
            path,
        )[i]).kind == DiagnosticKind::AmbiguousLength && exists|u: Seq<char>|
            has_holes(ks, u) && length_diags(ls, ks, path)[i].message == length_message(u) by {
            if i < front.len() {
                assert(length_diags(ls, ks, path)[i] == front[i]);
            } else {
                assert(length_diags(ls, ks, path)[i] == back[i - front.len()]);
                assert(has_holes(ks, t));
            }
        }
    }
}


// ---- the kinds kept apart ----

/// Every diagnostic of `s` has kind `k` and names `path`.
pub open spec fn all_kind_in(s: Seq<DiagnosticView>, k: DiagnosticKind, path: Seq<char>) -> bool {
    forall|i: int| 0 <= i < s.len() ==> (#[trigger] s[i]).kind == k && s[i].file == Some(path)
}

proof fn lemma_all_kind_in_add(a: Seq<DiagnosticView>, b: Seq<DiagnosticView>, k: DiagnosticKind, path: Seq<char>)
    requires
        all_kind_in(a, k, path),
        all_kind_in(b, k, path),
    ensures
        all_kind_in(a + b, k, path),
{
    assert forall|i: int| 0 <= i < (a + b).len() implies (#[trigger] (a + b)[i]).kind == k && (a + b)[i].file
        == Some(path) by {
        if i < a.len() {
            assert((a + b)[i] == a[i]);
        } else {
            assert((a + b)[i] == b[i - a.len()]);
        }
    }
}

proof fn lemma_zero_diags_kind(
    zs: Seq<(Seq<char>, Seq<(usize, usize)>)>,
    intent: Seq<(Seq<char>, (usize, usize))>,
    path: Seq<char>,
)
    ensures
        all_kind_in(zero_diags(zs, intent, path), DiagnosticKind::ZeroIndexAccess, path),
    decreases zs.len(),
{
    if zs.len() > 0 {
        lemma_zero_diags_kind(zs.drop_last(), intent, path);
        lemma_zero_messages_kind(zs.last().0, zs.last().1, path);
        lemma_all_kind_in_add(
            zero_diags(zs.drop_last(), intent, path),
            if vhas(intent, zs.last().0) {
                zero_messages(zs.last().0, zs.last().1, path)
            } else {
                Seq::empty()
            },
            DiagnosticKind::ZeroIndexAccess,
            path,
        );
    }
}

proof fn lemma_zero_messages_kind(table: Seq<char>, uses: Seq<(usize, usize)>, path: Seq<char>)
    ensures
        all_kind_in(zero_messages(table, uses, path), DiagnosticKind::ZeroIndexAccess, path),
    decreases uses.len(),
{
    if uses.len() > 0 {
        lemma_zero_messages_kind(table, uses.drop_last(), path);
    }
}

proof fn lemma_gap_diags_kind(table: Seq<char>, sorted: Seq<(i64, usize, usize)>, k: int, path: Seq<char>)
    ensures
        all_kind_in(gap_diags(table, sorted, k, path), DiagnosticKind::SparseArray, path),
    decreases k,
{
    if k > 0 {
        lemma_gap_diags_kind(table, sorted, k - 1, path);
        let prev = sorted[k - 1];
        let cur = sorted[k];
        lemma_all_kind_in_add(
            gap_diags(table, sorted, k - 1, path),
            if is_gap(prev.0, cur.0) {
                seq![
                    diag_at(
                        DiagnosticKind::SparseArray,
                        sparse_message(table, cur.0, prev.0),
                        path,
                        cur.1,
                        cur.2,
                    ),
                ]
            } else {
                Seq::<DiagnosticView>::empty()
            },
            DiagnosticKind::SparseArray,
            path,
        );
    }
}

proof fn lemma_sparse_diags_kind(ks: Seq<(Seq<char>, Seq<(i64, usize, usize)>)>, path: Seq<char>)
    ensures
        all_kind_in(sparse_diags(ks, path), DiagnosticKind::SparseArray, path),
    decreases ks.len(),
{
    if ks.len() > 0 {
        let sorted = sort_by_key(ks.last().1);
        lemma_sparse_diags_kind(ks.drop_last(), path);
        lemma_gap_diags_kind(ks.last().0, sorted, pair_count(sorted), path);
        lemma_all_kind_in_add(
            sparse_diags(ks.drop_last(), path),
            gap_diags(ks.last().0, sorted, pair_count(sorted), path),
            DiagnosticKind::SparseArray,
            path,
        );
    }
}

proof fn lemma_length_messages_kind(table: Seq<char>, uses: Seq<(usize, usize)>, path: Seq<char>)
    ensures
        all_kind_in(length_messages(table, uses, path), DiagnosticKind::AmbiguousLength, path),
    decreases uses.len(),
{
    if uses.len() > 0 {
        lemma_length_messages_kind(table, uses.drop_last(), path);
    }
}

proof fn lemma_length_diags_kind(
    ls: Seq<(Seq<char>, Seq<(usize, usize)>)>,
    ks: Seq<(Seq<char>, Seq<(i64, usize, usize)>)>,
    path: Seq<char>,
)
    ensures
        all_kind_in(length_diags(ls, ks, path), DiagnosticKind::AmbiguousLength, path),
    decreases ls.len(),
{
    if ls.len() > 0 {
        lemma_length_diags_kind(ls.drop_last(), ks, path);
        lemma_length_messages_kind(ls.last().0, ls.last().1, path);
        lemma_all_kind_in_add(
            length_diags(ls.drop_last(), ks, path),
            if has_holes(ks, ls.last().0) {
                length_messages(ls.last().0, ls.last().1, path)
            } else {
                Seq::empty()
            },
            DiagnosticKind::AmbiguousLength,
            path,
        );
    }
}

/// The sequence checks keep their findings apart: the zero-based-index
/// findings are exactly those of `zero_diags` (one per `t[0]` use of a
/// table with sequence intent, none for a table without), the sparse-array
/// findings exactly those of `sparse_diags` (one per hole between adjacent
/// keys in stable key order), the ambiguous-length findings exactly those of
/// `length_diags` (every `#t` of a table with a hole, and no other); and
/// every finding names the checked file.
pub proof fn lemma_sequence_kinds_apart(s: SeqState, path: Seq<char>)
    ensures
        of_kind(into_diagnostics(s, path), DiagnosticKind::ZeroIndexAccess) == zero_diags(
            s.zero_uses,
            s.intent,
            path,
        ),
        of_kind(into_diagnostics(s, path), DiagnosticKind::SparseArray) == sparse_diags(
            s.explicit_keys,
            path,
        ),
        of_kind(into_diagnostics(s, path), DiagnosticKind::AmbiguousLength) == length_diags(
            s.length_uses,
            s.explicit_keys,
            path,
        ),
        all_in_file(into_diagnostics(s, path), path),
{
    let z = zero_diags(s.zero_uses, s.intent, path);
    let sp = sparse_diags(s.explicit_keys, path);
    let l = length_diags(s.length_uses, s.explicit_keys, path);
    let o = off_by_one_diags(s.off_by_one, path);
    lemma_zero_diags_kind(s.zero_uses, s.intent, path);
    lemma_sparse_diags_kind(s.explicit_keys, path);
    lemma_length_diags_kind(s.length_uses, s.explicit_keys, path);
    assert(all_kind_in(o, DiagnosticKind::OffByOneLoop, path));
    assert(into_diagnostics(s, path) == z + sp + l + o);
    lemma_of_kind_add(z + sp + l, o, DiagnosticKind::ZeroIndexAccess);
    lemma_of_kind_add(z + sp, l, DiagnosticKind::ZeroIndexAccess);
    lemma_of_kind_add(z, sp, DiagnosticKind::ZeroIndexAccess);
    lemma_of_kind_add(z + sp + l, o, DiagnosticKind::SparseArray);
    lemma_of_kind_add(z + sp, l, DiagnosticKind::SparseArray);
    lemma_of_kind_add(z, sp, DiagnosticKind::SparseArray);
    lemma_of_kind_add(z + sp + l, o, DiagnosticKind::AmbiguousLength);
    lemma_of_kind_add(z + sp, l, DiagnosticKind::AmbiguousLength);
    lemma_of_kind_add(z, sp, DiagnosticKind::AmbiguousLength);
    lemma_of_kind_all(z, DiagnosticKind::ZeroIndexAccess);
    lemma_of_kind_none(sp, DiagnosticKind::ZeroIndexAccess);
    lemma_of_kind_none(l, DiagnosticKind::ZeroIndexAccess);
    lemma_of_kind_none(o, DiagnosticKind::ZeroIndexAccess);
    lemma_of_kind_none(z, DiagnosticKind::SparseArray);
    lemma_of_kind_all(sp, DiagnosticKind::SparseArray);
    lemma_of_kind_none(l, DiagnosticKind::SparseArray);
    lemma_of_kind_none(o, DiagnosticKind::SparseArray);
    lemma_of_kind_none(z, DiagnosticKind::AmbiguousLength);
    lemma_of_kind_none(sp, DiagnosticKind::AmbiguousLength);
    lemma_of_kind_all(l, DiagnosticKind::AmbiguousLength);
    lemma_of_kind_none(o, DiagnosticKind::AmbiguousLength);
    assert(z + Seq::<DiagnosticView>::empty() + Seq::<DiagnosticView>::empty() + Seq::<DiagnosticView>::empty() =~= z);
    assert(Seq::<DiagnosticView>::empty() + sp + Seq::<DiagnosticView>::empty() + Seq::<DiagnosticView>::empty() =~= sp);
    assert(Seq::<DiagnosticView>::empty() + Seq::<DiagnosticView>::empty() + l + Seq::<DiagnosticView>::empty() =~= l);
    assert(all_in_file(z + sp + l + o, path)) by {
        assert forall|i: int| 0 <= i < (z + sp + l + o).len() implies (#[trigger] (z + sp + l + o)[i]).file
            == Some(path) by {
            if i < z.len() {
                assert((z + sp + l + o)[i] == z[i]);
            } else if i < z.len() + sp.len() {
                assert((z + sp + l + o)[i] == sp[i - z.len()]);
            } else if i < z.len() + sp.len() + l.len() {
                assert((z + sp + l + o)[i] == l[i - z.len() - sp.len()]);
            } else {
                assert((z + sp + l + o)[i] == o[i - z.len() - sp.len() - l.len()]);
            }
        }
    }
}


/// Every sequence finding names the checked file.
pub proof fn lemma_sequence_diagnostics_in_file(c: &Chunk, path: Seq<char>)
    ensures
        all_in_file(sequence_diagnostics(c, path), path),
{
    lemma_sequence_kinds_apart(fold_sequence(ev_chunk(c)), path);
}


// ---- the evidence each event contributes ----

/// Recording intent on a table marks it, keeps every table marked before,
/// and touches nothing else.
pub proof fn lemma_add_intent(s: SeqState, table: Seq<char>, line: usize, column: usize, other: Seq<char>)
    ensures
        vhas(add_intent(s, table, line, column).intent, table),
        vhas(s.intent, other) ==> vhas(add_intent(s, table, line, column).intent, other),
        add_intent(s, table, line, column).zero_uses == s.zero_uses,
        add_intent(s, table, line, column).length_uses == s.length_uses,
        add_intent(s, table, line, column).explicit_keys == s.explicit_keys,
        add_intent(s, table, line, column).off_by_one == s.off_by_one,
        add_intent(s, table, line, column).loop_vars == s.loop_vars,
{
    lemma_vhas_push(s.intent, (table, (line, column)), other);
    lemma_vhas_push(s.intent, (table, (line, column)), table);
}

proof fn lemma_var_step_keeps(s: SeqState, v: Place, table: Seq<char>, idx: Expr, pos: Pos, t: Seq<char>)
    requires
        bracket_index(v) == Some((table, idx, pos)),
    ensures
        vhas(s.intent, t) ==> vhas(var_step(s, v).intent, t),
        var_step(s, v).zero_uses == if number_value(idx) == Some(0int) {
            vappend(s.zero_uses, table, (pos.line, pos.column))
        } else {
            s.zero_uses
        },
{
    let s1 = if number_value(idx) == Some(0int) {
        SeqState { zero_uses: vappend(s.zero_uses, table, (pos.line, pos.column)), ..s }
    } else {
        s
    };
    lemma_add_intent(s1, table, pos.line, pos.column, t);
    let s2 = if number_value(idx) == Some(1int) {
        add_intent(s1, table, pos.line, pos.column)
    } else {
        s1
    };
    lemma_add_intent(s2, table, pos.line, pos.column, t);
    let s3 = match variable_name(idx) {
        Some(n) => if s2.loop_vars.contains(n) {
            add_intent(s2, table, pos.line, pos.column)
        } else {
            s2
        },
        None => s2,
    };
    lemma_add_intent(s3, table, pos.line, pos.column, t);
}

/// `t[1]`, `t[i]` with `i` a numeric-`for` variable in scope, and
/// `t[#t + 1]` are each evidence of sequence intent on `t`; `t[0]` is
/// recorded as a zero-based use of `t` at the `[`.
pub proof fn lemma_index_evidence(s: SeqState, v: Place, table: Seq<char>, idx: Expr, pos: Pos)
    requires
        bracket_index(v) == Some((table, idx, pos)),
    ensures
        number_value(idx) == Some(1int) ==> vhas(var_step(s, v).intent, table),
        (variable_name(idx) matches Some(n) && s.loop_vars.contains(n)) ==> vhas(var_step(s, v).intent, table),
        is_append(idx, table) ==> vhas(var_step(s, v).intent, table),
        number_value(idx) == Some(0int) ==> vget(var_step(s, v).zero_uses, table) == Some(
            match vget(s.zero_uses, table) {
                Some(u) => u,
                None => Seq::<(usize, usize)>::empty(),
            }.push((pos.line, pos.column)),
        ),
        vhas(s.intent, table) ==> vhas(var_step(s, v).intent, table),
{
    lemma_var_step_keeps(s, v, table, idx, pos, table);
    lemma_vappend_get(s.zero_uses, table, (pos.line, pos.column), table);
    let s1 = if number_value(idx) == Some(0int) {
        SeqState { zero_uses: vappend(s.zero_uses, table, (pos.line, pos.column)), ..s }
    } else {
        s
    };
    lemma_add_intent(s1, table, pos.line, pos.column, table);
    let s2 = if number_value(idx) == Some(1int) {
        add_intent(s1, table, pos.line, pos.column)
    } else {
        s1
    };
    lemma_add_intent(s2, table, pos.line, pos.column, table);
    let s3 = match variable_name(idx) {
        Some(n) => if s2.loop_vars.contains(n) {
            add_intent(s2, table, pos.line, pos.column)
        } else {
            s2
        },
        None => s2,
    };
    lemma_add_intent(s3, table, pos.line, pos.column, table);
}

/// `#t` is recorded as a length use of `t` at the `#`, and is evidence of
/// sequence intent on `t`.
pub proof fn lemma_length_evidence(s: SeqState, x: &Expr, op_tok: crate::syntax::Tok, operand: Box<Expr>, name: Seq<char>)
    requires
        *x == (Expr::Unary { op: UnaryOp::Hash, op_tok, operand }),
        variable_name(*operand) == Some(name),
    ensures
        vhas(sequence_step(s, Event::Expr(x)).intent, name),
        vget(sequence_step(s, Event::Expr(x)).length_uses, name) == Some(
            match vget(s.length_uses, name) {
                Some(u) => u,
                None => Seq::<(usize, usize)>::empty(),
            }.push((op_tok.start.line, op_tok.start.column)),
        ),
{
    let s1 = SeqState {
        length_uses: vappend(s.length_uses, name, (op_tok.start.line, op_tok.start.column)),
        ..s
    };
    lemma_add_intent(s1, name, op_tok.start.line, op_tok.start.column, name);
    lemma_vappend_get(s.length_uses, name, (op_tok.start.line, op_tok.start.column), name);
}

/// `ipairs(t)` and `table.insert(t, ...)` are evidence of sequence intent
/// on `t`.
pub proof fn lemma_call_evidence(s: SeqState, c: &crate::syntax::CallExpr, p: crate::syntax::Tok, t: Seq<char>, l: usize, col: usize)
    requires
        c.prefix == PrefixExpr::Name(p),
        ident(p) == Some("ipairs"@) && c.suffixes@.len() > 0 && first_call_arg(c.suffixes@[0]) == Some(
            (t, l, col),
        ) || ident(p) == Some("table"@) && c.suffixes@.len() > 1 && (c.suffixes@[0] matches Postfix::Index(
            IndexKind::Dot { name: m },
        ) && ident(m) == Some("insert"@)) && first_call_arg(c.suffixes@[1]) == Some((t, l, col)),
    ensures
        vhas(sequence_step(s, Event::Call(c)).intent, t),
{
    reveal_strlit("ipairs");
    reveal_strlit("table");
    reveal_strlit("insert");
    lemma_add_intent(s, t, l, col, t);
    assert("table"@ != "ipairs"@) by {
        assert("table"@[0] != "ipairs"@[0]);
    }
    assert(sequence_step(s, Event::Call(c)) == call_step(s, *c));
    if ident(p) == Some("ipairs"@) {
        assert(call_step(s, *c) == add_intent(s, t, l, col));
    } else {
        assert(call_step(s, *c) == add_intent(s, t, l, col));
    }
}

/// `for i = 0, #t` is reported as starting at 0, and `for i = 1, #t - 1`
/// as skipping the last element, at the loop variable; either way the
/// variable joins the loop variables in scope.
pub proof fn lemma_off_by_one_evidence(s: SeqState, f: crate::syntax::ForRange, var: Seq<char>, t: Seq<char>)
    requires
        ident(f.var) == Some(var),
    ensures
        numeric_for_step(s, f).loop_vars == s.loop_vars.push(var),
        number_value(f.start) == Some(0int) && length_target(f.end) == Some(t) ==> numeric_for_step(
            s,
            f,
        ).off_by_one == s.off_by_one.push(
            (var, t, f.var.start.line, f.var.start.column, OffByOne::StartsAtZero),
        ),
        number_value(f.start) == Some(1int) && (f.end matches Expr::Binary { lhs, op: BinaryOp::Minus, rhs, .. }
            && number_value(*rhs) == Some(1int) && length_target(*lhs) == Some(t)) ==> numeric_for_step(
            s,
            f,
        ).off_by_one == s.off_by_one.push(
            (var, t, f.var.start.line, f.var.start.column, OffByOne::MissesLast),
        ),
        !(number_value(f.start) == Some(0int) && length_target(f.end) is Some) && !(number_value(f.start)
            == Some(1int) && (f.end matches Expr::Binary { lhs, op: BinaryOp::Minus, rhs, .. } && number_value(
            *rhs,
        ) == Some(1int) && length_target(*lhs) is Some)) ==> numeric_for_step(s, f).off_by_one
            == s.off_by_one,
{
}

} // verus!
