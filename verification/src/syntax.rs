//! The Lua syntax the analyses read, and the order in which a depth-first
//! walk of a chunk meets its nodes.
//!
//! Positions are those of the parser: 1-based line and column, 0-based byte
//! offset, of the first character of a token (`start`) and just past its
//! last character (`end`). Node ranges exclude surrounding trivia.

use vstd::prelude::*;

verus! {

#[derive(Debug, Clone, Copy, PartialEq, Eq, Structural)]
pub struct Pos {
    pub line: usize,
    pub column: usize,
    pub byte: usize,
}

#[derive(Debug, Clone, Copy, PartialEq, Eq, Structural)]
pub enum TokKind {
    Identifier,
    /// A string literal; the token text excludes quotes and long brackets,
    /// with escape sequences left as written.
    StringLiteral,
    Number,
    Symbol,
    Other,
}

/// A token: its kind, its text, and where it starts and ends.
#[derive(Debug)]
pub struct Tok {
    pub kind: TokKind,
    pub text: String,
    pub start: Pos,
    pub end: Pos,
}

/// A block: statements, an optional final `return`/`break`, and the byte
/// offsets where its first token starts and its last token ends (absent
/// for an empty block).
#[derive(Debug)]
pub struct LuaBlock {
    pub stmts: Vec<Statement>,
    pub last: Option<FinalStmt>,
    pub start_byte: Option<usize>,
    pub end_byte: Option<usize>,
}

#[derive(Debug)]
pub enum FinalStmt {
    Return(Vec<Expr>),
    Break,
    Continue,
}

#[derive(Debug)]
pub enum Statement {
    Assignment(AssignStmt),
    Do(LuaBlock),
    Call(CallExpr),
    FunctionDeclaration(FuncDecl),
    GenericFor(ForIn),
    If(IfStmt),
    LocalAssignment(LocalDecl),
    LocalFunction(LocalFunc),
    NumericFor(ForRange),
    Repeat(RepeatStmt),
    While(WhileStmt),
    /// A statement the analyses never look into (`goto`, labels).
    Other,
}

/// `a, b.c = e1, e2`
#[derive(Debug)]
pub struct AssignStmt {
    pub vars: Vec<Place>,
    pub exprs: Vec<Expr>,
}

/// `local a, b = e1, e2`, with the byte offset where the statement ends.
#[derive(Debug)]
pub struct LocalDecl {
    pub names: Vec<Tok>,
    pub exprs: Vec<Expr>,
    pub end_byte: Option<usize>,
}

/// `local function name() ... end`, with the byte offset where it starts.
#[derive(Debug)]
pub struct LocalFunc {
    pub name: Tok,
    pub body: FuncBody,
    pub start_byte: Option<usize>,
}

/// `function a.b:c() ... end`
#[derive(Debug)]
pub struct FuncDecl {
    pub name: FunctionName,
    pub body: FuncBody,
}

/// The dotted names of a declaration, and the method name after `:`.
#[derive(Debug)]
pub struct FunctionName {
    pub names: Vec<Tok>,
    pub method: Option<Tok>,
}

#[derive(Debug)]
pub struct ForIn {
    pub names: Vec<Tok>,
    pub exprs: Vec<Expr>,
    pub block: LuaBlock,
}

#[derive(Debug)]
pub struct ForRange {
    pub var: Tok,
    pub start: Expr,
    pub end: Expr,
    pub step: Option<Expr>,
    pub block: LuaBlock,
}

#[derive(Debug)]
pub struct ElseIfArm {
    pub cond: Expr,
    pub block: LuaBlock,
}

#[derive(Debug)]
pub struct IfStmt {
    pub cond: Expr,
    pub block: LuaBlock,
    pub else_ifs: Vec<ElseIfArm>,
    pub else_block: Option<LuaBlock>,
}

#[derive(Debug)]
pub struct RepeatStmt {
    pub block: LuaBlock,
    pub until: Expr,
}

#[derive(Debug)]
pub struct WhileStmt {
    pub cond: Expr,
    pub block: LuaBlock,
}

#[derive(Debug, Clone, Copy, PartialEq, Eq, Structural)]
pub enum BinaryOp {
    Plus,
    Minus,
    TwoDots,
    Other,
}

#[derive(Debug, Clone, Copy, PartialEq, Eq, Structural)]
pub enum UnaryOp {
    Hash,
    Other,
}

#[derive(Debug)]
pub enum Expr {
    Binary { lhs: Box<Expr>, op: BinaryOp, op_tok: Tok, rhs: Box<Expr> },
    Paren(Box<Expr>),
    Unary { op: UnaryOp, op_tok: Tok, operand: Box<Expr> },
    Function(FuncBody),
    Call(CallExpr),
    Table(TableExpr),
    Number(Tok),
    String(Tok),
    /// `nil`, `true`, `false` or `...`
    Symbol(Tok),
    Var(Place),
}

#[derive(Debug)]
pub enum Place {
    Name(Tok),
    Expression(PlaceExpr),
}

#[derive(Debug)]
pub struct PlaceExpr {
    pub prefix: PrefixExpr,
    pub suffixes: Vec<Postfix>,
}

#[derive(Debug)]
pub enum PrefixExpr {
    Expression(Box<Expr>),
    Name(Tok),
}

#[derive(Debug)]
pub enum Postfix {
    Call(CallKind),
    Index(IndexKind),
}

#[derive(Debug)]
pub enum IndexKind {
    /// `[expr]`, with the opening bracket.
    Brackets { open: Tok, expr: Expr },
    /// `.name`
    Dot { name: Tok },
}

#[derive(Debug)]
pub enum CallKind {
    Anonymous(Arguments),
    Method { name: Tok, args: Arguments },
}

#[derive(Debug)]
pub enum Arguments {
    Parentheses(Vec<Expr>),
    String(Tok),
    Table(TableExpr),
}

#[derive(Debug)]
pub struct CallExpr {
    pub prefix: PrefixExpr,
    pub suffixes: Vec<Postfix>,
}

/// `{ ... }`, with its opening brace.
#[derive(Debug)]
pub struct TableExpr {
    pub open: Tok,
    pub fields: Vec<TableField>,
}

#[derive(Debug)]
pub enum TableField {
    ExpressionKey { key: Expr, value: Expr },
    NameKey { key: Tok, value: Expr },
    NoKey(Expr),
}

#[derive(Debug)]
pub struct FuncBody {
    pub params: Vec<Param>,
    pub block: LuaBlock,
}

#[derive(Debug)]
pub enum Param {
    Ellipsis(Tok),
    Name(Tok),
}

/// A parsed source file.
#[derive(Debug)]
pub struct Chunk {
    pub block: LuaBlock,
}

/// What a depth-first walk meets, in order: each node kind the analyses
/// react to, with `...End` marking the end of a node that has an inside.
pub enum Event<'a> {
    Block(&'a LuaBlock),
    BlockEnd(&'a LuaBlock),
    LocalAssign(&'a LocalDecl),
    LocalAssignEnd(&'a LocalDecl),
    Assign(&'a AssignStmt),
    Call(&'a CallExpr),
    Var(&'a Place),
    Expr(&'a Expr),
    NumericFor(&'a ForRange),
    NumericForEnd(&'a ForRange),
    GenericFor(&'a ForIn),
    GenericForEnd(&'a ForIn),
    While(&'a WhileStmt),
    WhileEnd(&'a WhileStmt),
    Repeat(&'a RepeatStmt),
    RepeatEnd(&'a RepeatStmt),
    If(&'a IfStmt),
    IfEnd(&'a IfStmt),
    Do(&'a LuaBlock),
    DoEnd(&'a LuaBlock),
    FuncBody(&'a FuncBody),
    FuncBodyEnd(&'a FuncBody),
    LocalFunction(&'a LocalFunc),
    FuncDecl(&'a FuncDecl),
    Return(&'a Vec<Expr>),
    Table(&'a TableExpr),
}

pub open spec fn ev_block<'a>(b: &'a LuaBlock) -> Seq<Event<'a>>
    decreases b, 2nat,
{
    seq![Event::Block(b)] + ev_stmts(b.stmts@) + ev_last(&b.last) + seq![Event::BlockEnd(b)]
}

pub open spec fn ev_stmts<'a>(s: Seq<Statement>) -> Seq<Event<'a>>
    decreases s, 1nat,
{
    if s.len() == 0 {
        Seq::empty()
    } else {
        ev_stmts(s.drop_last()) + ev_stmt(&s[s.len() - 1])
    }
}

pub open spec fn ev_last<'a>(l: &'a Option<FinalStmt>) -> Seq<Event<'a>>
    decreases l, 0nat,
{
    match l {
        Some(FinalStmt::Return(es)) => seq![Event::Return(es)] + ev_exprs(es@),
        _ => Seq::empty(),
    }
}

pub open spec fn ev_stmt<'a>(s: &'a Statement) -> Seq<Event<'a>>
    decreases s, 0nat,
{
    match s {
        Statement::Assignment(a) => seq![Event::Assign(a)] + ev_vars(a.vars@) + ev_exprs(a.exprs@),
        Statement::Do(b) => seq![Event::Do(b)] + ev_block(b) + seq![Event::DoEnd(b)],
        Statement::Call(c) => ev_call(c),
        Statement::FunctionDeclaration(d) => seq![Event::FuncDecl(d)] + ev_body(&d.body),
        Statement::GenericFor(f) => seq![Event::GenericFor(f)] + ev_exprs(f.exprs@) + ev_block(&f.block)
            + seq![Event::GenericForEnd(f)],
        Statement::If(i) => seq![Event::If(i)] + ev_expr(&i.cond) + ev_block(&i.block) + ev_else_ifs(
            i.else_ifs@,
        ) + ev_opt_block(&i.else_block) + seq![Event::IfEnd(i)],
        Statement::LocalAssignment(l) => seq![Event::LocalAssign(l)] + ev_exprs(l.exprs@) + seq![
            Event::LocalAssignEnd(l),
        ],
        Statement::LocalFunction(f) => seq![Event::LocalFunction(f)] + ev_body(&f.body),
        Statement::NumericFor(f) => seq![Event::NumericFor(f)] + ev_expr(&f.start) + ev_expr(&f.end)
            + ev_opt_expr(&f.step) + ev_block(&f.block) + seq![Event::NumericForEnd(f)],
        Statement::Repeat(r) => seq![Event::Repeat(r)] + ev_block(&r.block) + ev_expr(&r.until) + seq![
            Event::RepeatEnd(r),
        ],
        Statement::While(w) => seq![Event::While(w)] + ev_expr(&w.cond) + ev_block(&w.block) + seq![
            Event::WhileEnd(w),
        ],
        Statement::Other => Seq::empty(),
    }
}

pub open spec fn ev_opt_block<'a>(b: &'a Option<LuaBlock>) -> Seq<Event<'a>>
    decreases b, 0nat,
{
    match b {
        Some(b) => ev_block(b),
        None => Seq::empty(),
    }
}

pub open spec fn ev_opt_expr<'a>(e: &'a Option<Expr>) -> Seq<Event<'a>>
    decreases e, 0nat,
{
    match e {
        Some(e) => ev_expr(e),
        None => Seq::empty(),
    }
}

pub open spec fn ev_else_ifs<'a>(s: Seq<ElseIfArm>) -> Seq<Event<'a>>
    decreases s, 1nat,
{
    if s.len() == 0 {
        Seq::empty()
    } else {
        ev_else_ifs(s.drop_last()) + ev_expr(&s[s.len() - 1].cond) + ev_block(&s[s.len() - 1].block)
    }
}

pub open spec fn ev_body<'a>(b: &'a FuncBody) -> Seq<Event<'a>>
    decreases b, 0nat,
{
    seq![Event::FuncBody(b)] + ev_block(&b.block) + seq![Event::FuncBodyEnd(b)]
}

pub open spec fn ev_exprs<'a>(s: Seq<Expr>) -> Seq<Event<'a>>
    decreases s, 1nat,
{
    if s.len() == 0 {
        Seq::empty()
    } else {
        ev_exprs(s.drop_last()) + ev_expr(&s[s.len() - 1])
    }
}

pub open spec fn ev_vars<'a>(s: Seq<Place>) -> Seq<Event<'a>>
    decreases s, 1nat,
{
    if s.len() == 0 {
        Seq::empty()
    } else {
        ev_vars(s.drop_last()) + ev_var(&s[s.len() - 1])
    }
}

pub open spec fn ev_expr<'a>(e: &'a Expr) -> Seq<Event<'a>>
    decreases e, 0nat,
{
    seq![Event::Expr(e)] + match e {
        Expr::Binary { lhs, rhs, .. } => ev_expr(lhs) + ev_expr(rhs),
        Expr::Paren(inner) => ev_expr(inner),
        Expr::Unary { operand, .. } => ev_expr(operand),
        Expr::Function(body) => ev_body(body),
        Expr::Call(c) => ev_call(c),
        Expr::Table(t) => ev_table(t),
        Expr::Var(v) => ev_var(v),
        _ => Seq::empty(),
    }
}

pub open spec fn ev_var<'a>(v: &'a Place) -> Seq<Event<'a>>
    decreases v, 0nat,
{
    seq![Event::Var(v)] + match v {
        Place::Name(_) => Seq::empty(),
        Place::Expression(ve) => ev_prefix(&ve.prefix) + ev_suffixes(ve.suffixes@),
    }
}

pub open spec fn ev_call<'a>(c: &'a CallExpr) -> Seq<Event<'a>>
    decreases c, 0nat,
{
    seq![Event::Call(c)] + ev_prefix(&c.prefix) + ev_suffixes(c.suffixes@)
}

pub open spec fn ev_prefix<'a>(p: &'a PrefixExpr) -> Seq<Event<'a>>
    decreases p, 0nat,
{
    match p {
        PrefixExpr::Expression(e) => ev_expr(e),
        PrefixExpr::Name(_) => Seq::empty(),
    }
}

pub open spec fn ev_suffixes<'a>(s: Seq<Postfix>) -> Seq<Event<'a>>
    decreases s, 1nat,
{
    if s.len() == 0 {
        Seq::empty()
    } else {
        ev_suffixes(s.drop_last()) + ev_suffix(&s[s.len() - 1])
    }
}

pub open spec fn ev_suffix<'a>(s: &'a Postfix) -> Seq<Event<'a>>
    decreases s, 0nat,
{
    match s {
        Postfix::Call(CallKind::Anonymous(args)) => ev_args(args),
        Postfix::Call(CallKind::Method { args, .. }) => ev_args(args),
        Postfix::Index(IndexKind::Brackets { expr, .. }) => ev_expr(expr),
        Postfix::Index(IndexKind::Dot { .. }) => Seq::empty(),
    }
}

pub open spec fn ev_args<'a>(a: &'a Arguments) -> Seq<Event<'a>>
    decreases a, 0nat,
{
    match a {
        Arguments::Parentheses(es) => ev_exprs(es@),
        Arguments::String(_) => Seq::empty(),
        Arguments::Table(t) => ev_table(t),
    }
}

pub open spec fn ev_table<'a>(t: &'a TableExpr) -> Seq<Event<'a>>
    decreases t, 0nat,
{
    seq![Event::Table(t)] + ev_fields(t.fields@)
}

pub open spec fn ev_fields<'a>(s: Seq<TableField>) -> Seq<Event<'a>>
    decreases s, 1nat,
{
    if s.len() == 0 {
        Seq::empty()
    } else {
        ev_fields(s.drop_last()) + ev_field(&s[s.len() - 1])
    }
}

pub open spec fn ev_field<'a>(f: &'a TableField) -> Seq<Event<'a>>
    decreases f, 0nat,
{
    match f {
        TableField::ExpressionKey { key, value } => ev_expr(key) + ev_expr(value),
        TableField::NameKey { value, .. } => ev_expr(value),
        TableField::NoKey(e) => ev_expr(e),
    }
}

/// Everything a walk of the whole chunk meets, in order.
pub open spec fn ev_chunk<'a>(c: &'a Chunk) -> Seq<Event<'a>> {
    ev_block(&c.block)
}

// ---- the walk ----

pub fn walk_block<'a>(b: &'a LuaBlock, out: &mut Vec<Event<'a>>)
    ensures
        final(out)@ == old(out)@ + ev_block(b),
    decreases b, 2nat,
{
    out.push(Event::Block(b));
    walk_stmts(&b.stmts, out);
    walk_last(&b.last, out);
    out.push(Event::BlockEnd(b));
    assert(final(out)@ =~= old(out)@ + ev_block(b));
}

fn walk_stmts<'a>(v: &'a Vec<Statement>, out: &mut Vec<Event<'a>>)
    ensures
        final(out)@ == old(out)@ + ev_stmts(v@),
    decreases v@, 1nat,
{
    let n = v.len();
    let mut i: usize = 0;
    while i < n
        invariant
            n == v@.len(),
            i <= n,
            out@ == old(out)@ + ev_stmts(v@.take(i as int)),
        decreases n - i,
    {
        assert(v@.take(i + 1).drop_last() =~= v@.take(i as int));
        assert(v@.take(i + 1)[i as int] == v@[i as int]);
        walk_stmt(&v[i], out);
        i = i + 1;
        assert(out@ =~= old(out)@ + ev_stmts(v@.take(i as int)));
    }
    assert(v@.take(n as int) =~= v@);
}

fn walk_last<'a>(l: &'a Option<FinalStmt>, out: &mut Vec<Event<'a>>)
    ensures
        final(out)@ == old(out)@ + ev_last(l),
    decreases l, 0nat,
{
    match l {
        Some(FinalStmt::Return(es)) => {
            out.push(Event::Return(es));
            walk_exprs(es, out);
            assert(final(out)@ =~= old(out)@ + ev_last(l));
        },
        _ => {
            assert(final(out)@ =~= old(out)@ + ev_last(l));
        },
    }
}

fn walk_stmt<'a>(st: &'a Statement, out: &mut Vec<Event<'a>>)
    ensures
        final(out)@ == old(out)@ + ev_stmt(st),
    decreases st, 0nat,
{
    match st {
        Statement::Assignment(a) => {
            out.push(Event::Assign(a));
            walk_vars(&a.vars, out);
            walk_exprs(&a.exprs, out);
        },
        Statement::Do(b) => {
            out.push(Event::Do(b));
            walk_block(b, out);
            out.push(Event::DoEnd(b));
        },
        Statement::Call(c) => {
            walk_call(c, out);
        },
        Statement::FunctionDeclaration(d) => {
            out.push(Event::FuncDecl(d));
            walk_body(&d.body, out);
        },
        Statement::GenericFor(f) => {
            out.push(Event::GenericFor(f));
            walk_exprs(&f.exprs, out);
            walk_block(&f.block, out);
            out.push(Event::GenericForEnd(f));
        },
        Statement::If(i) => {
            out.push(Event::If(i));
            walk_expr(&i.cond, out);
            walk_block(&i.block, out);
            walk_else_ifs(&i.else_ifs, out);
            match &i.else_block {
                Some(b) => walk_block(b, out),
                None => {},
            }
            out.push(Event::IfEnd(i));
        },
        Statement::LocalAssignment(l) => {
            out.push(Event::LocalAssign(l));
            walk_exprs(&l.exprs, out);
            out.push(Event::LocalAssignEnd(l));
        },
        Statement::LocalFunction(f) => {
            out.push(Event::LocalFunction(f));
            walk_body(&f.body, out);
        },
        Statement::NumericFor(f) => {
            out.push(Event::NumericFor(f));
            walk_expr(&f.start, out);
            walk_expr(&f.end, out);
            match &f.step {
                Some(e) => walk_expr(e, out),
                None => {},
            }
            walk_block(&f.block, out);
            out.push(Event::NumericForEnd(f));
        },
        Statement::Repeat(r) => {
            out.push(Event::Repeat(r));
            walk_block(&r.block, out);
            walk_expr(&r.until, out);
            out.push(Event::RepeatEnd(r));
        },
        Statement::While(w) => {
            out.push(Event::While(w));
            walk_expr(&w.cond, out);
            walk_block(&w.block, out);
            out.push(Event::WhileEnd(w));
        },
        Statement::Other => {},
    }
    assert(final(out)@ =~= old(out)@ + ev_stmt(st));
}

fn walk_else_ifs<'a>(v: &'a Vec<ElseIfArm>, out: &mut Vec<Event<'a>>)
    ensures
        final(out)@ == old(out)@ + ev_else_ifs(v@),
    decreases v@, 1nat,
{
    let n = v.len();
    let mut i: usize = 0;
    while i < n
        invariant
            n == v@.len(),
            i <= n,
            out@ == old(out)@ + ev_else_ifs(v@.take(i as int)),
        decreases n - i,
    {
        assert(v@.take(i + 1).drop_last() =~= v@.take(i as int));
        assert(v@.take(i + 1)[i as int] == v@[i as int]);
        walk_expr(&v[i].cond, out);
        walk_block(&v[i].block, out);
        i = i + 1;
        assert(out@ =~= old(out)@ + ev_else_ifs(v@.take(i as int)));
    }
    assert(v@.take(n as int) =~= v@);
}

fn walk_body<'a>(b: &'a FuncBody, out: &mut Vec<Event<'a>>)
    ensures
        final(out)@ == old(out)@ + ev_body(b),
    decreases b, 0nat,
{
    out.push(Event::FuncBody(b));
    walk_block(&b.block, out);
    out.push(Event::FuncBodyEnd(b));
    assert(final(out)@ =~= old(out)@ + ev_body(b));
}

fn walk_exprs<'a>(v: &'a Vec<Expr>, out: &mut Vec<Event<'a>>)
    ensures
        final(out)@ == old(out)@ + ev_exprs(v@),
    decreases v@, 1nat,
{
    let n = v.len();
    let mut i: usize = 0;
    while i < n
        invariant
            n == v@.len(),
            i <= n,
            out@ == old(out)@ + ev_exprs(v@.take(i as int)),
        decreases n - i,
    {
        assert(v@.take(i + 1).drop_last() =~= v@.take(i as int));
        assert(v@.take(i + 1)[i as int] == v@[i as int]);
        walk_expr(&v[i], out);
        i = i + 1;
        assert(out@ =~= old(out)@ + ev_exprs(v@.take(i as int)));
    }
    assert(v@.take(n as int) =~= v@);
}

fn walk_vars<'a>(v: &'a Vec<Place>, out: &mut Vec<Event<'a>>)
    ensures
        final(out)@ == old(out)@ + ev_vars(v@),
    decreases v@, 1nat,
{
    let n = v.len();
    let mut i: usize = 0;
    while i < n
        invariant
            n == v@.len(),
            i <= n,
            out@ == old(out)@ + ev_vars(v@.take(i as int)),
        decreases n - i,
    {
        assert(v@.take(i + 1).drop_last() =~= v@.take(i as int));
        assert(v@.take(i + 1)[i as int] == v@[i as int]);
        walk_var(&v[i], out);
        i = i + 1;
        assert(out@ =~= old(out)@ + ev_vars(v@.take(i as int)));
    }
    assert(v@.take(n as int) =~= v@);
}

fn walk_expr<'a>(e: &'a Expr, out: &mut Vec<Event<'a>>)
    ensures
        final(out)@ == old(out)@ + ev_expr(e),
    decreases e, 0nat,
{
    out.push(Event::Expr(e));
    match e {
        Expr::Binary { lhs, rhs, .. } => {
            walk_expr(lhs, out);
            walk_expr(rhs, out);
        },
        Expr::Paren(inner) => walk_expr(inner, out),
        Expr::Unary { operand, .. } => walk_expr(operand, out),
        Expr::Function(body) => walk_body(body, out),
        Expr::Call(c) => walk_call(c, out),
        Expr::Table(t) => walk_table(t, out),
        Expr::Var(v) => walk_var(v, out),
        _ => {},
    }
    assert(final(out)@ =~= old(out)@ + ev_expr(e));
}

fn walk_var<'a>(v: &'a Place, out: &mut Vec<Event<'a>>)
    ensures
        final(out)@ == old(out)@ + ev_var(v),
    decreases v, 0nat,
{
    out.push(Event::Var(v));
    match v {
        Place::Name(_) => {},
        Place::Expression(ve) => {
            walk_prefix(&ve.prefix, out);
            walk_suffixes(&ve.suffixes, out);
        },
    }
    assert(final(out)@ =~= old(out)@ + ev_var(v));
}

fn walk_call<'a>(c: &'a CallExpr, out: &mut Vec<Event<'a>>)
    ensures
        final(out)@ == old(out)@ + ev_call(c),
    decreases c, 0nat,
{
    out.push(Event::Call(c));
    walk_prefix(&c.prefix, out);
    walk_suffixes(&c.suffixes, out);
    assert(final(out)@ =~= old(out)@ + ev_call(c));
}

fn walk_prefix<'a>(p: &'a PrefixExpr, out: &mut Vec<Event<'a>>)
    ensures
        final(out)@ == old(out)@ + ev_prefix(p),
    decreases p, 0nat,
{
    match p {
        PrefixExpr::Expression(e) => walk_expr(e, out),
        PrefixExpr::Name(_) => {
            assert(final(out)@ =~= old(out)@ + ev_prefix(p));
        },
    }
}

fn walk_suffixes<'a>(v: &'a Vec<Postfix>, out: &mut Vec<Event<'a>>)
    ensures
        final(out)@ == old(out)@ + ev_suffixes(v@),
    decreases v@, 1nat,
{
    let n = v.len();
    let mut i: usize = 0;
    while i < n
        invariant
            n == v@.len(),
            i <= n,
            out@ == old(out)@ + ev_suffixes(v@.take(i as int)),
        decreases n - i,
    {
        assert(v@.take(i + 1).drop_last() =~= v@.take(i as int));
        assert(v@.take(i + 1)[i as int] == v@[i as int]);
        walk_suffix(&v[i], out);
        i = i + 1;
        assert(out@ =~= old(out)@ + ev_suffixes(v@.take(i as int)));
    }
    assert(v@.take(n as int) =~= v@);
}

fn walk_suffix<'a>(s: &'a Postfix, out: &mut Vec<Event<'a>>)
    ensures
        final(out)@ == old(out)@ + ev_suffix(s),
    decreases s, 0nat,
{
    match s {
        Postfix::Call(CallKind::Anonymous(args)) => walk_args(args, out),
        Postfix::Call(CallKind::Method { args, .. }) => walk_args(args, out),
        Postfix::Index(IndexKind::Brackets { expr, .. }) => walk_expr(expr, out),
        Postfix::Index(IndexKind::Dot { .. }) => {
            assert(final(out)@ =~= old(out)@ + ev_suffix(s));
        },
    }
}

fn walk_args<'a>(a: &'a Arguments, out: &mut Vec<Event<'a>>)
    ensures
        final(out)@ == old(out)@ + ev_args(a),
    decreases a, 0nat,
{
    match a {
        Arguments::Parentheses(es) => walk_exprs(es, out),
        Arguments::String(_) => {
            assert(final(out)@ =~= old(out)@ + ev_args(a));
        },
        Arguments::Table(t) => walk_table(t, out),
    }
}

fn walk_table<'a>(t: &'a TableExpr, out: &mut Vec<Event<'a>>)
    ensures
        final(out)@ == old(out)@ + ev_table(t),
    decreases t, 0nat,
{
    out.push(Event::Table(t));
    walk_fields(&t.fields, out);
    assert(final(out)@ =~= old(out)@ + ev_table(t));
}

fn walk_fields<'a>(v: &'a Vec<TableField>, out: &mut Vec<Event<'a>>)
    ensures
        final(out)@ == old(out)@ + ev_fields(v@),
    decreases v@, 1nat,
{
    let n = v.len();
    let mut i: usize = 0;
    while i < n
        invariant
            n == v@.len(),
            i <= n,
            out@ == old(out)@ + ev_fields(v@.take(i as int)),
        decreases n - i,
    {
        assert(v@.take(i + 1).drop_last() =~= v@.take(i as int));
        assert(v@.take(i + 1)[i as int] == v@[i as int]);
        walk_field(&v[i], out);
        i = i + 1;
        assert(out@ =~= old(out)@ + ev_fields(v@.take(i as int)));
    }
    assert(v@.take(n as int) =~= v@);
}

fn walk_field<'a>(f: &'a TableField, out: &mut Vec<Event<'a>>)
    ensures
        final(out)@ == old(out)@ + ev_field(f),
    decreases f, 0nat,
{
    match f {
        TableField::ExpressionKey { key, value } => {
            walk_expr(key, out);
            walk_expr(value, out);
            assert(final(out)@ =~= old(out)@ + ev_field(f));
        },
        TableField::NameKey { value, .. } => walk_expr(value, out),
        TableField::NoKey(e) => walk_expr(e, out),
    }
}

/// Everything a walk of `c` meets, in order.
pub fn chunk_events<'a>(c: &'a Chunk) -> (r: Vec<Event<'a>>)
    ensures
        r@ == ev_chunk(c),
{
    let mut out = Vec::new();
    walk_block(&c.block, &mut out);
    assert(out@ =~= ev_chunk(c));
    out
}

/// Everything a walk of `b` meets, in order.
pub fn block_events<'a>(b: &'a LuaBlock) -> (r: Vec<Event<'a>>)
    ensures
        r@ == ev_block(b),
{
    let mut out = Vec::new();
    walk_block(b, &mut out);
    assert(out@ =~= ev_block(b));
    out
}

} // verus!
