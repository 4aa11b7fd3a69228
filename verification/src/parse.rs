//! Lua source text to the syntax model, through `full_moon`'s parser.
//!
//! The parse itself is `full_moon::parse`; what it returns for a text is
//! named `lua_parse`. The functions below it only carry each node of the
//! parser's tree over to the matching node of the syntax model.

use vstd::prelude::*;
use full_moon::ast;
use full_moon::node::Node;
use full_moon::tokenizer::{Position, Token, TokenReference, TokenType};
use crate::outline::TopStatement;
use crate::syntax::{
    AssignStmt, BinaryOp, LuaBlock, CallKind, Chunk, ElseIfArm, Expr, TableField, Arguments, FuncBody,
    CallExpr, FuncDecl, FunctionName, ForIn, IfStmt, IndexKind, FinalStmt,
    LocalDecl, LocalFunc, ForRange, Param, Pos, PrefixExpr, RepeatStmt, Statement, Postfix,
    TableExpr, Tok, TokKind, UnaryOp, Place, PlaceExpr, WhileStmt,
};

verus! {

#[verifier::external_type_specification]
#[verifier::external_body]
pub struct ExPosition(Position);

#[verifier::external_type_specification]
#[verifier::external_body]
pub struct ExToken(Token);

#[verifier::external_type_specification]
#[verifier::external_body]
pub struct ExTokenReference(TokenReference);

#[verifier::external_type_specification]
#[verifier::external_body]
pub struct ExAstBlock(full_moon::ast::Block);

#[verifier::external_type_specification]
#[verifier::external_body]
pub struct ExAstLastStmt(ast::LastStmt);

#[verifier::external_type_specification]
#[verifier::external_body]
pub struct ExAstFunctionBody(ast::FunctionBody);

#[verifier::external_type_specification]
#[verifier::external_body]
pub struct ExAstParameter(ast::Parameter);

#[verifier::external_type_specification]
#[verifier::external_body]
pub struct ExAstStmt(ast::Stmt);

#[verifier::external_type_specification]
#[verifier::external_body]
pub struct ExAstAssignment(ast::Assignment);

#[verifier::external_type_specification]
#[verifier::external_body]
pub struct ExAstFunctionDeclaration(ast::FunctionDeclaration);

#[verifier::external_type_specification]
#[verifier::external_body]
pub struct ExAstGenericFor(ast::GenericFor);

#[verifier::external_type_specification]
#[verifier::external_body]
pub struct ExAstIf(ast::If);

#[verifier::external_type_specification]
#[verifier::external_body]
pub struct ExAstElseIf(ast::ElseIf);

#[verifier::external_type_specification]
#[verifier::external_body]
pub struct ExAstLocalAssignment(ast::LocalAssignment);

#[verifier::external_type_specification]
#[verifier::external_body]
pub struct ExAstLocalFunction(ast::LocalFunction);

#[verifier::external_type_specification]
#[verifier::external_body]
pub struct ExAstNumericFor(ast::NumericFor);

#[verifier::external_type_specification]
#[verifier::external_body]
pub struct ExAstExpression(ast::Expression);

#[verifier::external_type_specification]
#[verifier::external_body]
pub struct ExAstBinOp(ast::BinOp);

#[verifier::external_type_specification]
#[verifier::external_body]
pub struct ExAstUnOp(ast::UnOp);

#[verifier::external_type_specification]
#[verifier::external_body]
pub struct ExAstVar(ast::Var);

#[verifier::external_type_specification]
#[verifier::external_body]
pub struct ExAstVarExpression(ast::VarExpression);

#[verifier::external_type_specification]
#[verifier::external_body]
pub struct ExAstPrefix(ast::Prefix);

#[verifier::external_type_specification]
#[verifier::external_body]
pub struct ExAstSuffix(ast::Suffix);

#[verifier::external_type_specification]
#[verifier::external_body]
pub struct ExAstCall(ast::Call);

#[verifier::external_type_specification]
#[verifier::external_body]
pub struct ExAstIndex(ast::Index);

#[verifier::external_type_specification]
#[verifier::external_body]
pub struct ExAstFunctionArgs(ast::FunctionArgs);

#[verifier::external_type_specification]
#[verifier::external_body]
pub struct ExAstFunctionCall(ast::FunctionCall);

#[verifier::external_type_specification]
#[verifier::external_body]
pub struct ExAstTableConstructor(ast::TableConstructor);

#[verifier::external_type_specification]
#[verifier::external_body]
pub struct ExAstField(ast::Field);

/// What `full_moon::parse` makes of a text: the file's syntax and its
/// top-level statements as the outline reads them, or the parser's errors
/// as printed.
pub uninterp spec fn lua_parse(code: Seq<char>) -> Result<(Chunk, Seq<TopStatement>), Seq<Seq<char>>>;

/// Calls `full_moon::parse`. Its outcome depends on the text alone (Lua's
/// grammar as that crate implements it) and is left to the name
/// `lua_parse`; a failed parse returns at least one error (`AstResult`
/// into `Result` gives `Err` only for a non-empty list). The tree is
/// carried over node by node by the functions below, which state nothing.
#[verifier::external_body]
pub(crate) fn parse_source(code: &str) -> (r: Result<(Chunk, Vec<TopStatement>), Vec<String>>)
    ensures
        match r {
            Ok(p) => lua_parse(code@) matches Ok(q) && q == (p.0, p.1@),
            Err(es) => lua_parse(code@) matches Err(m) && m == es@.map_values(|e: String| e@)
                && es@.len() > 0,
        },
{
    match full_moon::parse(code) {
        Ok(tree) => Ok((Chunk { block: block(tree.nodes()) }, tree.nodes().stmts().map(top).collect())),
        Err(errors) => Err(errors.iter().map(|e| e.to_string()).collect()),
    }
}

/// `Position` as a `Pos`.
#[verifier::external_body]
fn pos(p: Position) -> Pos {
    Pos { line: p.line(), column: p.character(), byte: p.bytes() }
}

/// The byte offset of a `Position`.
#[verifier::external_body]
fn byte(p: Position) -> usize {
    p.bytes()
}

/// The kind and text of a token.
#[verifier::external_body]
fn token_kind(t: &Token) -> (TokKind, String) {
    match t.token_type() {
        TokenType::Identifier { identifier } => (TokKind::Identifier, identifier.to_string()),
        TokenType::StringLiteral { literal, .. } => (TokKind::StringLiteral, literal.to_string()),
        TokenType::Number { text } => (TokKind::Number, text.to_string()),
        TokenType::Symbol { symbol } => (TokKind::Symbol, symbol.to_string()),
        _ => (TokKind::Other, t.to_string()),
    }
}

/// A token reference as a `Tok`.
#[verifier::external_body]
fn tok(t: &TokenReference) -> Tok {
    let token = t.token();
    let (kind, text) = token_kind(token);
    Tok { kind, text, start: pos(token.start_position()), end: pos(token.end_position()) }
}

/// The token the model puts where the parser has a node of a Lua dialect
/// it does not read.
pub fn unknown_token() -> (r: Tok)
    ensures
        r.kind == TokKind::Other,
        r.text@ == Seq::<char>::empty(),
        r.start == (Pos { line: 0, column: 0, byte: 0 }),
        r.end == (Pos { line: 0, column: 0, byte: 0 }),
{
    Tok {
        kind: TokKind::Other,
        text: String::new(),
        start: Pos { line: 0, column: 0, byte: 0 },
        end: Pos { line: 0, column: 0, byte: 0 },
    }
}

#[verifier::external_body]
fn block(b: &ast::Block) -> LuaBlock {
    LuaBlock {
        stmts: b.stmts().map(stmt).collect(),
        last: b.last_stmt().map(last),
        start_byte: b.start_position().map(byte),
        end_byte: b.end_position().map(byte),
    }
}

#[verifier::external_body]
fn last(l: &ast::LastStmt) -> FinalStmt {
    match l {
        ast::LastStmt::Return(r) => FinalStmt::Return(r.returns().iter().map(expr).collect()),
        ast::LastStmt::Break(_) => FinalStmt::Break,
        _ => FinalStmt::Continue,
    }
}

#[verifier::external_body]
fn body(b: &ast::FunctionBody) -> FuncBody {
    FuncBody { params: b.parameters().iter().filter_map(param).collect(), block: block(b.block()) }
}

#[verifier::external_body]
fn param(p: &ast::Parameter) -> Option<Param> {
    match p {
        ast::Parameter::Ellipsis(t) => Some(Param::Ellipsis(tok(t))),
        ast::Parameter::Name(t) => Some(Param::Name(tok(t))),
        _ => None,
    }
}

#[verifier::external_body]
fn stmt(s: &ast::Stmt) -> Statement {
    match s {
        ast::Stmt::Assignment(a) => Statement::Assignment(assignment(a)),
        ast::Stmt::Do(d) => Statement::Do(block(d.block())),
        ast::Stmt::FunctionCall(c) => Statement::Call(call(c)),
        ast::Stmt::FunctionDeclaration(f) => Statement::FunctionDeclaration(declaration(f)),
        ast::Stmt::GenericFor(f) => Statement::GenericFor(generic_for(f)),
        ast::Stmt::If(i) => Statement::If(if_stmt(i)),
        _ => loop_or_local(s),
    }
}

#[verifier::external_body]
fn loop_or_local(s: &ast::Stmt) -> Statement {
    match s {
        ast::Stmt::LocalAssignment(l) => Statement::LocalAssignment(local_assignment(l)),
        ast::Stmt::LocalFunction(f) => Statement::LocalFunction(local_function(f)),
        ast::Stmt::NumericFor(f) => Statement::NumericFor(numeric_for(f)),
        ast::Stmt::Repeat(r) => Statement::Repeat(RepeatStmt { block: block(r.block()), until: expr(r.until()) }),
        ast::Stmt::While(w) => Statement::While(WhileStmt { cond: expr(w.condition()), block: block(w.block()) }),
        _ => Statement::Other,
    }
}

#[verifier::external_body]
fn assignment(a: &ast::Assignment) -> AssignStmt {
    AssignStmt {
        vars: a.variables().iter().map(var).collect(),
        exprs: a.expressions().iter().map(expr).collect(),
    }
}

#[verifier::external_body]
fn declaration(f: &ast::FunctionDeclaration) -> FuncDecl {
    let name = FunctionName {
        names: f.name().names().iter().map(tok).collect(),
        method: f.name().method_name().map(tok),
    };
    FuncDecl { name, body: body(f.body()) }
}

#[verifier::external_body]
fn generic_for(f: &ast::GenericFor) -> ForIn {
    ForIn {
        names: f.names().iter().map(tok).collect(),
        exprs: f.expressions().iter().map(expr).collect(),
        block: block(f.block()),
    }
}

#[verifier::external_body]
fn if_stmt(i: &ast::If) -> IfStmt {
    IfStmt {
        cond: expr(i.condition()),
        block: block(i.block()),
        else_ifs: i.else_if().into_iter().flatten().map(else_if).collect(),
        else_block: i.else_block().map(block),
    }
}

#[verifier::external_body]
fn else_if(e: &ast::ElseIf) -> ElseIfArm {
    ElseIfArm { cond: expr(e.condition()), block: block(e.block()) }
}

#[verifier::external_body]
fn local_assignment(l: &ast::LocalAssignment) -> LocalDecl {
    LocalDecl {
        names: l.names().iter().map(tok).collect(),
        exprs: l.expressions().iter().map(expr).collect(),
        end_byte: l.end_position().map(byte),
    }
}

#[verifier::external_body]
fn local_function(f: &ast::LocalFunction) -> LocalFunc {
    LocalFunc { name: tok(f.name()), body: body(f.body()), start_byte: f.start_position().map(byte) }
}

#[verifier::external_body]
fn numeric_for(f: &ast::NumericFor) -> ForRange {
    ForRange {
        var: tok(f.index_variable()),
        start: expr(f.start()),
        end: expr(f.end()),
        step: f.step().map(expr),
        block: block(f.block()),
    }
}

#[verifier::external_body]
fn expr(e: &ast::Expression) -> Expr {
    match e {
        ast::Expression::BinaryOperator { lhs, binop, rhs } => binary(lhs, binop, rhs),
        ast::Expression::Parentheses { expression, .. } => Expr::Paren(Box::new(expr(expression))),
        ast::Expression::UnaryOperator { unop, expression } => unary(unop, expression),
        ast::Expression::Function(f) => Expr::Function(body(f.body())),
        ast::Expression::FunctionCall(c) => Expr::Call(call(c)),
        _ => leaf(e),
    }
}

#[verifier::external_body]
fn leaf(e: &ast::Expression) -> Expr {
    match e {
        ast::Expression::TableConstructor(t) => Expr::Table(table(t)),
        ast::Expression::Number(t) => Expr::Number(tok(t)),
        ast::Expression::String(t) => Expr::String(tok(t)),
        ast::Expression::Symbol(t) => Expr::Symbol(tok(t)),
        ast::Expression::Var(v) => Expr::Var(var(v)),
        _ => Expr::Paren(Box::new(Expr::Symbol(unknown_token()))),
    }
}

#[verifier::external_body]
fn binary(lhs: &ast::Expression, op: &ast::BinOp, rhs: &ast::Expression) -> Expr {
    let kind = match op {
        ast::BinOp::Plus(_) => BinaryOp::Plus,
        ast::BinOp::Minus(_) => BinaryOp::Minus,
        ast::BinOp::TwoDots(_) => BinaryOp::TwoDots,
        _ => BinaryOp::Other,
    };
    Expr::Binary { lhs: Box::new(expr(lhs)), op: kind, op_tok: tok(op.token()), rhs: Box::new(expr(rhs)) }
}

#[verifier::external_body]
fn unary(op: &ast::UnOp, operand: &ast::Expression) -> Expr {
    let kind = match op {
        ast::UnOp::Hash(_) => UnaryOp::Hash,
        _ => UnaryOp::Other,
    };
    Expr::Unary { op: kind, op_tok: tok(op.token()), operand: Box::new(expr(operand)) }
}

#[verifier::external_body]
fn var(v: &ast::Var) -> Place {
    match v {
        ast::Var::Name(t) => Place::Name(tok(t)),
        ast::Var::Expression(ve) => Place::Expression(var_expression(ve)),
        _ => Place::Name(unknown_token()),
    }
}

#[verifier::external_body]
fn var_expression(ve: &ast::VarExpression) -> PlaceExpr {
    PlaceExpr { prefix: prefix(ve.prefix()), suffixes: ve.suffixes().filter_map(suffix).collect() }
}

#[verifier::external_body]
fn prefix(p: &ast::Prefix) -> PrefixExpr {
    match p {
        ast::Prefix::Name(t) => PrefixExpr::Name(tok(t)),
        ast::Prefix::Expression(e) => PrefixExpr::Expression(Box::new(expr(e))),
        _ => PrefixExpr::Expression(Box::new(Expr::Symbol(unknown_token()))),
    }
}

#[verifier::external_body]
fn suffix(s: &ast::Suffix) -> Option<Postfix> {
    match s {
        ast::Suffix::Call(c) => call_suffix(c).map(Postfix::Call),
        ast::Suffix::Index(i) => index(i).map(Postfix::Index),
        _ => None,
    }
}

#[verifier::external_body]
fn call_suffix(c: &ast::Call) -> Option<CallKind> {
    match c {
        ast::Call::AnonymousCall(a) => Some(CallKind::Anonymous(args(a))),
        ast::Call::MethodCall(m) => Some(CallKind::Method { name: tok(m.name()), args: args(m.args()) }),
        _ => None,
    }
}

#[verifier::external_body]
fn index(i: &ast::Index) -> Option<IndexKind> {
    match i {
        ast::Index::Brackets { brackets, expression } => Some(
            IndexKind::Brackets { open: tok(brackets.tokens().0), expr: expr(expression) },
        ),
        ast::Index::Dot { name, .. } => Some(IndexKind::Dot { name: tok(name) }),
        _ => None,
    }
}

#[verifier::external_body]
fn args(a: &ast::FunctionArgs) -> Arguments {
    match a {
        ast::FunctionArgs::Parentheses { arguments, .. } => Arguments::Parentheses(arguments.iter().map(expr).collect()),
        ast::FunctionArgs::String(t) => Arguments::String(tok(t)),
        ast::FunctionArgs::TableConstructor(t) => Arguments::Table(table(t)),
        _ => Arguments::Parentheses(Vec::new()),
    }
}

#[verifier::external_body]
fn call(c: &ast::FunctionCall) -> CallExpr {
    CallExpr { prefix: prefix(c.prefix()), suffixes: c.suffixes().filter_map(suffix).collect() }
}

#[verifier::external_body]
fn table(t: &ast::TableConstructor) -> TableExpr {
    TableExpr { open: tok(t.braces().tokens().0), fields: t.fields().iter().filter_map(field).collect() }
}

#[verifier::external_body]
fn field(f: &ast::Field) -> Option<TableField> {
    match f {
        ast::Field::ExpressionKey { key, value, .. } => Some(TableField::ExpressionKey { key: expr(key), value: expr(value) }),
        ast::Field::NameKey { key, value, .. } => Some(TableField::NameKey { key: tok(key), value: expr(value) }),
        ast::Field::NoKey(e) => Some(TableField::NoKey(expr(e))),
        _ => None,
    }
}

/// A top-level statement as the outline reads it: nodes printed as the
/// parser prints them.
#[verifier::external_body]
fn top(s: &ast::Stmt) -> TopStatement {
    match s {
        ast::Stmt::FunctionDeclaration(f) => top_declaration(f),
        ast::Stmt::Assignment(a) => TopStatement::Assignment {
            vars: a.variables().iter().map(|v| v.to_string()).collect(),
            exprs: a.expressions().iter().map(|e| e.to_string()).collect(),
        },
        ast::Stmt::FunctionCall(c) => TopStatement::Call { text: c.to_string() },
        _ => TopStatement::Other,
    }
}

#[verifier::external_body]
fn top_declaration(f: &ast::FunctionDeclaration) -> TopStatement {
    TopStatement::FunctionDeclaration {
        names: f.name().names().iter().map(|t| t.to_string()).collect(),
        method: f.name().method_name().map(|m| m.to_string()),
        line: f.name().names().iter().next().and_then(|t| t.start_position()).map(|p| p.line()),
        arity: f.body().parameters().len(),
    }
}

} // verus!
