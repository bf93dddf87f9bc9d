//! Ruff's Python parser: a source is parsed in module mode and its tree is
//! written, one for one, in the library's syntax types.
//!
//! Ruff's node types are declared opaque; each function below that reads
//! them only moves their fields into the library's types.

use ruff_python_ast::{
    BoolOp, ElifElseClause, Expr, ExprAttribute, ExprBinOp, ExprBoolOp, ExprCall, ExprCompare,
    ExprSubscript, ExprUnaryOp, Mod, Operator, ParameterWithDefault, Stmt, StmtClassDef,
    StmtFunctionDef, StmtIf, UnaryOp,
};
use ruff_python_parser::{parse, Mode, ParseOptions};
use ruff_text_size::Ranged;
use vstd::prelude::*;

use crate::python_syntax::{
    PyBoolOp, PyExpr, PyMod, PyOperator, PyParameter, PyStmt, PyUnaryOp, TextRange,
};

verus! {

/// A Ruff expression.
#[verifier::external_type_specification]
#[verifier::external_body]
pub struct ExExpr(Expr);

/// A Ruff statement.
#[verifier::external_type_specification]
#[verifier::external_body]
pub struct ExStmt(Stmt);

/// A Ruff binary operation.
#[verifier::external_type_specification]
#[verifier::external_body]
pub struct ExExprBinOp(ExprBinOp);

/// A Ruff unary operation.
#[verifier::external_type_specification]
#[verifier::external_body]
pub struct ExExprUnaryOp(ExprUnaryOp);

/// A Ruff comparison.
#[verifier::external_type_specification]
#[verifier::external_body]
pub struct ExExprCompare(ExprCompare);

/// A Ruff boolean operation.
#[verifier::external_type_specification]
#[verifier::external_body]
pub struct ExExprBoolOp(ExprBoolOp);

/// A Ruff call.
#[verifier::external_type_specification]
#[verifier::external_body]
pub struct ExExprCall(ExprCall);

/// A Ruff attribute access.
#[verifier::external_type_specification]
#[verifier::external_body]
pub struct ExExprAttribute(ExprAttribute);

/// A Ruff subscript.
#[verifier::external_type_specification]
#[verifier::external_body]
pub struct ExExprSubscript(ExprSubscript);

/// A Ruff function definition.
#[verifier::external_type_specification]
#[verifier::external_body]
pub struct ExStmtFunctionDef(StmtFunctionDef);

/// A Ruff class definition.
#[verifier::external_type_specification]
#[verifier::external_body]
pub struct ExStmtClassDef(StmtClassDef);

/// A Ruff `if` statement.
#[verifier::external_type_specification]
#[verifier::external_body]
pub struct ExStmtIf(StmtIf);

/// A Ruff `elif` or `else` clause.
#[verifier::external_type_specification]
#[verifier::external_body]
pub struct ExElifElseClause(ElifElseClause);

/// A Ruff parameter with its default.
#[verifier::external_type_specification]
#[verifier::external_body]
pub struct ExParameterWithDefault(ParameterWithDefault);

/// A Ruff binary operator.
#[verifier::external_type_specification]
#[verifier::external_body]
pub struct ExOperator(Operator);

/// A Ruff unary operator.
#[verifier::external_type_specification]
#[verifier::external_body]
pub struct ExUnaryOp(UnaryOp);

/// A Ruff boolean operator.
#[verifier::external_type_specification]
#[verifier::external_body]
pub struct ExBoolOp(BoolOp);

/// What Ruff's parser gives for a source in module mode, in the library's
/// syntax types: the module's statements (or the other mode's tree), or
/// the debug text of the parse error.
pub uninterp spec fn ruff_module(source: Seq<char>) -> Result<PyMod, Seq<char>>;

/// Calls `ruff_python_parser::parse` in module mode and writes the tree in
/// the library's types. The contract claims only that the result is the
/// named function of the source.
#[verifier::external_body]
pub(crate) fn parse_module(source: &str) -> (r: Result<PyMod, String>)
    ensures
        match r {
            Ok(m) => ruff_module(source@) == Ok::<PyMod, Seq<char>>(m),
            Err(e) => ruff_module(source@) == Err::<PyMod, Seq<char>>(e@),
        },
{
    match parse(source, ParseOptions::from(Mode::Module)) {
        Ok(parsed) => Ok(match parsed.into_syntax() {
            Mod::Module(m) => PyMod::Module { body: py_stmts(&m.body) },
            Mod::Expression(_) => PyMod::Expression,
        }),
        Err(e) => Err(format!("{:?}", e)),
    }
}

/// Writes Ruff's statements in the library's form, in order.
#[verifier::external_body]
fn py_stmts(ss: &[Stmt]) -> Vec<PyStmt> {
    ss.iter().map(py_stmt).collect()
}

/// Writes Ruff's expressions in the library's form, in order.
#[verifier::external_body]
fn py_exprs(es: &[Expr]) -> Vec<PyExpr> {
    es.iter().map(py_expr).collect()
}

/// Writes a Ruff statement in the library's form: the compound kinds here,
/// the others below.
#[verifier::external_body]
fn py_stmt(s: &Stmt) -> PyStmt {
    let range = TextRange { start: s.range().start().to_usize(), end: s.range().end().to_usize() };
    match s {
        Stmt::FunctionDef(f) => py_function(f, range),
        Stmt::ClassDef(c) => py_class(c, range),
        Stmt::Return(r) => PyStmt::Return { range, value: py_opt_expr(&r.value) },
        Stmt::Assign(a) => PyStmt::Assign { range, value: Box::new(py_expr(&a.value)) },
        Stmt::If(i) => py_if(i, range),
        Stmt::Expr(e) => PyStmt::Expr { range, value: Box::new(py_expr(&e.value)) },
        other => py_block_stmt(other, range),
    }
}

/// Writes a Ruff loop or `try` statement in the library's form.
#[verifier::external_body]
fn py_block_stmt(s: &Stmt, range: TextRange) -> PyStmt {
    match s {
        Stmt::For(f) => PyStmt::For { range, body: py_stmts(&f.body) },
        Stmt::While(w) => PyStmt::While { range, body: py_stmts(&w.body) },
        Stmt::Try(t) => PyStmt::Try { range, body: py_stmts(&t.body) },
        other => py_simple_stmt(other, range),
    }
}

/// Writes a Ruff simple statement in the library's form.
#[verifier::external_body]
fn py_simple_stmt(s: &Stmt, range: TextRange) -> PyStmt {
    match s {
        Stmt::AugAssign(_) => PyStmt::AugAssign { range },
        Stmt::With(_) => PyStmt::With { range },
        Stmt::Break(_) => PyStmt::Break { range },
        Stmt::Continue(_) => PyStmt::Continue { range },
        Stmt::Pass(_) => PyStmt::Pass { range },
        Stmt::Raise(_) => PyStmt::Raise { range },
        Stmt::Assert(_) => PyStmt::Assert { range },
        Stmt::Import(_) => PyStmt::Import { range },
        Stmt::ImportFrom(_) => PyStmt::ImportFrom { range },
        _ => PyStmt::Other { range },
    }
}

/// Writes a Ruff function definition in the library's form.
#[verifier::external_body]
fn py_function(f: &StmtFunctionDef, range: TextRange) -> PyStmt {
    PyStmt::FunctionDef {
        range,
        name: f.name.to_string(),
        args: f.parameters.args.iter().map(py_param).collect(),
        body: py_stmts(&f.body),
    }
}

/// Writes a Ruff class definition in the library's form.
#[verifier::external_body]
fn py_class(c: &StmtClassDef, range: TextRange) -> PyStmt {
    PyStmt::ClassDef { range, name: c.name.to_string(), body: py_stmts(&c.body) }
}

/// Writes a Ruff parameter in the library's form.
#[verifier::external_body]
fn py_param(p: &ParameterWithDefault) -> PyParameter {
    let range = &p.parameter.range;
    PyParameter {
        range: TextRange { start: range.start().to_usize(), end: range.end().to_usize() },
        name: p.parameter.name.to_string(),
    }
}

/// Writes a Ruff `if` statement in the library's form.
#[verifier::external_body]
fn py_if(i: &StmtIf, range: TextRange) -> PyStmt {
    PyStmt::If {
        range,
        body: py_stmts(&i.body),
        elif_else_clauses: i.elif_else_clauses.iter().map(py_clause).collect(),
    }
}

/// Writes the statements of a Ruff `elif` or `else` clause.
#[verifier::external_body]
fn py_clause(c: &ElifElseClause) -> Vec<PyStmt> {
    py_stmts(&c.body)
}

/// Writes an optional Ruff expression in the library's form.
#[verifier::external_body]
fn py_opt_expr(e: &Option<Box<Expr>>) -> Option<Box<PyExpr>> {
    match e {
        Some(e) => Some(Box::new(py_expr(e))),
        None => None,
    }
}

/// Writes a Ruff expression in the library's form: names and operations
/// here, the other kinds below.
#[verifier::external_body]
fn py_expr(e: &Expr) -> PyExpr {
    let range = TextRange { start: e.range().start().to_usize(), end: e.range().end().to_usize() };
    match e {
        Expr::Name(n) => PyExpr::Name { range, id: n.id.to_string() },
        Expr::BinOp(b) => py_binop(b, range),
        Expr::UnaryOp(u) => py_unary_expr(u, range),
        Expr::Compare(c) => py_compare(c, range),
        Expr::BoolOp(b) => py_boolop(b, range),
        Expr::Call(c) => py_call(c, range),
        Expr::Attribute(a) => py_attribute(a, range),
        Expr::Subscript(s) => py_subscript(s, range),
        other => py_leaf_expr(other, range),
    }
}

/// Writes a Ruff binary operation in the library's form.
#[verifier::external_body]
fn py_binop(b: &ExprBinOp, range: TextRange) -> PyExpr {
    PyExpr::BinOp {
        range,
        left: Box::new(py_expr(&b.left)),
        op: py_operator(&b.op),
        right: Box::new(py_expr(&b.right)),
    }
}

/// Writes a Ruff unary operation in the library's form.
#[verifier::external_body]
fn py_unary_expr(u: &ExprUnaryOp, range: TextRange) -> PyExpr {
    PyExpr::UnaryOp { range, op: py_unary_op(&u.op), operand: Box::new(py_expr(&u.operand)) }
}

/// Writes a Ruff comparison in the library's form.
#[verifier::external_body]
fn py_compare(c: &ExprCompare, range: TextRange) -> PyExpr {
    PyExpr::Compare { range, left: Box::new(py_expr(&c.left)), comparators: py_exprs(&c.comparators) }
}

/// Writes a Ruff boolean operation in the library's form.
#[verifier::external_body]
fn py_boolop(b: &ExprBoolOp, range: TextRange) -> PyExpr {
    PyExpr::BoolOp { range, op: py_bool_op(&b.op), values: py_exprs(&b.values) }
}

/// Writes a Ruff call in the library's form: its callee and positional
/// arguments.
#[verifier::external_body]
fn py_call(c: &ExprCall, range: TextRange) -> PyExpr {
    PyExpr::Call { range, func: Box::new(py_expr(&c.func)), args: py_exprs(&c.arguments.args) }
}

/// Writes a Ruff attribute access in the library's form.
#[verifier::external_body]
fn py_attribute(a: &ExprAttribute, range: TextRange) -> PyExpr {
    PyExpr::Attribute { range, value: Box::new(py_expr(&a.value)), attr: a.attr.to_string() }
}

/// Writes a Ruff subscript in the library's form.
#[verifier::external_body]
fn py_subscript(s: &ExprSubscript, range: TextRange) -> PyExpr {
    PyExpr::Subscript { range, value: Box::new(py_expr(&s.value)) }
}

/// Writes a Ruff literal, container or other expression in the library's
/// form.
#[verifier::external_body]
fn py_leaf_expr(e: &Expr, range: TextRange) -> PyExpr {
    match e {
        Expr::NumberLiteral(_) => PyExpr::NumberLiteral { range },
        Expr::StringLiteral(_) => PyExpr::StringLiteral { range },
        Expr::BytesLiteral(_) => PyExpr::BytesLiteral { range },
        Expr::BooleanLiteral(_) => PyExpr::BooleanLiteral { range },
        Expr::NoneLiteral(_) => PyExpr::NoneLiteral { range },
        Expr::List(_) => PyExpr::List { range },
        Expr::Tuple(_) => PyExpr::Tuple { range },
        Expr::Set(_) => PyExpr::SetDisplay { range },
        other => py_display_expr(other, range),
    }
}

/// Writes a Ruff dictionary, lambda, comprehension or other expression in
/// the library's form.
#[verifier::external_body]
fn py_display_expr(e: &Expr, range: TextRange) -> PyExpr {
    match e {
        Expr::Dict(_) => PyExpr::Dict { range },
        Expr::Lambda(_) => PyExpr::Lambda { range },
        Expr::ListComp(_) => PyExpr::ListComp { range },
        Expr::DictComp(_) => PyExpr::DictComp { range },
        Expr::SetComp(_) => PyExpr::SetComp { range },
        _ => PyExpr::Other { range },
    }
}

/// Writes a Ruff binary operator in the library's form.
#[verifier::external_body]
fn py_operator(op: &Operator) -> PyOperator {
    match op {
        Operator::Add => PyOperator::Add, Operator::Sub => PyOperator::Sub,
        Operator::Mult => PyOperator::Mult, Operator::MatMult => PyOperator::MatMult,
        Operator::Div => PyOperator::Div, Operator::Mod => PyOperator::Mod,
        Operator::Pow => PyOperator::Pow, Operator::LShift => PyOperator::LShift,
        Operator::RShift => PyOperator::RShift, Operator::BitOr => PyOperator::BitOr,
        Operator::BitXor => PyOperator::BitXor, Operator::BitAnd => PyOperator::BitAnd,
        Operator::FloorDiv => PyOperator::FloorDiv,
    }
}

/// Writes a Ruff unary operator in the library's form.
#[verifier::external_body]
fn py_unary_op(op: &UnaryOp) -> PyUnaryOp {
    match op {
        UnaryOp::Invert => PyUnaryOp::Invert,
        UnaryOp::Not => PyUnaryOp::Not,
        UnaryOp::UAdd => PyUnaryOp::UAdd,
        UnaryOp::USub => PyUnaryOp::USub,
    }
}

/// Writes a Ruff boolean operator in the library's form.
#[verifier::external_body]
fn py_bool_op(op: &BoolOp) -> PyBoolOp {
    match op {
        BoolOp::And => PyBoolOp::And,
        BoolOp::Or => PyBoolOp::Or,
    }
}

} // verus!
