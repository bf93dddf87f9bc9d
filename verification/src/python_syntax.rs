//! The parts of a Python syntax tree that the conversion to the generic AST
//! reads, and that conversion.
//!
//! Every statement, parameter and expression becomes one node. A node's id
//! is taken before its children are converted (ids count up in pre-order),
//! and the node is added after its children (nodes are stored in
//! post-order).

use vstd::prelude::*;
use vstd::utf8::encode_utf8;

use crate::ast::{lemma_first_with_id, node_index, Ast, AstError, AstNode, NodeId, NodeKind, Span};
use crate::text::line_count;
use crate::python_ast::{char_position, PythonAstConverter, PythonAstParser, PythonParser};
use crate::ruff_syntax::{parse_module, ruff_module};

verus! {

/// A range of byte offsets in the source.
#[derive(Debug, Clone, Copy, PartialEq, Eq, Structural)]
pub struct TextRange {
    pub start: usize,
    pub end: usize,
}

/// Binary operators.
#[derive(Debug, Clone, Copy, PartialEq, Eq, Structural)]
pub enum PyOperator {
    Add,
    Sub,
    Mult,
    MatMult,
    Div,
    Mod,
    Pow,
    LShift,
    RShift,
    BitOr,
    BitXor,
    BitAnd,
    FloorDiv,
}

/// Unary operators.
#[derive(Debug, Clone, Copy, PartialEq, Eq, Structural)]
pub enum PyUnaryOp {
    Invert,
    Not,
    UAdd,
    USub,
}

/// Boolean operators.
#[derive(Debug, Clone, Copy, PartialEq, Eq, Structural)]
pub enum PyBoolOp {
    And,
    Or,
}

/// A Python expression, as far as the conversion reads it.
#[derive(Debug)]
pub enum PyExpr {
    Name { range: TextRange, id: String },
    NumberLiteral { range: TextRange },
    StringLiteral { range: TextRange },
    BytesLiteral { range: TextRange },
    BooleanLiteral { range: TextRange },
    NoneLiteral { range: TextRange },
    BinOp { range: TextRange, left: Box<PyExpr>, op: PyOperator, right: Box<PyExpr> },
    UnaryOp { range: TextRange, op: PyUnaryOp, operand: Box<PyExpr> },
    Compare { range: TextRange, left: Box<PyExpr>, comparators: Vec<PyExpr> },
    BoolOp { range: TextRange, op: PyBoolOp, values: Vec<PyExpr> },
    /// A call: the callee and the positional arguments.
    Call { range: TextRange, func: Box<PyExpr>, args: Vec<PyExpr> },
    Attribute { range: TextRange, value: Box<PyExpr>, attr: String },
    Subscript { range: TextRange, value: Box<PyExpr> },
    List { range: TextRange },
    Tuple { range: TextRange },
    SetDisplay { range: TextRange },
    Dict { range: TextRange },
    Lambda { range: TextRange },
    ListComp { range: TextRange },
    DictComp { range: TextRange },
    SetComp { range: TextRange },
    /// Any other expression.
    Other { range: TextRange },
}

/// The name of a binary operator, as `{:?}` prints it.
pub open spec fn operator_name(op: PyOperator) -> Seq<char> {
    match op {
        PyOperator::Add => "Add"@,
        PyOperator::Sub => "Sub"@,
        PyOperator::Mult => "Mult"@,
        PyOperator::MatMult => "MatMult"@,
        PyOperator::Div => "Div"@,
        PyOperator::Mod => "Mod"@,
        PyOperator::Pow => "Pow"@,
        PyOperator::LShift => "LShift"@,
        PyOperator::RShift => "RShift"@,
        PyOperator::BitOr => "BitOr"@,
        PyOperator::BitXor => "BitXor"@,
        PyOperator::BitAnd => "BitAnd"@,
        PyOperator::FloorDiv => "FloorDiv"@,
    }
}

fn operator_text(op: PyOperator) -> (r: String)
    ensures
        r@ == operator_name(op),
{
    match op {
        PyOperator::Add => "Add".to_owned(),
        PyOperator::Sub => "Sub".to_owned(),
        PyOperator::Mult => "Mult".to_owned(),
        PyOperator::MatMult => "MatMult".to_owned(),
        PyOperator::Div => "Div".to_owned(),
        PyOperator::Mod => "Mod".to_owned(),
        PyOperator::Pow => "Pow".to_owned(),
        PyOperator::LShift => "LShift".to_owned(),
        PyOperator::RShift => "RShift".to_owned(),
        PyOperator::BitOr => "BitOr".to_owned(),
        PyOperator::BitXor => "BitXor".to_owned(),
        PyOperator::BitAnd => "BitAnd".to_owned(),
        PyOperator::FloorDiv => "FloorDiv".to_owned(),
    }
}

/// The name of a unary operator, as `{:?}` prints it.
pub open spec fn unary_name(op: PyUnaryOp) -> Seq<char> {
    match op {
        PyUnaryOp::Invert => "Invert"@,
        PyUnaryOp::Not => "Not"@,
        PyUnaryOp::UAdd => "UAdd"@,
        PyUnaryOp::USub => "USub"@,
    }
}

fn unary_text(op: PyUnaryOp) -> (r: String)
    ensures
        r@ == unary_name(op),
{
    match op {
        PyUnaryOp::Invert => "Invert".to_owned(),
        PyUnaryOp::Not => "Not".to_owned(),
        PyUnaryOp::UAdd => "UAdd".to_owned(),
        PyUnaryOp::USub => "USub".to_owned(),
    }
}

/// The name of a boolean operator, as `{:?}` prints it.
pub open spec fn bool_op_name(op: PyBoolOp) -> Seq<char> {
    match op {
        PyBoolOp::And => "And"@,
        PyBoolOp::Or => "Or"@,
    }
}

fn bool_op_text(op: PyBoolOp) -> (r: String)
    ensures
        r@ == bool_op_name(op),
{
    match op {
        PyBoolOp::And => "And".to_owned(),
        PyBoolOp::Or => "Or".to_owned(),
    }
}

/// The operator text law: a converted binary operation records its
/// operator by its debug name ("Add" for `+`, "Sub" for `-`, and so on),
/// and different operators get different names, so `a + b` and `a - b`
/// never convert to the same node.
pub proof fn lemma_operator_names_distinct(op1: PyOperator, op2: PyOperator)
    ensures
        op1 != op2 ==> operator_name(op1) != operator_name(op2),
        op1 == PyOperator::Add ==> operator_name(op1) == "Add"@,
        op1 == PyOperator::Sub ==> operator_name(op1) == "Sub"@,
        op1 == PyOperator::Mult ==> operator_name(op1) == "Mult"@,
        op1 == PyOperator::Div ==> operator_name(op1) == "Div"@,
{
    reveal_strlit("Add");
    reveal_strlit("Sub");
    reveal_strlit("Mult");
    reveal_strlit("MatMult");
    reveal_strlit("Div");
    reveal_strlit("Mod");
    reveal_strlit("Pow");
    reveal_strlit("LShift");
    reveal_strlit("RShift");
    reveal_strlit("BitOr");
    reveal_strlit("BitXor");
    reveal_strlit("BitAnd");
    reveal_strlit("FloorDiv");
    let a = operator_name(op1);
    let b = operator_name(op2);
    if op1 != op2 && a == b {
        assert(a.len() == b.len());
        assert(a[0] == b[0]);
        if a.len() > 3 {
            assert(a[3] == b[3]);
        }
        if a.len() > 1 {
            assert(a[1] == b[1]);
        }
    }
}

/// Unary and boolean operators, too, are recorded by names that tell them
/// apart.
pub proof fn lemma_unary_and_bool_names_distinct(u1: PyUnaryOp, u2: PyUnaryOp, b1: PyBoolOp, b2: PyBoolOp)
    ensures
        u1 != u2 ==> unary_name(u1) != unary_name(u2),
        b1 != b2 ==> bool_op_name(b1) != bool_op_name(b2),
{
    reveal_strlit("Invert");
    reveal_strlit("Not");
    reveal_strlit("UAdd");
    reveal_strlit("USub");
    reveal_strlit("And");
    reveal_strlit("Or");
    let a = unary_name(u1);
    let b = unary_name(u2);
    if u1 != u2 && a == b {
        assert(a.len() == b.len());
        assert(a[0] == b[0]);
        if a.len() > 1 {
            assert(a[1] == b[1]);
        }
    }
    if b1 != b2 {
        assert(bool_op_name(b1).len() != bool_op_name(b2).len());
    }
}

/// Number of nodes an expression converts to.
pub open spec fn expr_count(e: PyExpr) -> nat
    decreases e, 0nat,
{
    1 + match e {
        PyExpr::BinOp { left, right, .. } => expr_count(*left) + expr_count(*right),
        PyExpr::UnaryOp { operand, .. } => expr_count(*operand),
        PyExpr::Compare { left, comparators, .. } => expr_count(*left) + exprs_count(
            comparators@,
        ),
        PyExpr::BoolOp { values, .. } => exprs_count(values@),
        PyExpr::Call { func, args, .. } => expr_count(*func) + exprs_count(args@),
        PyExpr::Attribute { value, .. } => expr_count(*value),
        PyExpr::Subscript { value, .. } => expr_count(*value),
        _ => 0nat,
    }
}

/// Number of nodes a list of expressions converts to.
pub open spec fn exprs_count(es: Seq<PyExpr>) -> nat
    decreases es, es.len(),
{
    if es.len() == 0 {
        0
    } else {
        exprs_count(es.drop_last()) + expr_count(es.last())
    }
}

/// The ids of the nodes of a list of expressions converted from id `n` on:
/// each expression's node takes the first id of its turn.
pub open spec fn exprs_roots(es: Seq<PyExpr>, n: nat) -> Seq<NodeId>
    decreases es.len(),
{
    if es.len() == 0 {
        Seq::<NodeId>::empty()
    } else {
        exprs_roots(es.drop_last(), n).push((n + exprs_count(es.drop_last())) as NodeId)
    }
}

/// A span covers a range of the source: its offsets, and the line and
/// column of each end.
pub open spec fn span_covers(span: Span, bytes: Seq<u8>, range: TextRange) -> bool {
    &&& span.start == range.start
    &&& span.end == range.end
    &&& span.line_start == char_position(bytes, range.start).0
    &&& span.column_start == char_position(bytes, range.start).1
    &&& span.line_end == char_position(bytes, range.end).0
    &&& span.column_end == char_position(bytes, range.end).1
}

/// A node is the converted node of a range: its id, its kind (named as it is
/// displayed), its span, its children's ids and its text.
pub open spec fn node_is(
    node: AstNode,
    id: nat,
    kind: Seq<char>,
    bytes: Seq<u8>,
    range: TextRange,
    children: Seq<NodeId>,
    text: Option<Seq<char>>,
) -> bool {
    &&& node.id == id
    &&& node.kind.display() == kind
    &&& span_covers(node.span, bytes, range)
    &&& node.children@ == children
    &&& match text {
        Some(t) => node.text matches Some(s) && s@ == t,
        None => node.text is None,
    }
}

/// The nodes `seg` are what converting the expression from id `n` adds, in
/// order.
pub open spec fn expr_emits(bytes: Seq<u8>, e: PyExpr, n: nat, seg: Seq<AstNode>) -> bool
    decreases e, 0nat,
{
    seg.len() == expr_count(e) && seg.len() > 0 && match e {
        PyExpr::Name { range, id } => node_is(
            seg.last(),
            n,
            "Identifier"@,
            bytes,
            range,
            seq![],
            Some(id@),
        ),
        PyExpr::NumberLiteral { range } => node_is(
            seg.last(),
            n,
            "Literal"@,
            bytes,
            range,
            seq![],
            Some("$NUM"@),
        ),
        PyExpr::StringLiteral { range } => node_is(
            seg.last(),
            n,
            "Literal"@,
            bytes,
            range,
            seq![],
            Some("$STR"@),
        ),
        PyExpr::BytesLiteral { range } => node_is(
            seg.last(),
            n,
            "Literal"@,
            bytes,
            range,
            seq![],
            Some("$BYTES"@),
        ),
        PyExpr::BooleanLiteral { range } => node_is(
            seg.last(),
            n,
            "Literal"@,
            bytes,
            range,
            seq![],
            Some("$BOOL"@),
        ),
        PyExpr::NoneLiteral { range } => node_is(
            seg.last(),
            n,
            "Literal"@,
            bytes,
            range,
            seq![],
            Some("$NONE"@),
        ),
        PyExpr::BinOp { range, left, op, right } => {
            let c1 = expr_count(*left);
            &&& expr_emits(bytes, *left, n + 1, seg.subrange(0, c1 as int))
            &&& expr_emits(
                bytes,
                *right,
                n + 1 + c1,
                seg.subrange(c1 as int, seg.len() - 1),
            )
            &&& node_is(
                seg.last(),
                n,
                "BinaryOp"@,
                bytes,
                range,
                seq![(n + 1) as NodeId, (n + 1 + c1) as NodeId],
                Some(operator_name(op)),
            )
        },
        PyExpr::UnaryOp { range, op, operand } => {
            &&& expr_emits(bytes, *operand, n + 1, seg.drop_last())
            &&& node_is(
                seg.last(),
                n,
                "UnaryOp"@,
                bytes,
                range,
                seq![(n + 1) as NodeId],
                Some(unary_name(op)),
            )
        },
        PyExpr::Compare { range, left, comparators } => {
            let c1 = expr_count(*left);
            &&& expr_emits(bytes, *left, n + 1, seg.subrange(0, c1 as int))
            &&& exprs_emits(
                bytes,
                comparators@,
                n + 1 + c1,
                seg.subrange(c1 as int, seg.len() - 1),
            )
            &&& node_is(
                seg.last(),
                n,
                "CompareOp"@,
                bytes,
                range,
                seq![(n + 1) as NodeId] + exprs_roots(comparators@, n + 1 + c1),
                None,
            )
        },
        PyExpr::BoolOp { range, op, values } => {
            &&& exprs_emits(bytes, values@, n + 1, seg.drop_last())
            &&& node_is(
                seg.last(),
                n,
                "BoolOp"@,
                bytes,
                range,
                exprs_roots(values@, n + 1),
                Some(bool_op_name(op)),
            )
        },
        PyExpr::Call { range, func, args } => {
            let c1 = expr_count(*func);
            &&& expr_emits(bytes, *func, n + 1, seg.subrange(0, c1 as int))
            &&& exprs_emits(bytes, args@, n + 1 + c1, seg.subrange(c1 as int, seg.len() - 1))
            &&& node_is(
                seg.last(),
                n,
                "FunctionCall"@,
                bytes,
                range,
                seq![(n + 1) as NodeId] + exprs_roots(args@, n + 1 + c1),
                None,
            )
        },
        PyExpr::Attribute { range, value, attr } => {
            &&& expr_emits(bytes, *value, n + 1, seg.drop_last())
            &&& node_is(
                seg.last(),
                n,
                "Attribute"@,
                bytes,
                range,
                seq![(n + 1) as NodeId],
                Some(attr@),
            )
        },
        PyExpr::Subscript { range, value } => {
            &&& expr_emits(bytes, *value, n + 1, seg.drop_last())
            &&& node_is(seg.last(), n, "Subscript"@, bytes, range, seq![(n + 1) as NodeId], None)
        },
        PyExpr::List { range } => node_is(seg.last(), n, "ListLiteral"@, bytes, range, seq![], None),
        PyExpr::Tuple { range } => node_is(
            seg.last(),
            n,
            "TupleLiteral"@,
            bytes,
            range,
            seq![],
            None,
        ),
        PyExpr::SetDisplay { range } => node_is(
            seg.last(),
            n,
            "SetLiteral"@,
            bytes,
            range,
            seq![],
            None,
        ),
        PyExpr::Dict { range } => node_is(seg.last(), n, "DictLiteral"@, bytes, range, seq![], None),
        PyExpr::Lambda { range } => node_is(seg.last(), n, "Lambda"@, bytes, range, seq![], None),
        PyExpr::ListComp { range } => node_is(seg.last(), n, "ListComp"@, bytes, range, seq![], None),
        PyExpr::DictComp { range } => node_is(seg.last(), n, "DictComp"@, bytes, range, seq![], None),
        PyExpr::SetComp { range } => node_is(seg.last(), n, "SetComp"@, bytes, range, seq![], None),
        PyExpr::Other { range } => node_is(
            seg.last(),
            n,
            "Unknown(UnsupportedExpression)"@,
            bytes,
            range,
            seq![],
            None,
        ),
    }
}

/// The nodes `seg` are what converting the expressions one after the other
/// from id `n` adds, in order.
pub open spec fn exprs_emits(bytes: Seq<u8>, es: Seq<PyExpr>, n: nat, seg: Seq<AstNode>) -> bool
    decreases es, es.len(),
{
    if es.len() == 0 {
        seg.len() == 0
    } else {
        let c = exprs_count(es.drop_last());
        &&& seg.len() == c + expr_count(es.last())
        &&& exprs_emits(bytes, es.drop_last(), n, seg.subrange(0, c as int))
        &&& expr_emits(bytes, es.last(), n + c, seg.subrange(c as int, seg.len() as int))
    }
}

/// A function parameter.
#[derive(Debug)]
pub struct PyParameter {
    pub range: TextRange,
    pub name: String,
}

/// A Python statement, as far as the conversion reads it.
#[derive(Debug)]
pub enum PyStmt {
    /// A function definition: its name, positional parameters and body.
    FunctionDef { range: TextRange, name: String, args: Vec<PyParameter>, body: Vec<PyStmt> },
    ClassDef { range: TextRange, name: String, body: Vec<PyStmt> },
    Return { range: TextRange, value: Option<Box<PyExpr>> },
    Assign { range: TextRange, value: Box<PyExpr> },
    AugAssign { range: TextRange },
    /// An `if`: its body and the bodies of its `elif` and `else` clauses.
    If { range: TextRange, body: Vec<PyStmt>, elif_else_clauses: Vec<Vec<PyStmt>> },
    For { range: TextRange, body: Vec<PyStmt> },
    While { range: TextRange, body: Vec<PyStmt> },
    Try { range: TextRange, body: Vec<PyStmt> },
    With { range: TextRange },
    Break { range: TextRange },
    Continue { range: TextRange },
    Pass { range: TextRange },
    Raise { range: TextRange },
    Assert { range: TextRange },
    Import { range: TextRange },
    ImportFrom { range: TextRange },
    Expr { range: TextRange, value: Box<PyExpr> },
    /// Any other statement.
    Other { range: TextRange },
}

/// A parsed Python module, or another parse mode's result.
#[derive(Debug)]
pub enum PyMod {
    Module { body: Vec<PyStmt> },
    Expression,
}

/// Number of nodes a statement converts to. Of each `elif` or `else`
/// clause only the first statement is converted.
pub open spec fn stmt_count(s: PyStmt) -> nat
    decreases s, 0nat,
{
    1 + match s {
        PyStmt::FunctionDef { args, body, .. } => args@.len() + stmts_count(body@),
        PyStmt::ClassDef { body, .. } => stmts_count(body@),
        PyStmt::Return { value, .. } => match value {
            Some(e) => expr_count(*e),
            None => 0,
        },
        PyStmt::Assign { value, .. } => expr_count(*value),
        PyStmt::If { body, elif_else_clauses, .. } => stmts_count(body@) + heads_count(
            elif_else_clauses@,
        ),
        PyStmt::For { body, .. } => stmts_count(body@),
        PyStmt::While { body, .. } => stmts_count(body@),
        PyStmt::Try { body, .. } => stmts_count(body@),
        PyStmt::Expr { value, .. } => expr_count(*value),
        _ => 0nat,
    }
}

/// Number of nodes a list of statements converts to.
pub open spec fn stmts_count(ss: Seq<PyStmt>) -> nat
    decreases ss, ss.len(),
{
    if ss.len() == 0 {
        0
    } else {
        stmts_count(ss.drop_last()) + stmt_count(ss.last())
    }
}

/// Number of nodes the first statements of the clauses convert to.
pub open spec fn heads_count(cs: Seq<Vec<PyStmt>>) -> nat
    decreases cs, cs.len(),
{
    if cs.len() == 0 {
        0
    } else {
        heads_count(cs.drop_last()) + if cs.last()@.len() > 0 {
            stmt_count(cs.last()@[0])
        } else {
            0
        }
    }
}

/// Every `elif` and `else` clause in the statement, at any depth, has a
/// statement.
pub open spec fn clauses_filled(s: PyStmt) -> bool
    decreases s, 0nat,
{
    match s {
        PyStmt::FunctionDef { body, .. } => all_filled(body@),
        PyStmt::ClassDef { body, .. } => all_filled(body@),
        PyStmt::If { body, elif_else_clauses, .. } => all_filled(body@) && heads_filled(
            elif_else_clauses@,
        ),
        PyStmt::For { body, .. } => all_filled(body@),
        PyStmt::While { body, .. } => all_filled(body@),
        PyStmt::Try { body, .. } => all_filled(body@),
        _ => true,
    }
}

/// Every statement of the list meets `clauses_filled`.
pub open spec fn all_filled(ss: Seq<PyStmt>) -> bool
    decreases ss, ss.len(),
{
    if ss.len() == 0 {
        true
    } else {
        all_filled(ss.drop_last()) && clauses_filled(ss.last())
    }
}

/// Every clause has a statement, and its first meets `clauses_filled`.
pub open spec fn heads_filled(cs: Seq<Vec<PyStmt>>) -> bool
    decreases cs, cs.len(),
{
    if cs.len() == 0 {
        true
    } else {
        heads_filled(cs.drop_last()) && cs.last()@.len() > 0 && clauses_filled(cs.last()@[0])
    }
}

/// The ids of the nodes of a list of statements converted from id `n` on.
pub open spec fn stmts_roots(ss: Seq<PyStmt>, n: nat) -> Seq<NodeId>
    decreases ss.len(),
{
    if ss.len() == 0 {
        Seq::<NodeId>::empty()
    } else {
        stmts_roots(ss.drop_last(), n).push((n + stmts_count(ss.drop_last())) as NodeId)
    }
}

/// The ids of the nodes of the clauses' first statements converted from id
/// `n` on.
pub open spec fn heads_roots(cs: Seq<Vec<PyStmt>>, n: nat) -> Seq<NodeId>
    decreases cs.len(),
{
    if cs.len() == 0 {
        Seq::<NodeId>::empty()
    } else {
        heads_roots(cs.drop_last(), n).push((n + heads_count(cs.drop_last())) as NodeId)
    }
}

/// The ids of the nodes of parameters converted from id `n` on.
pub open spec fn params_roots(ps: Seq<PyParameter>, n: nat) -> Seq<NodeId> {
    Seq::new(ps.len(), |k: int| (n + k) as NodeId)
}

/// The nodes `seg` are what converting the parameters from id `n` adds: one
/// `Parameter` node each, named by the parameter.
pub open spec fn params_emits(bytes: Seq<u8>, ps: Seq<PyParameter>, n: nat, seg: Seq<AstNode>) -> bool {
    &&& seg.len() == ps.len()
    &&& forall|k: int|
        0 <= k < ps.len() ==> node_is(
            #[trigger] seg[k],
            (n + k) as nat,
            "Parameter"@,
            bytes,
            ps[k].range,
            seq![],
            Some(ps[k].name@),
        )
}

/// A statement with no converted children becomes one node of the named
/// kind.
pub open spec fn leaf_emits(
    bytes: Seq<u8>,
    range: TextRange,
    kind: Seq<char>,
    n: nat,
    seg: Seq<AstNode>,
) -> bool {
    node_is(seg.last(), n, kind, bytes, range, seq![], None)
}

/// The nodes `seg` are what converting a statement whose only converted
/// children are the statements of `body` adds.
pub open spec fn block_emits(
    bytes: Seq<u8>,
    range: TextRange,
    kind: Seq<char>,
    body: Seq<PyStmt>,
    n: nat,
    seg: Seq<AstNode>,
) -> bool
    decreases body, body.len() + 1,
{
    &&& stmts_emits(bytes, body, n + 1, seg.drop_last())
    &&& node_is(seg.last(), n, kind, bytes, range, stmts_roots(body, n + 1), None)
}

/// The nodes `seg` are what converting the statement from id `n` adds, in
/// order.
pub open spec fn stmt_emits(bytes: Seq<u8>, s: PyStmt, n: nat, seg: Seq<AstNode>) -> bool
    decreases s, 0nat,
{
    seg.len() == stmt_count(s) && seg.len() > 0 && match s {
        PyStmt::FunctionDef { range, name, args, body } => {
            let a = args@.len();
            &&& params_emits(bytes, args@, n + 1, seg.subrange(0, a as int))
            &&& stmts_emits(bytes, body@, n + 1 + a, seg.subrange(a as int, seg.len() - 1))
            &&& node_is(
                seg.last(),
                n,
                "Function"@,
                bytes,
                range,
                params_roots(args@, n + 1) + stmts_roots(body@, n + 1 + a),
                Some(name@),
            )
        },
        PyStmt::ClassDef { range, name, body } => {
            &&& stmts_emits(bytes, body@, n + 1, seg.drop_last())
            &&& node_is(
                seg.last(),
                n,
                "Class"@,
                bytes,
                range,
                stmts_roots(body@, n + 1),
                Some(name@),
            )
        },
        PyStmt::Return { range, value } => match value {
            Some(e) => {
                &&& expr_emits(bytes, *e, n + 1, seg.drop_last())
                &&& node_is(seg.last(), n, "Return"@, bytes, range, seq![(n + 1) as NodeId], None)
            },
            None => leaf_emits(bytes, range, "Return"@, n, seg),
        },
        PyStmt::Assign { range, value } => {
            &&& expr_emits(bytes, *value, n + 1, seg.drop_last())
            &&& node_is(seg.last(), n, "Assignment"@, bytes, range, seq![(n + 1) as NodeId], None)
        },
        PyStmt::AugAssign { range } => leaf_emits(bytes, range, "AugmentedAssignment"@, n, seg),
        PyStmt::If { range, body, elif_else_clauses } => {
            let b = stmts_count(body@);
            &&& stmts_emits(bytes, body@, n + 1, seg.subrange(0, b as int))
            &&& heads_emits(
                bytes,
                elif_else_clauses@,
                n + 1 + b,
                seg.subrange(b as int, seg.len() - 1),
            )
            &&& node_is(
                seg.last(),
                n,
                "IfStatement"@,
                bytes,
                range,
                stmts_roots(body@, n + 1) + heads_roots(elif_else_clauses@, n + 1 + b),
                None,
            )
        },
        PyStmt::For { range, body } => block_emits(bytes, range, "ForLoop"@, body@, n, seg),
        PyStmt::While { range, body } => block_emits(bytes, range, "WhileLoop"@, body@, n, seg),
        PyStmt::Try { range, body } => block_emits(bytes, range, "TryStatement"@, body@, n, seg),
        PyStmt::With { range } => leaf_emits(bytes, range, "WithStatement"@, n, seg),
        PyStmt::Break { range } => leaf_emits(bytes, range, "Break"@, n, seg),
        PyStmt::Continue { range } => leaf_emits(bytes, range, "Continue"@, n, seg),
        PyStmt::Pass { range } => leaf_emits(bytes, range, "Pass"@, n, seg),
        PyStmt::Raise { range } => leaf_emits(bytes, range, "Raise"@, n, seg),
        PyStmt::Assert { range } => leaf_emits(bytes, range, "Assert"@, n, seg),
        PyStmt::Import { range } => leaf_emits(bytes, range, "Import"@, n, seg),
        PyStmt::ImportFrom { range } => leaf_emits(bytes, range, "ImportFrom"@, n, seg),
        PyStmt::Expr { range, value } => {
            &&& expr_emits(bytes, *value, n + 1, seg.drop_last())
            &&& node_is(seg.last(), n, "Expression"@, bytes, range, seq![(n + 1) as NodeId], None)
        },
        PyStmt::Other { range } => leaf_emits(bytes, range, "Unknown(UnsupportedStatement)"@, n, seg),
    }
}

/// The nodes `seg` are what converting the statements one after the other
/// from id `n` adds, in order.
pub open spec fn stmts_emits(bytes: Seq<u8>, ss: Seq<PyStmt>, n: nat, seg: Seq<AstNode>) -> bool
    decreases ss, ss.len(),
{
    if ss.len() == 0 {
        seg.len() == 0
    } else {
        let c = stmts_count(ss.drop_last());
        &&& seg.len() == c + stmt_count(ss.last())
        &&& stmts_emits(bytes, ss.drop_last(), n, seg.subrange(0, c as int))
        &&& stmt_emits(bytes, ss.last(), n + c, seg.subrange(c as int, seg.len() as int))
    }
}

/// The nodes `seg` are what converting the first statement of each clause,
/// one after the other, from id `n` adds, in order.
pub open spec fn heads_emits(bytes: Seq<u8>, cs: Seq<Vec<PyStmt>>, n: nat, seg: Seq<AstNode>) -> bool
    decreases cs, cs.len(),
{
    if cs.len() == 0 {
        seg.len() == 0
    } else {
        let c = heads_count(cs.drop_last());
        &&& cs.last()@.len() > 0
        &&& seg.len() == c + stmt_count(cs.last()@[0])
        &&& heads_emits(bytes, cs.drop_last(), n, seg.subrange(0, c as int))
        &&& stmt_emits(bytes, cs.last()@[0], n + c, seg.subrange(c as int, seg.len() as int))
    }
}

/// The nodes carry distinct ids, all from `lo` up to (not including) `hi`.
pub open spec fn ids_within(seg: Seq<AstNode>, lo: nat, hi: nat) -> bool {
    &&& forall|k: int| 0 <= k < seg.len() ==> lo <= #[trigger] seg[k].id < hi
    &&& forall|j: int, k: int|
        0 <= j < seg.len() && 0 <= k < seg.len() && j != k ==> #[trigger] seg[j].id
            != #[trigger] seg[k].id
}

proof fn lemma_ids_concat(a: Seq<AstNode>, b: Seq<AstNode>, lo: nat, mid: nat, hi: nat)
    requires
        lo <= mid <= hi,
        ids_within(a, lo, mid),
        ids_within(b, mid, hi),
    ensures
        ids_within(a + b, lo, hi),
{
    let c = a + b;
    assert forall|k: int| 0 <= k < c.len() implies lo <= #[trigger] c[k].id < hi by {
        if k < a.len() {
            assert(c[k] == a[k]);
        } else {
            assert(c[k] == b[k - a.len()]);
        }
    }
    assert forall|j: int, k: int|
        0 <= j < c.len() && 0 <= k < c.len() && j != k implies #[trigger] c[j].id
            != #[trigger] c[k].id by {
        if j < a.len() {
            assert(c[j] == a[j]);
        } else {
            assert(c[j] == b[j - a.len()]);
        }
        if k < a.len() {
            assert(c[k] == a[k]);
        } else {
            assert(c[k] == b[k - a.len()]);
        }
    }
}

proof fn lemma_ids_push(a: Seq<AstNode>, x: AstNode, lo: nat, hi: nat)
    requires
        ids_within(a, lo + 1, hi),
        x.id == lo,
        lo < hi,
    ensures
        ids_within(a.push(x), lo, hi),
{
    let c = a.push(x);
    assert forall|k: int| 0 <= k < c.len() implies lo <= #[trigger] c[k].id < hi by {
        if k < a.len() {
            assert(c[k] == a[k]);
        }
    }
    assert forall|j: int, k: int|
        0 <= j < c.len() && 0 <= k < c.len() && j != k implies #[trigger] c[j].id
            != #[trigger] c[k].id by {
        if j < a.len() {
            assert(c[j] == a[j]);
        }
        if k < a.len() {
            assert(c[k] == a[k]);
        }
    }
}

/// A node with parts converted before it: the parts' nodes (ids from
/// `n + 1` on) and then the node itself (id `n`).
proof fn lemma_ids_node_after(seg: Seq<AstNode>, n: nat, hi: nat)
    requires
        seg.len() > 0,
        ids_within(seg.drop_last(), n + 1, hi),
        seg.last().id == n,
        n < hi,
    ensures
        ids_within(seg, n, hi),
{
    assert(seg =~= seg.drop_last().push(seg.last()));
    lemma_ids_push(seg.drop_last(), seg.last(), n, hi);
}

/// The ids of two consecutive parts, split at `c`.
proof fn lemma_ids_split(seg: Seq<AstNode>, c: int, lo: nat, mid: nat, hi: nat)
    requires
        0 <= c <= seg.len(),
        lo <= mid <= hi,
        ids_within(seg.subrange(0, c), lo, mid),
        ids_within(seg.subrange(c, seg.len() as int), mid, hi),
    ensures
        ids_within(seg, lo, hi),
{
    assert(seg =~= seg.subrange(0, c) + seg.subrange(c, seg.len() as int));
    lemma_ids_concat(seg.subrange(0, c), seg.subrange(c, seg.len() as int), lo, mid, hi);
}

/// Converting an expression from id `n` gives its nodes the distinct ids
/// from `n` up to `n` plus its node count.
pub proof fn lemma_expr_ids(bytes: Seq<u8>, e: PyExpr, n: nat, seg: Seq<AstNode>)
    requires
        expr_emits(bytes, e, n, seg),
    ensures
        ids_within(seg, n, n + expr_count(e)),
    decreases e, 0nat,
{
    let hi = n + expr_count(e);
    let body = seg.drop_last();
    match e {
        PyExpr::BinOp { left, right, .. } => {
            let c1 = expr_count(*left);
            lemma_expr_ids(bytes, *left, n + 1, seg.subrange(0, c1 as int));
            lemma_expr_ids(bytes, *right, n + 1 + c1, seg.subrange(c1 as int, seg.len() - 1));
            assert(body.subrange(0, c1 as int) =~= seg.subrange(0, c1 as int));
            assert(body.subrange(c1 as int, body.len() as int) =~= seg.subrange(c1 as int, seg.len() - 1));
            lemma_ids_split(body, c1 as int, n + 1, n + 1 + c1, hi);
        },
        PyExpr::Compare { left, comparators, .. } => {
            let c1 = expr_count(*left);
            lemma_expr_ids(bytes, *left, n + 1, seg.subrange(0, c1 as int));
            lemma_exprs_ids(bytes, comparators@, n + 1 + c1, seg.subrange(c1 as int, seg.len() - 1));
            assert(body.subrange(0, c1 as int) =~= seg.subrange(0, c1 as int));
            assert(body.subrange(c1 as int, body.len() as int) =~= seg.subrange(c1 as int, seg.len() - 1));
            lemma_ids_split(body, c1 as int, n + 1, n + 1 + c1, hi);
        },
        PyExpr::Call { func, args, .. } => {
            let c1 = expr_count(*func);
            lemma_expr_ids(bytes, *func, n + 1, seg.subrange(0, c1 as int));
            lemma_exprs_ids(bytes, args@, n + 1 + c1, seg.subrange(c1 as int, seg.len() - 1));
            assert(body.subrange(0, c1 as int) =~= seg.subrange(0, c1 as int));
            assert(body.subrange(c1 as int, body.len() as int) =~= seg.subrange(c1 as int, seg.len() - 1));
            lemma_ids_split(body, c1 as int, n + 1, n + 1 + c1, hi);
        },
        PyExpr::UnaryOp { operand, .. } => {
            lemma_expr_ids(bytes, *operand, n + 1, body);
        },
        PyExpr::Attribute { value, .. } => {
            lemma_expr_ids(bytes, *value, n + 1, body);
        },
        PyExpr::Subscript { value, .. } => {
            lemma_expr_ids(bytes, *value, n + 1, body);
        },
        PyExpr::BoolOp { values, .. } => {
            lemma_exprs_ids(bytes, values@, n + 1, body);
        },
        _ => {
            assert(body.len() == 0);
        },
    }
    lemma_ids_node_after(seg, n, hi);
}

/// Converting expressions one after the other from id `n` gives their
/// nodes the distinct ids from `n` up to `n` plus their node count.
pub proof fn lemma_exprs_ids(bytes: Seq<u8>, es: Seq<PyExpr>, n: nat, seg: Seq<AstNode>)
    requires
        exprs_emits(bytes, es, n, seg),
    ensures
        ids_within(seg, n, n + exprs_count(es)),
    decreases es, es.len(),
{
    if es.len() > 0 {
        let c = exprs_count(es.drop_last());
        lemma_exprs_ids(bytes, es.drop_last(), n, seg.subrange(0, c as int));
        lemma_expr_ids(bytes, es.last(), n + c, seg.subrange(c as int, seg.len() as int));
        lemma_ids_split(seg, c as int, n, n + c, n + exprs_count(es));
    }
}

/// Converting parameters from id `n` gives their nodes the ids from `n` on,
/// in order.
proof fn lemma_params_ids(bytes: Seq<u8>, ps: Seq<PyParameter>, n: nat, seg: Seq<AstNode>)
    requires
        params_emits(bytes, ps, n, seg),
    ensures
        ids_within(seg, n, n + ps.len()),
{
    assert forall|k: int| 0 <= k < seg.len() implies n <= #[trigger] seg[k].id < n + ps.len() by {
        assert(node_is(seg[k], (n + k) as nat, "Parameter"@, bytes, ps[k].range, seq![], Some(ps[k].name@)));
    }
    assert forall|j: int, k: int|
        0 <= j < seg.len() && 0 <= k < seg.len() && j != k implies #[trigger] seg[j].id
            != #[trigger] seg[k].id by {
        assert(node_is(seg[k], (n + k) as nat, "Parameter"@, bytes, ps[k].range, seq![], Some(ps[k].name@)));
        assert(node_is(seg[j], (n + j) as nat, "Parameter"@, bytes, ps[j].range, seq![], Some(ps[j].name@)));
    }
}

/// Converting a statement from id `n` gives its nodes the distinct ids from
/// `n` up to `n` plus its node count.
pub proof fn lemma_stmt_ids(bytes: Seq<u8>, s: PyStmt, n: nat, seg: Seq<AstNode>)
    requires
        stmt_emits(bytes, s, n, seg),
    ensures
        ids_within(seg, n, n + stmt_count(s)),
    decreases s, 0nat,
{
    let hi = n + stmt_count(s);
    let body = seg.drop_last();
    match s {
        PyStmt::FunctionDef { args, body: stmts, .. } => {
            let a = args@.len();
            lemma_params_ids(bytes, args@, n + 1, seg.subrange(0, a as int));
            lemma_stmts_ids(bytes, stmts@, n + 1 + a, seg.subrange(a as int, seg.len() - 1));
            assert(body.subrange(0, a as int) =~= seg.subrange(0, a as int));
            assert(body.subrange(a as int, body.len() as int) =~= seg.subrange(a as int, seg.len() - 1));
            lemma_ids_split(body, a as int, n + 1, n + 1 + a, hi);
        },
        PyStmt::If { body: stmts, elif_else_clauses, .. } => {
            let b = stmts_count(stmts@);
            lemma_stmts_ids(bytes, stmts@, n + 1, seg.subrange(0, b as int));
            lemma_heads_ids(bytes, elif_else_clauses@, n + 1 + b, seg.subrange(b as int, seg.len() - 1));
            assert(body.subrange(0, b as int) =~= seg.subrange(0, b as int));
            assert(body.subrange(b as int, body.len() as int) =~= seg.subrange(b as int, seg.len() - 1));
            lemma_ids_split(body, b as int, n + 1, n + 1 + b, hi);
        },
        PyStmt::ClassDef { body: stmts, .. } => {
            lemma_stmts_ids(bytes, stmts@, n + 1, body);
        },
        PyStmt::For { body: stmts, .. } => {
            lemma_stmts_ids(bytes, stmts@, n + 1, body);
        },
        PyStmt::While { body: stmts, .. } => {
            lemma_stmts_ids(bytes, stmts@, n + 1, body);
        },
        PyStmt::Try { body: stmts, .. } => {
            lemma_stmts_ids(bytes, stmts@, n + 1, body);
        },
        PyStmt::Return { value, .. } => {
            match value {
                Some(e) => {
                    lemma_expr_ids(bytes, *e, n + 1, body);
                },
                None => {
                    assert(body.len() == 0);
                },
            }
        },
        PyStmt::Assign { value, .. } => {
            lemma_expr_ids(bytes, *value, n + 1, body);
        },
        PyStmt::Expr { value, .. } => {
            lemma_expr_ids(bytes, *value, n + 1, body);
        },
        _ => {
            assert(body.len() == 0);
        },
    }
    lemma_ids_node_after(seg, n, hi);
}

/// Converting statements one after the other from id `n` gives their nodes
/// the distinct ids from `n` up to `n` plus their node count.
pub proof fn lemma_stmts_ids(bytes: Seq<u8>, ss: Seq<PyStmt>, n: nat, seg: Seq<AstNode>)
    requires
        stmts_emits(bytes, ss, n, seg),
    ensures
        ids_within(seg, n, n + stmts_count(ss)),
    decreases ss, ss.len(),
{
    if ss.len() > 0 {
        let c = stmts_count(ss.drop_last());
        lemma_stmts_ids(bytes, ss.drop_last(), n, seg.subrange(0, c as int));
        lemma_stmt_ids(bytes, ss.last(), n + c, seg.subrange(c as int, seg.len() as int));
        lemma_ids_split(seg, c as int, n, n + c, n + stmts_count(ss));
    }
}

/// Converting the clauses' first statements from id `n` gives their nodes
/// the distinct ids from `n` up to `n` plus their node count.
pub proof fn lemma_heads_ids(bytes: Seq<u8>, cs: Seq<Vec<PyStmt>>, n: nat, seg: Seq<AstNode>)
    requires
        heads_emits(bytes, cs, n, seg),
    ensures
        ids_within(seg, n, n + heads_count(cs)),
    decreases cs, cs.len(),
{
    if cs.len() > 0 {
        let c = heads_count(cs.drop_last());
        lemma_heads_ids(bytes, cs.drop_last(), n, seg.subrange(0, c as int));
        lemma_stmt_ids(bytes, cs.last()@[0], n + c, seg.subrange(c as int, seg.len() as int));
        lemma_ids_split(seg, c as int, n, n + c, n + heads_count(cs));
    }
}

/// The tree converted from a module gives its nodes the distinct ids from 0
/// up to its node count: every id names exactly one node.
pub proof fn lemma_module_ids(ast: Ast, source_file: String, bytes: Seq<u8>, body: Seq<PyStmt>)
    requires
        module_converted(ast, source_file, bytes, body),
    ensures
        ids_within(ast.nodes@, 0, ast.nodes@.len() as nat),
{
    let nodes = ast.nodes@;
    lemma_stmts_ids(bytes, body, 1, nodes.drop_first());
    assert forall|k: int| 0 <= k < nodes.len() implies 0 <= #[trigger] nodes[k].id < nodes.len() by {
        if k > 0 {
            assert(nodes[k] == nodes.drop_first()[k - 1]);
        }
    }
    assert forall|j: int, k: int|
        0 <= j < nodes.len() && 0 <= k < nodes.len() && j != k implies #[trigger] nodes[j].id
            != #[trigger] nodes[k].id by {
        if j > 0 {
            assert(nodes[j] == nodes.drop_first()[j - 1]);
        }
        if k > 0 {
            assert(nodes[k] == nodes.drop_first()[k - 1]);
        }
    }
}

/// The UTF-8 bytes of the converter's source.
pub open spec fn source_bytes(c: PythonAstConverter) -> Seq<u8> {
    encode_utf8(c.source())
}

/// From `before` to `after` the converter kept its source, root and file,
/// handed out `count` more ids, and only appended nodes.
pub open spec fn grew(before: PythonAstConverter, after: PythonAstConverter, count: nat) -> bool {
    &&& after.source() == before.source()
    &&& after.tree().root == before.tree().root
    &&& after.tree().source_file == before.tree().source_file
    &&& after.next_node_id() == before.next_node_id() + count
    &&& before.tree().nodes@.len() <= after.tree().nodes@.len()
    &&& after.tree().nodes@.subrange(0, before.tree().nodes@.len() as int)
        == before.tree().nodes@
}

/// The nodes appended from `before` to `after`.
pub open spec fn added(before: PythonAstConverter, after: PythonAstConverter) -> Seq<AstNode> {
    after.tree().nodes@.subrange(before.tree().nodes@.len() as int, after.tree().nodes@.len() as int)
}

/// The ids that a converter can still hand out cover `count` more nodes,
/// and its source can be measured.
pub open spec fn has_room(c: PythonAstConverter, count: nat) -> bool {
    &&& c.next_node_id() + count <= usize::MAX
    &&& source_bytes(c).len() < usize::MAX
}

/// Growth from `a` to `b` and from `b` to `c` is growth from `a` to `c`,
/// the appended nodes one after the other.
proof fn lemma_grew_trans(
    a: PythonAstConverter,
    b: PythonAstConverter,
    c: PythonAstConverter,
    x: nat,
    y: nat,
)
    requires
        grew(a, b, x),
        grew(b, c, y),
    ensures
        grew(a, c, x + y),
        added(a, c) =~= added(a, b) + added(b, c),
{
    let la = a.tree().nodes@.len() as int;
    let lb = b.tree().nodes@.len() as int;
    assert(c.tree().nodes@.subrange(0, la) =~= c.tree().nodes@.subrange(0, lb).subrange(0, la));
    assert(b.tree().nodes@.subrange(0, la) =~= a.tree().nodes@);
}

proof fn lemma_exprs_count_prefix(es: Seq<PyExpr>, i: int)
    requires
        0 <= i < es.len(),
    ensures
        exprs_count(es.take(i + 1)) == exprs_count(es.take(i)) + expr_count(es[i]),
        exprs_roots(es.take(i + 1), 0) == exprs_roots(es.take(i), 0).push(
            exprs_count(es.take(i)) as NodeId,
        ),
        exprs_count(es.take(i + 1)) <= exprs_count(es),
    decreases es.len(),
{
    assert(es.take(i + 1).drop_last() =~= es.take(i));
    if i + 1 < es.len() {
        lemma_exprs_count_prefix(es.drop_last(), i);
        assert(es.drop_last().take(i + 1) =~= es.take(i + 1));
        assert(es.drop_last().take(i) =~= es.take(i));
        if i + 1 < es.len() - 1 {
            lemma_exprs_count_prefix(es.drop_last(), i + 1);
            assert(es.drop_last().take(i + 2) =~= es.take(i + 2));
        }
        lemma_exprs_count_monotone(es.drop_last(), i + 1);
    } else {
        assert(es.take(i + 1) =~= es);
    }
}

proof fn lemma_exprs_count_monotone(es: Seq<PyExpr>, i: int)
    requires
        0 <= i <= es.len(),
    ensures
        exprs_count(es.take(i)) <= exprs_count(es),
    decreases es.len() - i,
{
    if i < es.len() {
        assert(es.take(i + 1).drop_last() =~= es.take(i));
        lemma_exprs_count_monotone(es, i + 1);
    } else {
        assert(es.take(i) =~= es);
    }
}

/// The roots of a list converted from `n` are those from 0 moved by `n`.
proof fn lemma_exprs_roots_shift(es: Seq<PyExpr>, n: nat)
    requires
        n + exprs_count(es) <= usize::MAX,
    ensures
        exprs_roots(es, n).len() == es.len(),
        forall|k: int|
            0 <= k < es.len() ==> #[trigger] exprs_roots(es, n)[k] == n + exprs_count(
                es.take(k),
            ),
    decreases es.len(),
{
    if es.len() > 0 {
        let p = es.drop_last();
        lemma_exprs_count_monotone(es, es.len() - 1);
        assert(es.take(es.len() - 1) =~= p);
        lemma_exprs_roots_shift(p, n);
        assert forall|k: int| 0 <= k < es.len() implies #[trigger] exprs_roots(es, n)[k] == n
            + exprs_count(es.take(k)) by {
            if k < p.len() {
                assert(p.take(k) =~= es.take(k));
                lemma_exprs_count_monotone(p, k);
            }
        }
    }
}

proof fn lemma_stmts_count_prefix(ss: Seq<PyStmt>, i: int)
    requires
        0 <= i < ss.len(),
    ensures
        stmts_count(ss.take(i + 1)) == stmts_count(ss.take(i)) + stmt_count(ss[i]),
        stmts_count(ss.take(i + 1)) <= stmts_count(ss),
{
    assert(ss.take(i + 1).drop_last() =~= ss.take(i));
    lemma_stmts_count_monotone(ss, i + 1);
}

proof fn lemma_stmts_count_monotone(ss: Seq<PyStmt>, i: int)
    requires
        0 <= i <= ss.len(),
    ensures
        stmts_count(ss.take(i)) <= stmts_count(ss),
    decreases ss.len() - i,
{
    if i < ss.len() {
        assert(ss.take(i + 1).drop_last() =~= ss.take(i));
        lemma_stmts_count_monotone(ss, i + 1);
    } else {
        assert(ss.take(i) =~= ss);
    }
}

proof fn lemma_heads_count_prefix(cs: Seq<Vec<PyStmt>>, i: int)
    requires
        0 <= i < cs.len(),
        cs[i]@.len() > 0,
    ensures
        heads_count(cs.take(i + 1)) == heads_count(cs.take(i)) + stmt_count(cs[i]@[0]),
        heads_count(cs.take(i + 1)) <= heads_count(cs),
{
    assert(cs.take(i + 1).drop_last() =~= cs.take(i));
    lemma_heads_count_monotone(cs, i + 1);
}

proof fn lemma_heads_count_monotone(cs: Seq<Vec<PyStmt>>, i: int)
    requires
        0 <= i <= cs.len(),
    ensures
        heads_count(cs.take(i)) <= heads_count(cs),
    decreases cs.len() - i,
{
    if i < cs.len() {
        assert(cs.take(i + 1).drop_last() =~= cs.take(i));
        lemma_heads_count_monotone(cs, i + 1);
    } else {
        assert(cs.take(i) =~= cs);
    }
}

/// Each statement of a list that meets `all_filled` meets `clauses_filled`.
proof fn lemma_all_filled(ss: Seq<PyStmt>, i: int)
    requires
        all_filled(ss),
        0 <= i < ss.len(),
    ensures
        clauses_filled(ss[i]),
    decreases ss.len(),
{
    if i < ss.len() - 1 {
        lemma_all_filled(ss.drop_last(), i);
    }
}

/// Each clause of a list that meets `heads_filled` has a first statement
/// that meets `clauses_filled`.
proof fn lemma_heads_filled(cs: Seq<Vec<PyStmt>>, i: int)
    requires
        heads_filled(cs),
        0 <= i < cs.len(),
    ensures
        cs[i]@.len() > 0,
        clauses_filled(cs[i]@[0]),
    decreases cs.len(),
{
    if i < cs.len() - 1 {
        lemma_heads_filled(cs.drop_last(), i);
    }
}

/// Whether every `elif` and `else` clause in the statement, at any depth,
/// has a statement (which the conversion requires).
pub fn stmt_clauses_filled(stmt: &PyStmt) -> (r: bool)
    ensures
        r == clauses_filled(*stmt),
    decreases *stmt, 1nat,
{
    match stmt {
        PyStmt::FunctionDef { body, .. } => stmts_clauses_filled(body),
        PyStmt::ClassDef { body, .. } => stmts_clauses_filled(body),
        PyStmt::If { body, elif_else_clauses, .. } => stmts_clauses_filled(body) && heads_clauses_filled(
            elif_else_clauses,
        ),
        PyStmt::For { body, .. } => stmts_clauses_filled(body),
        PyStmt::While { body, .. } => stmts_clauses_filled(body),
        PyStmt::Try { body, .. } => stmts_clauses_filled(body),
        _ => true,
    }
}

/// Whether every statement of the list meets `stmt_clauses_filled`.
pub fn stmts_clauses_filled(ss: &Vec<PyStmt>) -> (r: bool)
    ensures
        r == all_filled(ss@),
    decreases ss, 0nat,
{
    let mut i: usize = 0;
    while i < ss.len()
        invariant
            i <= ss@.len(),
            all_filled(ss@.take(i as int)),
        decreases ss@.len() - i,
    {
        proof {
            assert(ss@.take(i as int + 1).drop_last() =~= ss@.take(i as int));
        }
        if !stmt_clauses_filled(&ss[i]) {
            proof {
                if all_filled(ss@) {
                    lemma_all_filled(ss@, i as int);
                }
            }
            return false;
        }
        i = i + 1;
    }
    proof {
        assert(ss@.take(i as int) =~= ss@);
    }
    true
}

/// Whether every clause has a statement whose clauses are filled.
fn heads_clauses_filled(cs: &Vec<Vec<PyStmt>>) -> (r: bool)
    ensures
        r == heads_filled(cs@),
    decreases cs, 0nat,
{
    let mut i: usize = 0;
    while i < cs.len()
        invariant
            i <= cs@.len(),
            heads_filled(cs@.take(i as int)),
        decreases cs@.len() - i,
    {
        proof {
            assert(cs@.take(i as int + 1).drop_last() =~= cs@.take(i as int));
            if heads_filled(cs@) {
                lemma_heads_filled(cs@, i as int);
            }
        }
        if cs[i].len() == 0 {
            return false;
        }
        if !stmt_clauses_filled(&cs[i][0]) {
            return false;
        }
        i = i + 1;
    }
    proof {
        assert(cs@.take(i as int) =~= cs@);
    }
    true
}

/// The tree is a converted module: rooted at node 0, the module node,
/// which spans the whole source (from line 1 to its last line) and has the
/// statements as children; the statements' nodes follow it.
pub open spec fn module_converted(
    ast: Ast,
    source_file: String,
    bytes: Seq<u8>,
    body: Seq<PyStmt>,
) -> bool {
    &&& ast.root == 0
    &&& ast.source_file == source_file
    &&& ast.nodes@.len() == 1 + stmts_count(body)
    &&& ast.nodes@[0].id == 0
    &&& ast.nodes@[0].kind == NodeKind::Module
    &&& ast.nodes@[0].span == (Span {
        start: 0,
        end: bytes.len() as usize,
        line_start: 1,
        line_end: line_count(bytes) as usize,
        column_start: 0,
        column_end: 0,
    })
    &&& ast.nodes@[0].children@ == stmts_roots(body, 1)
    &&& ast.nodes@[0].text is None
    &&& stmts_emits(bytes, body, 1, ast.nodes@.drop_first())
}

impl PythonAstConverter {
    /// Appends the node of a converted syntax element.
    fn finish_node(
        &mut self,
        id: NodeId,
        kind: NodeKind,
        span: Span,
        text: Option<String>,
        children: Vec<NodeId>,
    ) -> (r: usize)
        ensures
            r == id,
            grew(*old(self), *final(self), 0),
            added(*old(self), *final(self)).len() == 1,
            added(*old(self), *final(self))[0].id == id,
            added(*old(self), *final(self))[0].kind == kind,
            added(*old(self), *final(self))[0].span == span,
            added(*old(self), *final(self))[0].children@ == children@,
            added(*old(self), *final(self))[0].text == text,
    {
        let mut node = AstNode::new(id, kind, span);
        match text {
            Some(t) => {
                node = node.with_text(t);
            },
            None => {},
        }
        node = node.with_children(children);
        let ghost before = self.tree().nodes@;
        self.add_node(node);
        proof {
            assert(self.tree().nodes@.subrange(0, before.len() as int) =~= before);
        }
        id
    }

    /// Converts each expression in turn, collecting the ids of their nodes.
    fn convert_exprs(&mut self, es: &Vec<PyExpr>, children: &mut Vec<NodeId>)
        requires
            has_room(*old(self), exprs_count(es@)),
        ensures
            grew(*old(self), *final(self), exprs_count(es@)),
            exprs_emits(source_bytes(*old(self)), es@, old(self).next_node_id(), added(*old(self), *final(self))),
            final(children)@ == old(children)@ + exprs_roots(es@, old(self).next_node_id()),
        decreases es, 0nat,
    {
        let ghost start = *self;
        let ghost n0 = self.next_node_id();
        let ghost ch0 = children@;
        let ghost bytes = source_bytes(*self);
        proof {
            lemma_exprs_roots_shift(es@, n0);
            assert(es@.take(0) =~= Seq::<PyExpr>::empty());
            assert(added(start, *self) =~= Seq::<AstNode>::empty());
            assert(self.tree().nodes@.subrange(0, start.tree().nodes@.len() as int) =~= start.tree().nodes@);
            assert(exprs_roots(es@.take(0), n0) =~= Seq::<NodeId>::empty());
            assert(children@ =~= ch0 + exprs_roots(es@.take(0), n0));
        }
        let mut i: usize = 0;
        while i < es.len()
            invariant
                i <= es@.len(),
                has_room(start, exprs_count(es@)),
                n0 == start.next_node_id(),
                bytes == source_bytes(start),
                grew(start, *self, exprs_count(es@.take(i as int))),
                exprs_emits(bytes, es@.take(i as int), n0, added(start, *self)),
                children@ == ch0 + exprs_roots(es@.take(i as int), n0),
            decreases es@.len() - i,
        {
            let ghost mid = *self;
            proof {
                lemma_exprs_count_prefix(es@, i as int);
            }
            match self.convert_expr(&es[i]) {
                Some(c) => {
                    children.push(c);
                },
                None => {},
            }
            proof {
                let t1 = es@.take(i as int + 1);
                assert(t1.drop_last() =~= es@.take(i as int));
                assert(t1.last() == es@[i as int]);
                let all = added(start, *self);
                let c = exprs_count(es@.take(i as int));
                assert(all.subrange(0, c as int) =~= added(start, mid));
                assert(all.subrange(c as int, all.len() as int) =~= added(mid, *self));
                assert(self.tree().nodes@.subrange(0, start.tree().nodes@.len() as int) =~= start.tree().nodes@);
                assert(children@ =~= ch0 + exprs_roots(t1, n0));
            }
            i = i + 1;
        }
        proof {
            assert(es@.take(i as int) =~= es@);
        }
    }

    /// Appends the node of a converted element, spanning `range`.
    fn close_node(
        &mut self,
        id: NodeId,
        range: TextRange,
        kind: NodeKind,
        text: Option<String>,
        children: Vec<NodeId>,
    ) -> (r: usize)
        requires
            source_bytes(*old(self)).len() < usize::MAX,
        ensures
            r == id,
            grew(*old(self), *final(self), 0),
            added(*old(self), *final(self)).len() == 1,
            added(*old(self), *final(self))[0].id == id,
            added(*old(self), *final(self))[0].kind == kind,
            span_covers(added(*old(self), *final(self))[0].span, source_bytes(*old(self)), range),
            added(*old(self), *final(self))[0].children@ == children@,
            added(*old(self), *final(self))[0].text == text,
    {
        let span = self.create_span(range.start, range.end);
        self.finish_node(id, kind, span, text, children)
    }

    /// Converts an expression without subexpressions.
    fn convert_leaf(
        &mut self,
        id: NodeId,
        range: TextRange,
        kind: NodeKind,
        text: Option<String>,
    ) -> (r: Option<usize>)
        requires
            source_bytes(*old(self)).len() < usize::MAX,
        ensures
            r == Some(id),
            grew(*old(self), *final(self), 0),
            added(*old(self), *final(self)).len() == 1,
            added(*old(self), *final(self))[0].id == id,
            added(*old(self), *final(self))[0].kind == kind,
            span_covers(added(*old(self), *final(self))[0].span, source_bytes(*old(self)), range),
            added(*old(self), *final(self))[0].children@ == Seq::<NodeId>::empty(),
            added(*old(self), *final(self))[0].text == text,
    {
        let children: Vec<NodeId> = Vec::new();
        Some(self.close_node(id, range, kind, text, children))
    }

    /// Converts a binary operation: its operands, then itself.
    fn convert_binop(&mut self, expr: &PyExpr) -> (r: Option<usize>)
        requires
            expr is BinOp,
            has_room(*old(self), expr_count(*expr)),
        ensures
            r == Some(old(self).next_node_id() as usize),
            grew(*old(self), *final(self), expr_count(*expr)),
            expr_emits(source_bytes(*old(self)), *expr, old(self).next_node_id(), added(*old(self), *final(self))),
        decreases *expr, 0nat,
    {
        let ghost start = *self;
        let ghost n = self.next_node_id();
        let id = self.next_id();
        let ghost after_id = *self;
        proof {
            assert(after_id.tree().nodes@.subrange(0, start.tree().nodes@.len() as int) =~= start.tree().nodes@);
        }
        let mut children: Vec<NodeId> = Vec::new();
        match expr {
            PyExpr::BinOp { range, left, op, right } => {
                match self.convert_expr(left) {
                    Some(c) => children.push(c),
                    None => {},
                }
                let ghost mid = *self;
                match self.convert_expr(right) {
                    Some(c) => children.push(c),
                    None => {},
                }
                proof {
                    lemma_grew_trans(after_id, mid, *self, expr_count(**left), (expr_count(*expr) - 1 - expr_count(**left)) as nat);
                }
                let ghost before_node = *self;
                proof {
                    assert(children@ =~= seq![(n + 1) as NodeId, (n + 1 + expr_count(**left)) as NodeId]);
                }
                let r = self.close_node(id, *range, NodeKind::BinaryOp, Some(operator_text(*op)), children);
                proof {
                    lemma_grew_trans(start, after_id, before_node, 1, (expr_count(*expr) - 1) as nat);
                    lemma_grew_trans(start, before_node, *self, expr_count(*expr), 0);
                    let seg = added(start, *self);
                    let c1 = expr_count(**left);
                    assert(seg.subrange(0, c1 as int) =~= added(after_id, mid));
                    assert(seg.subrange(c1 as int, seg.len() - 1) =~= added(mid, before_node));
                    assert(seg.last() == added(before_node, *self)[0]);
                }
                Some(r)
            },
            _ => None,
        }
    }

    /// Converts a unary operation: its operand, then itself.
    fn convert_unary(&mut self, expr: &PyExpr) -> (r: Option<usize>)
        requires
            expr is UnaryOp,
            has_room(*old(self), expr_count(*expr)),
        ensures
            r == Some(old(self).next_node_id() as usize),
            grew(*old(self), *final(self), expr_count(*expr)),
            expr_emits(source_bytes(*old(self)), *expr, old(self).next_node_id(), added(*old(self), *final(self))),
        decreases *expr, 0nat,
    {
        let ghost start = *self;
        let ghost n = self.next_node_id();
        let id = self.next_id();
        let ghost after_id = *self;
        proof {
            assert(after_id.tree().nodes@.subrange(0, start.tree().nodes@.len() as int) =~= start.tree().nodes@);
        }
        let mut children: Vec<NodeId> = Vec::new();
        match expr {
            PyExpr::UnaryOp { range, op, operand } => {
                match self.convert_expr(operand) {
                    Some(c) => children.push(c),
                    None => {},
                }
                let ghost before_node = *self;
                proof {
                    assert(children@ =~= seq![(n + 1) as NodeId]);
                }
                let r = self.close_node(id, *range, NodeKind::UnaryOp, Some(unary_text(*op)), children);
                proof {
                    lemma_grew_trans(start, after_id, before_node, 1, (expr_count(*expr) - 1) as nat);
                    lemma_grew_trans(start, before_node, *self, expr_count(*expr), 0);
                    let seg = added(start, *self);
                    assert(seg.drop_last() =~= added(after_id, before_node));
                    assert(seg.last() == added(before_node, *self)[0]);
                }
                Some(r)
            },
            _ => None,
        }
    }

    /// Converts a comparison: its left side and comparators, then itself.
    fn convert_compare(&mut self, expr: &PyExpr) -> (r: Option<usize>)
        requires
            expr is Compare,
            has_room(*old(self), expr_count(*expr)),
        ensures
            r == Some(old(self).next_node_id() as usize),
            grew(*old(self), *final(self), expr_count(*expr)),
            expr_emits(source_bytes(*old(self)), *expr, old(self).next_node_id(), added(*old(self), *final(self))),
        decreases *expr, 0nat,
    {
        let ghost start = *self;
        let ghost n = self.next_node_id();
        let id = self.next_id();
        let ghost after_id = *self;
        proof {
            assert(after_id.tree().nodes@.subrange(0, start.tree().nodes@.len() as int) =~= start.tree().nodes@);
        }
        let mut children: Vec<NodeId> = Vec::new();
        match expr {
            PyExpr::Compare { range, left, comparators } => {
                match self.convert_expr(left) {
                    Some(c) => children.push(c),
                    None => {},
                }
                let ghost mid = *self;
                self.convert_exprs(comparators, &mut children);
                proof {
                    lemma_grew_trans(after_id, mid, *self, expr_count(**left), (expr_count(*expr) - 1 - expr_count(**left)) as nat);
                }
                let ghost before_node = *self;
                proof {
                    assert(children@ =~= seq![(n + 1) as NodeId] + exprs_roots(comparators@, n + 1 + expr_count(**left)));
                }
                let r = self.close_node(id, *range, NodeKind::CompareOp, None, children);
                proof {
                    lemma_grew_trans(start, after_id, before_node, 1, (expr_count(*expr) - 1) as nat);
                    lemma_grew_trans(start, before_node, *self, expr_count(*expr), 0);
                    let seg = added(start, *self);
                    let c1 = expr_count(**left);
                    assert(seg.subrange(0, c1 as int) =~= added(after_id, mid));
                    assert(seg.subrange(c1 as int, seg.len() - 1) =~= added(mid, before_node));
                    assert(seg.last() == added(before_node, *self)[0]);
                }
                Some(r)
            },
            _ => None,
        }
    }

    /// Converts a boolean operation: its values, then itself.
    fn convert_bool_op(&mut self, expr: &PyExpr) -> (r: Option<usize>)
        requires
            expr is BoolOp,
            has_room(*old(self), expr_count(*expr)),
        ensures
            r == Some(old(self).next_node_id() as usize),
            grew(*old(self), *final(self), expr_count(*expr)),
            expr_emits(source_bytes(*old(self)), *expr, old(self).next_node_id(), added(*old(self), *final(self))),
        decreases *expr, 0nat,
    {
        let ghost start = *self;
        let ghost n = self.next_node_id();
        let id = self.next_id();
        let ghost after_id = *self;
        proof {
            assert(after_id.tree().nodes@.subrange(0, start.tree().nodes@.len() as int) =~= start.tree().nodes@);
        }
        let mut children: Vec<NodeId> = Vec::new();
        match expr {
            PyExpr::BoolOp { range, op, values } => {
                self.convert_exprs(values, &mut children);
                let ghost before_node = *self;
                proof {
                    assert(children@ =~= exprs_roots(values@, n + 1));
                }
                let r = self.close_node(id, *range, NodeKind::BoolOp, Some(bool_op_text(*op)), children);
                proof {
                    lemma_grew_trans(start, after_id, before_node, 1, (expr_count(*expr) - 1) as nat);
                    lemma_grew_trans(start, before_node, *self, expr_count(*expr), 0);
                    let seg = added(start, *self);
                    assert(seg.drop_last() =~= added(after_id, before_node));
                    assert(seg.last() == added(before_node, *self)[0]);
                }
                Some(r)
            },
            _ => None,
        }
    }

    /// Converts a call: the callee and its arguments, then itself.
    fn convert_call(&mut self, expr: &PyExpr) -> (r: Option<usize>)
        requires
            expr is Call,
            has_room(*old(self), expr_count(*expr)),
        ensures
            r == Some(old(self).next_node_id() as usize),
            grew(*old(self), *final(self), expr_count(*expr)),
            expr_emits(source_bytes(*old(self)), *expr, old(self).next_node_id(), added(*old(self), *final(self))),
        decreases *expr, 0nat,
    {
        let ghost start = *self;
        let ghost n = self.next_node_id();
        let id = self.next_id();
        let ghost after_id = *self;
        proof {
            assert(after_id.tree().nodes@.subrange(0, start.tree().nodes@.len() as int) =~= start.tree().nodes@);
        }
        let mut children: Vec<NodeId> = Vec::new();
        match expr {
            PyExpr::Call { range, func, args } => {
                match self.convert_expr(func) {
                    Some(c) => children.push(c),
                    None => {},
                }
                let ghost mid = *self;
                self.convert_exprs(args, &mut children);
                proof {
                    lemma_grew_trans(after_id, mid, *self, expr_count(**func), (expr_count(*expr) - 1 - expr_count(**func)) as nat);
                }
                let ghost before_node = *self;
                proof {
                    assert(children@ =~= seq![(n + 1) as NodeId] + exprs_roots(args@, n + 1 + expr_count(**func)));
                }
                let r = self.close_node(id, *range, NodeKind::FunctionCall, None, children);
                proof {
                    lemma_grew_trans(start, after_id, before_node, 1, (expr_count(*expr) - 1) as nat);
                    lemma_grew_trans(start, before_node, *self, expr_count(*expr), 0);
                    let seg = added(start, *self);
                    let c1 = expr_count(**func);
                    assert(seg.subrange(0, c1 as int) =~= added(after_id, mid));
                    assert(seg.subrange(c1 as int, seg.len() - 1) =~= added(mid, before_node));
                    assert(seg.last() == added(before_node, *self)[0]);
                }
                Some(r)
            },
            _ => None,
        }
    }

    /// Converts an attribute access: its value, then itself.
    fn convert_attribute(&mut self, expr: &PyExpr) -> (r: Option<usize>)
        requires
            expr is Attribute,
            has_room(*old(self), expr_count(*expr)),
        ensures
            r == Some(old(self).next_node_id() as usize),
            grew(*old(self), *final(self), expr_count(*expr)),
            expr_emits(source_bytes(*old(self)), *expr, old(self).next_node_id(), added(*old(self), *final(self))),
        decreases *expr, 0nat,
    {
        let ghost start = *self;
        let ghost n = self.next_node_id();
        let id = self.next_id();
        let ghost after_id = *self;
        proof {
            assert(after_id.tree().nodes@.subrange(0, start.tree().nodes@.len() as int) =~= start.tree().nodes@);
        }
        let mut children: Vec<NodeId> = Vec::new();
        match expr {
            PyExpr::Attribute { range, value, attr } => {
                match self.convert_expr(value) {
                    Some(c) => children.push(c),
                    None => {},
                }
                let ghost before_node = *self;
                proof {
                    assert(children@ =~= seq![(n + 1) as NodeId]);
                }
                let r = self.close_node(id, *range, NodeKind::Attribute, Some(attr.clone()), children);
                proof {
                    lemma_grew_trans(start, after_id, before_node, 1, (expr_count(*expr) - 1) as nat);
                    lemma_grew_trans(start, before_node, *self, expr_count(*expr), 0);
                    let seg = added(start, *self);
                    assert(seg.drop_last() =~= added(after_id, before_node));
                    assert(seg.last() == added(before_node, *self)[0]);
                }
                Some(r)
            },
            _ => None,
        }
    }

    /// Converts a subscript: its value, then itself.
    fn convert_subscript(&mut self, expr: &PyExpr) -> (r: Option<usize>)
        requires
            expr is Subscript,
            has_room(*old(self), expr_count(*expr)),
        ensures
            r == Some(old(self).next_node_id() as usize),
            grew(*old(self), *final(self), expr_count(*expr)),
            expr_emits(source_bytes(*old(self)), *expr, old(self).next_node_id(), added(*old(self), *final(self))),
        decreases *expr, 0nat,
    {
        let ghost start = *self;
        let ghost n = self.next_node_id();
        let id = self.next_id();
        let ghost after_id = *self;
        proof {
            assert(after_id.tree().nodes@.subrange(0, start.tree().nodes@.len() as int) =~= start.tree().nodes@);
        }
        let mut children: Vec<NodeId> = Vec::new();
        match expr {
            PyExpr::Subscript { range, value } => {
                match self.convert_expr(value) {
                    Some(c) => children.push(c),
                    None => {},
                }
                let ghost before_node = *self;
                proof {
                    assert(children@ =~= seq![(n + 1) as NodeId]);
                }
                let r = self.close_node(id, *range, NodeKind::Subscript, None, children);
                proof {
                    lemma_grew_trans(start, after_id, before_node, 1, (expr_count(*expr) - 1) as nat);
                    lemma_grew_trans(start, before_node, *self, expr_count(*expr), 0);
                    let seg = added(start, *self);
                    assert(seg.drop_last() =~= added(after_id, before_node));
                    assert(seg.last() == added(before_node, *self)[0]);
                }
                Some(r)
            },
            _ => None,
        }
    }

    /// Converts an expression without subexpressions.
    fn convert_leaf_expr(&mut self, expr: &PyExpr) -> (r: Option<usize>)
        requires
            !(expr is BinOp || expr is UnaryOp || expr is Compare || expr is BoolOp || expr is Call
                || expr is Attribute || expr is Subscript),
            has_room(*old(self), expr_count(*expr)),
        ensures
            r == Some(old(self).next_node_id() as usize),
            grew(*old(self), *final(self), expr_count(*expr)),
            expr_emits(source_bytes(*old(self)), *expr, old(self).next_node_id(), added(*old(self), *final(self))),
    {
        let ghost start = *self;
        let id = self.next_id();
        let ghost after_id = *self;
        proof {
            assert(after_id.tree().nodes@.subrange(0, start.tree().nodes@.len() as int) =~= start.tree().nodes@);
        }
        match expr {
            PyExpr::Name { range, id: name } => {
                let r = self.convert_leaf(id, *range, NodeKind::Identifier, Some(name.clone()));
                proof { lemma_grew_trans(start, after_id, *self, 1, 0); }
                r
            },
            PyExpr::NumberLiteral { range } => {
                let r = self.convert_leaf(id, *range, NodeKind::Literal, Some("$NUM".to_owned()));
                proof { lemma_grew_trans(start, after_id, *self, 1, 0); }
                r
            },
            PyExpr::StringLiteral { range } => {
                let r = self.convert_leaf(id, *range, NodeKind::Literal, Some("$STR".to_owned()));
                proof { lemma_grew_trans(start, after_id, *self, 1, 0); }
                r
            },
            PyExpr::BytesLiteral { range } => {
                let r = self.convert_leaf(id, *range, NodeKind::Literal, Some("$BYTES".to_owned()));
                proof { lemma_grew_trans(start, after_id, *self, 1, 0); }
                r
            },
            PyExpr::BooleanLiteral { range } => {
                let r = self.convert_leaf(id, *range, NodeKind::Literal, Some("$BOOL".to_owned()));
                proof { lemma_grew_trans(start, after_id, *self, 1, 0); }
                r
            },
            PyExpr::NoneLiteral { range } => {
                let r = self.convert_leaf(id, *range, NodeKind::Literal, Some("$NONE".to_owned()));
                proof { lemma_grew_trans(start, after_id, *self, 1, 0); }
                r
            },
            PyExpr::List { range } => {
                let r = self.convert_leaf(id, *range, NodeKind::ListLiteral, None);
                proof { lemma_grew_trans(start, after_id, *self, 1, 0); }
                r
            },
            PyExpr::Tuple { range } => {
                let r = self.convert_leaf(id, *range, NodeKind::TupleLiteral, None);
                proof { lemma_grew_trans(start, after_id, *self, 1, 0); }
                r
            },
            PyExpr::SetDisplay { range } => {
                let r = self.convert_leaf(id, *range, NodeKind::SetLiteral, None);
                proof { lemma_grew_trans(start, after_id, *self, 1, 0); }
                r
            },
            PyExpr::Dict { range } => {
                let r = self.convert_leaf(id, *range, NodeKind::DictLiteral, None);
                proof { lemma_grew_trans(start, after_id, *self, 1, 0); }
                r
            },
            PyExpr::Lambda { range } => {
                let r = self.convert_leaf(id, *range, NodeKind::Lambda, None);
                proof { lemma_grew_trans(start, after_id, *self, 1, 0); }
                r
            },
            PyExpr::ListComp { range } => {
                let r = self.convert_leaf(id, *range, NodeKind::ListComp, None);
                proof { lemma_grew_trans(start, after_id, *self, 1, 0); }
                r
            },
            PyExpr::DictComp { range } => {
                let r = self.convert_leaf(id, *range, NodeKind::DictComp, None);
                proof { lemma_grew_trans(start, after_id, *self, 1, 0); }
                r
            },
            PyExpr::SetComp { range } => {
                let r = self.convert_leaf(id, *range, NodeKind::SetComp, None);
                proof { lemma_grew_trans(start, after_id, *self, 1, 0); }
                r
            },
            PyExpr::Other { range } => {
                let r = self.convert_leaf(
                    id,
                    *range,
                    NodeKind::Unknown("UnsupportedExpression".to_owned()),
                    None,
                );
                proof {
                    lemma_grew_trans(start, after_id, *self, 1, 0);
                    reveal_strlit("Unknown(");
                    reveal_strlit(")");
                    reveal_strlit("UnsupportedExpression");
                    reveal_strlit("Unknown(UnsupportedExpression)");
                    assert("Unknown("@ + "UnsupportedExpression"@ + ")"@ =~= "Unknown(UnsupportedExpression)"@);
                }
                r
            },
            _ => None,
        }
    }

    /// Converts an expression, returning the id of its node.
    pub fn convert_expr(&mut self, expr: &PyExpr) -> (r: Option<usize>)
        requires
            has_room(*old(self), expr_count(*expr)),
        ensures
            r == Some(old(self).next_node_id() as usize),
            grew(*old(self), *final(self), expr_count(*expr)),
            expr_emits(source_bytes(*old(self)), *expr, old(self).next_node_id(), added(*old(self), *final(self))),
        decreases *expr, 1nat,
    {
        match expr {
            PyExpr::BinOp { .. } => self.convert_binop(expr),
            PyExpr::UnaryOp { .. } => self.convert_unary(expr),
            PyExpr::Compare { .. } => self.convert_compare(expr),
            PyExpr::BoolOp { .. } => self.convert_bool_op(expr),
            PyExpr::Call { .. } => self.convert_call(expr),
            PyExpr::Attribute { .. } => self.convert_attribute(expr),
            PyExpr::Subscript { .. } => self.convert_subscript(expr),
            _ => self.convert_leaf_expr(expr),
        }
    }

    /// Converts a parameter to a `Parameter` node named by it.
    pub fn convert_parameter(&mut self, param: &PyParameter) -> (r: Option<usize>)
        requires
            has_room(*old(self), 1),
        ensures
            r == Some(old(self).next_node_id() as usize),
            grew(*old(self), *final(self), 1),
            params_emits(
                source_bytes(*old(self)),
                seq![*param],
                old(self).next_node_id(),
                added(*old(self), *final(self)),
            ),
    {
        let ghost start = *self;
        let id = self.next_id();
        let ghost after_id = *self;
        proof {
            assert(after_id.tree().nodes@.subrange(0, start.tree().nodes@.len() as int) =~= start.tree().nodes@);
        }
        let r = self.convert_leaf(id, param.range, NodeKind::Parameter, Some(param.name.clone()));
        proof {
            lemma_grew_trans(start, after_id, *self, 1, 0);
            assert(seq![*param][0] == *param);
        }
        r
    }

    /// Converts each parameter in turn, collecting the ids of their nodes.
    fn convert_parameters(&mut self, ps: &Vec<PyParameter>, children: &mut Vec<NodeId>)
        requires
            has_room(*old(self), ps@.len()),
        ensures
            grew(*old(self), *final(self), ps@.len()),
            params_emits(source_bytes(*old(self)), ps@, old(self).next_node_id(), added(*old(self), *final(self))),
            final(children)@ == old(children)@ + params_roots(ps@, old(self).next_node_id()),
    {
        let ghost start = *self;
        let ghost n0 = self.next_node_id();
        let ghost ch0 = children@;
        let ghost bytes = source_bytes(*self);
        proof {
            assert(self.tree().nodes@.subrange(0, start.tree().nodes@.len() as int) =~= start.tree().nodes@);
            assert(children@ =~= ch0 + params_roots(ps@.take(0), n0));
        }
        let mut i: usize = 0;
        while i < ps.len()
            invariant
                i <= ps@.len(),
                has_room(start, ps@.len()),
                n0 == start.next_node_id(),
                bytes == source_bytes(start),
                grew(start, *self, i as nat),
                params_emits(bytes, ps@.take(i as int), n0, added(start, *self)),
                children@ == ch0 + params_roots(ps@.take(i as int), n0),
            decreases ps@.len() - i,
        {
            let ghost mid = *self;
            match self.convert_parameter(&ps[i]) {
                Some(c) => {
                    children.push(c);
                },
                None => {},
            }
            proof {
                lemma_grew_trans(start, mid, *self, i as nat, 1);
                let all = added(start, *self);
                assert(all =~= added(start, mid) + added(mid, *self));
                assert forall|k: int| 0 <= k < ps@.take(i as int + 1).len() implies node_is(
                    #[trigger] all[k],
                    (n0 + k) as nat,
                    "Parameter"@,
                    bytes,
                    ps@.take(i as int + 1)[k].range,
                    seq![],
                    Some(ps@.take(i as int + 1)[k].name@),
                ) by {
                    if k < i {
                        assert(all[k] == added(start, mid)[k]);
                        assert(ps@.take(i as int + 1)[k] == ps@.take(i as int)[k]);
                    } else {
                        assert(all[k] == added(mid, *self)[0]);
                        assert(seq![ps@[i as int]][0] == ps@[i as int]);
                    }
                }
                assert(children@ =~= ch0 + params_roots(ps@.take(i as int + 1), n0));
            }
            i = i + 1;
        }
        proof {
            assert(ps@.take(i as int) =~= ps@);
        }
    }

    /// Converts each statement in turn, collecting the ids of their nodes.
    fn convert_stmts(&mut self, ss: &Vec<PyStmt>, children: &mut Vec<NodeId>)
        requires
            has_room(*old(self), stmts_count(ss@)),
            all_filled(ss@),
        ensures
            grew(*old(self), *final(self), stmts_count(ss@)),
            stmts_emits(source_bytes(*old(self)), ss@, old(self).next_node_id(), added(*old(self), *final(self))),
            final(children)@ == old(children)@ + stmts_roots(ss@, old(self).next_node_id()),
        decreases ss, 0nat,
    {
        let ghost start = *self;
        let ghost n0 = self.next_node_id();
        let ghost ch0 = children@;
        let ghost bytes = source_bytes(*self);
        proof {
            assert(ss@.take(0) =~= Seq::<PyStmt>::empty());
            assert(added(start, *self) =~= Seq::<AstNode>::empty());
            assert(self.tree().nodes@.subrange(0, start.tree().nodes@.len() as int) =~= start.tree().nodes@);
            assert(children@ =~= ch0 + stmts_roots(ss@.take(0), n0));
        }
        let mut i: usize = 0;
        while i < ss.len()
            invariant
                i <= ss@.len(),
                has_room(start, stmts_count(ss@)),
                all_filled(ss@),
                n0 == start.next_node_id(),
                bytes == source_bytes(start),
                grew(start, *self, stmts_count(ss@.take(i as int))),
                stmts_emits(bytes, ss@.take(i as int), n0, added(start, *self)),
                children@ == ch0 + stmts_roots(ss@.take(i as int), n0),
            decreases ss@.len() - i,
        {
            let ghost mid = *self;
            proof {
                lemma_stmts_count_prefix(ss@, i as int);
                lemma_all_filled(ss@, i as int);
            }
            match self.convert_stmt(&ss[i]) {
                Some(c) => {
                    children.push(c);
                },
                None => {},
            }
            proof {
                lemma_grew_trans(start, mid, *self, stmts_count(ss@.take(i as int)), stmt_count(ss@[i as int]));
                let t1 = ss@.take(i as int + 1);
                assert(t1.drop_last() =~= ss@.take(i as int));
                assert(t1.last() == ss@[i as int]);
                let all = added(start, *self);
                let c = stmts_count(ss@.take(i as int));
                assert(all.subrange(0, c as int) =~= added(start, mid));
                assert(all.subrange(c as int, all.len() as int) =~= added(mid, *self));
                assert(children@ =~= ch0 + stmts_roots(t1, n0));
            }
            i = i + 1;
        }
        proof {
            assert(ss@.take(i as int) =~= ss@);
        }
    }

    /// Converts the first statement of each clause in turn, collecting the
    /// ids of their nodes.
    fn convert_heads(&mut self, cs: &Vec<Vec<PyStmt>>, children: &mut Vec<NodeId>)
        requires
            has_room(*old(self), heads_count(cs@)),
            heads_filled(cs@),
        ensures
            grew(*old(self), *final(self), heads_count(cs@)),
            heads_emits(source_bytes(*old(self)), cs@, old(self).next_node_id(), added(*old(self), *final(self))),
            final(children)@ == old(children)@ + heads_roots(cs@, old(self).next_node_id()),
        decreases cs, 0nat,
    {
        let ghost start = *self;
        let ghost n0 = self.next_node_id();
        let ghost ch0 = children@;
        let ghost bytes = source_bytes(*self);
        proof {
            assert(cs@.take(0) =~= Seq::<Vec<PyStmt>>::empty());
            assert(added(start, *self) =~= Seq::<AstNode>::empty());
            assert(self.tree().nodes@.subrange(0, start.tree().nodes@.len() as int) =~= start.tree().nodes@);
            assert(children@ =~= ch0 + heads_roots(cs@.take(0), n0));
        }
        let mut i: usize = 0;
        while i < cs.len()
            invariant
                i <= cs@.len(),
                has_room(start, heads_count(cs@)),
                heads_filled(cs@),
                n0 == start.next_node_id(),
                bytes == source_bytes(start),
                grew(start, *self, heads_count(cs@.take(i as int))),
                heads_emits(bytes, cs@.take(i as int), n0, added(start, *self)),
                children@ == ch0 + heads_roots(cs@.take(i as int), n0),
            decreases cs@.len() - i,
        {
            let ghost mid = *self;
            proof {
                lemma_heads_filled(cs@, i as int);
                lemma_heads_count_prefix(cs@, i as int);
            }
            match self.convert_stmt(&cs[i][0]) {
                Some(c) => {
                    children.push(c);
                },
                None => {},
            }
            proof {
                lemma_grew_trans(start, mid, *self, heads_count(cs@.take(i as int)), stmt_count(cs@[i as int]@[0]));
                let t1 = cs@.take(i as int + 1);
                assert(t1.drop_last() =~= cs@.take(i as int));
                assert(t1.last() == cs@[i as int]);
                let all = added(start, *self);
                let c = heads_count(cs@.take(i as int));
                assert(all.subrange(0, c as int) =~= added(start, mid));
                assert(all.subrange(c as int, all.len() as int) =~= added(mid, *self));
                assert(children@ =~= ch0 + heads_roots(t1, n0));
            }
            i = i + 1;
        }
        proof {
            assert(cs@.take(i as int) =~= cs@);
        }
    }

    /// Converts a function definition: its parameters and body, then itself.
    fn convert_function_def(&mut self, stmt: &PyStmt) -> (r: Option<usize>)
        requires
            stmt is FunctionDef,
            clauses_filled(*stmt),
            has_room(*old(self), stmt_count(*stmt)),
        ensures
            r == Some(old(self).next_node_id() as usize),
            grew(*old(self), *final(self), stmt_count(*stmt)),
            stmt_emits(source_bytes(*old(self)), *stmt, old(self).next_node_id(), added(*old(self), *final(self))),
        decreases *stmt, 0nat,
    {
        let ghost start = *self;
        let ghost n = self.next_node_id();
        let id = self.next_id();
        let ghost after_id = *self;
        proof {
            assert(after_id.tree().nodes@.subrange(0, start.tree().nodes@.len() as int) =~= start.tree().nodes@);
        }
        let mut children: Vec<NodeId> = Vec::new();
        match stmt {
            PyStmt::FunctionDef { range, name, args, body } => {
                self.convert_parameters(args, &mut children);
                let ghost mid = *self;
                self.convert_stmts(body, &mut children);
                let ghost before_node = *self;
                proof {
                    lemma_grew_trans(after_id, mid, before_node, args@.len(), (stmt_count(*stmt) - 1 - args@.len()) as nat);
                    assert(children@ =~= params_roots(args@, n + 1) + stmts_roots(body@, n + 1 + args@.len()));
                }
                let r = self.close_node(id, *range, NodeKind::Function, Some(name.clone()), children);
                proof {
                    lemma_grew_trans(start, after_id, before_node, 1, (stmt_count(*stmt) - 1) as nat);
                    lemma_grew_trans(start, before_node, *self, stmt_count(*stmt), 0);
                    let seg = added(start, *self);
                    let c1 = args@.len();
                    assert(seg.subrange(0, c1 as int) =~= added(after_id, mid));
                    assert(seg.subrange(c1 as int, seg.len() - 1) =~= added(mid, before_node));
                    assert(seg.last() == added(before_node, *self)[0]);
                }
                Some(r)
            },
            _ => None,
        }
    }

    /// Converts a class definition: its body, then itself.
    fn convert_class_def(&mut self, stmt: &PyStmt) -> (r: Option<usize>)
        requires
            stmt is ClassDef,
            clauses_filled(*stmt),
            has_room(*old(self), stmt_count(*stmt)),
        ensures
            r == Some(old(self).next_node_id() as usize),
            grew(*old(self), *final(self), stmt_count(*stmt)),
            stmt_emits(source_bytes(*old(self)), *stmt, old(self).next_node_id(), added(*old(self), *final(self))),
        decreases *stmt, 0nat,
    {
        let ghost start = *self;
        let ghost n = self.next_node_id();
        let id = self.next_id();
        let ghost after_id = *self;
        proof {
            assert(after_id.tree().nodes@.subrange(0, start.tree().nodes@.len() as int) =~= start.tree().nodes@);
        }
        let mut children: Vec<NodeId> = Vec::new();
        match stmt {
            PyStmt::ClassDef { range, name, body } => {
                self.convert_stmts(body, &mut children);
                let ghost before_node = *self;
                proof {
                    assert(children@ =~= stmts_roots(body@, n + 1));
                }
                let r = self.close_node(id, *range, NodeKind::Class, Some(name.clone()), children);
                proof {
                    lemma_grew_trans(start, after_id, before_node, 1, (stmt_count(*stmt) - 1) as nat);
                    lemma_grew_trans(start, before_node, *self, stmt_count(*stmt), 0);
                    let seg = added(start, *self);
                    assert(seg.drop_last() =~= added(after_id, before_node));
                    assert(seg.last() == added(before_node, *self)[0]);
                }
                Some(r)
            },
            _ => None,
        }
    }

    /// Converts an `if`: its body and the first statement of each clause, then itself.
    fn convert_if(&mut self, stmt: &PyStmt) -> (r: Option<usize>)
        requires
            stmt is If,
            clauses_filled(*stmt),
            has_room(*old(self), stmt_count(*stmt)),
        ensures
            r == Some(old(self).next_node_id() as usize),
            grew(*old(self), *final(self), stmt_count(*stmt)),
            stmt_emits(source_bytes(*old(self)), *stmt, old(self).next_node_id(), added(*old(self), *final(self))),
        decreases *stmt, 0nat,
    {
        let ghost start = *self;
        let ghost n = self.next_node_id();
        let id = self.next_id();
        let ghost after_id = *self;
        proof {
            assert(after_id.tree().nodes@.subrange(0, start.tree().nodes@.len() as int) =~= start.tree().nodes@);
        }
        let mut children: Vec<NodeId> = Vec::new();
        match stmt {
            PyStmt::If { range, body, elif_else_clauses } => {
                self.convert_stmts(body, &mut children);
                let ghost mid = *self;
                self.convert_heads(elif_else_clauses, &mut children);
                let ghost before_node = *self;
                proof {
                    lemma_grew_trans(after_id, mid, before_node, stmts_count(body@), (stmt_count(*stmt) - 1 - stmts_count(body@)) as nat);
                    assert(children@ =~= stmts_roots(body@, n + 1) + heads_roots(elif_else_clauses@, n + 1 + stmts_count(body@)));
                }
                let r = self.close_node(id, *range, NodeKind::IfStatement, None, children);
                proof {
                    lemma_grew_trans(start, after_id, before_node, 1, (stmt_count(*stmt) - 1) as nat);
                    lemma_grew_trans(start, before_node, *self, stmt_count(*stmt), 0);
                    let seg = added(start, *self);
                    let c1 = stmts_count(body@);
                    assert(seg.subrange(0, c1 as int) =~= added(after_id, mid));
                    assert(seg.subrange(c1 as int, seg.len() - 1) =~= added(mid, before_node));
                    assert(seg.last() == added(before_node, *self)[0]);
                }
                Some(r)
            },
            _ => None,
        }
    }

    /// Converts a loop or `try`: its body, then itself.
    fn convert_block(&mut self, stmt: &PyStmt) -> (r: Option<usize>)
        requires
            stmt is For || stmt is While || stmt is Try,
            clauses_filled(*stmt),
            has_room(*old(self), stmt_count(*stmt)),
        ensures
            r == Some(old(self).next_node_id() as usize),
            grew(*old(self), *final(self), stmt_count(*stmt)),
            stmt_emits(source_bytes(*old(self)), *stmt, old(self).next_node_id(), added(*old(self), *final(self))),
        decreases *stmt, 0nat,
    {
        let ghost start = *self;
        let ghost n = self.next_node_id();
        let id = self.next_id();
        let ghost after_id = *self;
        proof {
            assert(after_id.tree().nodes@.subrange(0, start.tree().nodes@.len() as int) =~= start.tree().nodes@);
        }
        let mut children: Vec<NodeId> = Vec::new();
        match stmt {
            PyStmt::For { range, body } => {
                self.convert_stmts(body, &mut children);
                let ghost before_node = *self;
                proof {
                    assert(children@ =~= stmts_roots(body@, n + 1));
                }
                let r = self.close_node(id, *range, NodeKind::ForLoop, None, children);
                proof {
                    lemma_grew_trans(start, after_id, before_node, 1, (stmt_count(*stmt) - 1) as nat);
                    lemma_grew_trans(start, before_node, *self, stmt_count(*stmt), 0);
                    let seg = added(start, *self);
                    assert(seg.drop_last() =~= added(after_id, before_node));
                    assert(seg.last() == added(before_node, *self)[0]);
                }
                Some(r)
            },
            PyStmt::While { range, body } => {
                self.convert_stmts(body, &mut children);
                let ghost before_node = *self;
                proof {
                    assert(children@ =~= stmts_roots(body@, n + 1));
                }
                let r = self.close_node(id, *range, NodeKind::WhileLoop, None, children);
                proof {
                    lemma_grew_trans(start, after_id, before_node, 1, (stmt_count(*stmt) - 1) as nat);
                    lemma_grew_trans(start, before_node, *self, stmt_count(*stmt), 0);
                    let seg = added(start, *self);
                    assert(seg.drop_last() =~= added(after_id, before_node));
                    assert(seg.last() == added(before_node, *self)[0]);
                }
                Some(r)
            },
            PyStmt::Try { range, body } => {
                self.convert_stmts(body, &mut children);
                let ghost before_node = *self;
                proof {
                    assert(children@ =~= stmts_roots(body@, n + 1));
                }
                let r = self.close_node(id, *range, NodeKind::TryStatement, None, children);
                proof {
                    lemma_grew_trans(start, after_id, before_node, 1, (stmt_count(*stmt) - 1) as nat);
                    lemma_grew_trans(start, before_node, *self, stmt_count(*stmt), 0);
                    let seg = added(start, *self);
                    assert(seg.drop_last() =~= added(after_id, before_node));
                    assert(seg.last() == added(before_node, *self)[0]);
                }
                Some(r)
            },

            _ => None,
        }
    }

    /// Converts a statement with at most one expression (`return`, an assignment, an expression statement): the expression, then itself.
    fn convert_value_stmt(&mut self, stmt: &PyStmt) -> (r: Option<usize>)
        requires
            stmt is Assign || stmt is Expr || stmt is Return,
            clauses_filled(*stmt),
            has_room(*old(self), stmt_count(*stmt)),
        ensures
            r == Some(old(self).next_node_id() as usize),
            grew(*old(self), *final(self), stmt_count(*stmt)),
            stmt_emits(source_bytes(*old(self)), *stmt, old(self).next_node_id(), added(*old(self), *final(self))),
        decreases *stmt, 0nat,
    {
        let ghost start = *self;
        let ghost n = self.next_node_id();
        let id = self.next_id();
        let ghost after_id = *self;
        proof {
            assert(after_id.tree().nodes@.subrange(0, start.tree().nodes@.len() as int) =~= start.tree().nodes@);
        }
        let mut children: Vec<NodeId> = Vec::new();
        match stmt {
            PyStmt::Assign { range, value } => {
                match self.convert_expr(value) {
                    Some(c) => children.push(c),
                    None => {},
                }
                let ghost before_node = *self;
                proof {
                    assert(children@ =~= seq![(n + 1) as NodeId]);
                }
                let r = self.close_node(id, *range, NodeKind::Assignment, None, children);
                proof {
                    lemma_grew_trans(start, after_id, before_node, 1, (stmt_count(*stmt) - 1) as nat);
                    lemma_grew_trans(start, before_node, *self, stmt_count(*stmt), 0);
                    let seg = added(start, *self);
                    assert(seg.drop_last() =~= added(after_id, before_node));
                    assert(seg.last() == added(before_node, *self)[0]);
                }
                Some(r)
            },
            PyStmt::Expr { range, value } => {
                match self.convert_expr(value) {
                    Some(c) => children.push(c),
                    None => {},
                }
                let ghost before_node = *self;
                proof {
                    assert(children@ =~= seq![(n + 1) as NodeId]);
                }
                let r = self.close_node(id, *range, NodeKind::Expression, None, children);
                proof {
                    lemma_grew_trans(start, after_id, before_node, 1, (stmt_count(*stmt) - 1) as nat);
                    lemma_grew_trans(start, before_node, *self, stmt_count(*stmt), 0);
                    let seg = added(start, *self);
                    assert(seg.drop_last() =~= added(after_id, before_node));
                    assert(seg.last() == added(before_node, *self)[0]);
                }
                Some(r)
            },
            PyStmt::Return { range, value } => {
                match value {
                    Some(e) => {
                        match self.convert_expr(e) {
                            Some(c) => children.push(c),
                            None => {},
                        }
                    },
                    None => {},
                }
                let ghost before_node = *self;
                proof {
                    match value {
                        Some(e) => {
                            assert(children@ =~= seq![(n + 1) as NodeId]);
                        },
                        None => {
                            assert(children@ =~= seq![]);
                        },
                    }
                }
                let r = self.close_node(id, *range, NodeKind::Return, None, children);
                proof {
                    lemma_grew_trans(start, after_id, before_node, 1, (stmt_count(*stmt) - 1) as nat);
                    lemma_grew_trans(start, before_node, *self, stmt_count(*stmt), 0);
                    let seg = added(start, *self);
                    assert(seg.drop_last() =~= added(after_id, before_node));
                    assert(seg.last() == added(before_node, *self)[0]);
                }
                Some(r)
            },

            _ => None,
        }
    }

    /// Converts a statement with no converted children.
    fn convert_simple_stmt(&mut self, stmt: &PyStmt) -> (r: Option<usize>)
        requires
            !(stmt is FunctionDef || stmt is ClassDef || stmt is If || stmt is For || stmt is While
                || stmt is Try || stmt is Assign || stmt is Expr || stmt is Return),
            clauses_filled(*stmt),
            has_room(*old(self), stmt_count(*stmt)),
        ensures
            r == Some(old(self).next_node_id() as usize),
            grew(*old(self), *final(self), stmt_count(*stmt)),
            stmt_emits(source_bytes(*old(self)), *stmt, old(self).next_node_id(), added(*old(self), *final(self))),
        decreases *stmt, 0nat,
    {
        let ghost start = *self;
        let ghost n = self.next_node_id();
        let id = self.next_id();
        let ghost after_id = *self;
        proof {
            assert(after_id.tree().nodes@.subrange(0, start.tree().nodes@.len() as int) =~= start.tree().nodes@);
        }
        let mut children: Vec<NodeId> = Vec::new();
        match stmt {
            PyStmt::AugAssign { range } => {
                let r = self.convert_leaf(id, *range, NodeKind::AugmentedAssignment, None);
                proof { lemma_grew_trans(start, after_id, *self, 1, 0); }
                r
            },
            PyStmt::With { range } => {
                let r = self.convert_leaf(id, *range, NodeKind::WithStatement, None);
                proof { lemma_grew_trans(start, after_id, *self, 1, 0); }
                r
            },
            PyStmt::Break { range } => {
                let r = self.convert_leaf(id, *range, NodeKind::Break, None);
                proof { lemma_grew_trans(start, after_id, *self, 1, 0); }
                r
            },
            PyStmt::Continue { range } => {
                let r = self.convert_leaf(id, *range, NodeKind::Continue, None);
                proof { lemma_grew_trans(start, after_id, *self, 1, 0); }
                r
            },
            PyStmt::Pass { range } => {
                let r = self.convert_leaf(id, *range, NodeKind::Pass, None);
                proof { lemma_grew_trans(start, after_id, *self, 1, 0); }
                r
            },
            PyStmt::Raise { range } => {
                let r = self.convert_leaf(id, *range, NodeKind::Raise, None);
                proof { lemma_grew_trans(start, after_id, *self, 1, 0); }
                r
            },
            PyStmt::Assert { range } => {
                let r = self.convert_leaf(id, *range, NodeKind::Assert, None);
                proof { lemma_grew_trans(start, after_id, *self, 1, 0); }
                r
            },
            PyStmt::Import { range } => {
                let r = self.convert_leaf(id, *range, NodeKind::Import, None);
                proof { lemma_grew_trans(start, after_id, *self, 1, 0); }
                r
            },
            PyStmt::ImportFrom { range } => {
                let r = self.convert_leaf(id, *range, NodeKind::ImportFrom, None);
                proof { lemma_grew_trans(start, after_id, *self, 1, 0); }
                r
            },
            PyStmt::Other { range } => {
                let r = self.convert_leaf(
                    id,
                    *range,
                    NodeKind::Unknown("UnsupportedStatement".to_owned()),
                    None,
                );
                proof {
                    lemma_grew_trans(start, after_id, *self, 1, 0);
                    reveal_strlit("Unknown(");
                    reveal_strlit(")");
                    reveal_strlit("UnsupportedStatement");
                    reveal_strlit("Unknown(UnsupportedStatement)");
                    assert("Unknown("@ + "UnsupportedStatement"@ + ")"@ =~= "Unknown(UnsupportedStatement)"@);
                }
                r
            },

            _ => None,
        }
    }

    /// Converts a statement, returning the id of its node.
    pub fn convert_stmt(&mut self, stmt: &PyStmt) -> (r: Option<usize>)
        requires
            clauses_filled(*stmt),
            has_room(*old(self), stmt_count(*stmt)),
        ensures
            r == Some(old(self).next_node_id() as usize),
            grew(*old(self), *final(self), stmt_count(*stmt)),
            stmt_emits(source_bytes(*old(self)), *stmt, old(self).next_node_id(), added(*old(self), *final(self))),
        decreases *stmt, 1nat,
    {
        match stmt {
            PyStmt::FunctionDef { .. } => self.convert_function_def(stmt),
            PyStmt::ClassDef { .. } => self.convert_class_def(stmt),
            PyStmt::If { .. } => self.convert_if(stmt),
            PyStmt::For { .. } | PyStmt::While { .. } | PyStmt::Try { .. } => self.convert_block(stmt),
            PyStmt::Assign { .. } | PyStmt::Expr { .. } | PyStmt::Return { .. } => self.convert_value_stmt(stmt),
            _ => self.convert_simple_stmt(stmt),
        }
    }

    /// Converts a parsed module: the module node first (the root, spanning
    /// the whole source), then its statements, which become the module's
    /// children. Only the module mode of parsing is supported.
    pub fn convert(self, module: &PyMod) -> (r: Result<Ast, AstError>)
        requires
            self.tree().nodes@.len() == 0,
            self.next_node_id() == 0,
            module matches PyMod::Module { body } ==> has_room(self, 1 + stmts_count(body@))
                && all_filled(body@),
        ensures
            module is Expression ==> (r matches Err(AstError::UnsupportedNode(m)) && m@
                == "Only Module mode supported"@),
            module matches PyMod::Module { body } ==> (r matches Ok(ast) && module_converted(
                ast,
                self.tree().source_file,
                source_bytes(self),
                body@,
            )),
    {
        match module {
            PyMod::Module { body } => {
                let mut conv = self;
                let ghost bytes = source_bytes(conv);
                let ghost file = conv.tree().source_file;
                let module_id = conv.begin_module();
                let ghost after_module = conv;
                let mut children: Vec<NodeId> = Vec::new();
                proof {
                    assert(conv.tree().nodes@.subrange(0, after_module.tree().nodes@.len() as int) =~= after_module.tree().nodes@);
                }
                conv.convert_stmts(body, &mut children);
                let ghost before_set = conv;
                proof {
                    assert(children@ =~= stmts_roots(body@, 1));
                    assert(node_index(before_set.tree().nodes@, 0) == Some(0int)) by {
                        assert(before_set.tree().nodes@[0] == after_module.tree().nodes@[0]);
                        let nodes = before_set.tree().nodes@;
                        lemma_first_with_id(nodes, 0, nodes.len() as int);
                        assert(nodes[0].id == 0);
                    }
                }
                conv.set_children(module_id, children);
                let ast = conv.into_ast();
                proof {
                    let seg = added(after_module, before_set);
                    assert(ast.nodes@.drop_first() =~= seg);
                }
                Ok(ast)
            },
            PyMod::Expression => Err(AstError::UnsupportedNode("Only Module mode supported".to_owned())),
        }
    }
}

/// Converts the result of parsing Python source to a generic AST: a parse
/// error becomes `AstError::ParseError` (its text after "Failed to parse
/// Python: "), a module is converted, and any other parse mode is refused.
pub fn convert_parsed_module(
    parsed: Result<PyMod, String>,
    source: &str,
    source_file: &str,
) -> (r: Result<Ast, AstError>)
    requires
        encode_utf8(source@).len() < usize::MAX,
        parsed matches Ok(PyMod::Module { body }) ==> 1 + stmts_count(body@) <= usize::MAX
            && all_filled(body@),
    ensures
        parsed matches Err(e) ==> (r matches Err(AstError::ParseError(m)) && m@
            == "Failed to parse Python: "@ + e@),
        parsed matches Ok(PyMod::Expression) ==> (r matches Err(AstError::UnsupportedNode(m))
            && m@ == "Only Module mode supported"@),
        parsed matches Ok(PyMod::Module { body }) ==> (r matches Ok(ast) && ast.source_file@
            == source_file@ && module_converted(ast, ast.source_file, encode_utf8(source@), body@)),
{
    match parsed {
        Err(e) => {
            let mut m = "Failed to parse Python: ".to_owned();
            m.append(e.as_str());
            Err(AstError::ParseError(m))
        },
        Ok(module) => {
            let converter = PythonAstConverter::new(source, source_file);
            converter.convert(&module)
        },
    }
}

/// The number of nodes an expression converts to, where it fits a `usize`.
fn expr_count_checked(e: &PyExpr) -> (r: Option<usize>)
    ensures
        r matches Some(c) ==> c == expr_count(*e),
        r is None ==> expr_count(*e) > usize::MAX,
    decreases *e, 1nat,
{
    let inner = match e {
        PyExpr::BinOp { left, right, .. } => match (expr_count_checked(left), expr_count_checked(right)) {
            (Some(a), Some(b)) => a.checked_add(b),
            _ => None,
        },
        PyExpr::UnaryOp { operand, .. } => expr_count_checked(operand),
        PyExpr::Compare { left, comparators, .. } => match (expr_count_checked(left), exprs_count_checked(comparators)) {
            (Some(a), Some(b)) => a.checked_add(b),
            _ => None,
        },
        PyExpr::BoolOp { values, .. } => exprs_count_checked(values),
        PyExpr::Call { func, args, .. } => match (expr_count_checked(func), exprs_count_checked(args)) {
            (Some(a), Some(b)) => a.checked_add(b),
            _ => None,
        },
        PyExpr::Attribute { value, .. } => expr_count_checked(value),
        PyExpr::Subscript { value, .. } => expr_count_checked(value),
        _ => Some(0),
    };
    match inner {
        Some(c) => c.checked_add(1),
        None => None,
    }
}

/// The number of nodes a list of expressions converts to, where it fits a
/// `usize`.
fn exprs_count_checked(es: &Vec<PyExpr>) -> (r: Option<usize>)
    ensures
        r matches Some(c) ==> c == exprs_count(es@),
        r is None ==> exprs_count(es@) > usize::MAX,
    decreases es, 0nat,
{
    let mut total: usize = 0;
    let mut i: usize = 0;
    while i < es.len()
        invariant
            i <= es@.len(),
            total == exprs_count(es@.take(i as int)),
        decreases es@.len() - i,
    {
        proof {
            lemma_exprs_count_prefix(es@, i as int);
        }
        match expr_count_checked(&es[i]) {
            Some(c) => match total.checked_add(c) {
                Some(t) => {
                    total = t;
                },
                None => {
                    return None;
                },
            },
            None => {
                return None;
            },
        }
        i = i + 1;
    }
    proof {
        assert(es@.take(i as int) =~= es@);
    }
    Some(total)
}

/// The number of nodes a statement converts to, where it fits a `usize`.
fn stmt_count_checked(st: &PyStmt) -> (r: Option<usize>)
    ensures
        r matches Some(c) ==> c == stmt_count(*st),
        r is None ==> stmt_count(*st) > usize::MAX,
    decreases *st, 1nat,
{
    let inner = match st {
        PyStmt::FunctionDef { args, body, .. } => match stmts_count_checked(body) {
            Some(b) => b.checked_add(args.len()),
            None => None,
        },
        PyStmt::ClassDef { body, .. } => stmts_count_checked(body),
        PyStmt::Return { value, .. } => match value {
            Some(e) => expr_count_checked(e),
            None => Some(0),
        },
        PyStmt::Assign { value, .. } => expr_count_checked(value),
        PyStmt::If { body, elif_else_clauses, .. } => match (stmts_count_checked(body), heads_count_checked(elif_else_clauses)) {
            (Some(a), Some(b)) => a.checked_add(b),
            _ => None,
        },
        PyStmt::For { body, .. } => stmts_count_checked(body),
        PyStmt::While { body, .. } => stmts_count_checked(body),
        PyStmt::Try { body, .. } => stmts_count_checked(body),
        PyStmt::Expr { value, .. } => expr_count_checked(value),
        _ => Some(0),
    };
    match inner {
        Some(c) => c.checked_add(1),
        None => None,
    }
}

/// The number of nodes a list of statements converts to, where it fits a
/// `usize`.
fn stmts_count_checked(ss: &Vec<PyStmt>) -> (r: Option<usize>)
    ensures
        r matches Some(c) ==> c == stmts_count(ss@),
        r is None ==> stmts_count(ss@) > usize::MAX,
    decreases ss, 0nat,
{
    let mut total: usize = 0;
    let mut i: usize = 0;
    while i < ss.len()
        invariant
            i <= ss@.len(),
            total == stmts_count(ss@.take(i as int)),
        decreases ss@.len() - i,
    {
        proof {
            lemma_stmts_count_prefix(ss@, i as int);
        }
        match stmt_count_checked(&ss[i]) {
            Some(c) => match total.checked_add(c) {
                Some(t) => {
                    total = t;
                },
                None => {
                    return None;
                },
            },
            None => {
                return None;
            },
        }
        i = i + 1;
    }
    proof {
        assert(ss@.take(i as int) =~= ss@);
    }
    Some(total)
}

/// The number of nodes the first statements of the clauses convert to,
/// where it fits a `usize`.
fn heads_count_checked(cs: &Vec<Vec<PyStmt>>) -> (r: Option<usize>)
    ensures
        r matches Some(c) ==> c == heads_count(cs@),
        r is None ==> heads_count(cs@) > usize::MAX,
    decreases cs, 0nat,
{
    let mut total: usize = 0;
    let mut i: usize = 0;
    while i < cs.len()
        invariant
            i <= cs@.len(),
            total == heads_count(cs@.take(i as int)),
        decreases cs@.len() - i,
    {
        proof {
            assert(cs@.take(i as int + 1).drop_last() =~= cs@.take(i as int));
            lemma_heads_count_monotone(cs@, i as int + 1);
        }
        if cs[i].len() > 0 {
            match stmt_count_checked(&cs[i][0]) {
                Some(c) => match total.checked_add(c) {
                    Some(t) => {
                        total = t;
                    },
                    None => {
                        return None;
                    },
                },
                None => {
                    return None;
                },
            }
        }
        i = i + 1;
    }
    proof {
        assert(cs@.take(i as int) =~= cs@);
    }
    Some(total)
}

/// The parsed module can be converted: every `elif` and `else` clause has a
/// statement, and the ids of all its nodes fit a `usize`.
pub open spec fn convertible(body: Seq<PyStmt>) -> bool {
    all_filled(body) && 1 + stmts_count(body) <= usize::MAX
}

/// Parse Python source with Ruff's parser and convert it to a generic AST:
/// a parse error becomes `AstError::ParseError` (its text after "Failed to
/// parse Python: "), a module is converted, any other parse mode is
/// refused, and a module that cannot be converted (an `elif` or `else`
/// clause without a statement, or more nodes than ids) is reported as an
/// invalid structure.
pub fn parse_python_to_generic_ast(source: &str, source_file: &str) -> (r: Result<Ast, AstError>)
    requires
        encode_utf8(source@).len() < usize::MAX,
    ensures
        ruff_module(source@) matches Err(e) ==> (r matches Err(AstError::ParseError(m)) && m@
            == "Failed to parse Python: "@ + e),
        ruff_module(source@) matches Ok(PyMod::Expression) ==> (r matches Err(
            AstError::UnsupportedNode(m),
        ) && m@ == "Only Module mode supported"@),
        ruff_module(source@) matches Ok(PyMod::Module { body }) ==> (convertible(body@) ==> (r matches Ok(
            ast,
        ) && ast.source_file@ == source_file@ && module_converted(
            ast,
            ast.source_file,
            encode_utf8(source@),
            body@,
        ))),
        ruff_module(source@) matches Ok(PyMod::Module { body }) ==> (!convertible(body@) ==> r matches Err(
            AstError::InvalidStructure(_),
        )),
{
    let parsed = parse_module(source);
    if let Ok(PyMod::Module { body }) = &parsed {
        let fits = match stmts_count_checked(body) {
            Some(c) => c < usize::MAX,
            None => false,
        };
        if !fits || !stmts_clauses_filled(body) {
            return Err(AstError::InvalidStructure("Module cannot be converted".to_owned()));
        }
    }
    convert_parsed_module(parsed, source, source_file)
}

impl PythonAstParser {
    /// Parse Python source to a generic AST (see
    /// `parse_python_to_generic_ast`).
    pub fn parse(&self, source: &str, source_file: &str) -> (r: Result<Ast, AstError>)
        requires
            encode_utf8(source@).len() < usize::MAX,
        ensures
            ruff_module(source@) matches Err(e) ==> (r matches Err(AstError::ParseError(m)) && m@
                == "Failed to parse Python: "@ + e),
            ruff_module(source@) matches Ok(PyMod::Expression) ==> (r matches Err(
                AstError::UnsupportedNode(m),
            ) && m@ == "Only Module mode supported"@),
            ruff_module(source@) matches Ok(PyMod::Module { body }) ==> (convertible(body@) ==> (r matches Ok(
                ast,
            ) && ast.source_file@ == source_file@ && module_converted(
                ast,
                ast.source_file,
                encode_utf8(source@),
                body@,
            ))),
            ruff_module(source@) matches Ok(PyMod::Module { body }) ==> (!convertible(body@) ==> r matches Err(
                AstError::InvalidStructure(_),
            )),
    {
        parse_python_to_generic_ast(source, source_file)
    }
}

/// What the RustPython parser gives for a source parsed in module mode
/// (`rustpython_parser::parse`): whether the tree it built is a module, or
/// the debug text of its error.
pub uninterp spec fn rustpython_module(source: Seq<char>, path: Seq<char>) -> Result<bool, Seq<char>>;

/// Calls `rustpython_parser::parse` in module mode. The contract claims
/// only that the result is the named function of the source and path:
/// whether the parsed tree is a module, or the error's debug text.
#[verifier::external_body]
fn parse_module_mode(source: &str, path: &str) -> (r: Result<bool, String>)
    ensures
        match r {
            Ok(m) => rustpython_module(source@, path@) == Ok::<bool, Seq<char>>(m),
            Err(e) => rustpython_module(source@, path@) == Err::<bool, Seq<char>>(e@),
        },
{
    match rustpython_parser::parse(source, rustpython_parser::Mode::Module, path) {
        Ok(rustpython_parser::ast::Mod::Module(_)) => Ok(true),
        Ok(_) => Ok(false),
        Err(e) => Err(format!("{:?}", e)),
    }
}

impl PythonParser {
    /// Convert what parsing a source gave into an AST: a parse error
    /// becomes `AstError::ParseError` (its text after "Failed to parse
    /// Python: "), a module becomes a tree of its module node alone, and
    /// any other mode is refused.
    pub fn convert_to_generic_ast(&self, parsed: Result<PyMod, String>, filename: &str) -> (r: Result<
        Ast,
        AstError,
    >)
        ensures
            parsed matches Err(e) ==> (r matches Err(AstError::ParseError(m)) && m@
                == "Failed to parse Python: "@ + e@),
            parsed matches Ok(PyMod::Expression) ==> (r matches Err(AstError::UnsupportedNode(m))
                && m@ == "Expression mode not supported"@),
            parsed matches Ok(PyMod::Module { .. }) ==> (r matches Ok(ast) && ast.source_file@
                == filename@ && ast.root == 0 && ast.nodes@.len() == 1 && ast.nodes@[0].kind
                == NodeKind::Module && ast.nodes@[0].children@.len() == 0),
    {
        match parsed {
            Err(e) => {
                let mut m = "Failed to parse Python: ".to_owned();
                m.append(e.as_str());
                Err(AstError::ParseError(m))
            },
            Ok(PyMod::Module { .. }) => Ok(self.module_ast(filename)),
            Ok(PyMod::Expression) => Err(
                AstError::UnsupportedNode("Expression mode not supported".to_owned()),
            ),
        }
    }

    /// Parse Python source code into an AST with the RustPython parser: a
    /// parse error becomes `AstError::ParseError`, a module a tree of its
    /// module node alone, and a tree of another mode is refused.
    pub fn parse_source(&self, source: &str, filename: &str) -> (r: Result<Ast, AstError>)
        ensures
            rustpython_module(source@, filename@) matches Err(e) ==> (r matches Err(
                AstError::ParseError(m),
            ) && m@ == "Failed to parse Python: "@ + e),
            rustpython_module(source@, filename@) == Ok::<bool, Seq<char>>(false) ==> (r matches Err(
                AstError::UnsupportedNode(m),
            ) && m@ == "Expression mode not supported"@),
            rustpython_module(source@, filename@) == Ok::<bool, Seq<char>>(true) ==> (r matches Ok(ast)
                && ast.source_file@ == filename@ && ast.root == 0 && ast.nodes@.len() == 1
                && ast.nodes@[0].kind == NodeKind::Module && ast.nodes@[0].children@.len() == 0),
    {
        let parsed = match parse_module_mode(source, filename) {
            Ok(true) => Ok(PyMod::Module { body: Vec::new() }),
            Ok(false) => Ok(PyMod::Expression),
            Err(e) => Err(e),
        };
        self.convert_to_generic_ast(parsed, filename)
    }
}

} // verus!
