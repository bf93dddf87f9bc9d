//! Language-agnostic AST representation for code clone detection: generic
//! node kinds, nodes with source spans, and trees that find nodes by id.

use vstd::prelude::*;
use vstd::string::*;

verus! {

/// A unique identifier for a node in the AST.
pub type NodeId = usize;

/// Location information for a code span.
#[derive(Debug, Clone, Copy, PartialEq, Eq, Hash, Structural)]
pub struct Span {
    pub start: usize,
    pub end: usize,
    pub line_start: usize,
    pub line_end: usize,
    pub column_start: usize,
    pub column_end: usize,
}

impl Span {
    pub fn new(
        start: usize,
        end: usize,
        line_start: usize,
        line_end: usize,
        column_start: usize,
        column_end: usize,
    ) -> (r: Self)
        ensures
            r == (Span { start, end, line_start, line_end, column_start, column_end }),
    {
        Self { start, end, line_start, line_end, column_start, column_end }
    }

    /// Returns the length of the span in bytes.
    pub fn len(&self) -> (r: usize)
        requires
            self.start <= self.end,
        ensures
            r == self.end - self.start,
    {
        self.end - self.start
    }

    /// Returns true if the span is empty.
    pub fn is_empty(&self) -> (r: bool)
        ensures
            r == (self.start == self.end),
    {
        self.start == self.end
    }
}

/// Generic node type for language-agnostic AST representation.
#[derive(Debug, Clone, Hash)]
pub enum NodeKind {
    // Structural nodes
    Module,
    Class,
    Function,
    Method,
    Block,
    Parameter,

    // Statement nodes
    IfStatement,
    ElifStatement,
    ElseStatement,
    WhileLoop,
    ForLoop,
    TryStatement,
    ExceptHandler,
    FinallyStatement,
    WithStatement,
    Return,
    Break,
    Continue,
    Pass,
    Raise,
    Assert,
    Assignment,
    AugmentedAssignment,
    Expression,
    Import,
    ImportFrom,

    // Expression nodes
    BinaryOp,
    UnaryOp,
    CompareOp,
    BoolOp,
    FunctionCall,
    MethodCall,
    Attribute,
    Subscript,
    Identifier,
    Literal,
    ListLiteral,
    DictLiteral,
    SetLiteral,
    TupleLiteral,
    Lambda,
    ListComp,
    DictComp,
    SetComp,

    // Other
    Comment,
    Docstring,
    Decorator,
    Unknown(String),
}

impl NodeKind {
    /// The position of the kind's variant among all variants.
    pub open spec fn rank(self) -> int {
        match self {
            NodeKind::Module => 0,
            NodeKind::Class => 1,
            NodeKind::Function => 2,
            NodeKind::Method => 3,
            NodeKind::Block => 4,
            NodeKind::Parameter => 5,
            NodeKind::IfStatement => 6,
            NodeKind::ElifStatement => 7,
            NodeKind::ElseStatement => 8,
            NodeKind::WhileLoop => 9,
            NodeKind::ForLoop => 10,
            NodeKind::TryStatement => 11,
            NodeKind::ExceptHandler => 12,
            NodeKind::FinallyStatement => 13,
            NodeKind::WithStatement => 14,
            NodeKind::Return => 15,
            NodeKind::Break => 16,
            NodeKind::Continue => 17,
            NodeKind::Pass => 18,
            NodeKind::Raise => 19,
            NodeKind::Assert => 20,
            NodeKind::Assignment => 21,
            NodeKind::AugmentedAssignment => 22,
            NodeKind::Expression => 23,
            NodeKind::Import => 24,
            NodeKind::ImportFrom => 25,
            NodeKind::BinaryOp => 26,
            NodeKind::UnaryOp => 27,
            NodeKind::CompareOp => 28,
            NodeKind::BoolOp => 29,
            NodeKind::FunctionCall => 30,
            NodeKind::MethodCall => 31,
            NodeKind::Attribute => 32,
            NodeKind::Subscript => 33,
            NodeKind::Identifier => 34,
            NodeKind::Literal => 35,
            NodeKind::ListLiteral => 36,
            NodeKind::DictLiteral => 37,
            NodeKind::SetLiteral => 38,
            NodeKind::TupleLiteral => 39,
            NodeKind::Lambda => 40,
            NodeKind::ListComp => 41,
            NodeKind::DictComp => 42,
            NodeKind::SetComp => 43,
            NodeKind::Comment => 44,
            NodeKind::Docstring => 45,
            NodeKind::Decorator => 46,
            NodeKind::Unknown(_) => 47,
        }
    }

    /// The position of the kind's variant among all variants.
    pub fn rank_exec(&self) -> (r: u8)
        ensures
            r == self.rank(),
    {
        match self {
            NodeKind::Module => 0,
            NodeKind::Class => 1,
            NodeKind::Function => 2,
            NodeKind::Method => 3,
            NodeKind::Block => 4,
            NodeKind::Parameter => 5,
            NodeKind::IfStatement => 6,
            NodeKind::ElifStatement => 7,
            NodeKind::ElseStatement => 8,
            NodeKind::WhileLoop => 9,
            NodeKind::ForLoop => 10,
            NodeKind::TryStatement => 11,
            NodeKind::ExceptHandler => 12,
            NodeKind::FinallyStatement => 13,
            NodeKind::WithStatement => 14,
            NodeKind::Return => 15,
            NodeKind::Break => 16,
            NodeKind::Continue => 17,
            NodeKind::Pass => 18,
            NodeKind::Raise => 19,
            NodeKind::Assert => 20,
            NodeKind::Assignment => 21,
            NodeKind::AugmentedAssignment => 22,
            NodeKind::Expression => 23,
            NodeKind::Import => 24,
            NodeKind::ImportFrom => 25,
            NodeKind::BinaryOp => 26,
            NodeKind::UnaryOp => 27,
            NodeKind::CompareOp => 28,
            NodeKind::BoolOp => 29,
            NodeKind::FunctionCall => 30,
            NodeKind::MethodCall => 31,
            NodeKind::Attribute => 32,
            NodeKind::Subscript => 33,
            NodeKind::Identifier => 34,
            NodeKind::Literal => 35,
            NodeKind::ListLiteral => 36,
            NodeKind::DictLiteral => 37,
            NodeKind::SetLiteral => 38,
            NodeKind::TupleLiteral => 39,
            NodeKind::Lambda => 40,
            NodeKind::ListComp => 41,
            NodeKind::DictComp => 42,
            NodeKind::SetComp => 43,
            NodeKind::Comment => 44,
            NodeKind::Docstring => 45,
            NodeKind::Decorator => 46,
            NodeKind::Unknown(_) => 47,
        }
    }

    /// The name of the kind, as the kind is displayed.
    pub open spec fn display(self) -> Seq<char> {
        match self {
            NodeKind::Module => "Module"@,
            NodeKind::Class => "Class"@,
            NodeKind::Function => "Function"@,
            NodeKind::Method => "Method"@,
            NodeKind::Block => "Block"@,
            NodeKind::Parameter => "Parameter"@,
            NodeKind::IfStatement => "IfStatement"@,
            NodeKind::ElifStatement => "ElifStatement"@,
            NodeKind::ElseStatement => "ElseStatement"@,
            NodeKind::WhileLoop => "WhileLoop"@,
            NodeKind::ForLoop => "ForLoop"@,
            NodeKind::TryStatement => "TryStatement"@,
            NodeKind::ExceptHandler => "ExceptHandler"@,
            NodeKind::FinallyStatement => "FinallyStatement"@,
            NodeKind::WithStatement => "WithStatement"@,
            NodeKind::Return => "Return"@,
            NodeKind::Break => "Break"@,
            NodeKind::Continue => "Continue"@,
            NodeKind::Pass => "Pass"@,
            NodeKind::Raise => "Raise"@,
            NodeKind::Assert => "Assert"@,
            NodeKind::Assignment => "Assignment"@,
            NodeKind::AugmentedAssignment => "AugmentedAssignment"@,
            NodeKind::Expression => "Expression"@,
            NodeKind::Import => "Import"@,
            NodeKind::ImportFrom => "ImportFrom"@,
            NodeKind::BinaryOp => "BinaryOp"@,
            NodeKind::UnaryOp => "UnaryOp"@,
            NodeKind::CompareOp => "CompareOp"@,
            NodeKind::BoolOp => "BoolOp"@,
            NodeKind::FunctionCall => "FunctionCall"@,
            NodeKind::MethodCall => "MethodCall"@,
            NodeKind::Attribute => "Attribute"@,
            NodeKind::Subscript => "Subscript"@,
            NodeKind::Identifier => "Identifier"@,
            NodeKind::Literal => "Literal"@,
            NodeKind::ListLiteral => "ListLiteral"@,
            NodeKind::DictLiteral => "DictLiteral"@,
            NodeKind::SetLiteral => "SetLiteral"@,
            NodeKind::TupleLiteral => "TupleLiteral"@,
            NodeKind::Lambda => "Lambda"@,
            NodeKind::ListComp => "ListComp"@,
            NodeKind::DictComp => "DictComp"@,
            NodeKind::SetComp => "SetComp"@,
            NodeKind::Comment => "Comment"@,
            NodeKind::Docstring => "Docstring"@,
            NodeKind::Decorator => "Decorator"@,
            NodeKind::Unknown(s) => "Unknown("@ + s@ + ")"@,
        }
    }

    /// The name of the kind, as the kind is displayed.
    pub fn to_display_string(&self) -> (r: String)
        ensures
            r@ == self.display(),
    {
        match self {
            NodeKind::Module => "Module".to_owned(),
            NodeKind::Class => "Class".to_owned(),
            NodeKind::Function => "Function".to_owned(),
            NodeKind::Method => "Method".to_owned(),
            NodeKind::Block => "Block".to_owned(),
            NodeKind::Parameter => "Parameter".to_owned(),
            NodeKind::IfStatement => "IfStatement".to_owned(),
            NodeKind::ElifStatement => "ElifStatement".to_owned(),
            NodeKind::ElseStatement => "ElseStatement".to_owned(),
            NodeKind::WhileLoop => "WhileLoop".to_owned(),
            NodeKind::ForLoop => "ForLoop".to_owned(),
            NodeKind::TryStatement => "TryStatement".to_owned(),
            NodeKind::ExceptHandler => "ExceptHandler".to_owned(),
            NodeKind::FinallyStatement => "FinallyStatement".to_owned(),
            NodeKind::WithStatement => "WithStatement".to_owned(),
            NodeKind::Return => "Return".to_owned(),
            NodeKind::Break => "Break".to_owned(),
            NodeKind::Continue => "Continue".to_owned(),
            NodeKind::Pass => "Pass".to_owned(),
            NodeKind::Raise => "Raise".to_owned(),
            NodeKind::Assert => "Assert".to_owned(),
            NodeKind::Assignment => "Assignment".to_owned(),
            NodeKind::AugmentedAssignment => "AugmentedAssignment".to_owned(),
            NodeKind::Expression => "Expression".to_owned(),
            NodeKind::Import => "Import".to_owned(),
            NodeKind::ImportFrom => "ImportFrom".to_owned(),
            NodeKind::BinaryOp => "BinaryOp".to_owned(),
            NodeKind::UnaryOp => "UnaryOp".to_owned(),
            NodeKind::CompareOp => "CompareOp".to_owned(),
            NodeKind::BoolOp => "BoolOp".to_owned(),
            NodeKind::FunctionCall => "FunctionCall".to_owned(),
            NodeKind::MethodCall => "MethodCall".to_owned(),
            NodeKind::Attribute => "Attribute".to_owned(),
            NodeKind::Subscript => "Subscript".to_owned(),
            NodeKind::Identifier => "Identifier".to_owned(),
            NodeKind::Literal => "Literal".to_owned(),
            NodeKind::ListLiteral => "ListLiteral".to_owned(),
            NodeKind::DictLiteral => "DictLiteral".to_owned(),
            NodeKind::SetLiteral => "SetLiteral".to_owned(),
            NodeKind::TupleLiteral => "TupleLiteral".to_owned(),
            NodeKind::Lambda => "Lambda".to_owned(),
            NodeKind::ListComp => "ListComp".to_owned(),
            NodeKind::DictComp => "DictComp".to_owned(),
            NodeKind::SetComp => "SetComp".to_owned(),
            NodeKind::Comment => "Comment".to_owned(),
            NodeKind::Docstring => "Docstring".to_owned(),
            NodeKind::Decorator => "Decorator".to_owned(),
            NodeKind::Unknown(s) => {
                let mut r = "Unknown(".to_owned();
                r.append(s.as_str());
                r.append(")");
                r
            },
        }
    }
}

/// Two kinds are equal when they are the same variant, and, for unknown
/// kinds, name the same thing.
pub open spec fn kinds_equal(a: NodeKind, b: NodeKind) -> bool {
    match (a, b) {
        (NodeKind::Unknown(x), NodeKind::Unknown(y)) => x@ == y@,
        _ => a.rank() == b.rank(),
    }
}

impl PartialEq for NodeKind {
    fn eq(&self, other: &Self) -> (r: bool) {
        match (self, other) {
            (NodeKind::Unknown(x), NodeKind::Unknown(y)) => x.eq(y),
            _ => self.rank_exec() == other.rank_exec(),
        }
    }
}

impl vstd::std_specs::cmp::PartialEqSpecImpl for NodeKind {
    open spec fn obeys_eq_spec() -> bool {
        true
    }

    open spec fn eq_spec(&self, other: &Self) -> bool {
        kinds_equal(*self, *other)
    }
}

impl Eq for NodeKind {
}

impl NodeKind {
    /// A copy of this kind.
    pub fn duplicate(&self) -> (r: Self)
        ensures
            r == *self,
    {
        match self {
            NodeKind::Module => NodeKind::Module,
            NodeKind::Class => NodeKind::Class,
            NodeKind::Function => NodeKind::Function,
            NodeKind::Method => NodeKind::Method,
            NodeKind::Block => NodeKind::Block,
            NodeKind::Parameter => NodeKind::Parameter,
            NodeKind::IfStatement => NodeKind::IfStatement,
            NodeKind::ElifStatement => NodeKind::ElifStatement,
            NodeKind::ElseStatement => NodeKind::ElseStatement,
            NodeKind::WhileLoop => NodeKind::WhileLoop,
            NodeKind::ForLoop => NodeKind::ForLoop,
            NodeKind::TryStatement => NodeKind::TryStatement,
            NodeKind::ExceptHandler => NodeKind::ExceptHandler,
            NodeKind::FinallyStatement => NodeKind::FinallyStatement,
            NodeKind::WithStatement => NodeKind::WithStatement,
            NodeKind::Return => NodeKind::Return,
            NodeKind::Break => NodeKind::Break,
            NodeKind::Continue => NodeKind::Continue,
            NodeKind::Pass => NodeKind::Pass,
            NodeKind::Raise => NodeKind::Raise,
            NodeKind::Assert => NodeKind::Assert,
            NodeKind::Assignment => NodeKind::Assignment,
            NodeKind::AugmentedAssignment => NodeKind::AugmentedAssignment,
            NodeKind::Expression => NodeKind::Expression,
            NodeKind::Import => NodeKind::Import,
            NodeKind::ImportFrom => NodeKind::ImportFrom,
            NodeKind::BinaryOp => NodeKind::BinaryOp,
            NodeKind::UnaryOp => NodeKind::UnaryOp,
            NodeKind::CompareOp => NodeKind::CompareOp,
            NodeKind::BoolOp => NodeKind::BoolOp,
            NodeKind::FunctionCall => NodeKind::FunctionCall,
            NodeKind::MethodCall => NodeKind::MethodCall,
            NodeKind::Attribute => NodeKind::Attribute,
            NodeKind::Subscript => NodeKind::Subscript,
            NodeKind::Identifier => NodeKind::Identifier,
            NodeKind::Literal => NodeKind::Literal,
            NodeKind::ListLiteral => NodeKind::ListLiteral,
            NodeKind::DictLiteral => NodeKind::DictLiteral,
            NodeKind::SetLiteral => NodeKind::SetLiteral,
            NodeKind::TupleLiteral => NodeKind::TupleLiteral,
            NodeKind::Lambda => NodeKind::Lambda,
            NodeKind::ListComp => NodeKind::ListComp,
            NodeKind::DictComp => NodeKind::DictComp,
            NodeKind::SetComp => NodeKind::SetComp,
            NodeKind::Comment => NodeKind::Comment,
            NodeKind::Docstring => NodeKind::Docstring,
            NodeKind::Decorator => NodeKind::Decorator,
            NodeKind::Unknown(s) => NodeKind::Unknown(s.clone()),
        }
    }
}

/// A node in the generic AST.
#[derive(Debug, Clone)]
pub struct AstNode {
    pub id: NodeId,
    pub kind: NodeKind,
    pub span: Span,
    pub children: Vec<NodeId>,
    /// Optional text content (for identifiers, literals, etc.)
    pub text: Option<String>,
}

impl AstNode {
    pub fn new(id: NodeId, kind: NodeKind, span: Span) -> (r: Self)
        ensures
            r.id == id,
            r.kind == kind,
            r.span == span,
            r.children@ == Seq::<NodeId>::empty(),
            r.text is None,
    {
        Self { id, kind, span, children: Vec::new(), text: None }
    }

    pub fn with_text(self, text: String) -> (r: Self)
        ensures
            r.id == self.id,
            r.kind == self.kind,
            r.span == self.span,
            r.children == self.children,
            r.text == Some(text),
    {
        let mut node = self;
        node.text = Some(text);
        node
    }

    pub fn with_children(self, children: Vec<NodeId>) -> (r: Self)
        ensures
            r.id == self.id,
            r.kind == self.kind,
            r.span == self.span,
            r.children == children,
            r.text == self.text,
    {
        let mut node = self;
        node.children = children;
        node
    }
}

/// Index of the first of the first `n` nodes that has id `id`, if any.
pub open spec fn first_with_id(nodes: Seq<AstNode>, id: NodeId, n: int) -> Option<int>
    decreases n,
{
    if n <= 0 {
        None
    } else {
        match first_with_id(nodes, id, n - 1) {
            Some(i) => Some(i),
            None => if nodes[n - 1].id == id {
                Some(n - 1)
            } else {
                None
            },
        }
    }
}

/// Index of the first node that has id `id`, if any.
pub open spec fn node_index(nodes: Seq<AstNode>, id: NodeId) -> Option<int> {
    first_with_id(nodes, id, nodes.len() as int)
}

/// What `first_with_id` says, as a property of the index.
pub proof fn lemma_first_with_id(nodes: Seq<AstNode>, id: NodeId, n: int)
    requires
        0 <= n <= nodes.len(),
    ensures
        first_with_id(nodes, id, n) matches Some(i) ==> 0 <= i < n && nodes[i].id == id && forall|
            j: int,
        | 0 <= j < i ==> #[trigger] nodes[j].id != id,
        first_with_id(nodes, id, n) is None ==> forall|j: int|
            0 <= j < n ==> #[trigger] nodes[j].id != id,
    decreases n,
{
    if n > 0 {
        lemma_first_with_id(nodes, id, n - 1);
    }
}

/// A generic Abstract Syntax Tree: its nodes, found by id, and its root.
#[derive(Debug, Clone)]
pub struct Ast {
    pub nodes: Vec<AstNode>,
    pub root: NodeId,
    pub source_file: String,
}

impl Ast {
    /// The node with the given id (the first one, where several share it).
    pub open spec fn lookup(self, id: NodeId) -> Option<AstNode> {
        match node_index(self.nodes@, id) {
            Some(i) => Some(self.nodes@[i]),
            None => None,
        }
    }

    pub fn new(source_file: String) -> (r: Self)
        ensures
            r.nodes@ == Seq::<AstNode>::empty(),
            r.root == 0,
            r.source_file == source_file,
    {
        Self { nodes: Vec::new(), root: 0, source_file }
    }

    /// Appends a node and returns its id.
    pub fn add_node(&mut self, node: AstNode) -> (r: NodeId)
        ensures
            r == node.id,
            final(self).nodes@ == old(self).nodes@.push(node),
            final(self).root == old(self).root,
            final(self).source_file == old(self).source_file,
    {
        let id = node.id;
        self.nodes.push(node);
        id
    }

    fn find_index(&self, id: NodeId) -> (r: Option<usize>)
        ensures
            r matches Some(i) ==> node_index(self.nodes@, id) == Some(i as int) && i
                < self.nodes@.len(),
            r is None ==> node_index(self.nodes@, id) is None,
    {
        let mut i: usize = 0;
        while i < self.nodes.len()
            invariant
                i <= self.nodes@.len(),
                first_with_id(self.nodes@, id, i as int) is None,
            decreases self.nodes@.len() - i,
        {
            if self.nodes[i].id == id {
                proof {
                    lemma_first_with_id_extends(self.nodes@, id, i as int + 1, self.nodes@.len() as int);
                }
                return Some(i);
            }
            i = i + 1;
        }
        None
    }

    /// Finds a node by its id (not by its index).
    pub fn get_node(&self, id: NodeId) -> (r: Option<&AstNode>)
        ensures
            r matches Some(n) ==> self.lookup(id) == Some(*n),
            r is None ==> self.lookup(id) is None,
    {
        match self.find_index(id) {
            Some(i) => Some(&self.nodes[i]),
            None => None,
        }
    }

    /// Finds a node by its id (not by its index), for change.
    pub fn get_node_mut(&mut self, id: NodeId) -> (r: Option<&mut AstNode>)
        ensures
            match node_index(old(self).nodes@, id) {
                Some(i) => r is Some && *r.unwrap() == old(self).nodes@[i] && final(self).nodes@
                    == old(self).nodes@.update(i, *final(r.unwrap())) && final(self).root == old(
                    self,
                ).root && final(self).source_file == old(self).source_file,
                None => r is None && *final(self) == *old(self),
            },
    {
        match self.find_index(id) {
            Some(i) => Some(&mut self.nodes[i]),
            None => None,
        }
    }
}

/// Once found among the first `n` nodes, a node stays the first with its id.
proof fn lemma_first_with_id_extends(nodes: Seq<AstNode>, id: NodeId, n: int, m: int)
    requires
        0 <= n <= m,
        first_with_id(nodes, id, n) is Some,
    ensures
        first_with_id(nodes, id, m) == first_with_id(nodes, id, n),
    decreases m - n,
{
    if m > n {
        lemma_first_with_id_extends(nodes, id, n, m - 1);
    }
}

/// Converts a language-specific AST to the generic representation.
pub trait ToGenericAst {
    fn to_generic_ast(&self, source_file: &str) -> Result<Ast, AstError>;
}

/// Error type for AST operations.
#[derive(Debug, Clone)]
pub enum AstError {
    ParseError(String),
    InvalidStructure(String),
    UnsupportedNode(String),
}

impl AstError {
    /// A human-readable description of the error.
    pub fn message(&self) -> (r: String)
        ensures
            r@ == (match self {
                AstError::ParseError(m) => "Failed to parse source: "@ + m@,
                AstError::InvalidStructure(m) => "Invalid AST structure: "@ + m@,
                AstError::UnsupportedNode(m) => "Unsupported node type: "@ + m@,
            }),
    {
        let (mut r, m) = match self {
            AstError::ParseError(m) => ("Failed to parse source: ".to_owned(), m),
            AstError::InvalidStructure(m) => ("Invalid AST structure: ".to_owned(), m),
            AstError::UnsupportedNode(m) => ("Unsupported node type: ".to_owned(), m),
        };
        r.append(m.as_str());
        r
    }
}

} // verus!
