//! Building a generic AST from Python source: node ids, spans located by
//! line and column, and the module root. The walk over the Python syntax
//! tree hands nodes to this builder.

use vstd::prelude::*;
use vstd::string::*;

use crate::ast::{Ast, AstNode, NodeId, NodeKind, Span, node_index};
use crate::text::{count_lines, line_count};

verus! {

/// A byte that continues a multi-byte character.
pub open spec fn is_trailing(b: u8) -> bool {
    0x80 <= b < 0xC0
}

/// Where scanning for an offset stops: at the first character that starts
/// at or after the offset (or at the end of the text), looking from byte `i`.
pub open spec fn scan_stop(bytes: Seq<u8>, offset: usize, i: int) -> int
    decreases bytes.len() - i,
{
    if i >= bytes.len() {
        bytes.len() as int
    } else if i >= offset && !is_trailing(bytes[i]) {
        i
    } else {
        scan_stop(bytes, offset, i + 1)
    }
}

/// The (1-based) line and (0-based, in characters) column reached after the
/// first `n` bytes.
pub open spec fn scan_position(bytes: Seq<u8>, n: int) -> (nat, nat)
    decreases n,
{
    if n <= 0 {
        (1, 0)
    } else {
        let p = scan_position(bytes, n - 1);
        let b = bytes[n - 1];
        if is_trailing(b) {
            p
        } else if b == 10 {
            ((p.0 + 1) as nat, 0)
        } else {
            (p.0, (p.1 + 1) as nat)
        }
    }
}

/// The line and column of a byte offset: lines and characters are counted
/// over every character that starts before the offset.
pub open spec fn char_position(bytes: Seq<u8>, offset: usize) -> (nat, nat) {
    scan_position(bytes, scan_stop(bytes, offset, 0))
}

proof fn lemma_scan_position_bound(bytes: Seq<u8>, n: int)
    requires
        0 <= n <= bytes.len(),
    ensures
        scan_position(bytes, n).0 <= n + 1,
        scan_position(bytes, n).1 <= n,
    decreases n,
{
    if n > 0 {
        lemma_scan_position_bound(bytes, n - 1);
    }
}

proof fn lemma_scan_stop_range(bytes: Seq<u8>, offset: usize, i: int)
    requires
        0 <= i <= bytes.len(),
    ensures
        i <= scan_stop(bytes, offset, i) <= bytes.len(),
    decreases bytes.len() - i,
{
    if i < bytes.len() {
        lemma_scan_stop_range(bytes, offset, i + 1);
    }
}

/// Converter from a Python syntax tree to a generic AST.
pub struct PythonAstConverter {
    source: String,
    ast: Ast,
    next_id: usize,
}

impl PythonAstConverter {
    /// The source text being converted.
    pub closed spec fn source(&self) -> Seq<char> {
        self.source@
    }

    /// The tree built so far.
    pub closed spec fn tree(&self) -> Ast {
        self.ast
    }

    /// The id the next node gets.
    pub closed spec fn next_node_id(&self) -> nat {
        self.next_id as nat
    }

    pub fn new(source: &str, source_file: &str) -> (r: Self)
        ensures
            r.source() == source@,
            r.tree().nodes@ == Seq::<AstNode>::empty(),
            r.tree().root == 0,
            r.tree().source_file@ == source_file@,
            r.next_node_id() == 0,
    {
        Self { source: source.to_owned(), ast: Ast::new(source_file.to_owned()), next_id: 0 }
    }

    /// Hands out the next node id.
    pub fn next_id(&mut self) -> (r: usize)
        requires
            old(self).next_node_id() < usize::MAX,
        ensures
            r == old(self).next_node_id(),
            final(self).next_node_id() == old(self).next_node_id() + 1,
            final(self).source() == old(self).source(),
            final(self).tree() == old(self).tree(),
    {
        let id = self.next_id;
        self.next_id = self.next_id + 1;
        id
    }

    /// The line and column of a byte offset in the source.
    pub fn offset_to_position(&self, offset: usize) -> (r: (usize, usize))
        requires
            vstd::utf8::encode_utf8(self.source()).len() < usize::MAX,
        ensures
            r.0 == char_position(vstd::utf8::encode_utf8(self.source()), offset).0,
            r.1 == char_position(vstd::utf8::encode_utf8(self.source()), offset).1,
    {
        let bytes = self.source.as_str().as_bytes();
        let mut line: usize = 1;
        let mut col: usize = 0;
        let mut i: usize = 0;
        while i < bytes.len()
            invariant
                bytes@ == vstd::utf8::encode_utf8(self.source()),
                i <= bytes@.len(),
                scan_stop(bytes@, offset, 0) == scan_stop(bytes@, offset, i as int),
                bytes@.len() < usize::MAX,
                (line as nat, col as nat) == scan_position(bytes@, i as int),
            ensures
                scan_stop(bytes@, offset, 0) == i as int,
                (line as nat, col as nat) == scan_position(bytes@, i as int),
            decreases bytes@.len() - i,
        {
            proof {
                lemma_scan_position_bound(bytes@, i as int);
            }
            let b = bytes[i];
            if !(0x80 <= b && b < 0xC0) {
                if i >= offset {
                    break;
                }
                if b == 10 {
                    line = line + 1;
                    col = 0;
                } else {
                    col = col + 1;
                }
            }
            i = i + 1;
        }
        (line, col)
    }

    /// The span of a byte range of the source, with its line and column
    /// bounds.
    pub fn create_span(&self, start: usize, end: usize) -> (r: Span)
        requires
            vstd::utf8::encode_utf8(self.source()).len() < usize::MAX,
        ensures
            r.start == start,
            r.end == end,
            r.line_start == char_position(vstd::utf8::encode_utf8(self.source()), start).0,
            r.column_start == char_position(vstd::utf8::encode_utf8(self.source()), start).1,
            r.line_end == char_position(vstd::utf8::encode_utf8(self.source()), end).0,
            r.column_end == char_position(vstd::utf8::encode_utf8(self.source()), end).1,
    {
        let (line_start, column_start) = self.offset_to_position(start);
        let (line_end, column_end) = self.offset_to_position(end);
        Span::new(start, end, line_start, line_end, column_start, column_end)
    }

    /// Adds a converted node to the tree.
    pub fn add_node(&mut self, node: AstNode) -> (r: NodeId)
        ensures
            r == node.id,
            final(self).tree().nodes@ == old(self).tree().nodes@.push(node),
            final(self).tree().root == old(self).tree().root,
            final(self).tree().source_file == old(self).tree().source_file,
            final(self).source() == old(self).source(),
            final(self).next_node_id() == old(self).next_node_id(),
    {
        self.ast.add_node(node)
    }

    /// Starts the tree with the module node, which spans the whole source,
    /// and makes it the root.
    pub fn begin_module(&mut self) -> (r: NodeId)
        requires
            old(self).next_node_id() < usize::MAX,
            vstd::utf8::encode_utf8(old(self).source()).len() <= usize::MAX,
        ensures
            r == old(self).next_node_id(),
            final(self).next_node_id() == old(self).next_node_id() + 1,
            final(self).source() == old(self).source(),
            final(self).tree().root == r,
            final(self).tree().source_file == old(self).tree().source_file,
            final(self).tree().nodes@.len() == old(self).tree().nodes@.len() + 1,
            final(self).tree().nodes@.drop_last() == old(self).tree().nodes@,
            ({
                let m = final(self).tree().nodes@.last();
                let bytes = vstd::utf8::encode_utf8(old(self).source());
                &&& m.id == r
                &&& m.kind == NodeKind::Module
                &&& m.span == Span {
                    start: 0,
                    end: bytes.len() as usize,
                    line_start: 1,
                    line_end: line_count(bytes) as usize,
                    column_start: 0,
                    column_end: 0,
                }
                &&& m.children@.len() == 0
                &&& m.text is None
            }),
    {
        let module_id = self.next_id();
        let source = self.source.as_str();
        proof {
            crate::text::lemma_line_count_bound(source.spec_bytes());
        }
        let span = Span::new(0, source.len(), 1, count_lines(source), 0, 0);
        let node = AstNode::new(module_id, NodeKind::Module, span);
        let ghost before = self.ast.nodes@;
        self.ast.add_node(node);
        self.ast.root = module_id;
        proof {
            assert(self.ast.nodes@.drop_last() =~= before);
        }
        module_id
    }

    /// Sets the children of the node with the given id (the first with that
    /// id), if there is one.
    pub fn set_children(&mut self, id: NodeId, children: Vec<NodeId>)
        ensures
            final(self).source() == old(self).source(),
            final(self).next_node_id() == old(self).next_node_id(),
            final(self).tree().root == old(self).tree().root,
            final(self).tree().source_file == old(self).tree().source_file,
            match node_index(old(self).tree().nodes@, id) {
                Some(i) => final(self).tree().nodes@ == old(self).tree().nodes@.update(
                    i,
                    AstNode { children, ..old(self).tree().nodes@[i] },
                ),
                None => final(self).tree().nodes@ == old(self).tree().nodes@,
            },
    {
        match self.ast.get_node_mut(id) {
            Some(node) => {
                node.children = children;
            },
            None => {},
        }
    }

    /// The finished tree.
    pub fn into_ast(self) -> (r: Ast)
        ensures
            r == self.tree(),
    {
        self.ast
    }
}

/// Python parser for AST-based detection.
#[derive(Debug, Clone, Copy)]
pub struct PythonAstParser;

impl PythonAstParser {
    pub fn new() -> Self {
        Self
    }

    /// The language this parser handles.
    pub fn language(&self) -> (r: &'static str)
        ensures
            r@ == "python"@,
    {
        "python"
    }
}

/// Python language parser.
#[derive(Debug, Clone, Copy)]
pub struct PythonParser;

impl PythonParser {
    pub fn new() -> Self {
        Self
    }

    /// The generic tree of a module that parsed: a single module node with
    /// an empty span, as root.
    pub fn module_ast(&self, filename: &str) -> (r: Ast)
        ensures
            r.source_file@ == filename@,
            r.root == 0,
            r.nodes@.len() == 1,
            r.nodes@[0].id == 0,
            r.nodes@[0].kind == NodeKind::Module,
            r.nodes@[0].span == (Span {
                start: 0,
                end: 0,
                line_start: 0,
                line_end: 0,
                column_start: 0,
                column_end: 0,
            }),
            r.nodes@[0].children@.len() == 0,
            r.nodes@[0].text is None,
    {
        let mut ast = Ast::new(filename.to_owned());
        let root_span = Span::new(0, 0, 0, 0, 0, 0);
        let root_node = AstNode::new(0, NodeKind::Module, root_span);
        ast.add_node(root_node);
        ast.root = 0;
        ast
    }
}

} // verus!
