use vstd::prelude::*;
use crate::span::Span;

verus! {

/// The operator of a binary expression, as far as the rules here care:
/// loose equality and inequality are flagged, the identity forms and
/// everything else pass.
#[derive(Clone, Copy, Debug, PartialEq, Eq, Structural)]
pub enum BinaryOperator {
    Equal,
    NotEqual,
    Identical,
    NotIdentical,
    Other,
}

/// A binary expression: its operator with the operator token's span, and
/// the spans of the two operands.
#[derive(Clone, Copy, Debug, PartialEq, Eq, Structural)]
pub struct Binary {
    pub operator: BinaryOperator,
    pub operator_span: Span,
    pub lhs_span: Span,
    pub rhs_span: Span,
}

/// What kind of syntax a node is. The walker dispatches on this identity;
/// a kind may carry the fields a rule reads at that node.
#[derive(Clone, Copy, Debug, PartialEq, Eq, Structural)]
pub enum NodeKind {
    Program,
    Statement,
    LiteralString,
    StringPartLiteral,
    StringPartExpression,
    Binary(Binary),
    Variable,
    Other,
}

/// One node of the flattened syntax tree. The tree is stored in pre-order
/// (source textual order): the subtree rooted at index `i` occupies the
/// index range `[i, subtree_end)`, so a node's children start at `i + 1`
/// and pruning a subtree means skipping to `subtree_end`.
#[derive(Clone, Copy, Debug, PartialEq, Eq, Structural)]
pub struct AstNode {
    pub kind: NodeKind,
    pub span: Span,
    pub subtree_end: usize,
}

/// Every span the kind carries lies inside a buffer of `len` bytes.
pub open spec fn kind_spans_within(kind: NodeKind, len: int) -> bool {
    match kind {
        NodeKind::Binary(b) => {
            &&& b.operator_span.within(len)
            &&& b.lhs_span.within(len)
            &&& b.rhs_span.within(len)
        },
        _ => true,
    }
}

/// Every span of the node lies inside a buffer of `len` bytes.
pub open spec fn node_spans_within(node: AstNode, len: int) -> bool {
    node.span.within(len) && kind_spans_within(node.kind, len)
}

/// An immutable syntax tree over one source buffer, flattened in
/// pre-order.
pub struct Ast {
    pub nodes: Vec<AstNode>,
}

impl Ast {
    /// Every node's spans point into a buffer of `len` bytes and every
    /// subtree extent stays inside the node list and past its own root.
    pub open spec fn wf(self, len: int) -> bool {
        forall|i: int| 0 <= i < self.nodes@.len() ==> {
            &&& node_spans_within(#[trigger] self.nodes@[i], len)
            &&& i < self.nodes@[i].subtree_end <= self.nodes@.len()
        }
    }

    pub fn new() -> (r: Ast)
        ensures
            r.nodes@.len() == 0,
    {
        Ast { nodes: Vec::new() }
    }

    pub fn len(&self) -> (r: usize)
        ensures
            r == self.nodes@.len(),
    {
        self.nodes.len()
    }

    /// Checks at run time that the tree is well formed over a buffer of
    /// `source_len` bytes, so unverified callers can establish `wf`.
    pub fn check(&self, source_len: usize) -> (r: bool)
        ensures
            r == self.wf(source_len as int),
    {
        let n = self.nodes.len();
        let mut i: usize = 0;
        let mut ok = true;
        while i < n
            invariant
                i <= n == self.nodes@.len(),
                ok == (forall|k: int| 0 <= k < i ==> {
                    &&& node_spans_within(#[trigger] self.nodes@[k], source_len as int)
                    &&& k < self.nodes@[k].subtree_end <= self.nodes@.len()
                }),
            decreases n - i,
        {
            let node = self.nodes[i];
            let mut node_ok = node.span.start <= node.span.end && node.span.end <= source_len;
            match node.kind {
                NodeKind::Binary(b) => {
                    if !(b.operator_span.start <= b.operator_span.end
                        && b.operator_span.end <= source_len) {
                        node_ok = false;
                    }
                    if !(b.lhs_span.start <= b.lhs_span.end && b.lhs_span.end <= source_len) {
                        node_ok = false;
                    }
                    if !(b.rhs_span.start <= b.rhs_span.end && b.rhs_span.end <= source_len) {
                        node_ok = false;
                    }
                },
                _ => {},
            }
            if !(i < node.subtree_end && node.subtree_end <= n) {
                node_ok = false;
            }
            if !node_ok {
                ok = false;
            }
            proof {
                assert(node == self.nodes@[i as int]);
                assert(node_ok == (node_spans_within(self.nodes@[i as int], source_len as int)
                    && i < self.nodes@[i as int].subtree_end <= self.nodes@.len()));
            }
            i = i + 1;
        }
        ok
    }
}

} // verus!
