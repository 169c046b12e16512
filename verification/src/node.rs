//! The parse tree the evaluation core consumes: a labeled tree of nodes,
//! each carrying a kind, the source text it covers, and its ordered
//! children. The external parser produces it; the core never tokenizes.

use vstd::prelude::*;

verus! {

/// The kind label of a parse-tree node. Binary expressions come
/// precedence-tiered from the parser: a comparison's children are sums, a
/// sum's children are terms, a term's are factors, so the evaluator needs
/// no precedence table of its own.
#[derive(Debug, Clone, Copy, PartialEq, Eq, Structural)]
pub enum NodeKind {
    /// An integer literal; the node's text holds its digits.
    Number,
    /// A string literal; the node's text includes the surrounding quotes.
    StringLit,
    /// A boolean literal; the node's text is `true` or `false`.
    BooleanLit,
    /// A name to resolve against the environment.
    Identifier,
    /// An operator token inside a binary chain; the node's text is the
    /// operator symbol.
    Operator,
    /// A left-associative chain of sums joined by comparison operators.
    Comparison,
    /// A left-associative chain of terms joined by `+` and `-`.
    Sum,
    /// A left-associative chain of factors joined by `*`, `/` and kin.
    Term,
    /// A wrapper around a single operand.
    Factor,
    /// A call: first child the function name, the rest its arguments.
    FunctionCall,
    /// An array literal; children are the element expressions.
    ArrayLit,
    /// A dictionary literal; children are `DictEntry` nodes.
    DictLit,
    /// One key-value pair: first child the key, second the value.
    DictEntry,
    /// A wrapper around a single expression.
    Expression,
    /// `name = expr` introducing a binding; children: identifier, value.
    VariableDeclaration,
    /// `name = expr` mutating a binding; children: identifier, value.
    Assignment,
    /// `name op= expr`; children: identifier, operator, value.
    AugmentedAssignment,
    /// `print(expr)` as a statement; child: the expression.
    PrintStatement,
    /// `if cond: block` with optional elif/else children.
    IfStatement,
    /// One `elif cond: block` arm; children: condition, block.
    ElifBlock,
    /// One `else: block` arm; child: the block.
    ElseBlock,
    /// `while cond: block`; children: condition, block.
    WhileStatement,
    /// A block of statements, run in its own scope.
    Block,
}

/// A parse-tree node.
#[derive(Debug)]
pub struct Node {
    pub kind: NodeKind,
    pub text: String,
    pub children: Vec<Node>,
}

/// The abstraction of a parse-tree node.
pub struct NodeModel {
    pub kind: NodeKind,
    pub text: Seq<char>,
    pub children: Seq<NodeModel>,
}

/// The abstractions of a sequence of nodes, element by element.
pub open spec fn node_models(s: Seq<Node>) -> Seq<NodeModel>
    decreases s,
{
    if s.len() == 0 {
        Seq::empty()
    } else {
        proof {
            vstd::seq::axiom_seq_subrange_decreases::<Node>(s, 0, s.len() - 1);
            vstd::seq::axiom_seq_index_decreases::<Node>(s, s.len() - 1);
        }
        node_models(s.drop_last()).push(s.last().model())
    }
}

/// `node_models` maps nodes to their abstractions pointwise.
pub broadcast proof fn lemma_node_models(s: Seq<Node>)
    ensures
        (#[trigger] node_models(s)).len() == s.len(),
        forall|i: int| 0 <= i < s.len() ==> node_models(s)[i] == (#[trigger] s[i]).model(),
    decreases s,
{
    if s.len() > 0 {
        lemma_node_models(s.drop_last());
        assert forall|i: int| 0 <= i < s.len()
            implies node_models(s)[i] == (#[trigger] s[i]).model() by {
            if i < s.len() - 1 {
                assert(s.drop_last()[i] == s[i]);
            } else {
                assert(node_models(s)[i] == s.last().model());
            }
        }
    }
}

impl Node {
    /// The abstraction of this node.
    pub open spec fn model(self) -> NodeModel
        decreases self,
    {
        proof {
            assert(decreases_to!(self => self.children));
            assert(decreases_to!(self.children => self.children@));
        }
        NodeModel { kind: self.kind, text: self.text@, children: node_models(self.children@) }
    }
}

} // verus!
