//! The syntax tree that the parser builds and the compiler reads.

use crate::tokenizer::{Token, TokenView};
use vstd::prelude::*;

verus! {

/// A node of the syntax tree.
#[derive(Debug)]
pub enum ASTNode {
    Number(i32),
    String(String),
    BinOp { left: Box<ASTNode>, op: Token, right: Box<ASTNode> },
    If { condition: Box<ASTNode>, if_block: Vec<ASTNode>, else_block: Vec<ASTNode> },
    While { condition: Box<ASTNode>, body: Vec<ASTNode> },
    VarDecl(String, Box<ASTNode>),
    VarAssign(String, Box<ASTNode>),
    VarRef(String),
    Block(Vec<ASTNode>),
    Array(Vec<ASTNode>),
    ArrayIndex { array: Box<ASTNode>, index: Box<ASTNode> },
    ArrayAssign { array: Box<ASTNode>, index: Box<ASTNode>, value: Box<ASTNode> },
}

/// The mathematical content of an [`ASTNode`].
pub enum AstView {
    Number(i32),
    String(Seq<char>),
    BinOp { left: Box<AstView>, op: TokenView, right: Box<AstView> },
    If { condition: Box<AstView>, if_block: Seq<AstView>, else_block: Seq<AstView> },
    While { condition: Box<AstView>, body: Seq<AstView> },
    VarDecl(Seq<char>, Box<AstView>),
    VarAssign(Seq<char>, Box<AstView>),
    VarRef(Seq<char>),
    Block(Seq<AstView>),
    Array(Seq<AstView>),
    ArrayIndex { array: Box<AstView>, index: Box<AstView> },
    ArrayAssign { array: Box<AstView>, index: Box<AstView>, value: Box<AstView> },
}

impl View for ASTNode {
    type V = AstView;

    open spec fn view(&self) -> AstView
        decreases self,
    {
        match self {
            ASTNode::Number(n) => AstView::Number(*n),
            ASTNode::String(text) => AstView::String(text@),
            ASTNode::BinOp { left, op, right } => AstView::BinOp {
                left: Box::new((**left)@),
                op: op@,
                right: Box::new((**right)@),
            },
            ASTNode::If { condition, if_block, else_block } => AstView::If {
                condition: Box::new((**condition)@),
                if_block: node_views(if_block@),
                else_block: node_views(else_block@),
            },
            ASTNode::While { condition, body } => AstView::While {
                condition: Box::new((**condition)@),
                body: node_views(body@),
            },
            ASTNode::VarDecl(name, value) => AstView::VarDecl(name@, Box::new((**value)@)),
            ASTNode::VarAssign(name, value) => AstView::VarAssign(name@, Box::new((**value)@)),
            ASTNode::VarRef(name) => AstView::VarRef(name@),
            ASTNode::Block(nodes) => AstView::Block(node_views(nodes@)),
            ASTNode::Array(elements) => AstView::Array(node_views(elements@)),
            ASTNode::ArrayIndex { array, index } => AstView::ArrayIndex {
                array: Box::new((**array)@),
                index: Box::new((**index)@),
            },
            ASTNode::ArrayAssign { array, index, value } => AstView::ArrayAssign {
                array: Box::new((**array)@),
                index: Box::new((**index)@),
                value: Box::new((**value)@),
            },
        }
    }
}

/// The views of a sequence of nodes, one by one.
pub open spec fn node_views(nodes: Seq<ASTNode>) -> Seq<AstView>
    decreases nodes,
{
    if nodes.len() == 0 {
        Seq::empty()
    } else {
        node_views(nodes.drop_last()).push(nodes.last()@)
    }
}

/// `node_views` keeps the length and views each node in place.
pub proof fn lemma_node_views(nodes: Seq<ASTNode>)
    ensures
        node_views(nodes).len() == nodes.len(),
        forall|i: int| 0 <= i < nodes.len() ==> #[trigger] node_views(nodes)[i] == nodes[i]@,
    decreases nodes.len(),
{
    if nodes.len() > 0 {
        lemma_node_views(nodes.drop_last());
        assert(node_views(nodes) == node_views(nodes.drop_last()).push(nodes.last()@));
    } else {
        assert(node_views(nodes) == Seq::<AstView>::empty());
    }
}

/// Viewing commutes with appending one node.
pub proof fn lemma_node_views_push(nodes: Seq<ASTNode>, node: ASTNode)
    ensures
        node_views(nodes.push(node)) == node_views(nodes).push(node@),
{
    assert(nodes.push(node).drop_last() =~= nodes);
    assert(node_views(nodes.push(node)) == node_views(nodes.push(node).drop_last()).push(
        nodes.push(node).last()@,
    ));
}


impl Clone for ASTNode {
    /// A copy with the same content, subtrees copied one by one.
    fn clone(&self) -> (copy: Self)
        ensures
            copy@ == self@,
        decreases self, 1nat,
    {
        match self {
            ASTNode::Number(n) => ASTNode::Number(*n),
            ASTNode::String(text) => ASTNode::String(text.clone()),
            ASTNode::BinOp { left, op, right } => ASTNode::BinOp {
                left: Box::new((**left).clone()),
                op: op.clone(),
                right: Box::new((**right).clone()),
            },
            ASTNode::If { condition, if_block, else_block } => ASTNode::If {
                condition: Box::new((**condition).clone()),
                if_block: clone_nodes(if_block),
                else_block: clone_nodes(else_block),
            },
            ASTNode::While { condition, body } => ASTNode::While {
                condition: Box::new((**condition).clone()),
                body: clone_nodes(body),
            },
            ASTNode::VarDecl(name, value) => ASTNode::VarDecl(
                name.clone(),
                Box::new((**value).clone()),
            ),
            ASTNode::VarAssign(name, value) => ASTNode::VarAssign(
                name.clone(),
                Box::new((**value).clone()),
            ),
            ASTNode::VarRef(name) => ASTNode::VarRef(name.clone()),
            ASTNode::Block(nodes) => ASTNode::Block(clone_nodes(nodes)),
            ASTNode::Array(elements) => ASTNode::Array(clone_nodes(elements)),
            ASTNode::ArrayIndex { array, index } => ASTNode::ArrayIndex {
                array: Box::new((**array).clone()),
                index: Box::new((**index).clone()),
            },
            ASTNode::ArrayAssign { array, index, value } => ASTNode::ArrayAssign {
                array: Box::new((**array).clone()),
                index: Box::new((**index).clone()),
                value: Box::new((**value).clone()),
            },
        }
    }
}

/// Copies of the nodes, one by one.
fn clone_nodes(nodes: &Vec<ASTNode>) -> (copies: Vec<ASTNode>)
    ensures
        node_views(copies@) == node_views(nodes@),
    decreases nodes, 0nat,
{
    let mut copies: Vec<ASTNode> = Vec::new();
    let mut i: usize = 0;
    while i < nodes.len()
        invariant
            i <= nodes.len(),
            copies.len() == i,
            forall|j: int| 0 <= j < i ==> copies[j]@ == nodes[j]@,
        decreases nodes.len() - i,
    {
        copies.push(nodes[i].clone());
        i += 1;
    }
    proof {
        lemma_node_views(nodes@);
        lemma_node_views(copies@);
        assert(node_views(copies@) =~= node_views(nodes@));
    }
    copies
}


} // verus!
