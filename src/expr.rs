use vstd::prelude::*;
use crate::tokens::{Kind, TokenType};

verus! {

/// A binary operator.
#[derive(Debug, Clone, Copy, PartialEq, Eq, Structural)]
pub enum Op {
    Add,
    Subtract,
    Multiply,
    Divide,
    Greater,
    GreaterThanEqualTo,
    Less,
    LessThanEqualTo,
    ComparisonEqual,
    StrictComparisonEqual,
    NotEqual,
    NotStrictEqual,
}

/// How a variable is bound.
#[derive(Debug, Clone, Copy, PartialEq, Eq, Structural)]
pub enum Var {
    Let,
    Const,
}

/// AST Node
#[derive(Debug, PartialEq)]
pub enum Node {
    Variable {
        // let or const
        variable_type: Var,
        // name of the variable
        identifier: Box<Node>,
        // value of the variable
        value: Box<Node>,
    },
    // e.g. 2+2
    BinaryExpr { operation: Op, lhs: Box<Node>, rhs: Box<Node> },
    UnaryExpr { operation: TokenType, body: Box<Node> },
    Fn { name: Box<Node>, args: Box<Node>, body: Box<Node> },
    FnCall { function: Box<Node>, args: Vec<Node> },
    // a number keeps its decimal text as written
    Number(String),
    String(String),
    Boolean(bool),
    Identifier(String),
    EOI,
}

/// The mathematical value of a `Node`.
pub enum Tree {
    Variable(Var, Box<Tree>, Box<Tree>),
    BinaryExpr(Op, Box<Tree>, Box<Tree>),
    UnaryExpr(Kind, Box<Tree>),
    Fn(Box<Tree>, Box<Tree>, Box<Tree>),
    FnCall(Box<Tree>, Seq<Tree>),
    Number(Seq<char>),
    Str(Seq<char>),
    Boolean(bool),
    Identifier(Seq<char>),
    EOI,
}

/// The tree that node `n` stands for.
pub open spec fn tree(n: Node) -> Tree
    decreases n,
{
    match n {
        Node::Variable { variable_type, identifier, value } => Tree::Variable(
            variable_type,
            Box::new(tree(*identifier)),
            Box::new(tree(*value)),
        ),
        Node::BinaryExpr { operation, lhs, rhs } => Tree::BinaryExpr(
            operation,
            Box::new(tree(*lhs)),
            Box::new(tree(*rhs)),
        ),
        Node::UnaryExpr { operation, body } => Tree::UnaryExpr(operation@, Box::new(tree(*body))),
        Node::Fn { name, args, body } => Tree::Fn(
            Box::new(tree(*name)),
            Box::new(tree(*args)),
            Box::new(tree(*body)),
        ),
        Node::FnCall { function, args } => Tree::FnCall(
            Box::new(tree(*function)),
            Seq::new(
                args@.len(),
                |i: int|
                    {
                        if 0 <= i < args@.len() {
                            tree(args@[i])
                        } else {
                            Tree::EOI
                        }
                    },
            ),
        ),
        Node::Number(s) => Tree::Number(s@),
        Node::String(s) => Tree::Str(s@),
        Node::Boolean(b) => Tree::Boolean(b),
        Node::Identifier(s) => Tree::Identifier(s@),
        Node::EOI => Tree::EOI,
    }
}

/// A copy of `n`, standing for the same tree.
pub fn copy_node(n: &Node) -> (r: Node)
    ensures
        tree(r) == tree(*n),
    decreases n,
{
    match n {
        Node::Variable { variable_type, identifier, value } => Node::Variable {
            variable_type: *variable_type,
            identifier: Box::new(copy_node(identifier)),
            value: Box::new(copy_node(value)),
        },
        Node::BinaryExpr { operation, lhs, rhs } => Node::BinaryExpr {
            operation: *operation,
            lhs: Box::new(copy_node(lhs)),
            rhs: Box::new(copy_node(rhs)),
        },
        Node::UnaryExpr { operation, body } => Node::UnaryExpr {
            operation: operation.copied(),
            body: Box::new(copy_node(body)),
        },
        Node::Fn { name, args, body } => Node::Fn {
            name: Box::new(copy_node(name)),
            args: Box::new(copy_node(args)),
            body: Box::new(copy_node(body)),
        },
        Node::FnCall { function, args } => {
            proof {
                broadcast use vstd::std_specs::vec::axiom_vec_decreases_to_view, vstd::seq::axiom_seq_index_decreases;
                assert(decreases_to!(*n => (*n)->FnCall_args));
                assert(decreases_to!(*args => args@));
                assert forall|j: int| 0 <= j < args@.len() implies decreases_to!(*n => #[trigger] args@[j]) by {
                    assert(decreases_to!(args@ => args@[j]));
                }
            }
            let mut out: Vec<Node> = Vec::new();
            let mut i: usize = 0;
            while i < args.len()
                invariant
                    forall|j: int| 0 <= j < args@.len() ==> decreases_to!(*n => #[trigger] args@[j]),
                    i <= args@.len(),
                    out@.len() == i,
                    forall|j: int| 0 <= j < i ==> tree(#[trigger] out@[j]) == tree(args@[j]),
                decreases args@.len() - i,
            {
                out.push(copy_node(&args[i]));
                i = i + 1;
            }
            let r = Node::FnCall { function: Box::new(copy_node(function)), args: out };
            proof {
                assert(tree(r) == tree(*n)) by {
                    let x = tree(r);
                    let y = tree(*n);
                    assert(x->FnCall_1 =~= y->FnCall_1);
                }
            }
            r
        },
        Node::Number(s) => Node::Number(s.clone()),
        Node::String(s) => Node::String(s.clone()),
        Node::Boolean(b) => Node::Boolean(*b),
        Node::Identifier(s) => Node::Identifier(s.clone()),
        Node::EOI => Node::EOI,
    }
}

impl Clone for Node {
    fn clone(&self) -> Self {
        copy_node(self)
    }
}

} // verus!
