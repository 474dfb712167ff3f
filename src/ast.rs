//! The abstract syntax tree handed over by the parser.
//!
//! Subtrees are held through `Rc` because the parser may share a node while it builds
//! the tree; by the time code is generated every link must be the only one to its
//! subtree.
use std::rc::Rc;
use vstd::prelude::*;

verus! {

/// The operators of the language.
#[derive(Clone, Copy, Debug, PartialEq, Eq)]
pub enum Operator {
    Add,
    Sub,
    Mul,
    Div,
    Negate,
    Equals,
    NotEquals,
    Gt,
    Lt,
    Gte,
    Lte,
    LogicalAnd,
    LogicalOr,
    LogicalNot,
    BinaryAnd,
    BinaryOr,
    BinaryNot,
}

/// An expression; every value is a signed 64-bit integer.
#[derive(Debug)]
pub enum Expression {
    Integer(i64),
    Ident(String),
    BinaryOp { operator: Operator, left: Rc<Expression>, right: Rc<Expression> },
    UnaryOp { operator: Operator, expression: Rc<Expression> },
    Call { function: String, arguments: Vec<Rc<Expression>> },
}

impl Expression {
    /// Whether the expression holds a link to a subtree.
    pub open spec fn has_links(self) -> bool {
        match self {
            Expression::BinaryOp { .. } | Expression::UnaryOp { .. } => true,
            Expression::Call { arguments, .. } => arguments.len() > 0,
            _ => false,
        }
    }
}

/// A statement.
#[derive(Debug)]
pub enum Statement {
    /// `return e;`
    Return(Expression),
    /// A block of statements.
    Do(Vec<Rc<Statement>>),
    /// A call whose result is discarded.
    Call { function: String, arguments: Vec<Expression> },
    /// Declaration of an integer local.
    Var(String),
    /// Assignment.
    Assign(String, Expression),
    /// Add-and-assign.
    Change(String, Expression),
    If { cond: Expression, if_clause: Rc<Statement>, else_clause: Rc<Option<Statement>> },
}

impl Statement {
    /// Whether the statement holds a link to a subtree.
    pub open spec fn has_links(self) -> bool {
        match self {
            Statement::Return(e) => e.has_links(),
            Statement::Do(block) => block.len() > 0,
            Statement::Call { arguments, .. } => exists|i: int|
                0 <= i < arguments@.len() && (#[trigger] arguments@[i]).has_links(),
            Statement::Var(_) => false,
            Statement::Assign(_, e) => e.has_links(),
            Statement::Change(_, e) => e.has_links(),
            Statement::If { .. } => true,
        }
    }

    /// How deeply blocks and branches nest inside the statement.
    pub open spec fn nesting(self) -> nat
        decreases self,
    {
        match self {
            Statement::Do(block) => 1 + block_nesting(block@),
            Statement::If { if_clause, else_clause, .. } => {
                let e = match *else_clause {
                    Some(e) => e.nesting(),
                    None => 0,
                };
                let i = (*if_clause).nesting();
                1 + if i >= e {
                    i
                } else {
                    e
                }
            },
            _ => 0,
        }
    }
}

/// The deepest nesting among the statements of a block.
pub open spec fn block_nesting(block: Seq<Rc<Statement>>) -> nat
    decreases block,
{
    if block.len() == 0 {
        0
    } else {
        let a = block_nesting(block.drop_last());
        let b = (*block.last()).nesting();
        if a >= b {
            a
        } else {
            b
        }
    }
}

/// A function definition; an absent signature means no parameters.
#[derive(Debug)]
pub struct Function {
    pub name: String,
    pub signature: Option<Vec<String>>,
    pub code: Statement,
}

/// A program: its functions, in order.
pub type Program = Vec<Function>;

/// A subtree was reached through a link that is not the only one to it.
#[derive(Clone, Copy, Debug, PartialEq, Eq)]
pub struct OwnershipViolation;

} // verus!
