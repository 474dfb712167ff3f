//! The generated C text, as a function of the syntax tree.
use crate::ast::{Expression, Function, Operator, Statement};
use std::rc::Rc;
use vstd::prelude::*;

verus! {

/// One level of indentation.
pub const INDENT: &'static str = "    ";

/// The line break written between functions.
pub const NEW_LINE: &'static str = "\n";

/// Text written before the compiled functions: the C runtime support.
pub const PROLOG: &'static str = "
/* Haumea prolog */
#include <stdio.h>

long display(long n) {
    printf(\"%ld\\n\", n);
    return 0;
}

/* End prolog */

/* Start compiled program */
";

/// Text written after the compiled functions.
pub const EPILOG: &'static str = "
/* End compiled program */
";

/// `s` written `t` times in a row.
pub open spec fn repeat(s: Seq<char>, t: nat) -> Seq<char>
    decreases t,
{
    if t == 0 {
        Seq::empty()
    } else {
        repeat(s, (t - 1) as nat) + s
    }
}

/// The indentation of a statement at nesting depth `d`.
pub open spec fn indent(d: nat) -> Seq<char> {
    repeat(INDENT@, d)
}

/// The C token of an operator.
pub open spec fn op_token(op: Operator) -> Seq<char> {
    match op {
        Operator::Add => "+"@,
        Operator::Sub => "-"@,
        Operator::Mul => "*"@,
        Operator::Div => "/"@,
        Operator::Negate => "-"@,
        Operator::Equals => "=="@,
        Operator::NotEquals => "!="@,
        Operator::Gt => ">"@,
        Operator::Lt => "<"@,
        Operator::Gte => ">="@,
        Operator::Lte => "<="@,
        Operator::LogicalAnd => "&&"@,
        Operator::LogicalOr => "||"@,
        Operator::LogicalNot => "!"@,
        Operator::BinaryAnd => "&"@,
        Operator::BinaryOr => "|"@,
        Operator::BinaryNot => "~"@,
    }
}

/// The character of a decimal digit.
pub open spec fn digit_char(d: nat) -> char {
    if d == 0 {
        '0'
    } else if d == 1 {
        '1'
    } else if d == 2 {
        '2'
    } else if d == 3 {
        '3'
    } else if d == 4 {
        '4'
    } else if d == 5 {
        '5'
    } else if d == 6 {
        '6'
    } else if d == 7 {
        '7'
    } else if d == 8 {
        '8'
    } else {
        '9'
    }
}

/// The decimal digits of `n`, most significant first, without leading zeros.
pub open spec fn digits(n: nat) -> Seq<char>
    decreases n,
{
    if n < 10 {
        seq![digit_char(n)]
    } else {
        digits(n / 10).push(digit_char(n % 10))
    }
}

/// The decimal form of `v`, with a minus sign when it is negative.
pub open spec fn decimal(v: int) -> Seq<char> {
    if v < 0 {
        seq!['-'] + digits((-v) as nat)
    } else {
        digits(v as nat)
    }
}

/// The text of an expression.
pub open spec fn expr_text(e: Expression) -> Seq<char>
    decreases e,
{
    match e {
        Expression::Integer(v) => decimal(v as int) + "l"@,
        Expression::Ident(name) => name@,
        Expression::BinaryOp { operator, left, right } => "("@ + expr_text(*left) + " "@
            + op_token(operator) + " "@ + expr_text(*right) + ")"@,
        Expression::UnaryOp { operator, expression } => "("@ + op_token(operator) + expr_text(
            *expression,
        ) + ")"@,
        Expression::Call { function, arguments } => function@ + "("@ + linked_args_text(
            arguments@,
        ) + ")"@,
    }
}

/// The argument list of a call in an expression.
pub open spec fn linked_args_text(args: Seq<Rc<Expression>>) -> Seq<char>
    decreases args,
{
    if args.len() == 0 {
        Seq::empty()
    } else if args.len() == 1 {
        expr_text(*args[0])
    } else {
        linked_args_text(args.drop_last()) + ", "@ + expr_text(*args.last())
    }
}

/// The argument list of a call statement.
pub open spec fn args_text(args: Seq<Expression>) -> Seq<char>
    decreases args.len(),
{
    if args.len() == 0 {
        Seq::empty()
    } else if args.len() == 1 {
        expr_text(args[0])
    } else {
        args_text(args.drop_last()) + ", "@ + expr_text(args.last())
    }
}

/// The text of a statement at nesting depth `d`.
pub open spec fn stmt_text(s: Statement, d: nat) -> Seq<char>
    decreases s,
{
    match s {
        Statement::Return(e) => indent(d) + "return "@ + expr_text(e) + ";"@,
        Statement::Do(block) => "\n"@ + indent(d) + "{\n"@ + block_text(block@, d + 1) + "\n"@
            + indent(d) + "}\n"@,
        Statement::Call { function, arguments } => indent(d) + function@ + "("@ + args_text(
            arguments@,
        ) + ");\n"@,
        Statement::Var(name) => indent(d) + "long "@ + name@ + ";\n"@,
        Statement::Assign(name, e) => indent(d) + name@ + " = "@ + expr_text(e) + ";\n"@,
        Statement::Change(name, e) => indent(d) + name@ + " += "@ + expr_text(e) + ";\n"@,
        Statement::If { cond, if_clause, else_clause } => indent(d) + "if "@ + expr_text(cond)
            + stmt_text(*if_clause, d + 1) + match *else_clause {
            Some(e) => indent(d) + "else"@ + stmt_text(e, d + 1),
            None => Seq::empty(),
        },
    }
}

/// The statements of a block, each at depth `d`.
pub open spec fn block_text(block: Seq<Rc<Statement>>, d: nat) -> Seq<char>
    decreases block,
{
    if block.len() == 0 {
        Seq::empty()
    } else {
        block_text(block.drop_last(), d) + stmt_text(*block.last(), d)
    }
}

/// The return type written for a function of the given name.
pub open spec fn return_type(name: Seq<char>) -> Seq<char> {
    if name == "main"@ {
        "int "@
    } else {
        "long "@
    }
}

/// Parameter declarations, comma separated.
pub open spec fn param_list_text(params: Seq<String>) -> Seq<char>
    decreases params.len(),
{
    if params.len() == 0 {
        Seq::empty()
    } else if params.len() == 1 {
        "long "@ + params[0]@
    } else {
        param_list_text(params.drop_last()) + ", "@ + "long "@ + params.last()@
    }
}

/// The parameter list of a function.
pub open spec fn params_text(signature: Option<Vec<String>>) -> Seq<char> {
    match signature {
        Some(params) => param_list_text(params@),
        None => Seq::empty(),
    }
}

/// The text of a function definition.
pub open spec fn function_text(f: Function) -> Seq<char> {
    NEW_LINE@ + return_type(f.name@) + f.name@ + "("@ + params_text(f.signature) + ")"@
        + stmt_text(f.code, 0)
}

/// The texts of functions, one after another.
pub open spec fn functions_text(fs: Seq<Function>) -> Seq<char>
    decreases fs.len(),
{
    if fs.len() == 0 {
        Seq::empty()
    } else {
        functions_text(fs.drop_last()) + function_text(fs.last())
    }
}

/// The text of a whole program.
pub open spec fn program_text(fs: Seq<Function>) -> Seq<char> {
    PROLOG@ + functions_text(fs) + EPILOG@
}

} // verus!
