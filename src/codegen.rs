//! The emitters: program, function, statement and expression.
use crate::ast::{
    block_nesting, Expression, Function, Operator, OwnershipViolation, Program, Statement,
};
use crate::text::{
    args_text, block_text, decimal, digit_char, digits, expr_text, function_text, functions_text,
    linked_args_text, op_token, param_list_text, params_text, program_text, repeat, return_type,
    stmt_text, EPILOG, INDENT, NEW_LINE, PROLOG,
};
use std::rc::Rc;
use vstd::prelude::*;
use vstd::string::*;

verus! {

broadcast use vstd::string::group_string_axioms;

/// Writes a line break to `out`.
pub fn write_newline(out: &mut String)
    ensures
        final(out)@ == old(out)@ + NEW_LINE@,
{
    out.append(NEW_LINE);
}

/// `s` repeated `t` times.
pub fn replicate(s: &str, t: i32) -> (r: String)
    requires
        t >= 0,
    ensures
        r@ == repeat(s@, t as nat),
{
    let mut r = String::new();
    let mut i: i32 = 0;
    while i < t
        invariant
            0 <= i <= t,
            r@ == repeat(s@, i as nat),
        decreases t - i,
    {
        r.append(s);
        i = i + 1;
    }
    r
}

/// The C token of an operator.
pub fn get_c_name(op: Operator) -> (r: &'static str)
    ensures
        r@ == op_token(op),
{
    match op {
        Operator::Add => "+",
        Operator::Sub => "-",
        Operator::Mul => "*",
        Operator::Div => "/",
        Operator::Negate => "-",
        Operator::Equals => "==",
        Operator::NotEquals => "!=",
        Operator::Gt => ">",
        Operator::Lt => "<",
        Operator::Gte => ">=",
        Operator::Lte => "<=",
        Operator::LogicalAnd => "&&",
        Operator::LogicalOr => "||",
        Operator::LogicalNot => "!",
        Operator::BinaryAnd => "&",
        Operator::BinaryOr => "|",
        Operator::BinaryNot => "~",
    }
}

/// The text of one decimal digit.
fn digit_str(d: u64) -> (r: &'static str)
    requires
        d < 10,
    ensures
        r@ == seq![digit_char(d as nat)],
{
    proof {
        reveal_strlit("0");
        reveal_strlit("1");
        reveal_strlit("2");
        reveal_strlit("3");
        reveal_strlit("4");
        reveal_strlit("5");
        reveal_strlit("6");
        reveal_strlit("7");
        reveal_strlit("8");
        reveal_strlit("9");
    }
    if d == 0 {
        "0"
    } else if d == 1 {
        "1"
    } else if d == 2 {
        "2"
    } else if d == 3 {
        "3"
    } else if d == 4 {
        "4"
    } else if d == 5 {
        "5"
    } else if d == 6 {
        "6"
    } else if d == 7 {
        "7"
    } else if d == 8 {
        "8"
    } else {
        "9"
    }
}

/// Writes the decimal digits of `n` to `out`.
fn write_digits(out: &mut String, n: u64)
    ensures
        final(out)@ == old(out)@ + digits(n as nat),
    decreases n,
{
    if n >= 10 {
        write_digits(out, n / 10);
        out.append(digit_str(n % 10));
        assert(final(out)@ =~= old(out)@ + digits(n as nat));
    } else {
        out.append(digit_str(n));
        assert(final(out)@ =~= old(out)@ + digits(n as nat));
    }
}

/// The C literal of an integer: its decimal form followed by the `long` suffix.
pub fn integer_literal(v: i64) -> (r: String)
    ensures
        r@ == decimal(v as int) + "l"@,
{
    let mut r = String::new();
    if v < 0 {
        r.append("-");
        let m: u64 = (0i128 - v as i128) as u64;
        write_digits(&mut r, m);
    } else {
        write_digits(&mut r, v as u64);
    }
    r.append("l");
    proof {
        reveal_strlit("-");
    }
    assert(r@ =~= decimal(v as int) + "l"@);
    r
}

/// Takes the subtree behind `link`, which must be its only link.
fn take_unique<T>(link: Rc<T>) -> (r: Result<T, OwnershipViolation>)
    ensures
        r matches Ok(t) ==> t == *link,
{
    match Rc::try_unwrap(link) {
        Ok(t) => Ok(t),
        Err(_) => Err(OwnershipViolation),
    }
}

/// The C text of an expression.
///
/// Every link reached is taken over; a subtree whose link is shared ends the work with
/// `OwnershipViolation`. An expression without links always succeeds.
pub fn compile_expression(expr: Expression) -> (r: Result<String, OwnershipViolation>)
    ensures
        r matches Ok(s) ==> s@ == expr_text(expr),
        !expr.has_links() ==> r is Ok,
    decreases expr,
{
    let ghost e0 = expr;
    match expr {
        Expression::Integer(i) => Ok(integer_literal(i)),
        Expression::Ident(name) => Ok(name),
        Expression::BinaryOp { operator, left, right } => {
            let lh = match take_unique(left) {
                Ok(lh) => lh,
                Err(e) => return Err(e),
            };
            let rh = match take_unique(right) {
                Ok(rh) => rh,
                Err(e) => return Err(e),
            };
            let lt = match compile_expression(lh) {
                Ok(t) => t,
                Err(e) => return Err(e),
            };
            let rt = match compile_expression(rh) {
                Ok(t) => t,
                Err(e) => return Err(e),
            };
            let mut out = String::new();
            out.append("(");
            out.append(lt.as_str());
            out.append(" ");
            out.append(get_c_name(operator));
            out.append(" ");
            out.append(rt.as_str());
            out.append(")");
            Ok(out)
        },
        Expression::UnaryOp { operator, expression } => {
            let inner = match take_unique(expression) {
                Ok(inner) => inner,
                Err(e) => return Err(e),
            };
            let t = match compile_expression(inner) {
                Ok(t) => t,
                Err(e) => return Err(e),
            };
            let mut out = String::new();
            out.append("(");
            out.append(get_c_name(operator));
            out.append(t.as_str());
            out.append(")");
            Ok(out)
        },
        Expression::Call { function, arguments } => {
            let ghost argv = arguments;
            let ghost args = arguments@;
            let mut out = String::new();
            out.append(function.as_str());
            out.append("(");
            let mut index: usize = 0;
            for arg in it: arguments.into_iter()
                invariant
                    it.seq() == args,
                    index == it.index(),
                    argv@ == args,
                    e0.has_links() == (args.len() > 0),
                    e0 == (Expression::Call { function, arguments: argv }),
                    e0 == expr,
                    out@ == function@ + "("@ + linked_args_text(args.take(index as int)),
            {
                proof {
                    assert(index < args.len());
                }
                let a = match take_unique(arg) {
                    Ok(a) => a,
                    Err(e) => return Err(e),
                };
                proof {
                    assert(arg == args[index as int]);
                    vstd::std_specs::vec::axiom_vec_decreases_to_view(argv);
                    vstd::seq::axiom_seq_index_decreases(args, index as int);
                    assert(decreases_to!(e0 => argv));
                    assert(decreases_to!(e0 => a));
                }
                let t = match compile_expression(a) {
                    Ok(t) => t,
                    Err(e) => return Err(e),
                };
                if index > 0 {
                    out.append(", ");
                }
                out.append(t.as_str());
                assert(args.take(index + 1).drop_last() =~= args.take(index as int));
                index = index + 1;
            }
            out.append(")");
            assert(args.take(index as int) =~= args);
            Ok(out)
        },
    }
}

/// No statement of a block nests deeper than the block's own bound.
proof fn lemma_block_nesting(block: Seq<Rc<Statement>>, i: int)
    requires
        0 <= i < block.len(),
    ensures
        (*block[i]).nesting() <= block_nesting(block),
    decreases block.len(),
{
    if i < block.len() - 1 {
        lemma_block_nesting(block.drop_last(), i);
    }
}

/// The text of the first statements of a block begins the text of the whole block.
proof fn lemma_block_prefix(block: Seq<Rc<Statement>>, i: int, d: nat)
    requires
        0 <= i <= block.len(),
    ensures
        block_text(block.take(i), d).is_prefix_of(block_text(block, d)),
    decreases block.len(),
{
    if i == block.len() {
        assert(block.take(i) =~= block);
    } else {
        assert(block.drop_last().take(i) =~= block.take(i));
        lemma_block_prefix(block.drop_last(), i, d);
        let a = block_text(block.take(i), d);
        let b = block_text(block.drop_last(), d);
        assert(b.is_prefix_of(block_text(block, d))) by {
            assert(block_text(block, d).subrange(0, b.len() as int) =~= b);
        }
        assert(block_text(block, d).subrange(0, a.len() as int) =~= b.subrange(
            0,
            a.len() as int,
        ));
    }
}

/// A text begins itself and every extension of itself.
proof fn lemma_prefix_append(a: Seq<char>, b: Seq<char>)
    ensures
        a.is_prefix_of(a),
        a.is_prefix_of(a + b),
{
    assert(a.subrange(0, a.len() as int) =~= a);
    assert((a + b).subrange(0, a.len() as int) =~= a);
}

/// `a` begins `b`, and `b` begins `c`: `a` begins `c`.
proof fn lemma_prefix_trans(a: Seq<char>, b: Seq<char>, c: Seq<char>)
    requires
        a.is_prefix_of(b),
        b.is_prefix_of(c),
    ensures
        a.is_prefix_of(c),
{
    assert(c.subrange(0, a.len() as int) =~= b.subrange(0, a.len() as int));
}

/// `a` begins `b`: `p + a` begins `p + b + q`.
proof fn lemma_prefix_frame(p: Seq<char>, a: Seq<char>, b: Seq<char>, q: Seq<char>)
    requires
        a.is_prefix_of(b),
    ensures
        (p + a).is_prefix_of(p + b + q),
{
    assert((p + b + q).subrange(0, (p + a).len() as int) =~= p + a);
}

/// The C text of the arguments of a call statement, comma separated.
fn compile_arguments(arguments: Vec<Expression>) -> (r: Result<String, OwnershipViolation>)
    ensures
        r matches Ok(t) ==> t@ == args_text(arguments@),
        (forall|i: int| 0 <= i < arguments@.len() ==> !(#[trigger] arguments@[i]).has_links())
            ==> r is Ok,
{
    let ghost args = arguments@;
    let n = arguments.len();
    let mut line = String::new();
    let mut index: usize = 0;
    for arg in it: arguments.into_iter()
        invariant
            it.seq() == args,
            index == it.index(),
            n == args.len(),
            line@ == args_text(args.take(index as int)),
    {
        proof {
            assert(index < args.len());
            assert(arg == args[index as int]);
        }
        let t = match compile_expression(arg) {
            Ok(t) => t,
            Err(e) => return Err(e),
        };
        if index > 0 {
            line.append(", ");
        }
        line.append(t.as_str());
        assert(args.take(index + 1).drop_last() =~= args.take(index as int));
        index = index + 1;
    }
    assert(args.take(index as int) =~= args);
    Ok(line)
}

/// Appends the C text of the statements of a block, each at nesting depth `indent`.
///
/// A statement whose link is shared ends the work with `OwnershipViolation`; `out` then
/// holds a beginning of the block's text.
fn compile_block(out: &mut String, block: Vec<Rc<Statement>>, indent: i32) -> (r: Result<
    (),
    OwnershipViolation,
>)
    requires
        0 <= indent,
        indent + block_nesting(block@) <= i32::MAX,
    ensures
        r is Ok ==> final(out)@ == old(out)@ + block_text(block@, indent as nat),
        r is Err ==> old(out)@.is_prefix_of(final(out)@),
        r is Err ==> final(out)@.is_prefix_of(old(out)@ + block_text(block@, indent as nat)),
        block@.len() == 0 ==> r is Ok,
    decreases block,
{
    let ghost blockv = block;
    let ghost blk = block@;
    let ghost d = indent as nat;
    let ghost o0 = out@;
    let n = block.len();
    let mut index: usize = 0;
    proof {
        assert(blk.take(0) =~= Seq::empty());
        assert(out@ =~= o0 + block_text(blk.take(0), d));
    }
    for sub in it: block.into_iter()
        invariant
            it.seq() == blk,
            index == it.index(),
            blockv@ == blk,
            blockv == block,
            o0 == old(out)@,
            n == blk.len(),
            0 <= indent,
            indent + block_nesting(blk) <= i32::MAX,
            d == indent as nat,
            out@ == o0 + block_text(blk.take(index as int), d),
    {
        proof {
            assert(index < blk.len());
            assert(sub == blk[index as int]);
            lemma_block_prefix(blk, index as int, d);
            lemma_prefix_frame(o0, block_text(blk.take(index as int), d), block_text(blk, d), Seq::empty());
            assert(o0 + block_text(blk, d) + Seq::<char>::empty() =~= o0 + block_text(blk, d));
            lemma_prefix_append(o0, block_text(blk.take(index as int), d));
        }
        let child = match take_unique(sub) {
            Ok(c) => c,
            Err(e) => return Err(e),
        };
        proof {
            vstd::std_specs::vec::axiom_vec_decreases_to_view(blockv);
            vstd::seq::axiom_seq_index_decreases(blk, index as int);
            assert(decreases_to!(block => child));
            lemma_block_nesting(blk, index as int);
            assert(blk.take(index + 1).drop_last() =~= blk.take(index as int));
            lemma_block_prefix(blk, index + 1, d);
            lemma_prefix_frame(o0, block_text(blk.take(index + 1), d), block_text(blk, d), Seq::empty());
            assert(out@ + stmt_text(child, d) =~= o0 + block_text(blk.take(index + 1), d));
        }
        let ghost before = out@;
        match compile_statement(out, child, indent) {
            Ok(()) => {},
            Err(e) => {
                proof {
                    lemma_prefix_trans(o0, before, out@);
                    lemma_prefix_trans(out@, before + stmt_text(child, d), o0 + block_text(blk, d));
                }
                return Err(e);
            },
        }
        index = index + 1;
    }
    assert(blk.take(index as int) =~= blk);
    Ok(())
}

/// Appends the C text of a statement at nesting depth `indent` to `out`.
///
/// Every link reached is taken over; a subtree whose link is shared ends the work with
/// `OwnershipViolation`, and `out` then holds a beginning of the text that the
/// statement would have produced, and nothing else.
#[verifier::spinoff_prover]
#[verifier::rlimit(50)]
pub fn compile_statement(out: &mut String, statement: Statement, indent: i32) -> (r: Result<
    (),
    OwnershipViolation,
>)
    requires
        0 <= indent,
        indent + statement.nesting() <= i32::MAX,
    ensures
        r is Ok ==> final(out)@ == old(out)@ + stmt_text(statement, indent as nat),
        r is Err ==> old(out)@.is_prefix_of(final(out)@),
        r is Err ==> final(out)@.is_prefix_of(old(out)@ + stmt_text(statement, indent as nat)),
        !statement.has_links() ==> r is Ok,
    decreases statement,
{
    let ghost s0 = statement;
    let ghost d = indent as nat;
    let ghost o0 = out@;
    let ind = replicate(INDENT, indent);
    assert(ind@ == crate::text::indent(d));
    match statement {
        Statement::Return(exp) => {
            let t = match compile_expression(exp) {
                Ok(t) => t,
                Err(e) => {
                    assert(o0 =~= o0.subrange(0, o0.len() as int));
                    return Err(e);
                },
            };
            out.append(ind.as_str());
            out.append("return ");
            out.append(t.as_str());
            out.append(";");
            assert(out@ =~= o0 + stmt_text(s0, d));
            Ok(())
        },
        Statement::Do(block) => {
            let ghost hdr = "\n"@ + crate::text::indent(d) + "{\n"@;
            let ghost footer = "\n"@ + crate::text::indent(d) + "}\n"@;
            let ghost body = block_text(block@, d + 1);
            proof {
                assert(o0 + hdr + body + footer =~= o0 + stmt_text(s0, d));
            }
            out.append("\n");
            out.append(ind.as_str());
            out.append("{\n");
            let ghost head = out@;
            assert(head == o0 + hdr);
            match compile_block(out, block, indent + 1) {
                Ok(()) => {},
                Err(e) => {
                    proof {
                        lemma_prefix_append(o0, hdr);
                        lemma_prefix_trans(o0, head, out@);
                        lemma_prefix_frame(o0 + hdr, Seq::empty(), body, footer);
                        lemma_prefix_append(head + body, footer);
                        lemma_prefix_trans(out@, head + body, o0 + stmt_text(s0, d));
                    }
                    return Err(e);
                },
            }
            out.append("\n");
            out.append(ind.as_str());
            out.append("}\n");
            assert(out@ =~= o0 + stmt_text(s0, d));
            Ok(())
        },
        Statement::Call { function, arguments } => {
            proof {
                lemma_prefix_append(o0, stmt_text(s0, d));
            }
            let args = match compile_arguments(arguments) {
                Ok(t) => t,
                Err(e) => return Err(e),
            };
            out.append(ind.as_str());
            out.append(function.as_str());
            out.append("(");
            out.append(args.as_str());
            out.append(");\n");
            assert(out@ =~= o0 + stmt_text(s0, d));
            Ok(())
        },
        Statement::Var(name) => {
            out.append(ind.as_str());
            out.append("long ");
            out.append(name.as_str());
            out.append(";\n");
            assert(out@ =~= o0 + stmt_text(s0, d));
            Ok(())
        },
        Statement::Assign(name, exp) => {
            let t = match compile_expression(exp) {
                Ok(t) => t,
                Err(e) => {
                    proof {
                        lemma_prefix_append(o0, stmt_text(s0, d));
                    }
                    return Err(e);
                },
            };
            out.append(ind.as_str());
            out.append(name.as_str());
            out.append(" = ");
            out.append(t.as_str());
            out.append(";\n");
            assert(out@ =~= o0 + stmt_text(s0, d));
            Ok(())
        },
        Statement::Change(name, exp) => {
            let t = match compile_expression(exp) {
                Ok(t) => t,
                Err(e) => {
                    proof {
                        lemma_prefix_append(o0, stmt_text(s0, d));
                    }
                    return Err(e);
                },
            };
            out.append(ind.as_str());
            out.append(name.as_str());
            out.append(" += ");
            out.append(t.as_str());
            out.append(";\n");
            assert(out@ =~= o0 + stmt_text(s0, d));
            Ok(())
        },
        Statement::If { cond, if_clause, else_clause } => {
            proof {
                lemma_prefix_append(o0, stmt_text(s0, d));
            }
            let ct = match compile_expression(cond) {
                Ok(t) => t,
                Err(e) => return Err(e),
            };
            let branch = match take_unique(if_clause) {
                Ok(b) => b,
                Err(e) => return Err(e),
            };
            let other = match take_unique(else_clause) {
                Ok(o) => o,
                Err(e) => return Err(e),
            };
            let ghost tail = if other is Some {
                crate::text::indent(d) + "else"@ + stmt_text(other->0, d + 1)
            } else {
                Seq::empty()
            };
            out.append(ind.as_str());
            out.append("if ");
            out.append(ct.as_str());
            let ghost head = out@;
            proof {
                assert(head + stmt_text(branch, d + 1) + tail =~= o0 + stmt_text(s0, d));
                lemma_prefix_append(o0, head.subrange(o0.len() as int, head.len() as int));
                assert(o0 + head.subrange(o0.len() as int, head.len() as int) =~= head);
                lemma_prefix_append(head + stmt_text(branch, d + 1), tail);
            }
            match compile_statement(out, branch, indent + 1) {
                Ok(()) => {},
                Err(e) => {
                    proof {
                        lemma_prefix_trans(o0, head, out@);
                        lemma_prefix_trans(
                            out@,
                            head + stmt_text(branch, d + 1),
                            o0 + stmt_text(s0, d),
                        );
                    }
                    return Err(e);
                },
            }
            let ghost mid = out@;
            match other {
                Some(es) => {
                    out.append(ind.as_str());
                    out.append("else");
                    let ghost head2 = out@;
                    proof {
                        assert(head2 + stmt_text(es, d + 1) =~= o0 + stmt_text(s0, d));
                        lemma_prefix_append(o0, head2.subrange(o0.len() as int, head2.len() as int));
                        assert(o0 + head2.subrange(o0.len() as int, head2.len() as int) =~= head2);
                        lemma_prefix_append(head2 + stmt_text(es, d + 1), Seq::empty());
                        assert(head2 + stmt_text(es, d + 1) + Seq::<char>::empty() =~= head2
                            + stmt_text(es, d + 1));
                    }
                    match compile_statement(out, es, indent + 1) {
                        Ok(()) => {},
                        Err(e) => {
                            proof {
                                lemma_prefix_trans(o0, head2, out@);
                            }
                            return Err(e);
                        },
                    }
                },
                None => {},
            }
            assert(out@ =~= o0 + stmt_text(s0, d));
            Ok(())
        },
    }
}

/// Appends a function definition to `out`: the return type, the name, the parameter
/// list and the body.
///
/// The function named `main` returns `int`, every other one `long`; each parameter is a
/// `long`. A subtree whose link is shared ends the work with `OwnershipViolation`, and
/// `out` then holds a beginning of the function's text.
#[verifier::spinoff_prover]
#[verifier::rlimit(50)]
pub fn compile_function(out: &mut String, func: Function) -> (r: Result<(), OwnershipViolation>)
    requires
        func.code.nesting() <= i32::MAX,
    ensures
        r is Ok ==> final(out)@ == old(out)@ + function_text(func),
        r is Err ==> old(out)@.is_prefix_of(final(out)@),
        r is Err ==> final(out)@.is_prefix_of(old(out)@ + function_text(func)),
        !func.code.has_links() ==> r is Ok,
{
    let ghost f0 = func;
    let ghost o0 = out@;
    write_newline(out);
    let is_main = func.name == "main".to_string();
    out.append(if is_main {
        "int "
    } else {
        "long "
    });
    assert(out@ == o0 + NEW_LINE@ + return_type(func.name@));
    out.append(func.name.as_str());
    out.append("(");
    let ghost base = out@;
    match func.signature {
        Some(sig) => {
            let n = sig.len();
            for i in 0..n
                invariant
                    n == sig@.len(),
                    out@ == base + param_list_text(sig@.take(i as int)),
            {
                if i > 0 {
                    out.append(", ");
                }
                out.append("long ");
                out.append(sig[i].as_str());
                assert(sig@.take(i + 1).drop_last() =~= sig@.take(i as int));
            }
            assert(sig@.take(n as int) =~= sig@);
        },
        None => {
            assert(out@ =~= base + params_text(f0.signature));
        },
    }
    out.append(")");
    let ghost head = out@;
    assert(head =~= o0 + NEW_LINE@ + return_type(f0.name@) + f0.name@ + "("@ + params_text(
        f0.signature,
    ) + ")"@);
    assert(head + stmt_text(f0.code, 0) =~= o0 + function_text(f0));
    match compile_statement(out, func.code, 0) {
        Ok(()) => Ok(()),
        Err(e) => {
            proof {
                lemma_prefix_append(o0, head.subrange(o0.len() as int, head.len() as int));
                assert(o0 + head.subrange(o0.len() as int, head.len() as int) =~= head);
                lemma_prefix_trans(o0, head, out@);
            }
            Err(e)
        },
    }
}

/// Appends the C program for `ast` to `out`: the runtime support, each function in
/// order, and the closing comment.
///
/// A subtree whose link is shared ends the work with `OwnershipViolation` before
/// anything is written: `out` is then left as it was.
pub fn compile_ast(out: &mut String, ast: Program) -> (r: Result<(), OwnershipViolation>)
    requires
        forall|i: int| 0 <= i < ast@.len() ==> (#[trigger] ast@[i]).code.nesting() <= i32::MAX,
    ensures
        r is Ok ==> final(out)@ == old(out)@ + program_text(ast@),
        r is Err ==> final(out)@ == old(out)@,
        (forall|i: int| 0 <= i < ast@.len() ==> !(#[trigger] ast@[i]).code.has_links()) ==> r
            is Ok,
{
    let ghost fs = ast@;
    let n = ast.len();
    let mut text = String::new();
    text.append(PROLOG);
    let mut index: usize = 0;
    assert(fs.take(0) =~= Seq::<Function>::empty());
    for func in it: ast.into_iter()
        invariant
            it.seq() == fs,
            index == it.index(),
            n == fs.len(),
            forall|i: int| 0 <= i < fs.len() ==> (#[trigger] fs[i]).code.nesting() <= i32::MAX,
            text@ == PROLOG@ + functions_text(fs.take(index as int)),
            out@ == old(out)@,
    {
        proof {
            assert(index < fs.len());
            assert(func == fs[index as int]);
        }
        match compile_function(&mut text, func) {
            Ok(()) => {},
            Err(e) => return Err(e),
        }
        assert(fs.take(index + 1).drop_last() =~= fs.take(index as int));
        index = index + 1;
    }
    text.append(EPILOG);
    assert(fs.take(index as int) =~= fs);
    out.append(text.as_str());
    assert(out@ =~= old(out)@ + program_text(fs));
    Ok(())
}

} // verus!
