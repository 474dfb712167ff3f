//! Properties of the generated text.
use crate::ast::{Expression, Function, Operator, Statement};
use crate::text::{
    block_text, decimal, digit_char, digits, expr_text, function_text, functions_text, indent,
    linked_args_text, op_token, program_text, return_type, stmt_text, EPILOG, PROLOG,
};
use std::rc::Rc;
use vstd::prelude::*;

verus! {

/// The number a decimal digit character stands for.
pub open spec fn digit_value(c: char) -> int {
    if c == '1' {
        1
    } else if c == '2' {
        2
    } else if c == '3' {
        3
    } else if c == '4' {
        4
    } else if c == '5' {
        5
    } else if c == '6' {
        6
    } else if c == '7' {
        7
    } else if c == '8' {
        8
    } else if c == '9' {
        9
    } else {
        0
    }
}

/// Whether a character is a decimal digit.
pub open spec fn is_digit(c: char) -> bool {
    c == '0' || c == '1' || c == '2' || c == '3' || c == '4' || c == '5' || c == '6' || c == '7'
        || c == '8' || c == '9'
}

/// The number that a string of decimal digits reads as.
pub open spec fn digits_value(s: Seq<char>) -> int
    decreases s.len(),
{
    if s.len() == 0 {
        0
    } else {
        digits_value(s.drop_last()) * 10 + digit_value(s.last())
    }
}

/// The number that a decimal numeral, with an optional leading minus sign, reads as.
pub open spec fn numeral_value(s: Seq<char>) -> int {
    if s.len() > 0 && s[0] == '-' {
        -digits_value(s.drop_first())
    } else {
        digits_value(s)
    }
}

/// The digits of a number are decimal digits, read back as that number.
pub proof fn lemma_digits_round_trip(n: nat)
    ensures
        digits(n).len() > 0,
        forall|i: int| 0 <= i < digits(n).len() ==> is_digit(#[trigger] digits(n)[i]),
        digits_value(digits(n)) == n,
    decreases n,
{
    if n >= 10 {
        lemma_digits_round_trip(n / 10);
        assert(digits(n).drop_last() =~= digits(n / 10));
        assert(digit_value(digit_char(n % 10)) == n % 10);
        assert((n / 10) * 10 + n % 10 == n);
        assert(digits(n).last() == digit_char(n % 10));
    } else {
        assert(digits(n).drop_last() =~= Seq::<char>::empty());
        assert(digit_value(digit_char(n)) == n);
        assert(digits_value(digits(n).drop_last()) == 0);
    }
}

/// An integer literal is the decimal numeral of its value followed by the `long`
/// suffix `l`, and the numeral reads back as the value, for every 64-bit value.
pub proof fn lemma_integer_round_trip(v: i64)
    ensures
        expr_text(Expression::Integer(v)) == decimal(v as int) + seq!['l'],
        numeral_value(decimal(v as int)) == v,
{
    reveal_strlit("l");
    if v < 0 {
        lemma_digits_round_trip((-v) as nat);
        assert((seq!['-'] + digits((-v) as nat)).drop_first() =~= digits((-v) as nat));
    } else {
        lemma_digits_round_trip(v as nat);
    }
}

/// Every binary and unary operation is written inside one pair of parentheses that
/// encloses exactly its operands and operator, whatever they are.
pub proof fn lemma_parenthesized(e: Expression)
    requires
        e is BinaryOp || e is UnaryOp,
    ensures
        expr_text(e).len() >= 2,
        expr_text(e)[0] == '(',
        expr_text(e).last() == ')',
        e is BinaryOp ==> expr_text(e).subrange(1, expr_text(e).len() - 1) == expr_text(
            *e->BinaryOp_left,
        ) + seq![' '] + op_token(e->BinaryOp_operator) + seq![' '] + expr_text(
            *e->BinaryOp_right,
        ),
        e is UnaryOp ==> expr_text(e).subrange(1, expr_text(e).len() - 1) == op_token(
            e->UnaryOp_operator,
        ) + expr_text(*e->UnaryOp_expression),
{
    reveal_strlit("(");
    reveal_strlit(")");
    reveal_strlit(" ");
    let t = expr_text(e);
    match e {
        Expression::BinaryOp { operator, left, right } => {
            assert(t.subrange(1, t.len() - 1) =~= expr_text(*left) + seq![' '] + op_token(
                operator,
            ) + seq![' '] + expr_text(*right));
        },
        Expression::UnaryOp { operator, expression } => {
            assert(t.subrange(1, t.len() - 1) =~= op_token(operator) + expr_text(*expression));
        },
        _ => {},
    }
}

/// Opening minus closing parentheses in a text.
pub open spec fn paren_depth(s: Seq<char>) -> int
    decreases s.len(),
{
    if s.len() == 0 {
        0
    } else {
        paren_depth(s.drop_last()) + if s.last() == '(' {
            1
        } else if s.last() == ')' {
            -1
        } else {
            0
        }
    }
}

/// Parentheses in the text pair up: no prefix closes more than it opened, and the
/// whole text closes all it opened.
pub open spec fn balanced(s: Seq<char>) -> bool {
    &&& paren_depth(s) == 0
    &&& forall|k: int| 0 <= k <= s.len() ==> paren_depth(#[trigger] s.take(k)) >= 0
}

/// The text holds no parenthesis.
pub open spec fn paren_free(s: Seq<char>) -> bool {
    forall|i: int| 0 <= i < s.len() ==> s[i] != '(' && s[i] != ')'
}

/// Every identifier and called name in the expression is free of parentheses.
pub open spec fn names_paren_free(e: Expression) -> bool
    decreases e,
{
    match e {
        Expression::Integer(_) => true,
        Expression::Ident(name) => paren_free(name@),
        Expression::BinaryOp { left, right, .. } => names_paren_free(*left) && names_paren_free(
            *right,
        ),
        Expression::UnaryOp { expression, .. } => names_paren_free(*expression),
        Expression::Call { function, arguments } => paren_free(function@) && args_paren_free(
            arguments@,
        ),
    }
}

/// Every argument is free of parentheses in its names.
pub open spec fn args_paren_free(args: Seq<Rc<Expression>>) -> bool
    decreases args,
{
    if args.len() == 0 {
        true
    } else {
        args_paren_free(args.drop_last()) && names_paren_free(*args.last())
    }
}

proof fn lemma_depth_concat(a: Seq<char>, b: Seq<char>)
    ensures
        paren_depth(a + b) == paren_depth(a) + paren_depth(b),
    decreases b.len(),
{
    if b.len() == 0 {
        assert(a + b =~= a);
    } else {
        assert((a + b).drop_last() =~= a + b.drop_last());
        lemma_depth_concat(a, b.drop_last());
    }
}

proof fn lemma_paren_free_depth(s: Seq<char>)
    requires
        paren_free(s),
    ensures
        paren_depth(s) == 0,
        balanced(s),
    decreases s.len(),
{
    if s.len() > 0 {
        assert(paren_free(s.drop_last()));
        lemma_paren_free_depth(s.drop_last());
    }
    assert forall|k: int| 0 <= k <= s.len() implies paren_depth(#[trigger] s.take(k)) >= 0 by {
        assert(paren_free(s.take(k)));
        if k < s.len() || s.len() == 0 {
            if s.take(k).len() < s.len() {
                lemma_paren_free_depth(s.take(k));
            }
        }
        if k == s.len() {
            assert(s.take(k) =~= s);
        }
    }
}

proof fn lemma_balanced_concat(a: Seq<char>, b: Seq<char>)
    requires
        balanced(a),
        balanced(b),
    ensures
        balanced(a + b),
{
    lemma_depth_concat(a, b);
    assert forall|k: int| 0 <= k <= (a + b).len() implies paren_depth(#[trigger] (a + b).take(k))
        >= 0 by {
        if k <= a.len() {
            assert((a + b).take(k) =~= a.take(k));
        } else {
            assert((a + b).take(k) =~= a + b.take(k - a.len()));
            assert(paren_depth(b.take(k - a.len())) >= 0);
            lemma_depth_concat(a, b.take(k - a.len()));
        }
    }
}

proof fn lemma_free_concat(a: Seq<char>, b: Seq<char>)
    requires
        paren_free(a),
        paren_free(b),
    ensures
        paren_free(a + b),
{
    assert forall|i: int| 0 <= i < (a + b).len() implies (a + b)[i] != '(' && (a + b)[i]
        != ')' by {
        if i >= a.len() {
            assert((a + b)[i] == b[i - a.len()]);
        }
    }
}

/// A balanced text inside one pair of parentheses: that pair matches, every proper
/// beginning of the result leaves it open.
proof fn lemma_wrapped(s: Seq<char>)
    requires
        balanced(s),
    ensures
        balanced(seq!['('] + s + seq![')']),
        forall|k: int|
            0 < k < s.len() + 2 ==> paren_depth(#[trigger] (seq!['('] + s + seq![')']).take(k))
                >= 1,
{
    let w = seq!['('] + s + seq![')'];
    let open = seq!['('];
    let close = seq![')'];
    assert(open.drop_last() =~= Seq::<char>::empty());
    assert(close.drop_last() =~= Seq::<char>::empty());
    assert(open.last() == '(' && close.last() == ')');
    assert(paren_depth(Seq::<char>::empty()) == 0);
    assert(paren_depth(open) == 1);
    assert(paren_depth(close) == -1);
    lemma_depth_concat(open, s);
    lemma_depth_concat(open + s, close);
    assert(paren_depth(w) == 0);
    assert forall|k: int| 0 < k < s.len() + 2 implies paren_depth(#[trigger] w.take(k)) >= 1 by {
        assert(w.take(k) =~= open + s.take(k - 1));
        assert(paren_depth(s.take(k - 1)) >= 0);
        lemma_depth_concat(open, s.take(k - 1));
    }
    assert forall|k: int| 0 <= k <= w.len() implies paren_depth(#[trigger] w.take(k)) >= 0 by {
        if k == 0 {
            assert(w.take(k) =~= Seq::<char>::empty());
        } else if k == w.len() {
            assert(w.take(k) =~= w);
        } else {
            assert(paren_depth(w.take(k)) >= 1);
        }
    }
}

proof fn lemma_op_paren_free(op: Operator)
    ensures
        paren_free(op_token(op)),
{
    reveal_strlit("+");
    reveal_strlit("-");
    reveal_strlit("*");
    reveal_strlit("/");
    reveal_strlit("==");
    reveal_strlit("!=");
    reveal_strlit(">");
    reveal_strlit("<");
    reveal_strlit(">=");
    reveal_strlit("<=");
    reveal_strlit("&&");
    reveal_strlit("||");
    reveal_strlit("!");
    reveal_strlit("&");
    reveal_strlit("|");
    reveal_strlit("~");
}

proof fn lemma_literal_paren_free(v: i64)
    ensures
        paren_free(decimal(v as int) + "l"@),
{
    reveal_strlit("l");
    let n: nat = if v < 0 {
        (-v) as nat
    } else {
        v as nat
    };
    lemma_digits_round_trip(n);
    assert(paren_free(digits(n)));
    assert(paren_free(seq!['-']));
    lemma_free_concat(seq!['-'], digits(n));
    lemma_free_concat(decimal(v as int), "l"@);
}

/// Parentheses in the text of an expression whose names hold none pair up, and the
/// pair around a binary or unary operation matches: no proper beginning of its text
/// closes it. Reading the text back thus groups every operation as the tree does.
pub proof fn lemma_parentheses_match(e: Expression)
    requires
        names_paren_free(e),
    ensures
        balanced(expr_text(e)),
        e is BinaryOp || e is UnaryOp ==> forall|k: int|
            0 < k < expr_text(e).len() ==> paren_depth(#[trigger] expr_text(e).take(k)) >= 1,
    decreases e,
{
    reveal_strlit("(");
    reveal_strlit(")");
    reveal_strlit(" ");
    match e {
        Expression::Integer(v) => {
            lemma_literal_paren_free(v);
            lemma_paren_free_depth(expr_text(e));
        },
        Expression::Ident(name) => {
            lemma_paren_free_depth(name@);
        },
        Expression::BinaryOp { operator, left, right } => {
            let ghost l = *left;
            let ghost r = *right;
            lemma_parentheses_match(l);
            lemma_parentheses_match(r);
            lemma_op_paren_free(operator);
            let ghost lt = expr_text(l);
            let ghost rt = expr_text(r);
            let ghost mid = seq![' '] + op_token(operator) + seq![' '];
            assert(paren_free(seq![' ']));
            lemma_free_concat(seq![' '], op_token(operator));
            lemma_free_concat(seq![' '] + op_token(operator), seq![' ']);
            lemma_paren_free_depth(mid);
            lemma_balanced_concat(lt, mid);
            lemma_balanced_concat(lt + mid, rt);
            lemma_wrapped(lt + mid + rt);
            assert(expr_text(e) =~= seq!['('] + (lt + mid + rt) + seq![')']);
        },
        Expression::UnaryOp { operator, expression } => {
            let ghost x = *expression;
            lemma_parentheses_match(x);
            lemma_op_paren_free(operator);
            let ghost ot = op_token(operator);
            let ghost xt = expr_text(x);
            lemma_paren_free_depth(ot);
            lemma_balanced_concat(ot, xt);
            lemma_wrapped(ot + xt);
            assert(expr_text(e) =~= seq!['('] + (ot + xt) + seq![')']);
        },
        Expression::Call { function, arguments } => {
            let ghost args = arguments@;
            let ghost at = linked_args_text(args);
            lemma_args_balanced(args);
            lemma_paren_free_depth(function@);
            assert(expr_text(e) =~= function@ + (seq!['('] + at + seq![')']));
            lemma_wrapped(at);
            lemma_balanced_concat(function@, seq!['('] + at + seq![')']);
        },
    }
}

/// The argument list of a call whose names hold no parentheses is balanced.
proof fn lemma_args_balanced(args: Seq<Rc<Expression>>)
    requires
        args_paren_free(args),
    ensures
        balanced(linked_args_text(args)),
    decreases args,
{
    reveal_strlit(", ");
    if args.len() == 0 {
        lemma_paren_free_depth(Seq::empty());
    } else {
        let ghost x = *args.last();
        lemma_parentheses_match(x);
        if args.len() > 1 {
            let ghost front = linked_args_text(args.drop_last());
            lemma_args_balanced(args.drop_last());
            lemma_paren_free_depth(", "@);
            lemma_balanced_concat(front, ", "@);
            lemma_balanced_concat(front + ", "@, expr_text(x));
        } else {
            assert(args[0] == args.last());
        }
    }
}

/// One indentation unit is four spaces: depth `d` is written as `4 * d` spaces.
pub proof fn lemma_indent_spaces(d: nat)
    ensures
        indent(d).len() == 4 * d,
        forall|i: int| 0 <= i < indent(d).len() ==> #[trigger] indent(d)[i] == ' ',
    decreases d,
{
    reveal_strlit("    ");
    if d > 0 {
        lemma_indent_spaces((d - 1) as nat);
    }
}

/// A statement at depth `d` other than a block starts with exactly `d` indentation
/// units followed by a character that is not a space; a block puts its braces on
/// lines of their own at depth `d` and its statements at depth `d + 1`.
pub proof fn lemma_indentation(s: Statement, d: nat)
    requires
        match s {
            Statement::Var(name) => true,
            Statement::Call { function, .. } => function@.len() > 0 && function@[0] != ' ',
            Statement::Assign(name, _) => name@.len() > 0 && name@[0] != ' ',
            Statement::Change(name, _) => name@.len() > 0 && name@[0] != ' ',
            _ => true,
        },
    ensures
        !(s is Do) ==> stmt_text(s, d).subrange(0, 4 * d as int) == indent(d),
        !(s is Do) ==> stmt_text(s, d)[4 * d as int] != ' ',
        s is Do ==> stmt_text(s, d) == seq!['\n'] + indent(d) + seq!['{', '\n'] + block_text(
            s->Do_0@,
            d + 1,
        ) + seq!['\n'] + indent(d) + seq!['}', '\n'],
{
    reveal_strlit("\n");
    reveal_strlit("{\n");
    reveal_strlit("}\n");
    reveal_strlit("return ");
    reveal_strlit("long ");
    reveal_strlit("if ");
    lemma_indent_spaces(d);
    let t = stmt_text(s, d);
    if !(s is Do) {
        assert(t.subrange(0, 4 * d as int) =~= indent(d));
        assert(t[4 * d as int] != ' ');
    }
}

/// The texts of two runs of functions, one after the other, are the text of the
/// functions of both runs in their order.
pub proof fn lemma_functions_concat(a: Seq<Function>, b: Seq<Function>)
    ensures
        functions_text(a + b) == functions_text(a) + functions_text(b),
    decreases b.len(),
{
    if b.len() == 0 {
        assert(a + b =~= a);
        assert(functions_text(a) + functions_text(b) =~= functions_text(a));
    } else {
        assert((a + b).drop_last() =~= a + b.drop_last());
        lemma_functions_concat(a, b.drop_last());
        assert(functions_text(a + b) =~= functions_text(a) + functions_text(b));
    }
}

/// A program's text opens with the prolog, closes with the epilog, and holds between
/// them one function text per function, in the order of the program.
pub proof fn lemma_program_frame(fs: Seq<Function>)
    ensures
        program_text(fs).subrange(0, PROLOG@.len() as int) == PROLOG@,
        program_text(fs).subrange(
            program_text(fs).len() - EPILOG@.len(),
            program_text(fs).len() as int,
        ) == EPILOG@,
        program_text(fs).subrange(
            PROLOG@.len() as int,
            program_text(fs).len() - EPILOG@.len(),
        ) == functions_text(fs),
        forall|i: int|
            0 <= i < fs.len() ==> #[trigger] functions_text(fs) == functions_text(fs.take(i))
                + function_text(fs[i]) + functions_text(fs.skip(i + 1)),
{
    let t = program_text(fs);
    assert(t.subrange(0, PROLOG@.len() as int) =~= PROLOG@);
    assert(t.subrange(t.len() - EPILOG@.len(), t.len() as int) =~= EPILOG@);
    assert(t.subrange(PROLOG@.len() as int, t.len() - EPILOG@.len()) =~= functions_text(fs));
    assert forall|i: int| 0 <= i < fs.len() implies #[trigger] functions_text(fs)
        == functions_text(fs.take(i)) + function_text(fs[i]) + functions_text(fs.skip(i + 1)) by {
        assert(fs =~= fs.take(i) + seq![fs[i]] + fs.skip(i + 1));
        lemma_functions_concat(fs.take(i) + seq![fs[i]], fs.skip(i + 1));
        lemma_functions_concat(fs.take(i), seq![fs[i]]);
        let one = seq![fs[i]];
        assert(one.drop_last() =~= Seq::<Function>::empty());
        assert(one.last() == fs[i]);
        assert(functions_text(one.drop_last()) == Seq::<char>::empty());
        assert(functions_text(one) =~= function_text(fs[i]));
    }
}

/// The function named `main` is written with the return type `int`; every other
/// function with `long`. The choice rests on the name alone, and the name and the
/// opening parenthesis of the parameter list follow it.
pub proof fn lemma_return_type(f: Function)
    ensures
        f.name@ == "main"@ ==> function_text(f).subrange(0, 5) == "\nint "@,
        f.name@ != "main"@ ==> function_text(f).subrange(0, 6) == "\nlong "@,
        function_text(f).subrange(1, (2 + return_type(f.name@).len() + f.name@.len()) as int)
            == return_type(f.name@) + f.name@ + "("@,
{
    reveal_strlit("\n");
    reveal_strlit("int ");
    reveal_strlit("long ");
    reveal_strlit("\nint ");
    reveal_strlit("\nlong ");
    reveal_strlit("(");
    let t = function_text(f);
    if f.name@ == "main"@ {
        assert(t.subrange(0, 5) =~= "\nint "@);
    } else {
        assert(t.subrange(0, 6) =~= "\nlong "@);
    }
    assert(t.subrange(1, (2 + return_type(f.name@).len() + f.name@.len()) as int)
        =~= return_type(f.name@) + f.name@ + "("@);
}

/// The statements of two runs, one after the other, are written as the first run's
/// text followed by the second's.
proof fn lemma_block_concat(a: Seq<Rc<Statement>>, b: Seq<Rc<Statement>>, d: nat)
    ensures
        block_text(a + b, d) == block_text(a, d) + block_text(b, d),
    decreases b.len(),
{
    if b.len() == 0 {
        assert(a + b =~= a);
        assert(block_text(a, d) + block_text(b, d) =~= block_text(a, d));
    } else {
        assert((a + b).drop_last() =~= a + b.drop_last());
        lemma_block_concat(a, b.drop_last(), d);
        assert(block_text(a + b, d) =~= block_text(a, d) + block_text(b, d));
    }
}

/// A block at depth `d` writes each of its statements at depth `d + 1`, in order:
/// the text of statement `i` stands between the texts of those before and after it.
pub proof fn lemma_block_children(block: Seq<Rc<Statement>>, d: nat)
    ensures
        forall|i: int|
            0 <= i < block.len() ==> #[trigger] block_text(block, d + 1) == block_text(
                block.take(i),
                d + 1,
            ) + stmt_text(*block[i], d + 1) + block_text(block.skip(i + 1), d + 1),
{
    assert forall|i: int| 0 <= i < block.len() implies #[trigger] block_text(block, d + 1)
        == block_text(block.take(i), d + 1) + stmt_text(*block[i], d + 1) + block_text(
        block.skip(i + 1),
        d + 1,
    ) by {
        let one = seq![block[i]];
        assert(block =~= block.take(i) + one + block.skip(i + 1));
        lemma_block_concat(block.take(i) + one, block.skip(i + 1), d + 1);
        lemma_block_concat(block.take(i), one, d + 1);
        assert(one.drop_last() =~= Seq::<Rc<Statement>>::empty());
        assert(one.last() == block[i]);
        assert(block_text(one.drop_last(), d + 1) == Seq::<char>::empty());
        assert(block_text(one, d + 1) =~= stmt_text(*block[i], d + 1));
    }
}

} // verus!
