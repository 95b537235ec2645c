//! A printer of expressions, in prefix form with every nesting shown.
use vstd::prelude::*;
use vstd::string::*;
use std::rc::Rc;
use crate::expr::{Expr, Literal};

verus! {

/// The text of a literal: a number and a string as written, without
/// quotes.
pub open spec fn literal_text(l: Literal) -> Seq<char> {
    match l {
        Literal::Nil => "nil"@,
        Literal::Bool(b) => if b {
            "true"@
        } else {
            "false"@
        },
        Literal::Number(s) => s@,
        Literal::String(s) => s@,
    }
}

/// The printed form of an expression.
pub open spec fn printed(e: Expr) -> Seq<char>
    decreases e, 0nat,
{
    match e {
        Expr::Binary(left, op, right) => "("@ + op.lexeme@ + " "@ + printed(*left) + " "@ + printed(
            *right,
        ) + ")"@,
        Expr::Logical(left, op, right) => "("@ + op.lexeme@ + " "@ + printed(*left) + " "@
            + printed(*right) + ")"@,
        Expr::Unary(op, right) => "("@ + op.lexeme@ + " "@ + printed(*right) + ")"@,
        Expr::Literal(l) => "("@ + literal_text(l) + ")"@,
        Expr::Grouping(inner) => "(group "@ + printed(*inner) + ")"@,
        Expr::Variable(_, name) => name.lexeme@,
        Expr::This(_, keyword) => keyword.lexeme@,
        Expr::Super(_, _, method) => "(super "@ + method.lexeme@ + ")"@,
        Expr::Assign(_, name, value) => "(= "@ + name.lexeme@ + " "@ + printed(*value) + ")"@,
        Expr::Get(object, name) => "(get "@ + printed(*object) + " "@ + name.lexeme@ + ")"@,
        Expr::SetField(object, name, value) => "(set "@ + printed(*object) + " "@ + name.lexeme@
            + " "@ + printed(*value) + ")"@,
        Expr::Call(callee, _, args) => "(call "@ + printed(*callee) + printed_each(args@, 0)
            + ")"@,
    }
}

/// The printed forms of the expressions from `from` on, a space before
/// each.
pub open spec fn printed_each(list: Seq<Rc<Expr>>, from: int) -> Seq<char>
    decreases list, list.len() - from,
{
    if 0 <= from < list.len() {
        " "@ + printed(*list[from]) + printed_each(list, from + 1)
    } else {
        Seq::empty()
    }
}

fn append_literal(out: &mut String, l: &Literal)
    ensures
        final(out)@ == old(out)@ + literal_text(*l),
{
    match l {
        Literal::Nil => out.append("nil"),
        Literal::Bool(true) => out.append("true"),
        Literal::Bool(false) => out.append("false"),
        Literal::Number(s) => out.append(s.as_str()),
        Literal::String(s) => out.append(s.as_str()),
    }
}

fn append_printed(out: &mut String, expr: &Expr)
    ensures
        final(out)@ == old(out)@ + printed(*expr),
    decreases expr, 1nat,
{
    match expr {
        Expr::Binary(_, _, _) | Expr::Logical(_, _, _) => append_operation(out, expr),
        Expr::Unary(_, _) | Expr::Grouping(_) | Expr::Assign(_, _, _) => append_wrapped(out, expr),
        Expr::Get(_, _) | Expr::SetField(_, _, _) => append_property(out, expr),
        Expr::Call(_, _, _) => append_call(out, expr),
        Expr::Literal(l) => {
            out.append("(");
            append_literal(out, l);
            out.append(")");
            assert(out@ =~= old(out)@ + printed(*expr));
        },
        Expr::Variable(_, name) => {
            out.append(name.lexeme.as_str());
        },
        Expr::This(_, keyword) => {
            out.append(keyword.lexeme.as_str());
        },
        Expr::Super(_, _, method) => {
            out.append("(super ");
            out.append(method.lexeme.as_str());
            out.append(")");
            assert(out@ =~= old(out)@ + printed(*expr));
        },
    }
}

fn append_operation(out: &mut String, expr: &Expr)
    requires
        expr is Binary || expr is Logical,
    ensures
        final(out)@ == old(out)@ + printed(*expr),
    decreases expr, 0nat,
{
    match expr {
        Expr::Binary(left, op, right) | Expr::Logical(left, op, right) => {
            out.append("(");
            out.append(op.lexeme.as_str());
            out.append(" ");
            append_printed(out, left);
            out.append(" ");
            append_printed(out, right);
            out.append(")");
            assert(out@ =~= old(out)@ + printed(*expr));
        },
        _ => {},
    }
}

fn append_wrapped(out: &mut String, expr: &Expr)
    requires
        expr is Unary || expr is Grouping || expr is Assign,
    ensures
        final(out)@ == old(out)@ + printed(*expr),
    decreases expr, 0nat,
{
    match expr {
        Expr::Unary(op, right) => {
            out.append("(");
            out.append(op.lexeme.as_str());
            out.append(" ");
            append_printed(out, right);
            out.append(")");
            assert(out@ =~= old(out)@ + printed(*expr));
        },
        Expr::Grouping(inner) => {
            out.append("(group ");
            append_printed(out, inner);
            out.append(")");
            assert(out@ =~= old(out)@ + printed(*expr));
        },
        Expr::Assign(_, name, value) => {
            out.append("(= ");
            out.append(name.lexeme.as_str());
            out.append(" ");
            append_printed(out, value);
            out.append(")");
            assert(out@ =~= old(out)@ + printed(*expr));
        },
        _ => {},
    }
}

fn append_property(out: &mut String, expr: &Expr)
    requires
        expr is Get || expr is SetField,
    ensures
        final(out)@ == old(out)@ + printed(*expr),
    decreases expr, 0nat,
{
    match expr {
        Expr::Get(object, name) => {
            out.append("(get ");
            append_printed(out, object);
            out.append(" ");
            out.append(name.lexeme.as_str());
            out.append(")");
            assert(out@ =~= old(out)@ + printed(*expr));
        },
        Expr::SetField(object, name, value) => {
            out.append("(set ");
            append_printed(out, object);
            out.append(" ");
            out.append(name.lexeme.as_str());
            out.append(" ");
            append_printed(out, value);
            out.append(")");
            assert(out@ =~= old(out)@ + printed(*expr));
        },
        _ => {},
    }
}

fn append_call(out: &mut String, expr: &Expr)
    requires
        expr is Call,
    ensures
        final(out)@ == old(out)@ + printed(*expr),
    decreases expr, 0nat,
{
    match expr {
        Expr::Call(callee, _, args) => {
            out.append("(call ");
            append_printed(out, callee);
            let ghost before = out@;
            let mut i: usize = 0;
            while i < args.len()
                invariant
                    i <= args@.len(),
                    *expr matches Expr::Call(_, _, a) && a == args,
                    out@ + printed_each(args@, i as int) == before + printed_each(args@, 0),
                decreases args@.len() - i,
            {
                let ghost start = out@;
                out.append(" ");
                append_printed(out, &args[i]);
                assert(out@ + printed_each(args@, i + 1) =~= start + printed_each(
                    args@,
                    i as int,
                ));
                i = i + 1;
            }
            assert(out@ =~= before + printed_each(args@, 0));
            out.append(")");
            assert(out@ =~= old(out)@ + printed(*expr));
        },
        _ => {},
    }
}

/// Prints an expression.
pub fn print(expr: &Expr) -> (r: String)
    ensures
        r@ == printed(*expr),
{
    let mut out = String::new();
    append_printed(&mut out, expr);
    assert(out@ =~= printed(*expr));
    out
}

} // verus!
