use crate::builtin::Builtin;
use crate::bytes::Bytes;
use crate::error::{Fault, Shape, VmError};
use crate::interp::{
    lemma_table_absent, lemma_table_lookup, lemma_vals_push, performs, Interpreter,
};
use crate::machine::{at_depth, bytes_at, flag, without_top, with_stack};
use crate::uint::{add_le, encode_len, lt_le, parse_decimal, sub_le, to_decimal, to_index};
use crate::value::{is_truthy, lemma_list_view, vals_of, Expr, ExprRef, Val};
use vstd::prelude::*;

verus! {

/// `.define`: binds the name below the top to the value on top.
pub fn define(interp: &mut Interpreter) -> (r: Result<(), VmError>)
    ensures
        performs(*old(interp), *final(interp), r, Builtin::Define),
{
    if interp.stack.len() == 0 {
        return Err(VmError::StackUnderflow);
    }
    if let Err(e) = interp.peek_bytes(1) {
        return Err(e);
    }
    let ghost st = interp@.stack;
    let definition = interp.pop_expr();
    let name = interp.pop_expr();
    match (name, definition) {
        (Ok(Expr::Bytes(w)), Ok(d)) => {
            assert(without_top(without_top(st, 1), 1) =~= without_top(st, 2));
            interp.set_definition(w, d);
            Ok(())
        },
        _ => Err(VmError::StackUnderflow),
    }
}

/// `.@`: checks that the name on top is defined, and consumes it.
pub fn dedef(interp: &mut Interpreter) -> (r: Result<(), VmError>)
    ensures
        performs(*old(interp), *final(interp), r, Builtin::Lookup),
{
    let found = match interp.peek_bytes(0) {
        Err(e) => return Err(e),
        Ok(w) => match interp.find_definition(w) {
            Some(i) => {
                proof {
                    lemma_table_lookup(interp.storage@, w@, i as int);
                }
                Ok(())
            },
            None => {
                proof {
                    lemma_table_absent(interp.storage@, w@);
                }
                Err(VmError::UnknownWord(Bytes::from_slice(w)))
            },
        },
    };
    if found.is_ok() {
        interp.drop_top(1);
    }
    found
}

/// `.error`: consumes the top value and fails with it.
pub fn error(interp: &mut Interpreter) -> (r: Result<(), VmError>)
    ensures
        performs(*old(interp), *final(interp), r, Builtin::Error),
{
    match interp.pop_expr() {
        Ok(e) => Err(VmError::UserError(e)),
        Err(e) => Err(e),
    }
}

/// `.|>`: schedules each call of the list on top, the first to run next.
pub fn exec_all(interp: &mut Interpreter) -> (r: Result<(), VmError>)
    ensures
        performs(*old(interp), *final(interp), r, Builtin::ExecAll),
{
    if let Err(e) = interp.check_list(0) {
        return Err(e);
    }
    let mut list = match interp.pop_expr() {
        Ok(Expr::List(l)) => l,
        _ => return Err(VmError::TypeError(Shape::List)),
    };
    proof {
        lemma_list_view(list);
    }
    let ghost l0 = list@;
    let ghost w0 = vals_of(interp.work@);
    let ghost n = l0.len();
    let ghost mid = *interp;
    while list.len() > 0
        invariant
            interp.stack@ == mid.stack@,
            interp.storage@ == mid.storage@,
            interp.out@ == mid.out@,
            interp.fuel == mid.fuel,
            list@ == l0.subrange(0, list@.len() as int),
            list@.len() <= n,
            n == l0.len(),
            vals_of(interp.work@) == w0 + vals_of(l0).subrange(list@.len() as int, n as int).reverse(),
        decreases list@.len(),
    {
        let ghost k = list@.len() as int;
        let ghost before = interp.work@;
        let x = list.pop().unwrap();
        interp.work.push(x);
        proof {
            lemma_vals_push(before, x);
            let vl = vals_of(l0);
            assert(vl.subrange(k - 1, n as int).reverse() =~= vl.subrange(k, n as int).reverse().push(vl[k - 1]));
            assert(list@ =~= l0.subrange(0, k - 1));
        }
    }
    proof {
        assert(vals_of(l0).subrange(0, n as int) =~= vals_of(l0));
    }
    Ok(())
}

/// `.`: schedules the list on top as the next call.
pub fn eval(interp: &mut Interpreter) -> (r: Result<(), VmError>)
    ensures
        performs(*old(interp), *final(interp), r, Builtin::Eval),
{
    if let Err(e) = interp.check_list(0) {
        return Err(e);
    }
    match interp.pop_expr() {
        Ok(e) => {
            let ghost before = interp.work@;
            interp.work.push(e);
            proof {
                lemma_vals_push(before, e);
            }
            Ok(())
        },
        Err(e) => Err(e),
    }
}

/// `.push`: does nothing; the arguments of the call were pushed already.
pub fn push(interp: &mut Interpreter) -> (r: Result<(), VmError>)
    ensures
        performs(*old(interp), *final(interp), r, Builtin::Push),
{
    Ok(())
}

/// `.drop`: discards the top value.
pub fn drop(interp: &mut Interpreter) -> (r: Result<(), VmError>)
    ensures
        performs(*old(interp), *final(interp), r, Builtin::Drop),
{
    match interp.pop_expr() {
        Ok(_) => Ok(()),
        Err(e) => Err(e),
    }
}

/// `.swap`: exchanges the top with the value at the depth read from the top.
pub fn swap(interp: &mut Interpreter) -> (r: Result<(), VmError>)
    ensures
        performs(*old(interp), *final(interp), r, Builtin::Swap),
{
    let back = match interp.peek_bytes(0) {
        Err(e) => return Err(e),
        Ok(w) => match to_index(w) {
            None => return Err(VmError::DomainError),
            Some(k) => k,
        },
    };
    if back >= interp.stack.len() - 1 {
        return Err(VmError::StackUnderflow);
    }
    interp.drop_top(1);
    interp.swap_top_with(back)
}

/// `.dup`: pushes a copy of the value at the depth read from the top.
pub fn dup(interp: &mut Interpreter) -> (r: Result<(), VmError>)
    ensures
        performs(*old(interp), *final(interp), r, Builtin::Dup),
{
    let back = match interp.peek_bytes(0) {
        Err(e) => return Err(e),
        Ok(w) => match to_index(w) {
            None => return Err(VmError::DomainError),
            Some(k) => k,
        },
    };
    if back >= interp.stack.len() - 1 {
        return Err(VmError::StackUnderflow);
    }
    let ghost st = interp@.stack;
    let copy = match interp.peek_expr(back + 1) {
        Ok(e) => e.to_owned(),
        Err(e) => return Err(e),
    };
    interp.drop_top(1);
    assert(at_depth(without_top(st, 1), back as int) == at_depth(st, back + 1));
    interp.push_expr(copy);
    Ok(())
}

/// `.peek-len`: pushes the length of the top value, which stays: the byte
/// count of a byte string or the element count of a list, encoded like the
/// results of the unsigned words (little-endian, shortest form).
pub fn length(interp: &mut Interpreter) -> (r: Result<(), VmError>)
    ensures
        performs(*old(interp), *final(interp), r, Builtin::PeekLen),
{
    let len = match interp.peek_expr(0) {
        Err(e) => return Err(e),
        Ok(ExprRef::Bytes(w)) => w.len(),
        Ok(ExprRef::List(l)) => l.len(),
    };
    interp.push_expr(Expr::Bytes(Bytes::from_vec(encode_len(len))));
    Ok(())
}

/// `.?`: below the top lie a condition, then a list to run when it is
/// true, then, on top, a list to run when it is false. All three are
/// consumed and the chosen list is scheduled as the next call.
pub fn if_else(interp: &mut Interpreter) -> (r: Result<(), VmError>)
    ensures
        performs(*old(interp), *final(interp), r, Builtin::IfElse),
{
    let cond = match interp.peek_bytes(2) {
        Err(e) => return Err(e),
        Ok(w) => is_truthy(w),
    };
    let k: usize = if cond { 1 } else { 0 };
    if let Err(e) = interp.check_list(k) {
        return Err(e);
    }
    let ghost st = interp@.stack;
    let else_branch = interp.pop_expr();
    let then_branch = interp.pop_expr();
    let _ = interp.pop_expr();
    assert(without_top(without_top(without_top(st, 1), 1), 1) =~= without_top(st, 3));
    let chosen = match (then_branch, else_branch) {
        (Ok(t), Ok(e)) => if cond { t } else { e },
        _ => return Err(VmError::StackUnderflow),
    };
    let ghost before = interp.work@;
    interp.work.push(chosen);
    proof {
        lemma_vals_push(before, chosen);
    }
    Ok(())
}

/// `.empty-bytes`: pushes the empty byte string.
pub fn empty_bytes(interp: &mut Interpreter) -> (r: Result<(), VmError>)
    ensures
        performs(*old(interp), *final(interp), r, Builtin::EmptyBytes),
{
    interp.push_expr(Expr::Bytes(Bytes::new()));
    Ok(())
}

/// `.write`: adds the byte string on top to the output.
pub fn write(interp: &mut Interpreter) -> (r: Result<(), VmError>)
    ensures
        performs(*old(interp), *final(interp), r, Builtin::Write),
{
    if let Err(e) = interp.peek_bytes(0) {
        return Err(e);
    }
    match interp.pop_expr() {
        Ok(Expr::Bytes(w)) => {
            let mut v = w.to_vec();
            interp.out.append(&mut v);
            Ok(())
        },
        _ => Err(VmError::StackUnderflow),
    }
}

/// The two byte strings on top of the stack, the deeper one first; both stay.
fn operands(interp: &Interpreter) -> (r: Result<(&[u8], &[u8]), VmError>)
    ensures
        r matches Ok((lhs, rhs)) ==> (bytes_at(interp@.stack, 0) == Ok::<Seq<u8>, Fault>(rhs@)
            && bytes_at(interp@.stack, 1) == Ok::<Seq<u8>, Fault>(lhs@)),
        r matches Err(e) ==> (bytes_at(interp@.stack, 0) == Err::<Seq<u8>, Fault>(e@)
            || (bytes_at(interp@.stack, 0) is Ok && bytes_at(interp@.stack, 1) == Err::<Seq<u8>, Fault>(e@))),
{
    let rhs = match interp.peek_bytes(0) {
        Err(e) => return Err(e),
        Ok(w) => w,
    };
    let lhs = match interp.peek_bytes(1) {
        Err(e) => return Err(e),
        Ok(w) => w,
    };
    Ok((lhs, rhs))
}

/// Replaces the top two values by the byte string `v`.
fn replace_operands(interp: &mut Interpreter, v: Vec<u8>)
    requires
        old(interp)@.stack.len() >= 2,
    ensures
        final(interp)@ == with_stack(old(interp)@, without_top(old(interp)@.stack, 2).push(Val::Bytes(v@))),
        final(interp).fuel == old(interp).fuel,
{
    interp.drop_top(2);
    interp.push_expr(Expr::Bytes(Bytes::from_vec(v)));
}

/// `.u+`: replaces two unsigned integers by their sum.
pub fn plus_unsigned(interp: &mut Interpreter) -> (r: Result<(), VmError>)
    ensures
        performs(*old(interp), *final(interp), r, Builtin::Add),
{
    let v = match operands(interp) {
        Err(e) => return Err(e),
        Ok((lhs, rhs)) => add_le(lhs, rhs),
    };
    replace_operands(interp, v);
    Ok(())
}

/// `.u-`: replaces two unsigned integers by their difference; a domain
/// error when the top one is the larger.
pub fn minus_unsigned(interp: &mut Interpreter) -> (r: Result<(), VmError>)
    ensures
        performs(*old(interp), *final(interp), r, Builtin::Sub),
{
    let v = match operands(interp) {
        Err(e) => return Err(e),
        Ok((lhs, rhs)) => match sub_le(lhs, rhs) {
            None => return Err(VmError::DomainError),
            Some(v) => v,
        },
    };
    replace_operands(interp, v);
    Ok(())
}

/// `.u<`: replaces two unsigned integers by `1` when the deeper one is the
/// smaller, else by `0`.
pub fn lt_unsigned(interp: &mut Interpreter) -> (r: Result<(), VmError>)
    ensures
        performs(*old(interp), *final(interp), r, Builtin::Lt),
{
    let b = match operands(interp) {
        Err(e) => return Err(e),
        Ok((lhs, rhs)) => lt_le(lhs, rhs),
    };
    let v: Vec<u8> = if b { vec![1u8] } else { vec![0u8] };
    assert(v@ =~= flag(b));
    replace_operands(interp, v);
    Ok(())
}

/// `.u>`: replaces two unsigned integers by `1` when the deeper one is the
/// larger, else by `0`.
pub fn gt_unsigned(interp: &mut Interpreter) -> (r: Result<(), VmError>)
    ensures
        performs(*old(interp), *final(interp), r, Builtin::Gt),
{
    let b = match operands(interp) {
        Err(e) => return Err(e),
        Ok((lhs, rhs)) => lt_le(rhs, lhs),
    };
    let v: Vec<u8> = if b { vec![1u8] } else { vec![0u8] };
    assert(v@ =~= flag(b));
    replace_operands(interp, v);
    Ok(())
}

/// `.append`: adds the value on top at the end of the list below it.
pub fn append(interp: &mut Interpreter) -> (r: Result<(), VmError>)
    ensures
        performs(*old(interp), *final(interp), r, Builtin::Append),
{
    if interp.stack.len() == 0 {
        return Err(VmError::StackUnderflow);
    }
    if let Err(e) = interp.check_list(1) {
        return Err(e);
    }
    let ghost st = interp@.stack;
    let to_append = interp.pop_expr();
    let list = interp.pop_expr();
    assert(without_top(without_top(st, 1), 1) =~= without_top(st, 2));
    match (list, to_append) {
        (Ok(Expr::List(mut l)), Ok(x)) => {
            proof {
                lemma_list_view(l);
            }
            let ghost l0 = l@;
            l.push(x);
            proof {
                lemma_vals_push(l0, x);
                lemma_list_view(l);
            }
            interp.push_expr(Expr::List(l));
            Ok(())
        },
        _ => Err(VmError::StackUnderflow),
    }
}

/// `.u`: replaces a decimal numeral by the unsigned integer it denotes; a
/// domain error for an empty string or a byte that is not a digit.
pub fn parse_unsigned(interp: &mut Interpreter) -> (r: Result<(), VmError>)
    ensures
        performs(*old(interp), *final(interp), r, Builtin::ParseUint),
{
    let v = match interp.peek_bytes(0) {
        Err(e) => return Err(e),
        Ok(w) => match parse_decimal(w) {
            None => return Err(VmError::DomainError),
            Some(v) => v,
        },
    };
    interp.drop_top(1);
    interp.push_expr(Expr::Bytes(Bytes::from_vec(v)));
    Ok(())
}

/// `.u-print`: consumes an unsigned integer and writes it in decimal,
/// followed by a newline.
pub fn print_unsigned(interp: &mut Interpreter) -> (r: Result<(), VmError>)
    ensures
        performs(*old(interp), *final(interp), r, Builtin::PrintUint),
{
    let mut text = match interp.peek_bytes(0) {
        Err(e) => return Err(e),
        Ok(w) => to_decimal(w),
    };
    interp.drop_top(1);
    text.push(10u8);
    interp.out.append(&mut text);
    Ok(())
}

} // verus!
