use crate::builtin::{builtin_named, name_of, Builtin};
use crate::error::{Fault, Shape};
use crate::uint::{dec_text, dec_value, is_numeral, le_encode, le_value, lemma_le_encode_value};
use crate::value::{truthy, Val};
use vstd::prelude::*;

verus! {

/// The whole state of an evaluation: the operand stack (top last), the
/// definition table, everything written so far, and the calls still to run
/// (the next one last).
pub struct Machine {
    pub stack: Seq<Val>,
    pub defs: Map<Seq<u8>, Val>,
    pub out: Seq<u8>,
    pub work: Seq<Val>,
}

/// The value `k` places below the top of the stack.
pub open spec fn at_depth(st: Seq<Val>, k: int) -> Val {
    st[st.len() - 1 - k]
}

/// The stack without its top `k` values.
pub open spec fn without_top(st: Seq<Val>, k: int) -> Seq<Val> {
    st.subrange(0, st.len() - k)
}

/// The byte string `k` places below the top, or why there is none.
pub open spec fn bytes_at(st: Seq<Val>, k: int) -> Result<Seq<u8>, Fault> {
    if k >= st.len() {
        Err(Fault::StackUnderflow)
    } else {
        match at_depth(st, k) {
            Val::Bytes(w) => Ok(w),
            Val::List(_) => Err(Fault::TypeError(Shape::Bytes)),
        }
    }
}

/// The list `k` places below the top, or why there is none.
pub open spec fn list_at(st: Seq<Val>, k: int) -> Result<Seq<Val>, Fault> {
    if k >= st.len() {
        Err(Fault::StackUnderflow)
    } else {
        match at_depth(st, k) {
            Val::List(l) => Ok(l),
            Val::Bytes(_) => Err(Fault::TypeError(Shape::List)),
        }
    }
}

pub open spec fn with_stack(m: Machine, st: Seq<Val>) -> Machine {
    Machine { stack: st, ..m }
}

/// The value `1` or `0` as a single byte.
pub open spec fn flag(b: bool) -> Seq<u8> {
    if b {
        seq![1u8]
    } else {
        seq![0u8]
    }
}

/// The number of bytes or of elements of a value.
pub open spec fn val_len(v: Val) -> nat {
    match v {
        Val::Bytes(w) => w.len(),
        Val::List(l) => l.len(),
    }
}

/// The exchange of the top of a stack with the value `k` places below it.
pub open spec fn swapped(st: Seq<Val>, k: int) -> Seq<Val> {
    let i = st.len() - 1;
    let j = st.len() - 1 - k;
    st.update(j, st[i]).update(i, st[j])
}

/// What a binary arithmetic word does, given how it combines its operands.
pub open spec fn binary(m: Machine, b: Builtin) -> (Machine, Result<(), Fault>) {
    let st = m.stack;
    match bytes_at(st, 0) {
        Err(e) => (m, Err(e)),
        Ok(rhs) => match bytes_at(st, 1) {
            Err(e) => (m, Err(e)),
            Ok(lhs) => {
                let a = le_value(lhs);
                let c = le_value(rhs);
                let rest = without_top(st, 2);
                match b {
                    Builtin::Add => (with_stack(m, rest.push(Val::Bytes(le_encode(a + c)))), Ok(())),
                    Builtin::Sub => if a < c {
                        (m, Err(Fault::DomainError))
                    } else {
                        (with_stack(m, rest.push(Val::Bytes(le_encode((a - c) as nat)))), Ok(()))
                    },
                    Builtin::Lt => (with_stack(m, rest.push(Val::Bytes(flag(a < c)))), Ok(())),
                    _ => (with_stack(m, rest.push(Val::Bytes(flag(a > c)))), Ok(())),
                }
            },
        },
    }
}

/// What `.dup` and `.swap` do: both read a depth from the top of the stack.
pub open spec fn by_depth(m: Machine, b: Builtin) -> (Machine, Result<(), Fault>) {
    match bytes_at(m.stack, 0) {
        Err(e) => (m, Err(e)),
        Ok(u) => {
            let k = le_value(u);
            let rest = without_top(m.stack, 1);
            if k > usize::MAX {
                (m, Err(Fault::DomainError))
            } else if k >= rest.len() {
                (m, Err(Fault::StackUnderflow))
            } else if b == Builtin::Dup {
                (with_stack(m, rest.push(at_depth(rest, k as int))), Ok(()))
            } else {
                (with_stack(m, swapped(rest, k as int)), Ok(()))
            }
        },
    }
}

/// What the built-in word `b` does to a machine: the machine after it, and
/// whether it failed. A word that fails leaves the machine as it found it,
/// but for `.error`, which consumes the value it raises.
pub open spec fn builtin_step(m: Machine, b: Builtin) -> (Machine, Result<(), Fault>) {
    let st = m.stack;
    let n = st.len();
    match b {
        Builtin::Error => if n == 0 {
            (m, Err(Fault::StackUnderflow))
        } else {
            (with_stack(m, without_top(st, 1)), Err(Fault::UserError(st.last())))
        },
        Builtin::ExecAll => match list_at(st, 0) {
            Err(e) => (m, Err(e)),
            Ok(l) => (
                Machine { stack: without_top(st, 1), work: m.work + l.reverse(), ..m },
                Ok(()),
            ),
        },
        Builtin::Eval => match list_at(st, 0) {
            Err(e) => (m, Err(e)),
            Ok(l) => (Machine { stack: without_top(st, 1), work: m.work.push(st.last()), ..m }, Ok(())),
        },
        Builtin::IfElse => match bytes_at(st, 2) {
            Err(e) => (m, Err(e)),
            Ok(c) => {
                let k: int = if truthy(c) { 1 } else { 0 };
                match list_at(st, k) {
                    Err(e) => (m, Err(e)),
                    Ok(_) => (
                        Machine {
                            stack: without_top(st, 3),
                            work: m.work.push(at_depth(st, k)),
                            ..m
                        },
                        Ok(()),
                    ),
                }
            },
        },
        Builtin::Push => (m, Ok(())),
        Builtin::Drop => if n == 0 {
            (m, Err(Fault::StackUnderflow))
        } else {
            (with_stack(m, without_top(st, 1)), Ok(()))
        },
        Builtin::Dup => by_depth(m, b),
        Builtin::Swap => by_depth(m, b),
        Builtin::Define => if n == 0 {
            (m, Err(Fault::StackUnderflow))
        } else {
            match bytes_at(st, 1) {
                Err(e) => (m, Err(e)),
                Ok(name) => (
                    Machine { stack: without_top(st, 2), defs: m.defs.insert(name, st.last()), ..m },
                    Ok(()),
                ),
            }
        },
        Builtin::PeekLen => if n == 0 {
            (m, Err(Fault::StackUnderflow))
        } else {
            (with_stack(m, st.push(Val::Bytes(le_encode(val_len(st.last()))))), Ok(()))
        },
        Builtin::Lookup => match bytes_at(st, 0) {
            Err(e) => (m, Err(e)),
            Ok(name) => if m.defs.contains_key(name) {
                (with_stack(m, without_top(st, 1)), Ok(()))
            } else {
                (m, Err(Fault::UnknownWord(name)))
            },
        },
        Builtin::EmptyBytes => (with_stack(m, st.push(Val::Bytes(Seq::empty()))), Ok(())),
        Builtin::Write => match bytes_at(st, 0) {
            Err(e) => (m, Err(e)),
            Ok(w) => (Machine { stack: without_top(st, 1), out: m.out + w, ..m }, Ok(())),
        },
        Builtin::Append => if n == 0 {
            (m, Err(Fault::StackUnderflow))
        } else {
            match list_at(st, 1) {
                Err(e) => (m, Err(e)),
                Ok(l) => (with_stack(m, without_top(st, 2).push(Val::List(l.push(st.last())))), Ok(())),
            }
        },
        Builtin::ParseUint => match bytes_at(st, 0) {
            Err(e) => (m, Err(e)),
            Ok(w) => if is_numeral(w) {
                (with_stack(m, without_top(st, 1).push(Val::Bytes(le_encode(dec_value(w))))), Ok(()))
            } else {
                (m, Err(Fault::DomainError))
            },
        },
        Builtin::PrintUint => match bytes_at(st, 0) {
            Err(e) => (m, Err(e)),
            Ok(w) => (
                Machine { stack: without_top(st, 1), out: m.out + dec_text(le_value(w)).push(10u8), ..m },
                Ok(()),
            ),
        },
        _ => binary(m, b),
    }
}

/// Runs the call `seq`: its head names a definition or a built-in word, and
/// the values after the head are pushed first, in order.
pub open spec fn call_step(m: Machine, seq: Seq<Val>) -> (Machine, Result<(), Fault>) {
    if seq.len() == 0 {
        (m, Err(Fault::TypeError(Shape::Bytes)))
    } else {
        match seq[0] {
            Val::List(_) => (m, Err(Fault::TypeError(Shape::Bytes))),
            Val::Bytes(name) => {
                let m2 = with_stack(m, m.stack + seq.drop_first());
                if m2.defs.contains_key(name) {
                    match m2.defs[name] {
                        Val::List(_) => (Machine { work: m2.work.push(m2.defs[name]), ..m2 }, Ok(())),
                        Val::Bytes(_) => (m2, Err(Fault::TypeError(Shape::List))),
                    }
                } else {
                    match builtin_named(name) {
                        Some(b) => builtin_step(m2, b),
                        None => (m2, Err(Fault::UnknownWord(name))),
                    }
                }
            },
        }
    }
}

/// One step of evaluation: the next pending call is taken off and run.
pub open spec fn step(m: Machine) -> (Machine, Result<(), Fault>)
    recommends
        m.work.len() > 0,
{
    let m1 = Machine { work: m.work.drop_last(), ..m };
    match m.work.last() {
        Val::Bytes(_) => (m1, Err(Fault::TypeError(Shape::List))),
        Val::List(seq) => call_step(m1, seq),
    }
}

/// Evaluation with at most `fuel` steps: the final machine, the steps left,
/// and how it ended. It ends when no call is pending, at the first failure,
/// or when the steps run out with calls still pending.
pub open spec fn run(m: Machine, fuel: nat) -> (Machine, nat, Result<(), Fault>)
    decreases fuel,
{
    if m.work.len() == 0 {
        (m, fuel, Ok(()))
    } else if fuel == 0 {
        (m, 0, Err(Fault::Exhausted))
    } else {
        let (m2, r) = step(m);
        match r {
            Ok(()) => run(m2, (fuel - 1) as nat),
            Err(e) => (m2, (fuel - 1) as nat, Err(e)),
        }
    }
}

/// Calling a word whose definition is a list runs that list: one step later
/// the machine stands exactly where running the list as a call would.
pub proof fn lemma_call_defined_word(m: Machine, name: Seq<u8>, body: Seq<Val>, fuel: nat)
    requires
        m.defs.contains_key(name),
        m.defs[name] == Val::List(body),
    ensures
        run(Machine { work: m.work.push(Val::List(seq![Val::Bytes(name)])), ..m }, fuel + 1)
            == run(Machine { work: m.work.push(Val::List(body)), ..m }, fuel),
{
    let call = seq![Val::Bytes(name)];
    let m0 = Machine { work: m.work.push(Val::List(call)), ..m };
    let m1 = Machine { work: m0.work.drop_last(), ..m0 };
    assert(m0.work.drop_last() =~= m.work);
    assert(call.drop_first() =~= Seq::<Val>::empty());
    assert(m1.stack + call.drop_first() =~= m1.stack);
    assert(step(m0) == (Machine { work: m.work.push(Val::List(body)), ..m }, Ok::<(), Fault>(())));
}

/// After `(.define NAME BODY)`, calling `(NAME)` runs BODY: two steps later
/// the machine stands where running BODY as a call would, with NAME bound.
/// This holds while `.define` itself names the built-in word.
pub proof fn lemma_define_then_call(m: Machine, name: Seq<u8>, body: Seq<Val>, fuel: nat)
    requires
        !m.defs.contains_key(name_of(Builtin::Define)),
    ensures
        run(
            Machine {
                work: m.work.push(Val::List(seq![Val::Bytes(name)])).push(
                    Val::List(seq![Val::Bytes(name_of(Builtin::Define)), Val::Bytes(name), Val::List(body)]),
                ),
                ..m
            },
            fuel + 2,
        ) == run(
            Machine { defs: m.defs.insert(name, Val::List(body)), work: m.work.push(Val::List(body)), ..m },
            fuel,
        ),
{
    let def_call = seq![Val::Bytes(name_of(Builtin::Define)), Val::Bytes(name), Val::List(body)];
    let w1 = m.work.push(Val::List(seq![Val::Bytes(name)]));
    let m0 = Machine { work: w1.push(Val::List(def_call)), ..m };
    assert(builtin_named(name_of(Builtin::Define)) == Some(Builtin::Define)) by {
        let d = name_of(Builtin::Define);
        assert(d.len() == 7);
        assert(name_of(Builtin::Error).len() == 6);
        assert(name_of(Builtin::ExecAll).len() == 3);
        assert(name_of(Builtin::Eval).len() == 1);
        assert(name_of(Builtin::IfElse).len() == 2);
        assert(name_of(Builtin::Push).len() == 5);
        assert(name_of(Builtin::Drop).len() == 5);
        assert(name_of(Builtin::Dup).len() == 4);
        assert(name_of(Builtin::Swap).len() == 5);
    }
    let st = m.stack + def_call.drop_first();
    assert(def_call.drop_first() =~= seq![Val::Bytes(name), Val::List(body)]);
    assert(without_top(st, 2) =~= m.stack);
    assert(m0.work.drop_last() =~= w1);
    let m1 = Machine { defs: m.defs.insert(name, Val::List(body)), work: w1, ..m };
    assert(step(m0) == (m1, Ok::<(), Fault>(())));
    assert(run(m0, fuel + 2) == run(m1, fuel + 1));
    lemma_call_defined_word(Machine { defs: m.defs.insert(name, Val::List(body)), ..m }, name, body, fuel);
}

/// `.dup` with depth `n` on a stack `s` pushes a copy of the value at depth
/// `n`; that value stays where it was, now at depth `n + 1`.
pub proof fn lemma_dup_copies(m: Machine, s: Seq<Val>, u: Seq<u8>)
    requires
        m.stack == s.push(Val::Bytes(u)),
        le_value(u) < s.len(),
        le_value(u) <= usize::MAX,
    ensures
        builtin_step(m, Builtin::Dup) == (with_stack(m, s.push(at_depth(s, le_value(u) as int))), Ok::<(), Fault>(())),
        at_depth(s.push(at_depth(s, le_value(u) as int)), le_value(u) as int + 1) == at_depth(s, le_value(u) as int),
        at_depth(s.push(at_depth(s, le_value(u) as int)), 0) == at_depth(s, le_value(u) as int),
{
    assert(without_top(m.stack, 1) =~= s);
}

/// `.u+`, `.u-`, `.u<` and `.u>` on the encodings of `a` (below) and `b`
/// (on top) push an encoding of `a + b`, of `a - b` when `a >= b`, or the flag
/// of `a < b` or of `a > b`; `.u-` with `a < b` fails with a domain error.
pub proof fn lemma_unsigned_arithmetic(m: Machine, s: Seq<Val>, x: Seq<u8>, y: Seq<u8>)
    requires
        m.stack == s.push(Val::Bytes(x)).push(Val::Bytes(y)),
    ensures
        builtin_step(m, Builtin::Add).1 is Ok,
        builtin_step(m, Builtin::Add).0.stack.drop_last() == s,
        builtin_step(m, Builtin::Add).0.stack.last() matches Val::Bytes(w) && le_value(w) == le_value(x) + le_value(y),
        le_value(x) >= le_value(y) ==> (builtin_step(m, Builtin::Sub).1 is Ok
            && builtin_step(m, Builtin::Sub).0.stack.drop_last() == s
            && (builtin_step(m, Builtin::Sub).0.stack.last() matches Val::Bytes(w)
            && le_value(w) == le_value(x) - le_value(y))),
        le_value(x) < le_value(y) ==> builtin_step(m, Builtin::Sub) == (m, Err::<(), Fault>(Fault::DomainError)),
        builtin_step(m, Builtin::Lt) == (with_stack(m, s.push(Val::Bytes(flag(le_value(x) < le_value(y))))), Ok::<(), Fault>(())),
        builtin_step(m, Builtin::Gt) == (with_stack(m, s.push(Val::Bytes(flag(le_value(x) > le_value(y))))), Ok::<(), Fault>(())),
{
    assert(without_top(m.stack, 2) =~= s);
    lemma_le_encode_value(le_value(x) + le_value(y));
    if le_value(x) >= le_value(y) {
        lemma_le_encode_value((le_value(x) - le_value(y)) as nat);
    }
}

} // verus!
