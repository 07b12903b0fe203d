use crate::builtin::{builtin_named, Builtin};
use crate::builtins;
use crate::bytes::{same_bytes, Bytes};
use crate::error::{Fault, Shape, VmError};
use crate::machine::{
    at_depth, builtin_step, bytes_at, list_at, run, step, swapped, with_stack, without_top, Machine,
};
use crate::parser::{print_exprs, print_seq};
use crate::value::{lemma_list_view, vals_of, Expr, ExprRef, Val};
use vstd::prelude::*;

verus! {

/// The definition table as a map; a later entry for a name hides an earlier one.
pub open spec fn table_map(s: Seq<(Bytes, Expr)>) -> Map<Seq<u8>, Val>
    decreases s.len(),
{
    if s.len() == 0 {
        Map::empty()
    } else {
        table_map(s.drop_last()).insert(s.last().0@, s.last().1@)
    }
}

/// The entry at `i` is the last one for `k`, so the table maps `k` to its value.
pub proof fn lemma_table_lookup(s: Seq<(Bytes, Expr)>, k: Seq<u8>, i: int)
    requires
        0 <= i < s.len(),
        s[i].0@ == k,
        forall|j: int| i < j < s.len() ==> (#[trigger] s[j]).0@ != k,
    ensures
        table_map(s).contains_key(k),
        table_map(s)[k] == s[i].1@,
    decreases s.len(),
{
    if i < s.len() - 1 {
        lemma_table_lookup(s.drop_last(), k, i);
        assert(s[s.len() - 1].0@ != k);
    }
}

/// A name with no entry is not in the table.
pub proof fn lemma_table_absent(s: Seq<(Bytes, Expr)>, k: Seq<u8>)
    requires
        forall|j: int| 0 <= j < s.len() ==> (#[trigger] s[j]).0@ != k,
    ensures
        !table_map(s).contains_key(k),
    decreases s.len(),
{
    if s.len() > 0 {
        lemma_table_absent(s.drop_last(), k);
        assert(s[s.len() - 1].0@ != k);
    }
}

/// Overwriting the last entry for a name rebinds that name.
pub proof fn lemma_table_update(s: Seq<(Bytes, Expr)>, i: int, e: (Bytes, Expr))
    requires
        0 <= i < s.len(),
        s[i].0@ == e.0@,
        forall|j: int| i < j < s.len() ==> (#[trigger] s[j]).0@ != e.0@,
    ensures
        table_map(s.update(i, e)) == table_map(s).insert(e.0@, e.1@),
    decreases s.len(),
{
    let t = s.update(i, e);
    if i == s.len() - 1 {
        assert(t.drop_last() =~= s.drop_last());
        assert(table_map(t) =~= table_map(s).insert(e.0@, e.1@));
    } else {
        assert(t.drop_last() =~= s.drop_last().update(i, e));
        lemma_table_update(s.drop_last(), i, e);
        assert(s[s.len() - 1].0@ != e.0@);
        assert(table_map(t) =~= table_map(s).insert(e.0@, e.1@));
    }
}

pub proof fn lemma_vals_push(s: Seq<Expr>, e: Expr)
    ensures
        vals_of(s.push(e)) == vals_of(s).push(e@),
{
    assert(vals_of(s.push(e)) =~= vals_of(s).push(e@));
}

pub proof fn lemma_vals_prefix(s: Seq<Expr>, k: int)
    requires
        0 <= k <= s.len(),
    ensures
        vals_of(s.subrange(0, k)) == vals_of(s).subrange(0, k),
{
    assert(vals_of(s.subrange(0, k)) =~= vals_of(s).subrange(0, k));
}

pub proof fn lemma_vals_concat(s: Seq<Expr>, t: Seq<Expr>)
    ensures
        vals_of(s + t) == vals_of(s) + vals_of(t),
{
    assert(vals_of(s + t) =~= vals_of(s) + vals_of(t));
}

/// How a result reads as a machine outcome.
pub open spec fn outcome(r: Result<(), VmError>) -> Result<(), Fault> {
    match r {
        Ok(()) => Ok(()),
        Err(e) => Err(e@),
    }
}

/// A machine about to run `call` as its only pending call.
pub open spec fn start(m: Machine, call: Seq<Val>) -> Machine {
    Machine { work: seq![Val::List(call)], ..m }
}

/// `after` is what evaluating `call` makes of `before`, with the steps that
/// `before` had left, and `r` says how it ended; no call stays pending.
pub open spec fn evaluates(before: Interpreter, call: Seq<Val>, after: Interpreter, r: Result<(), VmError>) -> bool {
    let (m, f, res) = run(start(before@, call), before.fuel as nat);
    &&& after@ == (Machine { work: Seq::empty(), ..m })
    &&& after.fuel == f
    &&& outcome(r) == res
}

/// An interpreter: an operand stack, a definition table, the output written
/// so far, and a budget of evaluation steps.
pub struct Interpreter {
    /// The definitions, in the order they were first made.
    pub storage: Vec<(Bytes, Expr)>,
    /// The operand stack, top last.
    pub stack: Vec<Expr>,
    /// The calls still to run, the next one last.
    pub work: Vec<Expr>,
    /// Everything written so far.
    pub out: Vec<u8>,
    /// The evaluation steps left.
    pub fuel: u64,
}

impl View for Interpreter {
    type V = Machine;

    open spec fn view(&self) -> Machine {
        Machine {
            stack: vals_of(self.stack@),
            defs: table_map(self.storage@),
            out: self.out@,
            work: vals_of(self.work@),
        }
    }
}

/// `after` is what the built-in word `b` makes of `before`, and `r` says
/// whether it failed; the step budget is untouched.
pub open spec fn performs(before: Interpreter, after: Interpreter, r: Result<(), VmError>, b: Builtin) -> bool {
    &&& (after@, outcome(r)) == builtin_step(before@, b)
    &&& after.fuel == before.fuel
}

impl Interpreter {
    /// A fresh interpreter with an empty stack and table and no output; it
    /// may take as many steps as a `u64` counts.
    pub fn new() -> (r: Interpreter)
        ensures
            r@.stack == Seq::<Val>::empty(),
            r@.defs == Map::<Seq<u8>, Val>::empty(),
            r@.out == Seq::<u8>::empty(),
            r@.work == Seq::<Val>::empty(),
            r.fuel == u64::MAX,
    {
        let r = Interpreter {
            storage: Vec::new(),
            stack: Vec::new(),
            work: Vec::new(),
            out: Vec::new(),
            fuel: u64::MAX,
        };
        assert(vals_of(r.stack@) =~= Seq::<Val>::empty());
        assert(vals_of(r.work@) =~= Seq::<Val>::empty());
        r
    }

    /// A fresh interpreter that may take at most `fuel` evaluation steps.
    pub fn with_fuel(fuel: u64) -> (r: Interpreter)
        ensures
            r@.stack == Seq::<Val>::empty(),
            r@.defs == Map::<Seq<u8>, Val>::empty(),
            r@.out == Seq::<u8>::empty(),
            r@.work == Seq::<Val>::empty(),
            r.fuel == fuel,
    {
        let mut r = Interpreter::new();
        r.fuel = fuel;
        r
    }

    /// The number of evaluation steps left.
    pub fn fuel_left(&self) -> (r: u64)
        ensures
            r == self.fuel,
    {
        self.fuel
    }

    /// The text of the operand stack, deepest value first, values separated
    /// by single spaces.
    pub fn dbg_stack(&self) -> (r: Vec<u8>)
        ensures
            r@ == print_seq(self@.stack),
    {
        print_exprs(self.stack.as_slice())
    }

    /// The operand stack, deepest value first.
    pub fn stack_snapshot(&self) -> (r: &Vec<Expr>)
        ensures
            vals_of(r@) == self@.stack,
    {
        &self.stack
    }

    /// Removes and returns the top value.
    pub fn pop_expr(&mut self) -> (r: Result<Expr, VmError>)
        ensures
            old(self)@.stack.len() == 0 ==> (r matches Err(e) && e@ == Fault::StackUnderflow
                && final(self)@ == old(self)@),
            old(self)@.stack.len() > 0 ==> (r matches Ok(e) && e@ == old(self)@.stack.last()
                && final(self)@ == with_stack(old(self)@, without_top(old(self)@.stack, 1))),
            final(self).fuel == old(self).fuel,
    {
        let ghost s = self.stack@;
        match self.stack.pop() {
            Some(e) => {
                proof {
                    lemma_vals_prefix(s, s.len() - 1);
                }
                Ok(e)
            },
            None => Err(VmError::StackUnderflow),
        }
    }

    /// The value `back` places below the top.
    pub fn peek_expr(&self, back: usize) -> (r: Result<ExprRef<'_>, VmError>)
        ensures
            back < self@.stack.len() ==> (r matches Ok(e) && e@ == at_depth(self@.stack, back as int)),
            back >= self@.stack.len() ==> (r matches Err(e) && e@ == Fault::StackUnderflow),
    {
        if back >= self.stack.len() {
            return Err(VmError::StackUnderflow);
        }
        Ok(self.stack[self.stack.len() - 1 - back].as_ref())
    }

    /// The byte string `back` places below the top.
    pub fn peek_bytes(&self, back: usize) -> (r: Result<&[u8], VmError>)
        ensures
            bytes_at(self@.stack, back as int) matches Ok(w) ==> (r matches Ok(s) && s@ == w),
            bytes_at(self@.stack, back as int) matches Err(f) ==> (r matches Err(e) && e@ == f),
    {
        if back >= self.stack.len() {
            return Err(VmError::StackUnderflow);
        }
        match &self.stack[self.stack.len() - 1 - back] {
            Expr::Bytes(b) => Ok(b.as_slice()),
            Expr::List(_) => Err(VmError::TypeError(Shape::Bytes)),
        }
    }

    /// Whether the value `back` places below the top is a list: the error
    /// that `list_at` gives when it is not.
    pub fn check_list(&self, back: usize) -> (r: Result<(), VmError>)
        ensures
            list_at(self@.stack, back as int) is Ok ==> r is Ok,
            list_at(self@.stack, back as int) matches Err(f) ==> (r matches Err(e) && e@ == f),
    {
        if back >= self.stack.len() {
            return Err(VmError::StackUnderflow);
        }
        match &self.stack[self.stack.len() - 1 - back] {
            Expr::List(_) => Ok(()),
            Expr::Bytes(_) => Err(VmError::TypeError(Shape::List)),
        }
    }

    /// Discards the top `k` values.
    pub fn drop_top(&mut self, k: usize)
        requires
            k <= old(self)@.stack.len(),
        ensures
            final(self)@ == with_stack(old(self)@, without_top(old(self)@.stack, k as int)),
            final(self).fuel == old(self).fuel,
    {
        let ghost s = self.stack@;
        self.stack.truncate(self.stack.len() - k);
        proof {
            lemma_vals_prefix(s, s.len() - k);
        }
    }

    /// Pushes a value.
    pub fn push_expr(&mut self, e: Expr)
        ensures
            final(self)@ == with_stack(old(self)@, old(self)@.stack.push(e@)),
            final(self).fuel == old(self).fuel,
    {
        let ghost s = self.stack@;
        self.stack.push(e);
        proof {
            lemma_vals_push(s, e);
        }
    }

    /// Exchanges the top with the value `back` places below it.
    pub fn swap_top_with(&mut self, back: usize) -> (r: Result<(), VmError>)
        ensures
            back < old(self)@.stack.len() ==> (r is Ok && final(self)@ == with_stack(
                old(self)@,
                swapped(old(self)@.stack, back as int),
            )),
            back >= old(self)@.stack.len() ==> (r matches Err(e) && e@ == Fault::StackUnderflow
                && final(self)@ == old(self)@),
            final(self).fuel == old(self).fuel,
    {
        let len = self.stack.len();
        if back >= len {
            return Err(VmError::StackUnderflow);
        }
        let ghost s = self.stack@;
        if back > 0 {
            let j = len - 1 - back;
            let top = self.stack.pop().unwrap();
            let other = self.stack.remove(j);
            self.stack.insert(j, top);
            self.stack.push(other);
            assert(self.stack@ =~= s.update(j as int, s[len - 1]).update(len - 1, s[j as int]));
        } else {
            assert(s =~= s.update(len - 1, s[len - 1]).update(len - 1, s[len - 1]));
        }
        assert(vals_of(self.stack@) =~= swapped(vals_of(s), back as int));
        Ok(())
    }

    /// The index of the entry that binds `name`, if any.
    pub fn find_definition(&self, name: &[u8]) -> (r: Option<usize>)
        ensures
            r matches Some(i) ==> i < self.storage@.len() && self.storage@[i as int].0@ == name@
                && forall|j: int| i < j < self.storage@.len() ==> (#[trigger] self.storage@[j]).0@ != name@,
            r is None ==> forall|j: int| 0 <= j < self.storage@.len() ==> (#[trigger] self.storage@[j]).0@ != name@,
    {
        let mut i: usize = self.storage.len();
        while i > 0
            invariant
                i <= self.storage@.len(),
                forall|j: int| i <= j < self.storage@.len() ==> (#[trigger] self.storage@[j]).0@ != name@,
            decreases i,
        {
            i -= 1;
            if same_bytes(self.storage[i].0.as_slice(), name) {
                return Some(i);
            }
        }
        None
    }

    /// Binds `name` to `value`, replacing any earlier binding.
    pub fn set_definition(&mut self, name: Bytes, value: Expr)
        ensures
            final(self)@ == (Machine { defs: old(self)@.defs.insert(name@, value@), ..old(self)@ }),
            final(self).fuel == old(self).fuel,
    {
        let ghost s = self.storage@;
        match self.find_definition(name.as_slice()) {
            Some(i) => {
                proof {
                    lemma_table_update(s, i as int, (name, value));
                }
                self.storage[i] = (name, value);
                assert(self.storage@ == s.update(i as int, (name, value)));
            },
            None => {
                self.storage.push((name, value));
                assert(self.storage@.drop_last() == s);
            },
        }
    }

    /// Runs the built-in word called `name`; an unknown word is an error
    /// that changes nothing.
    pub fn call_builtin(&mut self, name: &[u8]) -> (r: Result<(), VmError>)
        ensures
            builtin_named(name@) matches Some(b) ==> performs(*old(self), *final(self), r, b),
            builtin_named(name@) is None ==> (r matches Err(e) && e@ == Fault::UnknownWord(name@)
                && *final(self) == *old(self)),
    {
        match Builtin::lookup(name) {
            Some(Builtin::Error) => builtins::error(self),
            Some(Builtin::ExecAll) => builtins::exec_all(self),
            Some(Builtin::Eval) => builtins::eval(self),
            Some(Builtin::IfElse) => builtins::if_else(self),
            Some(Builtin::Push) => builtins::push(self),
            Some(Builtin::Drop) => builtins::drop(self),
            Some(Builtin::Dup) => builtins::dup(self),
            Some(Builtin::Swap) => builtins::swap(self),
            Some(Builtin::Define) => builtins::define(self),
            Some(Builtin::PeekLen) => builtins::length(self),
            Some(Builtin::Lookup) => builtins::dedef(self),
            Some(Builtin::EmptyBytes) => builtins::empty_bytes(self),
            Some(Builtin::Write) => builtins::write(self),
            Some(Builtin::Append) => builtins::append(self),
            Some(Builtin::Add) => builtins::plus_unsigned(self),
            Some(Builtin::Sub) => builtins::minus_unsigned(self),
            Some(Builtin::Gt) => builtins::gt_unsigned(self),
            Some(Builtin::Lt) => builtins::lt_unsigned(self),
            Some(Builtin::ParseUint) => builtins::parse_unsigned(self),
            Some(Builtin::PrintUint) => builtins::print_unsigned(self),
            None => Err(VmError::UnknownWord(Bytes::from_slice(name))),
        }
    }

    /// Takes the next pending call off and runs it.
    fn step(&mut self) -> (r: Result<(), VmError>)
        requires
            old(self)@.work.len() > 0,
        ensures
            (final(self)@, outcome(r)) == step(old(self)@),
            final(self).fuel == old(self).fuel,
    {
        let ghost w = self.work@;
        let c = self.work.pop().unwrap();
        proof {
            lemma_vals_prefix(w, w.len() - 1);
        }
        let mut call = match c {
            Expr::List(l) => l,
            Expr::Bytes(_) => return Err(VmError::TypeError(Shape::List)),
        };
        proof {
            lemma_list_view(call);
        }
        if call.len() == 0 {
            return Err(VmError::TypeError(Shape::Bytes));
        }
        let ghost args = call@;
        let head = call.remove(0);
        assert(vals_of(call@) =~= vals_of(args).drop_first());
        let name = match head {
            Expr::Bytes(b) => b,
            Expr::List(_) => return Err(VmError::TypeError(Shape::Bytes)),
        };
        let ghost st = self.stack@;
        self.stack.append(&mut call);
        proof {
            lemma_vals_concat(st, args.drop_first());
            assert(args.drop_first() =~= args.subrange(1, args.len() as int));
        }
        match self.find_definition(name.as_slice()) {
            Some(i) => {
                proof {
                    lemma_table_lookup(self.storage@, name@, i as int);
                }
                match &self.storage[i].1 {
                    Expr::List(_) => {
                        let body = self.storage[i].1.deep_copy();
                        let ghost before = self.work@;
                        self.work.push(body);
                        proof {
                            lemma_vals_push(before, body);
                        }
                        Ok(())
                    },
                    Expr::Bytes(_) => Err(VmError::TypeError(Shape::List)),
                }
            },
            None => {
                proof {
                    lemma_table_absent(self.storage@, name@);
                }
                self.call_builtin(name.as_slice())
            },
        }
    }

    /// Evaluates `exprs` as one call: its head names a definition or a
    /// built-in word, and the values after it are pushed first. Evaluation
    /// goes on until no call is pending, the first failure, or the step
    /// budget runs out.
    pub fn eval(&mut self, exprs: Vec<Expr>) -> (r: Result<(), VmError>)
        ensures
            evaluates(*old(self), vals_of(exprs@), *final(self), r),
    {
        let ghost call = vals_of(exprs@);
        let mut work: Vec<Expr> = Vec::new();
        let e = Expr::List(exprs);
        proof {
            lemma_list_view(exprs);
        }
        work.push(e);
        self.work = work;
        assert(vals_of(self.work@) =~= seq![Val::List(call)]);
        assert(self@ == start(old(self)@, call));
        let ghost target = run(start(old(self)@, call), old(self).fuel as nat);
        loop
            invariant
                run(self@, self.fuel as nat) == target,
                target == run(start(old(self)@, call), old(self).fuel as nat),
                call == vals_of(exprs@),
            decreases self.fuel,
        {
            let ghost m = self@;
            if self.work.len() == 0 {
                assert(m.work =~= Seq::<Val>::empty());
                assert(m == (Machine { work: Seq::empty(), ..m }));
                return Ok(());
            }
            if self.fuel == 0 {
                self.work.clear();
                assert(vals_of(self.work@) =~= Seq::<Val>::empty());
                assert(self@ == (Machine { work: Seq::empty(), ..m }));
                return Err(VmError::Exhausted);
            }
            let ghost f = self.fuel as nat;
            self.fuel = self.fuel - 1;
            match self.step() {
                Ok(()) => {
                    assert(run(m, f) == run(step(m).0, (f - 1) as nat));
                },
                Err(e) => {
                    let ghost m2 = self@;
                    self.work.clear();
                    assert(vals_of(self.work@) =~= Seq::<Val>::empty());
                    assert(self@ == (Machine { work: Seq::empty(), ..m2 }));
                    assert(run(m, f) == (m2, (f - 1) as nat, Err::<(), Fault>(e@)));
                    return Err(e);
                },
            }
        }
    }

    /// Takes the output written so far, leaving none.
    pub fn take_output(&mut self) -> (r: Vec<u8>)
        ensures
            r@ == old(self)@.out,
            final(self)@ == (Machine { out: Seq::empty(), ..old(self)@ }),
            final(self).fuel == old(self).fuel,
    {
        let mut r: Vec<u8> = Vec::new();
        std::mem::swap(&mut r, &mut self.out);
        r
    }
}

} // verus!
