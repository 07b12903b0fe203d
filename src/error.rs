use crate::bytes::Bytes;
use crate::value::{Expr, Val};
use vstd::prelude::*;

verus! {

/// The two shapes of a value.
#[derive(Clone, Copy, Debug, PartialEq, Eq, Structural)]
pub enum Shape {
    Bytes,
    List,
}

/// Why evaluation stopped.
pub enum VmError {
    /// A head word that is neither defined nor built in.
    UnknownWord(Bytes),
    /// A value of the wrong shape: the one expected is given.
    TypeError(Shape),
    /// The stack is not deep enough for the operation.
    StackUnderflow,
    /// An argument outside the operation's domain.
    DomainError,
    /// A value raised by `.error`.
    UserError(Expr),
    /// The evaluation ran out of its step budget.
    Exhausted,
}

/// The mathematical form of a `VmError`.
pub enum Fault {
    UnknownWord(Seq<u8>),
    TypeError(Shape),
    StackUnderflow,
    DomainError,
    UserError(Val),
    Exhausted,
}

impl View for VmError {
    type V = Fault;

    open spec fn view(&self) -> Fault {
        match *self {
            VmError::UnknownWord(b) => Fault::UnknownWord(b@),
            VmError::TypeError(s) => Fault::TypeError(s),
            VmError::StackUnderflow => Fault::StackUnderflow,
            VmError::DomainError => Fault::DomainError,
            VmError::UserError(e) => Fault::UserError(e@),
            VmError::Exhausted => Fault::Exhausted,
        }
    }
}

} // verus!
