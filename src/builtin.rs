use crate::bytes::same_bytes;
use vstd::prelude::*;

verus! {

/// The built-in words.
#[derive(Clone, Copy, Debug, PartialEq, Eq, Structural)]
pub enum Builtin {
    /// `.error`: raise the top value as an error.
    Error,
    /// `.|>`: run each call of a list, in order.
    ExecAll,
    /// `.`: run a list as one call.
    Eval,
    /// `.?`: run one of two lists, chosen by a condition.
    IfElse,
    /// `.push`: nothing beyond pushing its arguments.
    Push,
    /// `.drop`: discard the top value.
    Drop,
    /// `.dup`: copy the value at a depth onto the top.
    Dup,
    /// `.swap`: exchange the top with the value at a depth.
    Swap,
    /// `.define`: bind a name to a value.
    Define,
    /// `.peek-len`: push the length of the top value.
    PeekLen,
    /// `.@`: check that a name is defined.
    Lookup,
    /// `.empty-bytes`: push the empty byte string.
    EmptyBytes,
    /// `.write`: send a byte string to the output.
    Write,
    /// `.append`: add a value at the end of a list.
    Append,
    /// `.u+`: unsigned addition.
    Add,
    /// `.u-`: unsigned subtraction.
    Sub,
    /// `.u>`: unsigned greater-than.
    Gt,
    /// `.u<`: unsigned less-than.
    Lt,
    /// `.u`: read a decimal numeral.
    ParseUint,
    /// `.u-print`: write an unsigned integer in decimal.
    PrintUint,
}

/// The reserved name of a built-in word, as ASCII bytes.
pub open spec fn name_of(b: Builtin) -> Seq<u8> {
    match b {
        Builtin::Error => seq![46u8, 101, 114, 114, 111, 114],
        Builtin::ExecAll => seq![46u8, 124, 62],
        Builtin::Eval => seq![46u8],
        Builtin::IfElse => seq![46u8, 63],
        Builtin::Push => seq![46u8, 112, 117, 115, 104],
        Builtin::Drop => seq![46u8, 100, 114, 111, 112],
        Builtin::Dup => seq![46u8, 100, 117, 112],
        Builtin::Swap => seq![46u8, 115, 119, 97, 112],
        Builtin::Define => seq![46u8, 100, 101, 102, 105, 110, 101],
        Builtin::PeekLen => seq![46u8, 112, 101, 101, 107, 45, 108, 101, 110],
        Builtin::Lookup => seq![46u8, 64],
        Builtin::EmptyBytes => seq![46u8, 101, 109, 112, 116, 121, 45, 98, 121, 116, 101, 115],
        Builtin::Write => seq![46u8, 119, 114, 105, 116, 101],
        Builtin::Append => seq![46u8, 97, 112, 112, 101, 110, 100],
        Builtin::Add => seq![46u8, 117, 43],
        Builtin::Sub => seq![46u8, 117, 45],
        Builtin::Gt => seq![46u8, 117, 62],
        Builtin::Lt => seq![46u8, 117, 60],
        Builtin::ParseUint => seq![46u8, 117],
        Builtin::PrintUint => seq![46u8, 117, 45, 112, 114, 105, 110, 116],
    }
}

/// The built-in word with the given name, if any.
pub open spec fn builtin_named(s: Seq<u8>) -> Option<Builtin> {
    if s == name_of(Builtin::Error) {
        Some(Builtin::Error)
    } else if s == name_of(Builtin::ExecAll) {
        Some(Builtin::ExecAll)
    } else if s == name_of(Builtin::Eval) {
        Some(Builtin::Eval)
    } else if s == name_of(Builtin::IfElse) {
        Some(Builtin::IfElse)
    } else if s == name_of(Builtin::Push) {
        Some(Builtin::Push)
    } else if s == name_of(Builtin::Drop) {
        Some(Builtin::Drop)
    } else if s == name_of(Builtin::Dup) {
        Some(Builtin::Dup)
    } else if s == name_of(Builtin::Swap) {
        Some(Builtin::Swap)
    } else if s == name_of(Builtin::Define) {
        Some(Builtin::Define)
    } else if s == name_of(Builtin::PeekLen) {
        Some(Builtin::PeekLen)
    } else if s == name_of(Builtin::Lookup) {
        Some(Builtin::Lookup)
    } else if s == name_of(Builtin::EmptyBytes) {
        Some(Builtin::EmptyBytes)
    } else if s == name_of(Builtin::Write) {
        Some(Builtin::Write)
    } else if s == name_of(Builtin::Append) {
        Some(Builtin::Append)
    } else if s == name_of(Builtin::Add) {
        Some(Builtin::Add)
    } else if s == name_of(Builtin::Sub) {
        Some(Builtin::Sub)
    } else if s == name_of(Builtin::Gt) {
        Some(Builtin::Gt)
    } else if s == name_of(Builtin::Lt) {
        Some(Builtin::Lt)
    } else if s == name_of(Builtin::ParseUint) {
        Some(Builtin::ParseUint)
    } else if s == name_of(Builtin::PrintUint) {
        Some(Builtin::PrintUint)
    } else {
        None
    }
}

/// Whether `name` is the reserved name of `b`.
fn is_named(name: &[u8], b: Builtin) -> (r: bool)
    ensures
        r == (name@ == name_of(b)),
{
    match b {
        Builtin::Error => {
            let w: [u8; 6] = [46, 101, 114, 114, 111, 114];
            proof {
                assert(w@ =~= name_of(b));
            }
            same_bytes(name, &w)
        },
        Builtin::ExecAll => {
            let w: [u8; 3] = [46, 124, 62];
            proof {
                assert(w@ =~= name_of(b));
            }
            same_bytes(name, &w)
        },
        Builtin::Eval => {
            let w: [u8; 1] = [46];
            proof {
                assert(w@ =~= name_of(b));
            }
            same_bytes(name, &w)
        },
        Builtin::IfElse => {
            let w: [u8; 2] = [46, 63];
            proof {
                assert(w@ =~= name_of(b));
            }
            same_bytes(name, &w)
        },
        Builtin::Push => {
            let w: [u8; 5] = [46, 112, 117, 115, 104];
            proof {
                assert(w@ =~= name_of(b));
            }
            same_bytes(name, &w)
        },
        Builtin::Drop => {
            let w: [u8; 5] = [46, 100, 114, 111, 112];
            proof {
                assert(w@ =~= name_of(b));
            }
            same_bytes(name, &w)
        },
        Builtin::Dup => {
            let w: [u8; 4] = [46, 100, 117, 112];
            proof {
                assert(w@ =~= name_of(b));
            }
            same_bytes(name, &w)
        },
        Builtin::Swap => {
            let w: [u8; 5] = [46, 115, 119, 97, 112];
            proof {
                assert(w@ =~= name_of(b));
            }
            same_bytes(name, &w)
        },
        Builtin::Define => {
            let w: [u8; 7] = [46, 100, 101, 102, 105, 110, 101];
            proof {
                assert(w@ =~= name_of(b));
            }
            same_bytes(name, &w)
        },
        Builtin::PeekLen => {
            let w: [u8; 9] = [46, 112, 101, 101, 107, 45, 108, 101, 110];
            proof {
                assert(w@ =~= name_of(b));
            }
            same_bytes(name, &w)
        },
        Builtin::Lookup => {
            let w: [u8; 2] = [46, 64];
            proof {
                assert(w@ =~= name_of(b));
            }
            same_bytes(name, &w)
        },
        Builtin::EmptyBytes => {
            let w: [u8; 12] = [46, 101, 109, 112, 116, 121, 45, 98, 121, 116, 101, 115];
            proof {
                assert(w@ =~= name_of(b));
            }
            same_bytes(name, &w)
        },
        Builtin::Write => {
            let w: [u8; 6] = [46, 119, 114, 105, 116, 101];
            proof {
                assert(w@ =~= name_of(b));
            }
            same_bytes(name, &w)
        },
        Builtin::Append => {
            let w: [u8; 7] = [46, 97, 112, 112, 101, 110, 100];
            proof {
                assert(w@ =~= name_of(b));
            }
            same_bytes(name, &w)
        },
        Builtin::Add => {
            let w: [u8; 3] = [46, 117, 43];
            proof {
                assert(w@ =~= name_of(b));
            }
            same_bytes(name, &w)
        },
        Builtin::Sub => {
            let w: [u8; 3] = [46, 117, 45];
            proof {
                assert(w@ =~= name_of(b));
            }
            same_bytes(name, &w)
        },
        Builtin::Gt => {
            let w: [u8; 3] = [46, 117, 62];
            proof {
                assert(w@ =~= name_of(b));
            }
            same_bytes(name, &w)
        },
        Builtin::Lt => {
            let w: [u8; 3] = [46, 117, 60];
            proof {
                assert(w@ =~= name_of(b));
            }
            same_bytes(name, &w)
        },
        Builtin::ParseUint => {
            let w: [u8; 2] = [46, 117];
            proof {
                assert(w@ =~= name_of(b));
            }
            same_bytes(name, &w)
        },
        Builtin::PrintUint => {
            let w: [u8; 8] = [46, 117, 45, 112, 114, 105, 110, 116];
            proof {
                assert(w@ =~= name_of(b));
            }
            same_bytes(name, &w)
        },
    }
}

impl Builtin {
    /// The built-in word named `name`, if there is one.
    pub fn lookup(name: &[u8]) -> (r: Option<Builtin>)
        ensures
            r == builtin_named(name@),
    {
        if is_named(name, Builtin::Error) {
            Some(Builtin::Error)
        } else if is_named(name, Builtin::ExecAll) {
            Some(Builtin::ExecAll)
        } else if is_named(name, Builtin::Eval) {
            Some(Builtin::Eval)
        } else if is_named(name, Builtin::IfElse) {
            Some(Builtin::IfElse)
        } else if is_named(name, Builtin::Push) {
            Some(Builtin::Push)
        } else if is_named(name, Builtin::Drop) {
            Some(Builtin::Drop)
        } else if is_named(name, Builtin::Dup) {
            Some(Builtin::Dup)
        } else if is_named(name, Builtin::Swap) {
            Some(Builtin::Swap)
        } else if is_named(name, Builtin::Define) {
            Some(Builtin::Define)
        } else if is_named(name, Builtin::PeekLen) {
            Some(Builtin::PeekLen)
        } else if is_named(name, Builtin::Lookup) {
            Some(Builtin::Lookup)
        } else if is_named(name, Builtin::EmptyBytes) {
            Some(Builtin::EmptyBytes)
        } else if is_named(name, Builtin::Write) {
            Some(Builtin::Write)
        } else if is_named(name, Builtin::Append) {
            Some(Builtin::Append)
        } else if is_named(name, Builtin::Add) {
            Some(Builtin::Add)
        } else if is_named(name, Builtin::Sub) {
            Some(Builtin::Sub)
        } else if is_named(name, Builtin::Gt) {
            Some(Builtin::Gt)
        } else if is_named(name, Builtin::Lt) {
            Some(Builtin::Lt)
        } else if is_named(name, Builtin::ParseUint) {
            Some(Builtin::ParseUint)
        } else if is_named(name, Builtin::PrintUint) {
            Some(Builtin::PrintUint)
        } else {
            None
        }
    }
}

} // verus!
