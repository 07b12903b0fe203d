use crate::bytes::Bytes;
use crate::error::{Shape, VmError};
use vstd::prelude::*;

verus! {

broadcast use vstd::std_specs::vec::axiom_vec_index_decreases;

/// The mathematical value of an expression: a byte string or a list of values.
pub enum Val {
    Bytes(Seq<u8>),
    List(Seq<Val>),
}

/// A value of the language: a byte string or an ordered list of values.
pub enum Expr {
    Bytes(Bytes),
    List(Vec<Expr>),
}

/// A borrowed view of an expression.
pub enum ExprRef<'a> {
    Bytes(&'a [u8]),
    List(&'a [Expr]),
}

pub open spec fn val_of(e: Expr) -> Val
    decreases e,
{
    match e {
        Expr::Bytes(b) => Val::Bytes(b@),
        Expr::List(l) => Val::List(
            Seq::new(
                l.len() as nat,
                |i: int|
                    if 0 <= i < l.len() {
                        val_of(l[i])
                    } else {
                        Val::Bytes(Seq::empty())
                    },
            ),
        ),
    }
}

/// The values of a sequence of expressions, in order.
pub open spec fn vals_of(s: Seq<Expr>) -> Seq<Val> {
    Seq::new(s.len(), |i: int| val_of(s[i]))
}

impl View for Expr {
    type V = Val;

    open spec fn view(&self) -> Val {
        val_of(*self)
    }
}

impl<'a> View for ExprRef<'a> {
    type V = Val;

    open spec fn view(&self) -> Val {
        match *self {
            ExprRef::Bytes(b) => Val::Bytes(b@),
            ExprRef::List(l) => Val::List(vals_of(l@)),
        }
    }
}

/// The view of a list expression is the list of its elements' views.
pub proof fn lemma_list_view(l: Vec<Expr>)
    ensures
        Expr::List(l)@ == Val::List(vals_of(l@)),
{
    let v = val_of(Expr::List(l));
    let s = v->List_0;
    assert(s.len() == l.len());
    assert forall|i: int| 0 <= i < s.len() implies s[i] == vals_of(l@)[i] by {}
    assert(s =~= vals_of(l@));
}

/// Whether a byte string holds at least one nonzero byte.
pub open spec fn truthy(w: Seq<u8>) -> bool {
    exists|i: int| 0 <= i < w.len() && w[i] != 0
}

/// Whether a byte string counts as true in a condition: some byte is nonzero.
pub fn is_truthy(w: &[u8]) -> (r: bool)
    ensures
        r == truthy(w@),
{
    let mut i: usize = 0;
    while i < w.len()
        invariant
            0 <= i <= w@.len(),
            forall|j: int| 0 <= j < i ==> w@[j] == 0,
        decreases w@.len() - i,
    {
        if w[i] != 0 {
            return true;
        }
        i += 1;
    }
    false
}

/// `n` zero bytes.
pub open spec fn zeros(n: nat) -> Seq<u8> {
    Seq::new(n, |i: int| 0u8)
}

/// Appending zero bytes to a byte string never changes whether it is true:
/// only the presence of a nonzero byte counts.
pub proof fn lemma_zero_padding_keeps_truthiness(w: Seq<u8>, n: nat)
    ensures
        truthy(w + zeros(n)) == truthy(w),
        !truthy(w) ==> !truthy(w + zeros(n)),
{
    let p = w + zeros(n);
    if truthy(w) {
        let i = choose|i: int| 0 <= i < w.len() && w[i] != 0;
        assert(p[i] == w[i]);
    }
    if truthy(p) {
        let i = choose|i: int| 0 <= i < p.len() && p[i] != 0;
        if i >= w.len() {
            assert(p[i] == zeros(n)[i - w.len()]);
        } else {
            assert(p[i] == w[i]);
        }
    }
}

/// Whether a byte is an ASCII control character.
pub fn is_control(b: u8) -> (r: bool)
    ensures
        r == (b < 32 || b == 127),
{
    let del: u8 = 127;
    b < 32 || b == del
}

impl Expr {
    /// An atom holding a copy of `s`.
    pub fn atom(s: &[u8]) -> (r: Expr)
        ensures
            r@ == Val::Bytes(s@),
    {
        Expr::Bytes(Bytes::from_slice(s))
    }

    /// An independent copy of this expression.
    pub fn deep_copy(&self) -> (r: Expr)
        ensures
            r@ == self@,
        decreases self,
    {
        match self {
            Expr::Bytes(b) => Expr::Bytes(b.duplicate()),
            Expr::List(l) => {
                let mut out: Vec<Expr> = Vec::new();
                let mut i: usize = 0;
                while i < l.len()
                    invariant
                        *self == Expr::List(*l),
                        0 <= i <= l@.len(),
                        out@.len() == i,
                        forall|j: int| 0 <= j < i ==> out@[j]@ == l@[j]@,
                    decreases l@.len() - i,
                {
                    proof {
                        assert(decreases_to!(*self => (*self)->List_0));
                        assert(decreases_to!(*l => l[i as int]));
                    }
                    let c = l[i].deep_copy();
                    out.push(c);
                    i += 1;
                }
                proof {
                    lemma_list_view(out);
                    lemma_list_view(*l);
                    assert(vals_of(out@) =~= vals_of(l@));
                }
                Expr::List(out)
            },
        }
    }

    /// A borrowed view of this expression.
    pub fn as_ref(&self) -> (r: ExprRef<'_>)
        ensures
            r@ == self@,
    {
        proof {
            if let Expr::List(l) = self {
                lemma_list_view(*l);
            }
        }
        match self {
            Expr::Bytes(b) => ExprRef::Bytes(b.as_slice()),
            Expr::List(l) => ExprRef::List(l.as_slice()),
        }
    }

    /// The elements of a list; a type error for a byte string.
    pub fn into_list(self) -> (r: Result<Vec<Expr>, VmError>)
        ensures
            match self@ {
                Val::List(vs) => r matches Ok(l) && vals_of(l@) == vs,
                Val::Bytes(_) => r matches Err(e) && e@ == crate::error::Fault::TypeError(Shape::List),
            },
    {
        match self {
            Expr::List(l) => {
                proof {
                    lemma_list_view(l);
                }
                Ok(l)
            },
            Expr::Bytes(_) => Err(VmError::TypeError(Shape::List)),
        }
    }

    /// The bytes of a byte string; a type error for a list.
    pub fn into_bytes(self) -> (r: Result<Bytes, VmError>)
        ensures
            match self@ {
                Val::Bytes(w) => r matches Ok(b) && b@ == w,
                Val::List(_) => r matches Err(e) && e@ == crate::error::Fault::TypeError(Shape::Bytes),
            },
    {
        match self {
            Expr::Bytes(b) => Ok(b),
            Expr::List(_) => Err(VmError::TypeError(Shape::Bytes)),
        }
    }
}

impl<'a> ExprRef<'a> {
    /// An owned copy of the expression seen.
    pub fn to_owned(&self) -> (r: Expr)
        ensures
            r@ == self@,
    {
        match self {
            ExprRef::Bytes(w) => Expr::Bytes(Bytes::from_slice(w)),
            ExprRef::List(l) => {
                let mut out: Vec<Expr> = Vec::new();
                let mut i: usize = 0;
                while i < l.len()
                    invariant
                        0 <= i <= l@.len(),
                        out@.len() == i,
                        forall|j: int| 0 <= j < i ==> out@[j]@ == l@[j]@,
                    decreases l@.len() - i,
                {
                    let c = l[i].deep_copy();
                    out.push(c);
                    i += 1;
                }
                proof {
                    lemma_list_view(out);
                    assert(vals_of(out@) =~= vals_of(l@));
                }
                Expr::List(out)
            },
        }
    }
}

} // verus!
