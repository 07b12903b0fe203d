use smallvec::SmallVec;
use vstd::prelude::*;

verus! {

/// An owned byte string, stored inline when it is short.
#[verifier::external_body]
pub struct Bytes {
    inner: SmallVec<[u8; 16]>,
}

/// The bytes held by a `Bytes` value, first to last.
pub uninterp spec fn bytes_of(b: Bytes) -> Seq<u8>;

impl View for Bytes {
    type V = Seq<u8>;

    open spec fn view(&self) -> Seq<u8> {
        bytes_of(*self)
    }
}

/// Relies on `SmallVec::new`: a new vector holds no element.
#[verifier::external_body]
fn small_new() -> (r: Bytes)
    ensures
        bytes_of(r) == Seq::<u8>::empty(),
{
    Bytes { inner: SmallVec::new() }
}

/// Relies on `SmallVec::push`: the element is added after the last one.
#[verifier::external_body]
fn small_push(b: &mut Bytes, x: u8)
    ensures
        bytes_of(*final(b)) == bytes_of(*old(b)).push(x),
{
    b.inner.push(x)
}

/// Relies on `SmallVec::from_vec`: the vector keeps the elements of `v` in order.
#[verifier::external_body]
fn small_from_vec(v: Vec<u8>) -> (r: Bytes)
    ensures
        bytes_of(r) == v@,
{
    Bytes { inner: SmallVec::from_vec(v) }
}

/// Relies on `SmallVec::from_slice`: the vector holds a copy of the slice.
#[verifier::external_body]
fn small_from_slice(s: &[u8]) -> (r: Bytes)
    ensures
        bytes_of(r) == s@,
{
    Bytes { inner: SmallVec::from_slice(s) }
}

/// Relies on `SmallVec::as_slice`: the slice shows the elements in order.
#[verifier::external_body]
fn small_as_slice(b: &Bytes) -> (r: &[u8])
    ensures
        r@ == bytes_of(*b),
{
    b.inner.as_slice()
}

/// Whether two byte sequences are equal.
pub fn same_bytes(a: &[u8], b: &[u8]) -> (r: bool)
    ensures
        r == (a@ == b@),
{
    if a.len() != b.len() {
        return false;
    }
    let mut i: usize = 0;
    while i < a.len()
        invariant
            a@.len() == b@.len(),
            0 <= i <= a@.len(),
            forall|j: int| 0 <= j < i ==> a@[j] == b@[j],
        decreases a@.len() - i,
    {
        if a[i] != b[i] {
            return false;
        }
        i += 1;
    }
    assert(a@ =~= b@);
    true
}

impl Bytes {
    /// The empty byte string.
    pub fn new() -> (r: Bytes)
        ensures
            r@ == Seq::<u8>::empty(),
    {
        small_new()
    }

    /// A byte string holding a copy of `s`.
    pub fn from_slice(s: &[u8]) -> (r: Bytes)
        ensures
            r@ == s@,
    {
        small_from_slice(s)
    }

    /// A byte string holding the bytes of `v`.
    pub fn from_vec(v: Vec<u8>) -> (r: Bytes)
        ensures
            r@ == v@,
    {
        small_from_vec(v)
    }

    /// Adds a byte at the end.
    pub fn push(&mut self, x: u8)
        ensures
            final(self)@ == old(self)@.push(x),
    {
        small_push(self, x)
    }

    /// The bytes, first to last.
    pub fn as_slice(&self) -> (r: &[u8])
        ensures
            r@ == self@,
    {
        small_as_slice(self)
    }

    /// The number of bytes.
    pub fn len(&self) -> (r: usize)
        ensures
            r == self@.len(),
    {
        self.as_slice().len()
    }

    /// A copy of the bytes in a `Vec`.
    pub fn to_vec(&self) -> (r: Vec<u8>)
        ensures
            r@ == self@,
    {
        let s = self.as_slice();
        let mut v: Vec<u8> = Vec::new();
        let mut i: usize = 0;
        while i < s.len()
            invariant
                0 <= i <= s@.len(),
                v@ == s@.subrange(0, i as int),
            decreases s@.len() - i,
        {
            v.push(s[i]);
            i += 1;
            assert(v@ =~= s@.subrange(0, i as int));
        }
        assert(v@ =~= s@);
        v
    }

    /// An independent copy of this byte string.
    pub fn duplicate(&self) -> (r: Bytes)
        ensures
            r@ == self@,
    {
        small_from_slice(self.as_slice())
    }
}

} // verus!
