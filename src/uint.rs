use num_bigint::BigUint;
use num_traits::ToPrimitive;
use vstd::prelude::*;

verus! {

/// The unsigned integer that a little-endian byte string encodes; trailing
/// zero bytes, and the empty string, add nothing.
pub open spec fn le_value(s: Seq<u8>) -> nat
    decreases s.len(),
{
    if s.len() == 0 {
        0
    } else {
        s[0] as nat + 256 * le_value(s.drop_first())
    }
}

/// The shortest little-endian encoding of `n`: one byte for zero, and no
/// trailing zero byte otherwise.
pub open spec fn le_encode(n: nat) -> Seq<u8>
    decreases n,
{
    if n < 256 {
        seq![n as u8]
    } else {
        seq![(n % 256) as u8] + le_encode(n / 256)
    }
}

/// Whether a byte is an ASCII decimal digit.
pub open spec fn is_digit(b: u8) -> bool {
    48 <= b <= 57
}

/// A nonempty run of ASCII decimal digits.
pub open spec fn is_numeral(s: Seq<u8>) -> bool {
    s.len() > 0 && forall|i: int| 0 <= i < s.len() ==> is_digit(#[trigger] s[i])
}

/// The number that a run of decimal digits denotes, most significant first.
pub open spec fn dec_value(s: Seq<u8>) -> nat
    decreases s.len(),
{
    if s.len() == 0 {
        0
    } else {
        dec_value(s.drop_last()) * 10 + (s.last() - 48) as nat
    }
}

/// The decimal numeral of `n`, without leading zeros.
pub open spec fn dec_text(n: nat) -> Seq<u8>
    decreases n,
{
    if n < 10 {
        seq![(48 + n) as u8]
    } else {
        dec_text(n / 10).push((48 + n % 10) as u8)
    }
}

/// Encoding a number and reading it back gives the number.
pub proof fn lemma_le_encode_value(n: nat)
    ensures
        le_value(le_encode(n)) == n,
    decreases n,
{
    if n < 256 {
        let s = le_encode(n);
        assert(s.drop_first() =~= Seq::<u8>::empty());
        assert(le_value(s.drop_first()) == 0);
        assert(s[0] as nat == n);
        assert(le_value(s) == s[0] as nat + 256 * le_value(s.drop_first()));
    } else {
        lemma_le_encode_value(n / 256);
        let s = le_encode(n);
        assert(s.drop_first() =~= le_encode(n / 256));
        assert(s[0] as nat == n % 256);
        assert(le_value(s) == s[0] as nat + 256 * le_value(s.drop_first()));
        assert(n == n % 256 + 256 * (n / 256)) by (nonlinear_arith);
    }
}

/// Relies on `BigUint::from_bytes_le`, `+` and `to_bytes_le`: the sum, in its
/// shortest little-endian form.
#[verifier::external_body]
fn big_add(a: &[u8], b: &[u8]) -> (r: Vec<u8>)
    ensures
        r@ == le_encode(le_value(a@) + le_value(b@)),
{
    (BigUint::from_bytes_le(a) + BigUint::from_bytes_le(b)).to_bytes_le()
}

/// Relies on `BigUint::from_bytes_le`, `-` and `to_bytes_le`: the difference,
/// in its shortest little-endian form. `-` panics when `b` exceeds `a`.
#[verifier::external_body]
fn big_sub(a: &[u8], b: &[u8]) -> (r: Vec<u8>)
    requires
        le_value(a@) >= le_value(b@),
    ensures
        r@ == le_encode((le_value(a@) - le_value(b@)) as nat),
{
    (BigUint::from_bytes_le(a) - BigUint::from_bytes_le(b)).to_bytes_le()
}

/// Relies on `BigUint::from_bytes_le` and `<`: whether `a` is below `b`.
#[verifier::external_body]
fn big_lt(a: &[u8], b: &[u8]) -> (r: bool)
    ensures
        r == (le_value(a@) < le_value(b@)),
{
    BigUint::from_bytes_le(a) < BigUint::from_bytes_le(b)
}

/// Relies on `BigUint::from_bytes_le` and `ToPrimitive::to_usize`: the value
/// when it fits in a `usize`.
#[verifier::external_body]
fn big_to_usize(a: &[u8]) -> (r: Option<usize>)
    ensures
        le_value(a@) <= usize::MAX ==> r == Some(le_value(a@) as usize),
        le_value(a@) > usize::MAX ==> r is None,
{
    BigUint::from_bytes_le(a).to_usize()
}

/// Relies on `BigUint::parse_bytes` in base ten and `to_bytes_le`: a run of
/// decimal digits parses to the number it denotes.
#[verifier::external_body]
fn big_parse_decimal(s: &[u8]) -> (r: Option<Vec<u8>>)
    requires
        is_numeral(s@),
    ensures
        r is Some,
        r.unwrap()@ == le_encode(dec_value(s@)),
{
    match BigUint::parse_bytes(s, 10) {
        Some(n) => Some(n.to_bytes_le()),
        None => None,
    }
}

/// Relies on `BigUint::from_bytes_le` and `to_str_radix` in base ten: the
/// decimal numeral of the value.
#[verifier::external_body]
fn big_decimal(a: &[u8]) -> (r: Vec<u8>)
    ensures
        r@ == dec_text(le_value(a@)),
{
    BigUint::from_bytes_le(a).to_str_radix(10).into_bytes()
}

/// The sum of two encoded integers, encoded.
pub fn add_le(a: &[u8], b: &[u8]) -> (r: Vec<u8>)
    ensures
        r@ == le_encode(le_value(a@) + le_value(b@)),
        le_value(r@) == le_value(a@) + le_value(b@),
{
    let r = big_add(a, b);
    proof {
        lemma_le_encode_value(le_value(a@) + le_value(b@));
    }
    r
}

/// The difference of two encoded integers, encoded; `None` when `b` exceeds `a`.
pub fn sub_le(a: &[u8], b: &[u8]) -> (r: Option<Vec<u8>>)
    ensures
        le_value(a@) < le_value(b@) ==> r is None,
        le_value(a@) >= le_value(b@) ==> (r matches Some(v) && v@ == le_encode(
            (le_value(a@) - le_value(b@)) as nat,
        ) && le_value(v@) == le_value(a@) - le_value(b@)),
{
    if big_lt(a, b) {
        None
    } else {
        let r = big_sub(a, b);
        proof {
            lemma_le_encode_value((le_value(a@) - le_value(b@)) as nat);
        }
        Some(r)
    }
}

/// Whether the integer `a` encodes is below the one `b` encodes.
pub fn lt_le(a: &[u8], b: &[u8]) -> (r: bool)
    ensures
        r == (le_value(a@) < le_value(b@)),
{
    big_lt(a, b)
}

/// The encoded integer as an index, when it fits in a `usize`.
pub fn to_index(a: &[u8]) -> (r: Option<usize>)
    ensures
        le_value(a@) <= usize::MAX ==> r == Some(le_value(a@) as usize),
        le_value(a@) > usize::MAX ==> r is None,
{
    big_to_usize(a)
}

/// Parses a run of ASCII decimal digits into its little-endian encoding;
/// `None` for an empty string or one with a byte that is not a digit.
pub fn parse_decimal(s: &[u8]) -> (r: Option<Vec<u8>>)
    ensures
        is_numeral(s@) ==> (r matches Some(v) && v@ == le_encode(dec_value(s@))),
        !is_numeral(s@) ==> r is None,
{
    if s.len() == 0 {
        return None;
    }
    let mut i: usize = 0;
    while i < s.len()
        invariant
            0 <= i <= s@.len(),
            forall|j: int| 0 <= j < i ==> is_digit(#[trigger] s@[j]),
        decreases s@.len() - i,
    {
        if s[i] < 48 || s[i] > 57 {
            return None;
        }
        i += 1;
    }
    big_parse_decimal(s)
}

/// The decimal numeral of an encoded integer.
pub fn to_decimal(a: &[u8]) -> (r: Vec<u8>)
    ensures
        r@ == dec_text(le_value(a@)),
{
    big_decimal(a)
}

/// The shortest little-endian encoding of a length.
pub fn encode_len(n: usize) -> (r: Vec<u8>)
    ensures
        r@ == le_encode(n as nat),
        le_value(r@) == n,
{
    let mut v: Vec<u8> = Vec::new();
    let mut m: usize = n;
    while m >= 256
        invariant
            v@ + le_encode(m as nat) == le_encode(n as nat),
        decreases m,
    {
        let ghost before = v@;
        assert(le_encode(m as nat) == seq![(m % 256) as u8] + le_encode((m / 256) as nat));
        v.push((m % 256) as u8);
        assert(v@ + le_encode((m / 256) as nat) =~= before + le_encode(m as nat));
        m = m / 256;
    }
    let ghost before = v@;
    v.push(m as u8);
    assert(v@ =~= before + le_encode(m as nat));
    proof {
        lemma_le_encode_value(n as nat);
    }
    v
}

} // verus!
