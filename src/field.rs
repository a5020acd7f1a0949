//! Elements of the Pallas base field, with arithmetic delegated to `pasta_curves`.
use vstd::prelude::*;
use ff::{Field, PrimeField};
use halo2_proofs::pasta::Fp;

verus! {

/// The order of the field: the Pallas base field prime.
pub open spec fn modulus() -> int {
    0x40000000000000000000000000000000224698fc094cf91b992d30ed00000001int
}

/// The integer encoded little-endian by `s`.
pub open spec fn le_value(s: Seq<u8>) -> nat
    decreases s.len(),
{
    if s.len() == 0 {
        0
    } else {
        s[0] as nat + 256 * le_value(s.drop_first())
    }
}

/// Field operations on canonical representatives in `[0, modulus())`.
pub open spec fn f_add(a: int, b: int) -> int {
    (a + b) % modulus()
}

pub open spec fn f_sub(a: int, b: int) -> int {
    (a - b) % modulus()
}

pub open spec fn f_mul(a: int, b: int) -> int {
    (a * b) % modulus()
}

pub open spec fn f_neg(a: int) -> int {
    (0 - a) % modulus()
}

/// The inverse that the field implementation returns for a nonzero element.
pub uninterp spec fn field_inverse(a: int) -> int;

/// Invert-or-zero: zero for zero, the field inverse otherwise.
pub open spec fn f_invert_or_zero(a: int) -> int {
    if a == 0 {
        0
    } else {
        field_inverse(a)
    }
}

/// A field element, held as its canonical 32-byte little-endian encoding.
#[derive(Clone, Copy, Debug)]
pub struct Fe {
    repr: [u8; 32],
}

impl View for Fe {
    type V = int;

    closed spec fn view(&self) -> int {
        le_value(self.repr@) as int % modulus()
    }
}

/// Relies on `Fp::from(u64)` and `PrimeField::to_repr`: the element equal to `n`.
#[verifier::external_body]
fn fp_from_u64(n: u64) -> (r: Fe)
    ensures
        r@ == n as int,
{
    Fe { repr: Fp::from(n).to_repr() }
}

/// Relies on `PrimeField::from_repr`, `Fp + Fp` and `PrimeField::to_repr`: the sum modulo p.
#[verifier::external_body]
fn fp_add(a: &Fe, b: &Fe) -> (r: Fe)
    ensures
        r@ == f_add(a@, b@),
{
    let x = Fp::from_repr(a.repr).unwrap();
    let y = Fp::from_repr(b.repr).unwrap();
    Fe { repr: (x + y).to_repr() }
}

/// Relies on `PrimeField::from_repr`, `Fp - Fp` and `PrimeField::to_repr`: the difference modulo p.
#[verifier::external_body]
fn fp_sub(a: &Fe, b: &Fe) -> (r: Fe)
    ensures
        r@ == f_sub(a@, b@),
{
    let x = Fp::from_repr(a.repr).unwrap();
    let y = Fp::from_repr(b.repr).unwrap();
    Fe { repr: (x - y).to_repr() }
}

/// Relies on `PrimeField::from_repr`, `Fp * Fp` and `PrimeField::to_repr`: the product modulo p.
#[verifier::external_body]
fn fp_mul(a: &Fe, b: &Fe) -> (r: Fe)
    ensures
        r@ == f_mul(a@, b@),
{
    let x = Fp::from_repr(a.repr).unwrap();
    let y = Fp::from_repr(b.repr).unwrap();
    Fe { repr: (x * y).to_repr() }
}

/// Relies on `Field::invert`, which fails exactly on zero; zero is then mapped to zero.
/// A nonzero element times its inverse is one.
#[verifier::external_body]
fn fp_invert_or_zero(a: &Fe) -> (r: Fe)
    ensures
        a@ == 0 ==> r@ == 0,
        a@ != 0 ==> r@ == field_inverse(a@),
        a@ != 0 ==> f_mul(a@, r@) == 1,
{
    let x = Fp::from_repr(a.repr).unwrap();
    Fe { repr: x.invert().unwrap_or(Fp::zero()).to_repr() }
}

/// Relies on `PartialEq for Fp`: equal exactly when the field elements are equal.
#[verifier::external_body]
fn fp_eq(a: &Fe, b: &Fe) -> (r: bool)
    ensures
        r == (a@ == b@),
{
    Fp::from_repr(a.repr).unwrap() == Fp::from_repr(b.repr).unwrap()
}

/// Every element is its canonical representative: it lies in `[0, modulus())`.
pub proof fn lemma_fe_canonical(x: Fe)
    ensures
        0 <= x@ < modulus(),
{
}

impl Fe {
    pub fn from_u64(n: u64) -> (r: Fe)
        ensures
            r@ == n as int,
    {
        fp_from_u64(n)
    }

    pub fn zero() -> (r: Fe)
        ensures
            r@ == 0,
    {
        fp_from_u64(0)
    }

    pub fn one() -> (r: Fe)
        ensures
            r@ == 1,
    {
        fp_from_u64(1)
    }

    pub fn add(&self, other: &Fe) -> (r: Fe)
        ensures
            r@ == f_add(self@, other@),
    {
        fp_add(self, other)
    }

    pub fn sub(&self, other: &Fe) -> (r: Fe)
        ensures
            r@ == f_sub(self@, other@),
    {
        fp_sub(self, other)
    }

    pub fn mul(&self, other: &Fe) -> (r: Fe)
        ensures
            r@ == f_mul(self@, other@),
    {
        fp_mul(self, other)
    }

    pub fn neg(&self) -> (r: Fe)
        ensures
            r@ == f_neg(self@),
    {
        let z = fp_from_u64(0);
        fp_sub(&z, self)
    }

    pub fn invert_or_zero(&self) -> (r: Fe)
        ensures
            r@ == f_invert_or_zero(self@),
            self@ != 0 ==> f_mul(self@, r@) == 1,
    {
        fp_invert_or_zero(self)
    }

    pub fn equals(&self, other: &Fe) -> (r: bool)
        ensures
            r == (self@ == other@),
    {
        fp_eq(self, other)
    }

    pub fn is_zero(&self) -> (r: bool)
        ensures
            r == (self@ == 0),
    {
        let z = fp_from_u64(0);
        fp_eq(self, &z)
    }
}

} // verus!
