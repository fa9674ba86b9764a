use vstd::prelude::*;

use vstd::arithmetic::div_mod::{
    lemma_fundamental_div_mod_converse_mod, lemma_mul_mod_noop_general, lemma_small_mod,
};

use halo2curves::bn256::Fr;
use halo2curves::ff::Field;

verus! {

// All register, cell and instruction content is embedded into the scalar
// field of the bn254 curve.  The arithmetic itself is an external concern:
// the `Fr` type is opaque here, and the handful of operations the trace
// generator and the constraint checker need are trusted wrappers whose
// contracts speak about `fr_value`, the integer a field element stands for.

/// The order of the bn254 scalar field: every `Fr` stands for an integer
/// in `[0, field_order())`, and all field arithmetic is modulo this prime.
pub open spec fn field_order() -> nat {
    0x30644e72e131a029b85045b68181585d2833e84879b9709143e1f593f0000001nat
}

/// The integer a field element stands for (its canonical representative).
pub uninterp spec fn fr_value(x: Fr) -> nat;

#[verifier::external_type_specification]
#[verifier::external_body]
pub struct ExFr(Fr);

/// Field addition on canonical representatives.
pub open spec fn f_add(a: nat, b: nat) -> nat {
    (((a + b) as int) % (field_order() as int)) as nat
}

/// Field subtraction on canonical representatives.
pub open spec fn f_sub(a: nat, b: nat) -> nat {
    ((a - b) % (field_order() as int)) as nat
}

/// Field multiplication on canonical representatives.
pub open spec fn f_mul(a: nat, b: nat) -> nat {
    (((a * b) as int) % (field_order() as int)) as nat
}

/// Relies on halo2curves' `Fr::from(u64)`: embedding an integer below the
/// field order is exact and lossless.
#[verifier::external_body]
pub fn fr_from_u64(x: u64) -> (r: Fr)
    ensures
        fr_value(r) == x as nat,
{
    Fr::from(x)
}

/// Relies on halo2curves' `Add for Fr`: modular addition of representatives.
#[verifier::external_body]
pub fn fr_add(a: &Fr, b: &Fr) -> (r: Fr)
    ensures
        fr_value(r) == f_add(fr_value(*a), fr_value(*b)),
{
    *a + *b
}

/// Relies on halo2curves' `Sub for Fr`: modular subtraction of representatives.
#[verifier::external_body]
pub fn fr_sub(a: &Fr, b: &Fr) -> (r: Fr)
    ensures
        fr_value(r) == f_sub(fr_value(*a), fr_value(*b)),
{
    *a - *b
}

/// Relies on halo2curves' `Mul for Fr`: modular multiplication of representatives.
#[verifier::external_body]
pub fn fr_mul(a: &Fr, b: &Fr) -> (r: Fr)
    ensures
        fr_value(r) == f_mul(fr_value(*a), fr_value(*b)),
{
    *a * *b
}

/// Relies on halo2curves' `Fr::invert`: the multiplicative inverse of a
/// nonzero element, mapped to zero on the zero element.
#[verifier::external_body]
pub fn fr_invert_or_zero(x: &Fr) -> (r: Fr)
    ensures
        fr_value(r) < field_order(),
        fr_value(*x) == 0 ==> fr_value(r) == 0,
        fr_value(*x) != 0 ==> f_mul(fr_value(*x), fr_value(r)) == 1,
{
    let c = x.invert();
    if bool::from(c.is_some()) {
        c.unwrap()
    } else {
        Fr::from(0u64)
    }
}

/// Relies on halo2curves' `PartialEq for Fr`: representations are canonical,
/// so structural equality coincides with equality of represented integers.
#[verifier::external_body]
pub fn fr_eq(a: &Fr, b: &Fr) -> (r: bool)
    ensures
        r == (fr_value(*a) == fr_value(*b)),
{
    a == b
}

// ------------------------------------------------------------------
// Proved facts about the representative-level operations.
// ------------------------------------------------------------------

/// The field order exceeds any value a 64-bit column cell can hold.
pub proof fn lemma_order_large()
    ensures
        field_order() > 0xffff_ffff_ffff_ffffnat,
{
}

/// A representative below the order is its own residue.
pub proof fn lemma_canon(a: nat)
    requires
        a < field_order(),
    ensures
        a % field_order() == a,
{
    lemma_small_mod(a, field_order());
}

/// Closed form of `f_sub` on canonical representatives.
pub proof fn lemma_f_sub_eval(a: nat, b: nat)
    requires
        a < field_order(),
        b < field_order(),
    ensures
        a >= b ==> f_sub(a, b) == a - b,
        a < b ==> f_sub(a, b) == a - b + field_order(),
{
    let p = field_order() as int;
    let d = a as int - b as int;
    if a >= b {
        lemma_small_mod((a - b) as nat, field_order());
    } else {
        lemma_fundamental_div_mod_converse_mod(d, p, -1, d + p);
    }
}

/// Closed form of `f_add` on canonical representatives.
pub proof fn lemma_f_add_eval(a: nat, b: nat)
    requires
        a < field_order(),
        b < field_order(),
    ensures
        a + b < field_order() ==> f_add(a, b) == a + b,
        a + b >= field_order() ==> f_add(a, b) == a + b - field_order(),
    {
    let p = field_order() as int;
    if a + b < field_order() {
        lemma_small_mod((a + b) as nat, field_order());
    } else {
        lemma_fundamental_div_mod_converse_mod((a + b) as int, p, 1, (a + b) as int - p);
    }
}

/// Subtraction of equal representatives gives the field's zero, and only then.
pub proof fn lemma_f_sub_zero(a: nat, b: nat)
    requires
        a < field_order(),
        b < field_order(),
    ensures
        f_sub(a, b) == 0 <==> a == b,
{
    lemma_f_sub_eval(a, b);
}

/// Multiplying by the zero element gives the zero element.
pub proof fn lemma_f_mul_zero(a: nat, b: nat)
    ensures
        a == 0 ==> f_mul(a, b) == 0,
        b == 0 ==> f_mul(a, b) == 0,
{
    lemma_small_mod(0, field_order());
}

/// Multiplying by the unit element keeps a canonical representative.
pub proof fn lemma_f_mul_one(a: nat)
    requires
        a < field_order(),
    ensures
        f_mul(1, a) == a,
        f_mul(a, 1) == a,
{
    lemma_small_mod(a, field_order());
}

/// Adding the zero element keeps a canonical representative.
pub proof fn lemma_f_add_zero(a: nat)
    requires
        a < field_order(),
    ensures
        f_add(0, a) == a,
        f_add(a, 0) == a,
{
    lemma_small_mod(a, field_order());
}

/// A nonzero element has at most one inverse among canonical representatives.
pub proof fn lemma_inverse_unique(v: nat, w1: nat, w2: nat)
    requires
        v < field_order(),
        w1 < field_order(),
        w2 < field_order(),
        f_mul(v, w1) == 1,
        f_mul(v, w2) == 1,
    ensures
        w1 == w2,
{
    let p = field_order() as int;
    let vi = v as int;
    let a = w1 as int;
    let b = w2 as int;
    // w1 == w1 * (v * w2) == (w1 * v) * w2 == w2  (mod p)
    lemma_mul_mod_noop_general(a, vi * b, p);
    assert((a * ((vi * b) % p)) % p == (a * (vi * b)) % p);
    assert((vi * b) % p == 1);
    assert((a * 1) % p == (a * (vi * b)) % p);
    assert(a * (vi * b) == (a * vi) * b) by (nonlinear_arith);
    lemma_mul_mod_noop_general(a * vi, b, p);
    assert((((a * vi) % p) * b) % p == ((a * vi) * b) % p);
    assert(a * vi == vi * a) by (nonlinear_arith);
    assert((vi * a) % p == 1);
    assert((1 * b) % p == (a * (vi * b)) % p);
    lemma_small_mod(w1, field_order());
    lemma_small_mod(w2, field_order());
}


/// The represented integers of a vector of field elements.
pub open spec fn fr_values(s: Seq<Fr>) -> Seq<nat> {
    s.map_values(|x: Fr| fr_value(x))
}

/// Compares two vectors of field elements by represented value.
pub fn fr_vec_eq(a: &Vec<Fr>, b: &Vec<Fr>) -> (r: bool)
    ensures
        r == (fr_values(a@) == fr_values(b@)),
{
    if a.len() != b.len() {
        proof {
            assert(fr_values(a@).len() != fr_values(b@).len());
        }
        return false;
    }
    let n = a.len();
    let mut i: usize = 0;
    while i < n
        invariant
            n == a@.len() == b@.len(),
            i <= n,
            forall|k: int| 0 <= k < i ==> fr_values(a@)[k] == fr_values(b@)[k],
        decreases n - i,
    {
        if !fr_eq(&a[i], &b[i]) {
            proof {
                assert(fr_values(a@)[i as int] != fr_values(b@)[i as int]);
            }
            return false;
        }
        proof {
            assert(fr_values(a@)[i as int] == fr_values(b@)[i as int]);
        }
        i = i + 1;
    }
    proof {
        assert(fr_values(a@) =~= fr_values(b@));
    }
    true
}

} // verus!
