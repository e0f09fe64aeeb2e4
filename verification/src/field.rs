//! The scalar field of BLS12-377 (the order of its G1 group), modelled as an
//! integer below the group order held in four 64-bit limbs, little-endian.
//! The arithmetic itself is carried out by the `ark_ff` field implementation
//! behind trusted wrappers; every contract here speaks of the integer value.

use vstd::prelude::*;

verus! {

/// The order of the BLS12-377 scalar field (a prime of 253 bits).
pub open spec fn fr_order() -> nat {
    8444461749428370424248824938781546531375899335154063827935233455917409239041nat
}

/// The integer a little-endian limb vector stands for.
pub open spec fn limbs_nat(l: [u64; 4]) -> nat {
    l[0] as nat
        + l[1] as nat * 0x10000000000000000nat
        + l[2] as nat * 0x100000000000000000000000000000000nat
        + l[3] as nat * 0x1000000000000000000000000000000000000000000000000nat
}

/// Addition in the scalar field.
pub open spec fn add_mod(a: nat, b: nat) -> nat {
    (a + b) % fr_order()
}

/// Subtraction in the scalar field.
pub open spec fn sub_mod(a: nat, b: nat) -> nat {
    (((a as int) - (b as int)) % (fr_order() as int)) as nat
}

/// Multiplication in the scalar field.
pub open spec fn mul_mod(a: nat, b: nat) -> nat {
    (a * b) % fr_order()
}

/// The multiplicative inverse in the scalar field of a nonzero value; a name
/// for what `ark_ff`'s field inversion returns, which depends on its argument
/// alone.
pub uninterp spec fn fr_inv(a: nat) -> nat;

/// The integer a little-endian byte string stands for.
pub open spec fn bytes_le_nat(b: Seq<u8>) -> nat
    decreases b.len(),
{
    if b.len() == 0 {
        0
    } else {
        b[0] as nat + 256 * bytes_le_nat(b.drop_first())
    }
}

/// The `len`-byte little-endian encoding of an integer.
pub open spec fn nat_to_le_bytes(v: nat, len: nat) -> Seq<u8>
    decreases len,
{
    if len == 0 {
        Seq::empty()
    } else {
        seq![(v % 256) as u8] + nat_to_le_bytes(v / 256, (len - 1) as nat)
    }
}

/// The count of values a `len`-byte string can hold.
pub open spec fn pow256(len: nat) -> nat
    decreases len,
{
    if len == 0 {
        1
    } else {
        256 * pow256((len - 1) as nat)
    }
}

/// Reading back the little-endian encoding of an integer that fits in `len`
/// bytes recovers the integer.
pub proof fn lemma_le_bytes_roundtrip(v: nat, len: nat)
    requires
        v < pow256(len),
    ensures
        bytes_le_nat(nat_to_le_bytes(v, len)) == v,
    decreases len,
{
    if len == 0 {
    } else {
        let head = seq![(v % 256) as u8];
        let tail = nat_to_le_bytes(v / 256, (len - 1) as nat);
        assert((head + tail).drop_first() =~= tail);
        assert(v / 256 < pow256((len - 1) as nat)) by {
            assert(v < 256 * pow256((len - 1) as nat));
        }
        lemma_le_bytes_roundtrip(v / 256, (len - 1) as nat);
        assert(v == v % 256 + 256 * (v / 256));
    }
}

/// One element of the scalar field, as the integer it reduces to.
#[derive(Clone, Copy, Debug)]
pub struct Fe {
    pub limbs: [u64; 4],
}

/// Relies on `ark_ff` field addition on `ark_bls12_377::Fr`: the sum of the
/// two values modulo the field order.
#[verifier::external_body]
fn fe_add_raw(a: &Fe, b: &Fe) -> (r: Fe)
    requires
        a.wf(),
        b.wf(),
    ensures
        r.wf(),
        r.as_nat() == add_mod(a.as_nat(), b.as_nat()),
{
    let x = <ark_bls12_377::Fr as ark_ff::PrimeField>::from_repr(ark_ff::BigInteger256::new(a.limbs)).unwrap();
    let y = <ark_bls12_377::Fr as ark_ff::PrimeField>::from_repr(ark_ff::BigInteger256::new(b.limbs)).unwrap();
    Fe { limbs: ark_ff::PrimeField::into_repr(&(x + y)).0 }
}

/// Relies on `ark_ff` field subtraction on `ark_bls12_377::Fr`: the difference
/// of the two values modulo the field order.
#[verifier::external_body]
fn fe_sub_raw(a: &Fe, b: &Fe) -> (r: Fe)
    requires
        a.wf(),
        b.wf(),
    ensures
        r.wf(),
        r.as_nat() == sub_mod(a.as_nat(), b.as_nat()),
{
    let x = <ark_bls12_377::Fr as ark_ff::PrimeField>::from_repr(ark_ff::BigInteger256::new(a.limbs)).unwrap();
    let y = <ark_bls12_377::Fr as ark_ff::PrimeField>::from_repr(ark_ff::BigInteger256::new(b.limbs)).unwrap();
    Fe { limbs: ark_ff::PrimeField::into_repr(&(x - y)).0 }
}

/// Relies on `ark_ff` field multiplication on `ark_bls12_377::Fr`: the product
/// of the two values modulo the field order.
#[verifier::external_body]
fn fe_mul_raw(a: &Fe, b: &Fe) -> (r: Fe)
    requires
        a.wf(),
        b.wf(),
    ensures
        r.wf(),
        r.as_nat() == mul_mod(a.as_nat(), b.as_nat()),
{
    let x = <ark_bls12_377::Fr as ark_ff::PrimeField>::from_repr(ark_ff::BigInteger256::new(a.limbs)).unwrap();
    let y = <ark_bls12_377::Fr as ark_ff::PrimeField>::from_repr(ark_ff::BigInteger256::new(b.limbs)).unwrap();
    Fe { limbs: ark_ff::PrimeField::into_repr(&(x * y)).0 }
}

/// Relies on `ark_ff::Field::inverse` on `ark_bls12_377::Fr`: `None` exactly
/// on zero, otherwise the multiplicative inverse, a function of the argument
/// alone.
#[verifier::external_body]
fn fe_inv_raw(a: &Fe) -> (r: Option<Fe>)
    requires
        a.wf(),
    ensures
        a.as_nat() == 0 <==> r is None,
        r is Some ==> r->0.wf() && r->0.as_nat() == fr_inv(a.as_nat()) && mul_mod(
            r->0.as_nat(),
            a.as_nat(),
        ) == 1,
{
    let x = <ark_bls12_377::Fr as ark_ff::PrimeField>::from_repr(ark_ff::BigInteger256::new(a.limbs)).unwrap();
    match ark_ff::Field::inverse(&x) {
        None => None,
        Some(y) => Some(Fe { limbs: ark_ff::PrimeField::into_repr(&y).0 }),
    }
}

/// Relies on `ark_ff::PrimeField::from_le_bytes_mod_order` on
/// `ark_bls12_377::Fr`: the bytes read as a little-endian integer, reduced
/// modulo the field order.
#[verifier::external_body]
fn fe_from_le_bytes_raw(bytes: &Vec<u8>) -> (r: Fe)
    ensures
        r.wf(),
        r.as_nat() == bytes_le_nat(bytes@) % fr_order(),
{
    let x = <ark_bls12_377::Fr as ark_ff::PrimeField>::from_le_bytes_mod_order(bytes);
    Fe { limbs: ark_ff::PrimeField::into_repr(&x).0 }
}

/// Relies on `ark_ff::BigInteger256::to_bytes_le`: the 32-byte little-endian
/// encoding of the value.
#[verifier::external_body]
fn fe_to_le_bytes_raw(a: &Fe) -> (r: Vec<u8>)
    ensures
        r@ == nat_to_le_bytes(a.as_nat(), 32),
{
    ark_ff::BigInteger::to_bytes_le(&ark_ff::BigInteger256::new(a.limbs))
}

/// Relies on `ark_ff::UniformRand` for `ark_bls12_377::Fr`: some fully
/// reduced field element; nothing more is promised of a random draw.
#[verifier::external_body]
fn fe_rand_raw(rng: &mut rand::rngs::StdRng) -> (r: Fe)
    ensures
        r.wf(),
{
    let x: ark_bls12_377::Fr = ark_std::UniformRand::rand(rng);
    Fe { limbs: ark_ff::PrimeField::into_repr(&x).0 }
}

impl Fe {
    /// The mathematical value of this element.
    pub open spec fn as_nat(self) -> nat {
        limbs_nat(self.limbs)
    }

    /// A well-formed element is fully reduced.
    pub open spec fn wf(self) -> bool {
        self.as_nat() < fr_order()
    }

    /// Embeds a machine integer, which is always below the field order.
    pub fn from_u64(x: u64) -> (r: Fe)
        ensures
            r.as_nat() == x as nat,
            r.wf(),
    {
        Fe { limbs: [x, 0, 0, 0] }
    }

    /// The zero element.
    pub fn zero() -> (r: Fe)
        ensures
            r.as_nat() == 0,
            r.wf(),
    {
        Fe::from_u64(0)
    }

    /// The limbs of this element, little-endian.
    pub fn limbs(&self) -> (r: [u64; 4])
        ensures
            limbs_nat(r) == self.as_nat(),
    {
        self.limbs
    }

    /// Whether two elements hold the same value.
    pub fn eq_fe(&self, other: &Fe) -> (r: bool)
        ensures
            r <==> self.as_nat() == other.as_nat(),
    {
        let a = self.limbs;
        let b = other.limbs;
        let r = a[0] == b[0] && a[1] == b[1] && a[2] == b[2] && a[3] == b[3];
        proof {
            if !r {
                assert(limbs_nat(a) != limbs_nat(b)) by {
                    if limbs_nat(a) == limbs_nat(b) {
                        assert(a[0] == b[0] && a[1] == b[1] && a[2] == b[2] && a[3] == b[3])
                            by (nonlinear_arith)
                            requires
                                limbs_nat(a) == limbs_nat(b),
                                limbs_nat(a) == a[0] as nat + a[1] as nat * 0x10000000000000000nat
                                    + a[2] as nat * 0x100000000000000000000000000000000nat
                                    + a[3] as nat
                                    * 0x1000000000000000000000000000000000000000000000000nat,
                                limbs_nat(b) == b[0] as nat + b[1] as nat * 0x10000000000000000nat
                                    + b[2] as nat * 0x100000000000000000000000000000000nat
                                    + b[3] as nat
                                    * 0x1000000000000000000000000000000000000000000000000nat,
                                a[0] < 0x10000000000000000,
                                a[1] < 0x10000000000000000,
                                a[2] < 0x10000000000000000,
                                a[3] < 0x10000000000000000,
                                b[0] < 0x10000000000000000,
                                b[1] < 0x10000000000000000,
                                b[2] < 0x10000000000000000,
                                b[3] < 0x10000000000000000,
                        ;
                    }
                }
            }
        }
        r
    }

    /// The sum of two field elements.
    pub fn add_fe(&self, other: &Fe) -> (r: Fe)
        requires
            self.wf(),
            other.wf(),
        ensures
            r.wf(),
            r.as_nat() == add_mod(self.as_nat(), other.as_nat()),
    {
        fe_add_raw(self, other)
    }

    /// The difference of two field elements.
    pub fn sub_fe(&self, other: &Fe) -> (r: Fe)
        requires
            self.wf(),
            other.wf(),
        ensures
            r.wf(),
            r.as_nat() == sub_mod(self.as_nat(), other.as_nat()),
    {
        fe_sub_raw(self, other)
    }

    /// The product of two field elements.
    pub fn mul_fe(&self, other: &Fe) -> (r: Fe)
        requires
            self.wf(),
            other.wf(),
        ensures
            r.wf(),
            r.as_nat() == mul_mod(self.as_nat(), other.as_nat()),
    {
        fe_mul_raw(self, other)
    }

    /// The multiplicative inverse, absent exactly on zero.
    pub fn inverse(&self) -> (r: Option<Fe>)
        requires
            self.wf(),
        ensures
            self.as_nat() == 0 <==> r is None,
            r is Some ==> r->0.wf() && r->0.as_nat() == fr_inv(self.as_nat()) && mul_mod(
                r->0.as_nat(),
                self.as_nat(),
            ) == 1,
    {
        fe_inv_raw(self)
    }

    /// A field element read from a little-endian byte string, reduced modulo
    /// the field order.
    pub fn from_le_bytes(bytes: &Vec<u8>) -> (r: Fe)
        ensures
            r.wf(),
            r.as_nat() == bytes_le_nat(bytes@) % fr_order(),
    {
        fe_from_le_bytes_raw(bytes)
    }

    /// The 32-byte little-endian encoding of this element.
    pub fn to_le_bytes(&self) -> (r: Vec<u8>)
        ensures
            r@ == nat_to_le_bytes(self.as_nat(), 32),
    {
        fe_to_le_bytes_raw(self)
    }

    /// A uniformly random field element.
    pub fn rand(rng: &mut rand::rngs::StdRng) -> (r: Fe)
        ensures
            r.wf(),
    {
        fe_rand_raw(rng)
    }
}

impl PartialEq for Fe {
    fn eq(&self, other: &Fe) -> (r: bool) {
        self.eq_fe(other)
    }
}

impl vstd::std_specs::cmp::PartialEqSpecImpl for Fe {
    open spec fn obeys_eq_spec() -> bool {
        true
    }

    open spec fn eq_spec(&self, other: &Fe) -> bool {
        self.as_nat() == other.as_nat()
    }
}

} // verus!
