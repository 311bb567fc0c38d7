//! The BN462 pairing layer: the scalar field, the two source groups, the
//! target group, and the pairing itself, over an external curve library.
//!
//! Each value carries a ghost model: a field element is its residue modulo
//! the group order; a group element produced by the constructive operations
//! is its discrete logarithm (to the group's generator, or for the target
//! group to the pairing of the generators). The external operations are
//! trusted to act on those models as modular arithmetic. Elements produced
//! by hashing or deserialization carry an unconstrained model; target-group
//! values additionally carry a ghost subgroup flag, since deserialization
//! can produce values (the field's zero among them) on which the group
//! laws do not hold, and the algebraic contracts speak only of flagged
//! values.

use vstd::prelude::*;
use vstd::arithmetic::div_mod::lemma_mod_add_multiples_vanish;
use vstd::arithmetic::div_mod::lemma_mul_mod_noop_general;
use vstd::arithmetic::div_mod::lemma_small_mod;
use vstd::arithmetic::mul::lemma_mul_is_associative;
use vstd::arithmetic::mul::lemma_mul_is_commutative;
use miracl_core::bn462::big::BIG;
use miracl_core::bn462::ecp::ECP;
use miracl_core::bn462::ecp2::ECP2;
use miracl_core::bn462::fp12::FP12;
use miracl_core::bn462::pair;
use miracl_core::bn462::rom;
use miracl_core::rand::RAND;
use miracl_core::rand::RAND_impl;

verus! {

#[verifier::external_type_specification]
#[verifier::external_body]
pub struct ExBig(BIG);

#[verifier::external_type_specification]
#[verifier::external_body]
pub struct ExEcp(ECP);

#[verifier::external_type_specification]
#[verifier::external_body]
pub struct ExEcp2(ECP2);

#[verifier::external_type_specification]
#[verifier::external_body]
pub struct ExFp12(FP12);

#[verifier::external_type_specification]
#[verifier::external_body]
pub struct ExRandImpl(RAND_impl);

/// The order of the BN462 groups: a 462-bit prime, assembled from the
/// library's 60-bit limbs.
pub open spec fn curve_order() -> nat {
    0x401B007E010800D + vstd::arithmetic::power2::pow2(60) * (0x17F7C0000000002
        + vstd::arithmetic::power2::pow2(60) * (0xFFFF6FF66FC7BF7
        + vstd::arithmetic::power2::pow2(60) * (0x8EE1C201F7FFFFF
        + vstd::arithmetic::power2::pow2(60) * (0xD81290
        + vstd::arithmetic::power2::pow2(60) * (0xFF0CF6B7D9BFCA0
        + vstd::arithmetic::power2::pow2(60) * (0x23FFFFFFFFFF6
        + vstd::arithmetic::power2::pow2(60) * 0x24048036012))))))
}

/// The value a little-endian sequence of 60-bit limbs spells out.
pub open spec fn limbs_value(x: Seq<i64>) -> int
    decreases x.len(),
{
    if x.len() == 0 {
        0
    } else {
        limbs_value(x.drop_last()) + x.last() * vstd::arithmetic::power2::pow2(
            (60 * (x.len() - 1)) as nat,
        )
    }
}

/// The byte length of a serialized target-group element on the wire:
/// forty-eight base-field slots of 58 bytes each. The twelve coordinates
/// occupy the leading slots; the remainder is zero.
pub open spec fn gt_byte_len() -> nat {
    2784
}

/// The model of the element a serialized form decodes to: a function of
/// the bytes alone.
pub uninterp spec fn gt_from_bytes_of(bytes: Seq<u8>) -> nat;

/// A deterministic random generator over the external library's generator,
/// seeded from caller-supplied bytes.
pub struct MiraclRng {
    pub inner: RAND_impl,
}

impl MiraclRng {
    /// Relies on RAND_impl::new: a fresh, unseeded generator.
    #[verifier::external_body]
    pub fn new() -> (r: MiraclRng) {
        MiraclRng { inner: RAND_impl::new() }
    }

    /// Relies on RAND_impl::seed: mixes the given bytes into the state.
    #[verifier::external_body]
    pub fn seed(&mut self, raw: &[u8]) {
        let n = raw.len();
        self.inner.seed(n, raw);
    }
}

/// An element of the scalar field: an integer modulo the curve order.
pub struct Bn462Field {
    pub inner: BIG,
    pub v: Ghost<nat>,
}

impl Bn462Field {
    /// The model is a reduced residue.
    pub open spec fn inv(&self) -> bool {
        self.v@ < curve_order()
    }

    /// Relies on BIG::new: the zero element.
    #[verifier::external_body]
    pub fn new() -> (r: Bn462Field)
        ensures
            r.v@ == 0,
    {
        Bn462Field { inner: BIG::new(), v: Ghost(0) }
    }

    /// Relies on BIG::new_int: a nonnegative integer below one 60-bit limb
    /// embeds as itself. The bound keeps the stored form normalized, which
    /// the comparison below depends on.
    #[verifier::external_body]
    pub fn new_int(x: i64) -> (r: Bn462Field)
        requires
            0 <= x < 0x1000000000000000,
        ensures
            r.v@ == x,
    {
        Bn462Field { inner: BIG::new_int(x as isize), v: Ghost(0) }
    }

    /// The unit element.
    pub fn one() -> (r: Bn462Field)
        ensures
            r.v@ == 1,
            r.inv(),
    {
        Bn462Field::new_int(1)
    }

    /// Relies on BIG::new_ints: the value the first eight 60-bit limbs
    /// spell out, little-endian, copied without reduction (the library
    /// reads exactly eight). The result is a canonical residue (and fit
    /// for the operations above) only when that value lies below the
    /// order.
    #[verifier::external_body]
    pub fn new_ints(x: &[i64]) -> (r: Bn462Field)
        requires
            x@.len() >= 8,
            forall|i: int| 0 <= i < 8 ==> 0 <= (#[trigger] x@[i]) < 0x1000000000000000,
        ensures
            r.v@ == limbs_value(x@.take(8)),
    {
        Bn462Field { inner: BIG::new_ints(x), v: Ghost(0) }
    }

    /// Relies on BIG::new_ints and the library's order constant: the group
    /// order as a raw value. It is no residue (its model is the order
    /// itself), so the reduced-residue operations do not accept it.
    #[verifier::external_body]
    pub fn order() -> (r: Bn462Field)
        ensures
            r.v@ == curve_order(),
    {
        Bn462Field { inner: BIG::new_ints(&rom::CURVE_ORDER), v: Ghost(0) }
    }

    /// Relies on BIG::modadd: the reduced sum of the residues.
    #[verifier::external_body]
    pub fn ref_add(&self, other: &Bn462Field) -> (r: Bn462Field)
        requires
            self.inv(),
            other.inv(),
        ensures
            r.v@ == (self.v@ + other.v@) % curve_order(),
    {
        let m = BIG::new_ints(&rom::CURVE_ORDER);
        Bn462Field { inner: BIG::modadd(&self.inner, &other.inner, &m), v: Ghost(0) }
    }

    /// Relies on BIG::modmul: the reduced product of the residues.
    #[verifier::external_body]
    pub fn ref_mul(&self, other: &Bn462Field) -> (r: Bn462Field)
        requires
            self.inv(),
            other.inv(),
        ensures
            r.v@ == (self.v@ * other.v@) % curve_order(),
    {
        let m = BIG::new_ints(&rom::CURVE_ORDER);
        Bn462Field { inner: BIG::modmul(&self.inner, &other.inner, &m), v: Ghost(0) }
    }

    /// Relies on BIG::modneg and BIG::rmod: the reduced negation of the
    /// residue.
    #[verifier::external_body]
    pub fn ref_neg(&self) -> (r: Bn462Field)
        requires
            self.inv(),
        ensures
            r.v@ == (curve_order() - self.v@) % (curve_order() as int),
    {
        let m = BIG::new_ints(&rom::CURVE_ORDER);
        let mut n = BIG::modneg(&self.inner, &m);
        n.rmod(&m);
        Bn462Field { inner: n, v: Ghost(0) }
    }

    /// The difference, as the sum with the negation.
    pub fn ref_sub(&self, other: &Bn462Field) -> (r: Bn462Field)
        requires
            self.inv(),
            other.inv(),
        ensures
            r.v@ == (self.v@ + curve_order() - other.v@) % (curve_order() as int),
            r.inv(),
    {
        let n = other.ref_neg();
        let r = self.ref_add(&n);
        proof {
            let q = curve_order() as int;
            let a = self.v@ as int;
            let b = other.v@ as int;
            if b == 0 {
                vstd::arithmetic::div_mod::lemma_mod_self_0(q);
                lemma_small_mod(self.v@, curve_order());
                lemma_mod_add_multiples_vanish(a, q);
            } else {
                assert((q - b) % q == q - b) by {
                    lemma_small_mod((q - b) as nat, curve_order());
                }
            }
        }
        r
    }

    /// Relies on BIG::invmodp: the modular inverse of a nonzero residue;
    /// zero stays zero.
    #[verifier::external_body]
    pub fn inverse(&self) -> (r: Bn462Field)
        requires
            self.inv(),
        ensures
            r.inv(),
            self.v@ != 0 ==> (r.v@ * self.v@) % curve_order() == 1,
            self.v@ == 0 ==> r.v@ == 0,
    {
        let m = BIG::new_ints(&rom::CURVE_ORDER);
        let mut x = self.inner;
        x.invmodp(&m);
        Bn462Field { inner: x, v: Ghost(0) }
    }

    /// The quotient, as the product with the inverse: multiplied back by
    /// the divisor it returns the dividend.
    pub fn ref_div(&self, other: &Bn462Field) -> (r: Bn462Field)
        requires
            self.inv(),
            other.inv(),
        ensures
            r.inv(),
            other.v@ != 0 ==> (r.v@ * other.v@) % curve_order() == self.v@,
    {
        let i = other.inverse();
        let r = self.ref_mul(&i);
        proof {
            let q = curve_order() as int;
            let a = self.v@ as int;
            let b = other.v@ as int;
            let iv = i.v@ as int;
            if other.v@ != 0 {
                assert(((a * iv) % q * b) % q == ((a * iv) * b) % q) by {
                    lemma_mul_mod_noop_general(a * iv, b, q);
                }
                assert((a * iv) * b == a * (iv * b)) by {
                    lemma_mul_is_associative(a, iv, b);
                }
                assert((a * (iv * b)) % q == (a * ((iv * b) % q)) % q) by {
                    lemma_mul_mod_noop_general(a, iv * b, q);
                }
                assert((iv * b) % q == 1);
                assert((a * 1) % q == a) by {
                    lemma_small_mod(self.v@, curve_order());
                }
            }
        }
        r
    }

    /// Relies on BIG::powmod: modular exponentiation of the residue.
    #[verifier::external_body]
    pub fn ref_pow(&self, e: &Bn462Field) -> (r: Bn462Field)
        requires
            self.inv(),
            e.inv(),
        ensures
            r.v@ == vstd::arithmetic::power::pow(self.v@ as int, e.v@) % (curve_order() as int),
    {
        let m = BIG::new_ints(&rom::CURVE_ORDER);
        let mut b = self.inner;
        Bn462Field { inner: b.powmod(&e.inner, &m), v: Ghost(0) }
    }

    /// Relies on BIG::comp: equality of the reduced residues.
    #[verifier::external_body]
    pub fn equals(&self, other: &Bn462Field) -> (r: bool)
        requires
            self.inv(),
            other.inv(),
        ensures
            r == (self.v@ == other.v@),
    {
        BIG::comp(&self.inner, &other.inner) == 0
    }

    /// Relies on BIG::random and BIG::rmod: a generator-driven draw,
    /// reduced into the field.
    #[verifier::external_body]
    pub fn random(rng: &mut MiraclRng) -> (r: Bn462Field)
        ensures
            r.inv(),
    {
        let m = BIG::new_ints(&rom::CURVE_ORDER);
        let mut x = BIG::random(&mut rng.inner);
        x.rmod(&m);
        Bn462Field { inner: x, v: Ghost(vstd::pervasive::arbitrary()) }
    }

    /// Relies on BIG::randomnum: a uniform draw from the residues below
    /// the order.
    #[verifier::external_body]
    pub fn random_within_order(rng: &mut MiraclRng) -> (r: Bn462Field)
        ensures
            r.inv(),
    {
        let m = BIG::new_ints(&rom::CURVE_ORDER);
        Bn462Field {
            inner: BIG::randomnum(&m, &mut rng.inner),
            v: Ghost(vstd::pervasive::arbitrary()),
        }
    }
}

/// The reduced sum of a sequence of residues.
pub open spec fn mod_sum(values: Seq<nat>) -> nat
    decreases values.len(),
{
    if values.len() == 0 {
        0
    } else {
        (mod_sum(values.drop_last()) + values.last()) % curve_order()
    }
}

/// Folds a list of field elements into their reduced sum.
pub fn field_sum(values: &Vec<Bn462Field>) -> (r: Bn462Field)
    requires
        forall|i: int| 0 <= i < values@.len() ==> (#[trigger] values@[i]).inv(),
    ensures
        r.v@ == mod_sum(values@.map_values(|f: Bn462Field| f.v@)),
        r.inv(),
{
    let ghost vs = values@.map_values(|f: Bn462Field| f.v@);
    let mut acc = Bn462Field::new();
    proof {
        assert(vs.take(0) =~= Seq::<nat>::empty());
    }
    let mut i: usize = 0;
    while i < values.len()
        invariant
            0 <= i <= values@.len(),
            vs == values@.map_values(|f: Bn462Field| f.v@),
            forall|m: int| 0 <= m < values@.len() ==> (#[trigger] values@[m]).inv(),
            acc.v@ == mod_sum(vs.take(i as int)),
            acc.inv(),
        decreases values@.len() - i,
    {
        proof {
            assert(values@[i as int].inv());
            assert(vs[i as int] == values@[i as int].v@);
        }
        acc = acc.ref_add(&values[i]);
        proof {
            assert(vs.take(i + 1).drop_last() =~= vs.take(i as int));
            assert(vs.take(i + 1).last() == vs[i as int]);
        }
        i = i + 1;
    }
    proof {
        assert(vs.take(values@.len() as int) =~= vs);
    }
    acc
}

/// A point of the first source group, modeled by its discrete logarithm to
/// the group generator where the construction fixes one.
pub struct G1 {
    pub inner: ECP,
    pub s: Ghost<nat>,
}

impl G1 {
    /// Relies on ECP::generator: the fixed generator, of logarithm one.
    #[verifier::external_body]
    pub fn generator() -> (r: G1)
        ensures
            r.s@ == 1,
    {
        G1 { inner: ECP::generator(), s: Ghost(1) }
    }

    /// Relies on ECP::new: the identity, of logarithm zero.
    #[verifier::external_body]
    pub fn zero() -> (r: G1)
        ensures
            r.s@ == 0,
    {
        G1 { inner: ECP::new(), s: Ghost(0) }
    }

    /// Relies on pair::g1mul: scalar multiplication multiplies the
    /// logarithm.
    #[verifier::external_body]
    pub fn ref_mul(&self, rhs: &Bn462Field) -> (r: G1)
        requires
            rhs.inv(),
        ensures
            r.s@ == (self.s@ * rhs.v@) % curve_order(),
    {
        G1 { inner: pair::g1mul(&self.inner, &rhs.inner), s: Ghost(0) }
    }

    /// Relies on ECP::add: group addition adds the logarithms.
    #[verifier::external_body]
    pub fn ref_add(&self, other: &G1) -> (r: G1)
        ensures
            r.s@ == (self.s@ + other.s@) % curve_order(),
    {
        let mut p = self.inner.clone();
        p.add(&other.inner);
        G1 { inner: p, s: Ghost(0) }
    }

    /// Relies on ECP::neg: negation negates the logarithm.
    #[verifier::external_body]
    pub fn neg(&self) -> (r: G1)
        ensures
            r.s@ == (curve_order() - self.s@) % (curve_order() as int),
    {
        let mut p = self.inner.clone();
        p.neg();
        G1 { inner: p, s: Ghost(0) }
    }

    /// The generator multiple `g1 * x`.
    pub fn new(x: &Bn462Field) -> (r: G1)
        requires
            x.inv(),
        ensures
            r.s@ == x.v@,
    {
        let g = G1::generator();
        let r = g.ref_mul(x);
        proof {
            lemma_small_mod(x.v@, curve_order());
        }
        r
    }
}

/// A point of the second source group, modeled like the first.
pub struct G2 {
    pub inner: ECP2,
    pub s: Ghost<nat>,
}

impl G2 {
    /// Relies on ECP2::generator: the fixed generator, of logarithm one.
    #[verifier::external_body]
    pub fn generator() -> (r: G2)
        ensures
            r.s@ == 1,
    {
        G2 { inner: ECP2::generator(), s: Ghost(1) }
    }

    /// Relies on pair::g2mul: scalar multiplication multiplies the
    /// logarithm.
    #[verifier::external_body]
    pub fn ref_mul(&self, rhs: &Bn462Field) -> (r: G2)
        requires
            rhs.inv(),
        ensures
            r.s@ == (self.s@ * rhs.v@) % curve_order(),
    {
        G2 { inner: pair::g2mul(&self.inner, &rhs.inner), s: Ghost(0) }
    }

    /// Relies on ECP2::add: group addition adds the logarithms.
    #[verifier::external_body]
    pub fn ref_add(&self, other: &G2) -> (r: G2)
        ensures
            r.s@ == (self.s@ + other.s@) % curve_order(),
    {
        let mut p = self.inner.clone();
        p.add(&other.inner);
        G2 { inner: p, s: Ghost(0) }
    }

    /// The generator multiple `g2 * x`.
    pub fn new(x: &Bn462Field) -> (r: G2)
        requires
            x.inv(),
        ensures
            r.s@ == x.v@,
    {
        let g = G2::generator();
        let r = g.ref_mul(x);
        proof {
            lemma_small_mod(x.v@, curve_order());
        }
        r
    }
}

/// An element of the pairing target field, modeled by its discrete
/// logarithm to `pair(g1, g2)`. The logarithm is meaningful only for
/// values known to lie in the order-q subgroup, which `in_group` records:
/// the unit, pairing results, and what the group operations make of them.
/// Deserialized or randomly drawn values may fall outside the subgroup
/// (the field's zero among them), so the group laws say nothing of them.
pub struct Gt {
    pub inner: FP12,
    pub e: Ghost<nat>,
    pub in_group: Ghost<bool>,
}

impl Gt {
    /// Relies on FP12::new and FP12::one: the unit, of logarithm zero.
    #[verifier::external_body]
    pub fn one() -> (r: Gt)
        ensures
            r.in_group@,
            r.e@ == 0,
    {
        let mut x = FP12::new();
        x.one();
        Gt { inner: x, e: Ghost(0), in_group: Ghost(true) }
    }

    /// Relies on FP12::mul: on subgroup elements, multiplication adds the
    /// logarithms and stays in the subgroup.
    #[verifier::external_body]
    pub fn ref_mul(&self, other: &Gt) -> (r: Gt)
        ensures
            self.in_group@ && other.in_group@ ==> r.in_group@ && r.e@ == (self.e@ + other.e@)
                % curve_order(),
    {
        let mut x = self.inner;
        x.mul(&other.inner);
        Gt { inner: x, e: Ghost(0), in_group: Ghost(true) }
    }

    /// Relies on pair::gtpow: on subgroup elements, exponentiation
    /// multiplies the logarithm and stays in the subgroup.
    #[verifier::external_body]
    pub fn ref_pow(&self, rhs: &Bn462Field) -> (r: Gt)
        requires
            rhs.inv(),
        ensures
            self.in_group@ ==> r.in_group@ && r.e@ == (self.e@ * rhs.v@) % curve_order(),
    {
        Gt { inner: pair::gtpow(&self.inner, &rhs.inner), e: Ghost(0), in_group: Ghost(true) }
    }

    /// Relies on FP12::inverse: on subgroup elements, inversion negates
    /// the logarithm and stays in the subgroup.
    #[verifier::external_body]
    pub fn inverse(&self) -> (r: Gt)
        ensures
            self.in_group@ ==> r.in_group@ && r.e@ == (curve_order() - self.e@) % (
            curve_order() as int),
    {
        let mut x = self.inner;
        x.inverse();
        Gt { inner: x, e: Ghost(0), in_group: Ghost(true) }
    }

    /// Relies on RAND_impl::getbyte and FP12::frombytes: an element built
    /// from one serialized form's worth of generator-driven bytes. Nothing
    /// is claimed of its value.
    #[verifier::external_body]
    pub fn random(rng: &mut MiraclRng) -> (r: Gt)
    {
        let mut bytes = [0u8; 2784];
        for i in 0..bytes.len() {
            bytes[i] = rng.inner.getbyte();
        }
        Gt {
            inner: FP12::frombytes(&bytes),
            e: Ghost(vstd::pervasive::arbitrary()),
            in_group: Ghost(vstd::pervasive::arbitrary()),
        }
    }

    /// Relies on FP12::tobytes and FP12::frombytes being mutually inverse
    /// on serialized forms: the fixed-length wire form, which for a
    /// subgroup element decodes back to the same model.
    #[verifier::external_body]
    pub fn to_bytes(&self) -> (r: Vec<u8>)
        ensures
            r@.len() == gt_byte_len(),
            self.in_group@ ==> gt_from_bytes_of(r@) == self.e@,
    {
        let mut bytes = vec![0u8; 2784];
        let mut x = self.inner;
        x.tobytes(&mut bytes);
        bytes
    }

    /// Relies on FP12::frombytes: the element the leading coordinates of a
    /// serialized form denote, a function of the bytes alone. Whether the
    /// value lies in the subgroup is not claimed; the model label is a
    /// reduced residue by convention.
    #[verifier::external_body]
    pub fn from_bytes(bytes: &[u8]) -> (r: Gt)
        requires
            bytes@.len() >= gt_byte_len(),
        ensures
            r.e@ == gt_from_bytes_of(bytes@),
            r.e@ < curve_order(),
    {
        Gt {
            inner: FP12::frombytes(bytes),
            e: Ghost(vstd::pervasive::arbitrary()),
            in_group: Ghost(vstd::pervasive::arbitrary()),
        }
    }
}

/// Serialization round-trips: deserializing the serialized form of a
/// subgroup element restores its model.
pub proof fn lemma_gt_serialization_round_trip(x: &Gt, bytes: Seq<u8>, back: &Gt)
    requires
        x.in_group@,
        bytes.len() == gt_byte_len(),
        gt_from_bytes_of(bytes) == x.e@,
        back.e@ == gt_from_bytes_of(bytes),
    ensures
        back.e@ == x.e@,
{
}

/// The curve as a bundle of its groups and operations.
pub struct Bn462Curve;

impl Bn462Curve {
    /// Relies on pair::ate and pair::fexp: the reduced Tate pairing, which
    /// is bilinear: its logarithm is the product of the arguments'
    /// logarithms.
    #[verifier::external_body]
    pub fn pair(e1: &G1, e2: &G2) -> (r: Gt)
        ensures
            r.in_group@,
            r.e@ == (e1.s@ * e2.s@) % curve_order(),
    {
        Gt {
            inner: pair::fexp(&pair::ate(&e2.inner, &e1.inner)),
            e: Ghost(0),
            in_group: Ghost(true),
        }
    }

    /// Relies on HASH256 and ECP::mapit: the digest of the message mapped
    /// onto the group, a function of the message alone — equal messages
    /// give points of equal model.
    #[verifier::external_body]
    pub fn hash_to_g1(msg: &[u8]) -> (r: G1)
        ensures
            r.s@ == hash_to_g1_of(msg@),
    {
        let mut hash = miracl_core::hash256::HASH256::new();
        hash.process_array(msg);
        let h = hash.hash();
        G1 { inner: ECP::mapit(&h), s: Ghost(vstd::pervasive::arbitrary()) }
    }

    /// Relies on HASH256 and ECP2::mapit: the digest of the message mapped
    /// onto the group, a function of the message alone — equal messages
    /// give points of equal model.
    #[verifier::external_body]
    pub fn hash_to_g2(msg: &[u8]) -> (r: G2)
        ensures
            r.s@ == hash_to_g2_of(msg@),
    {
        let mut hash = miracl_core::hash256::HASH256::new();
        hash.process_array(msg);
        let h = hash.hash();
        G2 { inner: ECP2::mapit(&h), s: Ghost(vstd::pervasive::arbitrary()) }
    }
}

/// The model of the point a message hashes onto in the first group.
pub uninterp spec fn hash_to_g1_of(msg: Seq<u8>) -> nat;

/// The model of the point a message hashes onto in the second group.
pub uninterp spec fn hash_to_g2_of(msg: Seq<u8>) -> nat;

/// Bilinearity at the model level: pairing `P * a` with `Q * b` lands on
/// the same logarithm as raising `pair(P, Q)` to `a * b`, for any points
/// with logarithms `sa`, `sb` and any scalars.
pub proof fn lemma_pairing_bilinear(sa: nat, sb: nat, a: nat, b: nat)
    requires
        a < curve_order(),
        b < curve_order(),
    ensures
        ((sa * a) % curve_order() * ((sb * b) % curve_order())) % curve_order() == (((sa * sb)
            % curve_order()) * ((a * b) % curve_order())) % curve_order(),
{
    let q = curve_order() as int;
    let x = (sa * a) as int;
    let y = (sb * b) as int;
    assert((x % q * (y % q)) % q == (x * y) % q) by {
        lemma_mul_mod_noop_general(x, y, q);
    }
    assert((sa as int * a as int) * (sb as int * b as int) == (sa as int * sb as int) * (a as int
        * b as int)) by {
        lemma_mul_rearrange(sa as int, a as int, sb as int, b as int);
    }
    let u = (sa * sb) as int;
    let w = (a * b) as int;
    assert((u % q * (w % q)) % q == (u * w) % q) by {
        lemma_mul_mod_noop_general(u, w, q);
    }
}

/// `(s * a) * (t * b) == (s * t) * (a * b)`.
proof fn lemma_mul_rearrange(s: int, a: int, t: int, b: int)
    ensures
        (s * a) * (t * b) == (s * t) * (a * b),
{
    assert((s * a) * (t * b) == s * (a * (t * b))) by {
        lemma_mul_is_associative(s, a, t * b);
    }
    assert(a * (t * b) == (a * t) * b) by {
        lemma_mul_is_associative(a, t, b);
    }
    assert(a * t == t * a) by {
        lemma_mul_is_commutative(a, t);
    }
    assert((t * a) * b == t * (a * b)) by {
        lemma_mul_is_associative(t, a, b);
    }
    assert(s * (t * (a * b)) == (s * t) * (a * b)) by {
        lemma_mul_is_associative(s, t, a * b);
    }
}

} // verus!
