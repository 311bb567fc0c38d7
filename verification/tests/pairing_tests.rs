use nebula_backbone::pairing::Bn462Curve;
use nebula_backbone::pairing::Bn462Field;
use nebula_backbone::pairing::G1;
use nebula_backbone::pairing::G2;
use nebula_backbone::pairing::MiraclRng;

fn seeded_rng() -> MiraclRng {
    let mut rng = MiraclRng::new();
    let seed: Vec<u8> = (0u16..100).map(|i| (i * 7 + 3) as u8).collect();
    rng.seed(&seed);
    rng
}

#[test]
fn field_arithmetic_matches_small_integers() {
    let five = Bn462Field::new_int(5);
    let seven = Bn462Field::new_int(7);

    assert!(five.ref_add(&seven).equals(&Bn462Field::new_int(12)));
    assert!(five.ref_mul(&seven).equals(&Bn462Field::new_int(35)));
    assert!(seven.ref_sub(&five).equals(&Bn462Field::new_int(2)));
    assert!(Bn462Field::new().ref_add(&five).equals(&five));
    assert!(Bn462Field::one().ref_mul(&seven).equals(&seven));
}

#[test]
fn division_multiplies_back_to_the_dividend() {
    let ten = Bn462Field::new_int(10);
    let four = Bn462Field::new_int(4);

    let q = ten.ref_div(&four);
    assert!(q.ref_mul(&four).equals(&ten));

    let inv = four.inverse();
    assert!(inv.ref_mul(&four).equals(&Bn462Field::one()));
}

#[test]
fn subtraction_handles_zero_and_wraps() {
    let five = Bn462Field::new_int(5);
    let zero = Bn462Field::new();

    assert!(five.ref_sub(&zero).equals(&five));
    // 0 - 5 + 5 wraps around to 0
    assert!(zero.ref_sub(&five).ref_add(&five).equals(&zero));
}

#[test]
fn exponentiation_matches_repeated_multiplication() {
    let three = Bn462Field::new_int(3);
    let four = Bn462Field::new_int(4);

    let cubed_and_once = three.ref_pow(&four);
    assert!(cubed_and_once.equals(&Bn462Field::new_int(81)));
}

#[test]
fn random_field_elements_reduce_and_differ() {
    let mut rng = seeded_rng();
    let a = Bn462Field::random_within_order(&mut rng);
    let b = Bn462Field::random_within_order(&mut rng);
    let c = Bn462Field::random(&mut rng);

    // two successive draws of a seeded generator are overwhelmingly distinct
    assert!(!a.equals(&b));
    let _ = c;
}

#[test]
fn limb_arrays_spell_out_their_value() {
    // one full limb: 2^60 == 2^30 * 2^30
    let two_sixty = Bn462Field::new_ints(&[0, 1, 0, 0, 0, 0, 0, 0]);
    let half = Bn462Field::new_int(1 << 30);
    assert!(two_sixty.equals(&half.ref_mul(&half)));

    let five = Bn462Field::new_ints(&[5, 0, 0, 0, 0, 0, 0, 0]);
    assert!(five.equals(&Bn462Field::new_int(5)));

    // the raw order value is constructible, though it is no residue
    let _q = Bn462Field::order();
}

#[test]
fn summation_reduces_like_repeated_addition() {
    let values = vec![Bn462Field::new_int(3), Bn462Field::new_int(4), Bn462Field::new_int(5)];
    let total = nebula_backbone::pairing::field_sum(&values);
    assert!(total.equals(&Bn462Field::new_int(12)));

    let empty: Vec<Bn462Field> = Vec::new();
    assert!(nebula_backbone::pairing::field_sum(&empty).equals(&Bn462Field::new()));
}

#[test]
fn pairing_is_bilinear() {
    let mut rng = seeded_rng();
    let a = Bn462Field::random_within_order(&mut rng);
    let b = Bn462Field::random_within_order(&mut rng);

    let g1 = G1::generator();
    let g2 = G2::generator();

    let lhs = Bn462Curve::pair(&g1.ref_mul(&a), &g2.ref_mul(&b));
    let rhs = Bn462Curve::pair(&g1, &g2).ref_pow(&a.ref_mul(&b));

    assert_eq!(lhs.to_bytes(), rhs.to_bytes());
}

#[test]
fn pairing_splits_over_g1_addition() {
    let a = Bn462Field::new_int(11);
    let b = Bn462Field::new_int(23);

    let g2 = G2::generator();
    let p = G1::new(&a);
    let q = G1::new(&b);

    let joint = Bn462Curve::pair(&p.ref_add(&q), &g2);
    let split = Bn462Curve::pair(&p, &g2).ref_mul(&Bn462Curve::pair(&q, &g2));

    assert_eq!(joint.to_bytes(), split.to_bytes());
}

#[test]
fn gt_serialization_round_trips() {
    let mut rng = seeded_rng();
    let a = Bn462Field::random_within_order(&mut rng);
    let x = Bn462Curve::pair(&G1::new(&a), &G2::generator());

    let bytes = x.to_bytes();
    assert_eq!(bytes.len(), 2784);
    let back = nebula_backbone::pairing::Gt::from_bytes(&bytes);
    assert_eq!(back.to_bytes(), bytes);
}

#[test]
fn hashing_to_the_curve_is_deterministic() {
    let p1 = Bn462Curve::hash_to_g1(b"attribute: role=FRONTEND");
    let p2 = Bn462Curve::hash_to_g1(b"attribute: role=FRONTEND");
    let g2a = Bn462Curve::hash_to_g2(b"another message");
    let g2b = Bn462Curve::hash_to_g2(b"another message");

    let t1 = Bn462Curve::pair(&p1, &g2a);
    let t2 = Bn462Curve::pair(&p2, &g2b);
    assert_eq!(t1.to_bytes(), t2.to_bytes());
}
