use gf_commit::commit::{
    check_relation, commit, lift_message, prepare, row_product, sample_matrix, Limb,
    RelationError, ROWS,
};
use gf_commit::field::{fe_xor, lift_byte, mul_byte, Fe};
use rand::rngs::StdRng;
use rand::SeedableRng;

fn flip(a: Fe, k: usize) -> Fe {
    if k < 64 {
        Fe { lo: a.lo ^ (1u64 << k), hi: a.hi }
    } else {
        Fe { lo: a.lo, hi: a.hi ^ (1u64 << (k - 64)) }
    }
}

#[test]
fn lift_message_lifts_each_byte() {
    let v = lift_message(&[0u8, 7, 255]);
    assert_eq!(v, vec![Fe { lo: 0, hi: 0 }, Fe { lo: 7, hi: 0 }, Fe { lo: 255, hi: 0 }]);
    assert!(lift_message(&[]).is_empty());
}

#[test]
fn row_product_sums_byte_products() {
    let row = vec![Fe { lo: 3, hi: 1 }, Fe { lo: 0, hi: 1 << 63 }];
    let input = lift_message(&[2u8, 2]);
    let expected = fe_xor(mul_byte(row[0], input[0]), mul_byte(row[1], input[1]));
    assert_eq!(row_product(&row, &input), expected);
    // (x^64 + x + 1) * x + x^127 * x = x^65 + x^2 + x + x^7 + x^2 + x + 1
    assert_eq!(expected, Fe { lo: 0x81, hi: 2 });
    assert_eq!(row_product(&vec![], &vec![]), Fe { lo: 0, hi: 0 });
}

#[test]
fn small_relation_accepts_honest_and_rejects_any_flip() {
    let a00 = Fe { lo: 0x0123_4567_89ab_cdef, hi: 0xfedc_ba98_7654_3210 };
    let i0: u8 = 0xa5;
    let a = vec![vec![a00]];
    let input = vec![lift_byte(i0)];
    let h0 = mul_byte(a00, lift_byte(i0));
    assert_eq!(commit(&a, &input), vec![h0]);
    assert_eq!(check_relation(&a, &input, &vec![h0]), Ok(()));
    for k in 0..128 {
        let bad = vec![flip(h0, k)];
        let limb = if k < 64 { Limb::Lo } else { Limb::Hi };
        assert_eq!(check_relation(&a, &input, &bad), Err(RelationError { row: 0, limb }));
    }
}

#[test]
fn session_data_for_short_message() {
    let mut rng = StdRng::seed_from_u64(42);
    let message: Vec<u8> = (0u8..16).map(|b| b.wrapping_mul(37)).collect();
    let inst = prepare(&mut rng, &message);
    assert_eq!(inst.a.len(), ROWS);
    assert_eq!(ROWS, 128);
    assert!(inst.a.iter().all(|row| row.len() == 16));
    assert_eq!(inst.input, lift_message(&message));
    assert_eq!(inst.h.len(), 128);
    assert_eq!(check_relation(&inst.a, &inst.input, &inst.h), Ok(()));
    let mut bad = inst.h.clone();
    bad[77] = flip(bad[77], 100);
    assert_eq!(
        check_relation(&inst.a, &inst.input, &bad),
        Err(RelationError { row: 77, limb: Limb::Hi })
    );
}

#[test]
fn check_relation_reports_first_bad_row() {
    let mut rng = StdRng::seed_from_u64(7);
    let a = sample_matrix(&mut rng, 4, 3);
    let input = lift_message(&[1u8, 2, 3]);
    let mut h = commit(&a, &input);
    h[2] = flip(h[2], 5);
    h[3] = flip(h[3], 70);
    assert_eq!(check_relation(&a, &input, &h), Err(RelationError { row: 2, limb: Limb::Lo }));
}

#[test]
fn sample_matrix_has_requested_shape() {
    let mut rng = StdRng::seed_from_u64(9);
    let a = sample_matrix(&mut rng, 3, 5);
    assert_eq!(a.len(), 3);
    assert!(a.iter().all(|row| row.len() == 5));
    let b = sample_matrix(&mut rng, 0, 5);
    assert!(b.is_empty());
    let mut again = StdRng::seed_from_u64(9);
    assert_eq!(sample_matrix(&mut again, 3, 5), a);
}

#[test]
fn empty_message_gives_zero_commitment() {
    let mut rng = StdRng::seed_from_u64(11);
    let inst = prepare(&mut rng, &[]);
    assert_eq!(inst.h.len(), 128);
    assert!(inst.h.iter().all(|e| *e == Fe { lo: 0, hi: 0 }));
}
