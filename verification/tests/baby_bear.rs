use p3_baby_bear::BabyBear;
use p3_field::{Field, PrimeField32};
use valida_air::expr::{Expr, Row, Var};
use valida_air::field::{add_mod, inverse, mul_mod, sub_mod};

const P: u64 = 2013265921;

fn samples() -> [u32; 8] {
    [0, 1, 2, 255, 65536, 123456789, 2013265919, 2013265920]
}

#[test]
fn baby_bear_has_the_modulus_of_the_tests() {
    assert_eq!(BabyBear::ORDER_U32 as u64, P);
}

#[test]
fn baby_bear_agrees_on_sums_differences_and_products() {
    for a in samples() {
        for b in samples() {
            let (x, y) = (BabyBear::new(a), BabyBear::new(b));
            assert_eq!(add_mod(a as u64, b as u64, P), (x + y).as_canonical_u32() as u64);
            assert_eq!(sub_mod(a as u64, b as u64, P), (x - y).as_canonical_u32() as u64);
            assert_eq!(mul_mod(a as u64, b as u64, P), (x * y).as_canonical_u32() as u64);
        }
    }
}

#[test]
fn baby_bear_agrees_on_inverses() {
    for a in samples() {
        let expected = BabyBear::new(a).try_inverse().map(|y| y.as_canonical_u32() as u64);
        assert_eq!(inverse(a as u64, P), expected);
    }
}

#[test]
fn baby_bear_agrees_on_a_polynomial() {
    let x = Expr::var(Var { row: Row::Local, column: 0 });
    let y = Expr::var(Var { row: Row::Next, column: 0 });
    // x * x - 3 * y + 7
    let e = x.clone().times(x).minus(Expr::from_canonical_u32(3).times(y)).plus(
        Expr::from_canonical_u32(7),
    );
    for a in samples() {
        for b in samples() {
            let (u, v) = (BabyBear::new(a), BabyBear::new(b));
            let expected = u * u - BabyBear::new(3) * v + BabyBear::new(7);
            assert_eq!(
                e.evaluate(&[a as u64], &[b as u64], P),
                Some(expected.as_canonical_u32() as u64)
            );
        }
    }
}
