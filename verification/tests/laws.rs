use positions::convert::{IntoNaivePosition, ToNaivePosition, Reversed};
use positions::naive_position::NaivePosition;
use positions::num::PositionNum;
use positions::rational::Rational;

fn r(n: i64) -> Rational {
    Rational::from_integer(n)
}

fn d(numer: i64, denom: i64) -> Rational {
    Rational::new(numer, denom).unwrap()
}

fn h(price: i64, size: i64, value: i64) -> NaivePosition<Rational> {
    NaivePosition::new(r(price), r(size), r(value))
}

fn samples() -> Vec<NaivePosition<Rational>> {
    vec![
        h(1, 0, 0),
        h(3, 0, 5),
        h(4, 1, 0),
        h(2, 2, 7),
        h(7, -1, 1),
        h(5, -2, -3),
        h(9, 3, 2),
        NaivePosition::new(d(3, 2), d(-7, 3), d(1, 5)),
    ]
}

#[test]
fn merge_is_commutative_up_to_equivalence() {
    for a in samples() {
        for b in samples() {
            assert_eq!(a.clone().add(b.clone()), b.clone().add(a.clone()));
        }
    }
}

#[test]
fn merge_is_associative_up_to_equivalence() {
    for a in samples() {
        for b in samples() {
            for c in samples() {
                let left = a.clone().add(b.clone()).add(c.clone());
                let right = a.clone().add(b.clone().add(c.clone()));
                assert_eq!(left, right);
            }
        }
    }
}

#[test]
fn merge_is_not_commutative_field_by_field() {
    let a = h(5, 1, 7);
    let b = h(7, -1, 0);
    let ab = a.clone().add(b.clone());
    let ba = b.add(a);
    assert_eq!(ab, ba);
    // On a tie of sizes the left operand leads and keeps its price.
    assert_eq!(ab.price, r(5));
    assert_eq!(ba.price, r(7));
    assert_eq!(ab.value, r(9));
    assert_eq!(ba.value, r(9));
}

#[test]
fn merge_rules() {
    // A flat operand only adds its value.
    let m = h(5, 2, 1).add(h(9, 0, 4));
    assert_eq!((m.price, m.size, m.value), (r(5), r(2), r(5)));
    // The same direction: the weighted average, nothing realized.
    let m = h(4, 1, 1).add(h(1, 3, 2));
    assert_eq!((m.price, m.size, m.value), (d(7, 4), r(4), r(3)));
    let m = h(4, -1, 1).add(h(1, -3, 2));
    assert_eq!((m.price, m.size, m.value), (d(7, 4), r(-4), r(3)));
    // A partial close realizes the difference on the smaller size.
    let m = h(10, 3, 0).add(h(12, -1, 0));
    assert_eq!((m.price, m.size, m.value), (r(10), r(2), r(2)));
    // A flip through zero goes on at the price of the larger operand.
    let m = h(10, 1, 0).add(h(12, -3, 0));
    assert_eq!((m.price, m.size, m.value), (r(12), r(-2), r(2)));
    // A full close.
    let m = h(10, 2, 1).add(h(13, -2, 0));
    assert_eq!((m.price, m.size, m.value), (r(10), r(0), r(7)));
}

#[test]
fn equivalence_is_not_equality_of_fields() {
    assert_eq!(h(5, 2, 8), h(1, 2, 0));
    assert_ne!(h(5, 2, 8), h(1, 2, 1));
    assert_eq!(h(5, 0, 8), h(1, 0, 8));
    assert_ne!(h(5, 0, 8), h(5, 0, 9));
    assert_ne!(h(5, 2, 8), h(5, 3, 8));
    assert!(h(5, 2, 8).equivalent(&h(1, 2, 0)));
}

#[test]
fn consume_folds_the_value_into_the_price() {
    let p = h(5, 2, 8).consumed().unwrap();
    assert_eq!((p.price, p.size, p.value), (r(1), r(2), r(0)));
    assert!(h(5, 0, 8).consumed().is_none());
    let mut flat = h(5, 0, 8);
    flat.consume();
    assert_eq!((flat.price, flat.size, flat.value), (r(5), r(0), r(8)));
}

#[test]
fn take_zeroes_the_value_and_keeps_price_and_size() {
    let mut p = h(5, 2, 8);
    let before = p.clone();
    assert_eq!(p.take(), r(8));
    assert_eq!((p.price.clone(), p.size.clone(), p.value.clone()), (r(5), r(2), r(0)));
    assert_ne!(p, before);
    assert_eq!(p.take(), r(0));
}

#[test]
fn identity_and_the_zero_of_a_fold() {
    let e: NaivePosition<Rational> = NaivePosition::default();
    assert_eq!((e.price.clone(), e.size.clone(), e.value.clone()), (r(1), r(0), r(0)));
    let z: NaivePosition<Rational> = NaivePosition::zero();
    assert_eq!(z, e);
    // A fold starts from size one, not from size zero.
    assert!(!e.is_zero());
    assert!(h(3, 1, 0).is_zero());
    assert!(!h(3, 1, 1).is_zero());
}

#[test]
fn converted_then_closed() {
    let y = r(17);
    for x in [r(0), r(3), d(-5, 2)] {
        for p in samples() {
            let plain = NaivePosition::new(p.price.clone(), p.size.clone(), r(0));
            let close = |q: &NaivePosition<Rational>| {
                q.clone().sub(NaivePosition::new(y.clone(), q.size.clone(), r(0))).value
            };
            assert_eq!(close(&plain.converted(x.clone())), close(&plain));
            assert_eq!(plain.converted(x.clone()), plain);
        }
    }
}

#[test]
fn conversions_by_reference() {
    assert_eq!(r(3).to_naive().unwrap(), h(1, 0, 3));
    assert_eq!((r(3), r(4)).to_naive().unwrap(), h(3, 4, 0));
    assert_eq!((r(3), r(4), r(5)).to_naive().unwrap(), h(3, 4, 5));
    assert_eq!(h(3, 4, 5).to_naive().unwrap(), h(3, 4, 5));
    assert_eq!(
        Reversed((r(4), r(2), r(1))).to_naive().unwrap(),
        NaivePosition::new(d(1, 4), r(-2), r(1))
    );
    assert!(Reversed((r(0), r(2))).to_naive().is_err());
    assert_eq!(h(3, 4, 5).into_naive().unwrap(), h(3, 4, 5));
    assert_eq!(
        Reversed(Reversed((r(4), r(2)))).into_naive().unwrap(),
        h(4, 2, 0)
    );
}

#[test]
fn rational_numbers() {
    assert!(Rational::new(1, 0).is_none());
    assert_eq!(d(2, 4), d(1, 2));
    assert_eq!(d(1, 2).add(&d(1, 3)), d(5, 6));
    assert_eq!(d(1, 2).sub(&d(1, 3)), d(1, 6));
    assert_eq!(d(1, 2).mul(&d(2, 3)), d(1, 3));
    assert_eq!(d(1, 2).div(&d(1, 4)), r(2));
    assert_eq!(d(1, 2).neg(), d(-1, 2));
    assert_eq!(d(-1, 2).abs(), d(1, 2));
    assert_eq!(d(1, -2), d(-1, 2));
    assert!(d(-1, 2).is_negative() && !d(-1, 2).is_positive() && !d(-1, 2).is_zero());
    assert!(d(1, 2).is_positive() && !d(1, 2).is_negative());
    assert!(r(0).is_zero() && !r(0).is_positive() && !r(0).is_negative());
    assert!(r(1).is_one() && !r(2).is_one());
    assert!(Rational::zero().is_zero() && Rational::one().is_one());
    assert!(d(1, 3).at_most(&d(1, 2)) && !d(1, 2).at_most(&d(1, 3)) && r(1).at_most(&r(1)));
    assert!(d(1, 3).equals(&d(2, 6)) && !d(1, 3).equals(&d(1, 2)));
    assert_eq!(d(1, 3).duplicate(), d(1, 3));
    assert_eq!(d(6, 4).to_text(), "3/2");
    assert_eq!(r(-5).to_text(), "-5");
}

#[test]
fn rational_numbers_from_text() {
    assert_eq!(Rational::parse("3/2"), Some(d(3, 2)));
    assert_eq!(Rational::parse("-6/4"), Some(d(-3, 2)));
    assert_eq!(Rational::parse("17"), Some(r(17)));
    assert_eq!(Rational::parse("340282366920938463463374607431768211456/2").map(|x| x.to_text()),
        Some("170141183460469231731687303715884105728".to_string()));
    assert_eq!(Rational::parse("1/0"), None);
    assert_eq!(Rational::parse("1.5"), None);
    assert_eq!(Rational::parse(""), None);
    for x in [d(3, 2), r(-5), r(0), d(-1, 7)] {
        assert_eq!(Rational::parse(&x.to_text()), Some(x));
    }
}
