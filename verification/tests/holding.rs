use positions::naive_position::NaivePosition;
use positions::num::PositionNum;
use positions::rational::Rational;

fn r(n: i64) -> Rational {
    Rational::from_integer(n)
}

fn h(price: i64, size: i64, value: i64) -> NaivePosition<Rational> {
    NaivePosition::new(r(price), r(size), r(value))
}

#[test]
fn merge_same_direction_averages_price() {
    let m = h(4, 1, 0).add(h(2, 2, 0)).add(h(1, 4, 0));
    assert!(m.price.equals(&Rational::new(12, 7).unwrap()));
    assert!(m.size.equals(&r(7)));
    assert!(m.value.is_zero());
}
