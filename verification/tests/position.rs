use positions::asset::Asset;
use positions::convert::{IntoNaivePosition, InvalidReversedPrice, Reversed};
use positions::instrument::Instrument;
use positions::naive_position::NaivePosition;
use positions::num::PositionNum;
use positions::position::{MismatchedInstrument, Position};
use positions::rational::Rational;

fn r(n: i64) -> Rational {
    Rational::from_integer(n)
}

fn d(numer: i64, denom: i64) -> Rational {
    Rational::new(numer, denom).unwrap()
}

fn btc_usdt() -> Instrument {
    Instrument::spot(&Asset::btc(), &Asset::usdt())
}

fn check_normal() {
    let mut p = Position::new(btc_usdt(), r(0)).unwrap();
    p.add_assign(d(15, 10)).unwrap();
    p.add_assign((d(23, 10), d(25, 10))).unwrap();
    p.add_assign((d(73, 10), d(34, 10))).unwrap();
    p.add_assign((d(37, 10), d(-78, 10), r(12))).unwrap();
    // Price and size are exact. The value is 4.76 exactly, which is the 4.7
    // of a decimal type that keeps one digit.
    assert_eq!(p, Position::new(btc_usdt(), (d(37, 10), d(-19, 10), d(476, 100))).unwrap());
    let off = p.value().sub(&d(47, 10)).abs();
    assert!(off.at_most(&d(1, 10)) && !off.equals(&d(1, 10)));
}

#[test]
fn position_normal() {
    check_normal();
}

#[test]
fn mod_normal() {
    check_normal();
}

fn check_reversed() {
    let usdt_btc = Instrument::spot(&Asset::usdt(), &Asset::btc()).prefer_reversed(true);
    let mut p = Position::new(usdt_btc, r(0)).unwrap();
    p.add_assign(Reversed(d(15, 10))).unwrap();
    p.add_assign(Reversed((r(3), r(2)))).unwrap();
    p.add_assign(Reversed((r(4), r(1)))).unwrap();
    p.add_assign(Reversed((r(2), r(-7), d(-14, 10)))).unwrap();
    assert_eq!(*p.value(), r(-29).div(&r(60)));
}

#[test]
fn position_reversed() {
    check_reversed();
}

#[test]
fn mod_reversed() {
    check_reversed();
}

#[test]
fn average_cost_normal() {
    let mut p = Position::new(btc_usdt(), (r(4), r(1))).unwrap();
    p.add_assign((r(2), r(2))).unwrap();
    p.add_assign((r(1), r(4))).unwrap();
    assert_eq!(p.price(), Some(d(12, 7)));
    assert_eq!(p.size(), r(7));
    assert_eq!(*p.value(), r(0));
}

#[test]
fn average_cost_reversed() {
    let inst = btc_usdt().prefer_reversed(true);
    let mut p = Position::new(inst, Reversed((r(2), r(4)))).unwrap();
    p.add_assign(Reversed((r(4), r(4)))).unwrap();
    p.add_assign(Reversed((r(8), r(8)))).unwrap();
    assert_eq!(p.price(), Some(r(4)));
    assert_eq!(p.size(), r(16));
}

#[test]
fn close_position_normal() {
    let h1 = NaivePosition::new(r(1), r(2), r(0));
    let h2 = NaivePosition::new(r(2), r(3), r(0));
    let h3 = NaivePosition::new(d(15, 10), r(-4), r(0));
    let sum = h1.add(h2).add(h3);
    assert_eq!(sum, NaivePosition::new(d(16, 10), r(1), d(-4, 10)));
    assert_eq!(sum.size, r(1));
}

#[test]
fn reversed_round_trip() {
    let inst = btc_usdt().prefer_reversed(true);
    let p = Position::new(inst, Reversed((r(2), r(2), r(3)))).unwrap();
    assert_eq!(p.price(), Some(r(2)));
    assert_eq!(p.size(), r(2));
    assert_eq!(*p.value(), r(3));
    assert_eq!(p.as_naive().price, d(1, 2));
    assert_eq!(p.as_naive().size, r(-2));
    assert_eq!(p.as_naive().value, r(3));
}

#[test]
fn reversed_zero_price_is_refused() {
    assert_eq!(Reversed((r(0), r(1))).into_naive().unwrap_err(), InvalidReversedPrice);
    assert_eq!(
        Position::new(btc_usdt(), Reversed((r(0), r(1), r(2)))).unwrap_err(),
        InvalidReversedPrice
    );
    let mut p = Position::new(btc_usdt(), (r(5), r(1))).unwrap();
    assert_eq!(p.add_assign(Reversed((r(0), r(1)))), Err(InvalidReversedPrice));
    assert_eq!(p.sub_assign(Reversed((r(0), r(1)))), Err(InvalidReversedPrice));
    assert_eq!(p, Position::new(btc_usdt(), (r(5), r(1))).unwrap());
    // A bare value has price one, and so has its reversed form.
    assert_eq!(
        Reversed(r(7)).into_naive().unwrap(),
        NaivePosition::new(r(1), r(0), r(7))
    );
    assert_eq!(r(7).reversed().0, r(7));
}

#[test]
fn shown_price_of_a_reversed_position_at_price_zero_is_absent() {
    let inst = btc_usdt().prefer_reversed(true);
    let p = Position::new(inst, (r(0), r(3))).unwrap();
    assert_eq!(p.price(), None);
    assert_eq!(p.size(), r(-3));
    let q = Position::new(btc_usdt(), (r(0), r(3))).unwrap();
    assert_eq!(q.price(), Some(r(0)));
    assert_eq!(q.size(), r(3));
}

#[test]
fn closed_is_aware_of_the_reversed_form() {
    let p = Position::new(btc_usdt(), (r(10), r(2), r(1))).unwrap();
    assert_eq!(p.closed(&r(13)), Ok(r(7)));
    assert_eq!(p.closed(&r(0)), Ok(r(-19)));
    // Closing leaves the position as it was.
    assert_eq!(p, Position::new(btc_usdt(), (r(10), r(2), r(1))).unwrap());

    let inst = btc_usdt().prefer_reversed(true);
    let q = Position::new(inst, Reversed((r(4), r(8), r(1)))).unwrap();
    // Canonical (1/4, -8, 1), closed at canonical 1/2: 1 + (1/2 - 1/4) * -8.
    assert_eq!(q.closed(&r(2)), Ok(r(-1)));
    assert_eq!(q.closed(&r(0)), Err(InvalidReversedPrice));
}

#[test]
fn notional_value_is_signed() {
    let p = Position::new(btc_usdt(), (r(10), r(-2), r(1))).unwrap();
    assert_eq!(p.notional_value(), r(-20));
}

#[test]
fn merge_of_positions() {
    let mut a = Position::new(btc_usdt(), (r(10), r(2))).unwrap();
    let mut b = Position::new(btc_usdt(), (r(20), r(2), r(3))).unwrap();
    a.merge(&mut b);
    assert_eq!(a.as_naive().price, r(15));
    assert_eq!(a.as_naive().size, r(4));
    assert_eq!(a.as_naive().value, r(3));
    assert_eq!(b.as_naive().price, r(1));
    assert!(b.is_zero());

    let eth_usdt = Instrument::spot(&Asset::eth(), &Asset::usdt());
    let mut c = Position::new(eth_usdt.clone(), (r(7), r(1))).unwrap();
    a.merge(&mut c);
    assert_eq!(a.as_naive().size, r(4));
    assert_eq!(c, Position::new(eth_usdt, (r(7), r(1))).unwrap());
}

#[test]
fn take_after_a_full_close_leaves_a_zero_position() {
    let mut p = Position::new(btc_usdt(), (r(10), r(2))).unwrap();
    assert!(!p.is_zero());
    p.sub_assign((r(13), r(2))).unwrap();
    assert_eq!(p.as_naive().size, r(0));
    assert_eq!(*p.value(), r(6));
    assert!(!p.is_zero());
    let price = p.as_naive().price.clone();
    assert_eq!(p.take(), r(6));
    assert_eq!(*p.value(), r(0));
    assert_eq!(p.as_naive().price, price);
    assert_eq!(p.as_naive().size, r(0));
    assert!(p.is_zero());

    let mut open = Position::new(btc_usdt(), (r(10), r(2), r(5))).unwrap();
    assert_eq!(open.take(), r(5));
    assert_eq!(open.as_naive().price, r(10));
    assert_eq!(open.as_naive().size, r(2));
    assert!(!open.is_zero());
}

#[test]
fn convert_keeps_what_closing_realizes() {
    let y = r(17);
    let plain = Position::new(btc_usdt(), (r(10), r(3))).unwrap();
    let mut moved = plain.clone();
    moved.convert(r(12)).unwrap();
    assert_eq!(moved.as_naive().price, r(12));
    assert_eq!(moved.as_naive().size, r(3));
    assert_eq!(*moved.value(), r(6));
    assert_eq!(moved.closed(&y), plain.closed(&y));
    assert_eq!(moved, plain);

    let inst = btc_usdt().prefer_reversed(true);
    let rev = Position::new(inst, Reversed((r(4), r(8)))).unwrap();
    let mut moved = rev.clone();
    moved.convert(r(2)).unwrap();
    assert_eq!(moved.as_naive().price, d(1, 2));
    assert_eq!(moved.closed(&r(5)), rev.closed(&r(5)));
    assert_eq!(moved.convert(r(0)), Err(InvalidReversedPrice));
    assert_eq!(moved.as_naive().price, d(1, 2));

    // The value a holding had before is not carried over.
    let valued = NaivePosition::new(r(1), r(1), r(1));
    assert_eq!(valued.converted(r(2)), NaivePosition::new(r(2), r(1), r(1)));
    assert_ne!(valued.converted(r(2)), valued);
}

#[test]
fn negation() {
    let p = Position::new(btc_usdt(), (r(10), r(2), r(1))).unwrap();
    let n = p.neg();
    assert_eq!(n.as_naive().price, r(10));
    assert_eq!(n.as_naive().size, r(-2));
    assert_eq!(n.as_naive().value, r(-1));
    let borrowed = (&n).into_naive().unwrap();
    assert_eq!(borrowed, NaivePosition::new(r(10), r(-2), r(-1)));
}

#[test]
fn checked_merge_of_positions() {
    let mut a = Position::new(btc_usdt(), (r(10), r(2))).unwrap();
    let mut b = Position::new(btc_usdt().prefer_reversed(true), (r(20), r(2), r(3))).unwrap();
    assert_eq!(a.try_merge(&mut b), Ok(()));
    assert_eq!(a.as_naive().price, r(15));
    assert_eq!(a.as_naive().size, r(4));
    assert_eq!(a.as_naive().value, r(3));
    assert!(!a.instrument().is_prefer_reversed());
    assert_eq!(b.as_naive().price, r(1));
    assert!(b.is_zero());

    let eth_usdt = Instrument::spot(&Asset::eth(), &Asset::usdt());
    let mut c = Position::new(eth_usdt.clone(), (r(7), r(1), r(2))).unwrap();
    assert_eq!(a.try_merge(&mut c), Err(MismatchedInstrument));
    assert_eq!(a.as_naive().price, r(15));
    assert_eq!(a.as_naive().size, r(4));
    assert_eq!(a.as_naive().value, r(3));
    assert_eq!(c.as_naive().price, r(7));
    assert_eq!(c.as_naive().size, r(1));
    assert_eq!(c.as_naive().value, r(2));
}

#[test]
fn positions_are_equal_by_symbol_and_equivalent_holding() {
    let a = Position::new(btc_usdt(), (r(5), r(2), r(8))).unwrap();
    let b = Position::new(btc_usdt().prefer_reversed(true), (r(1), r(2), r(0))).unwrap();
    assert_eq!(a, b);
    let c = Position::new(btc_usdt(), (r(1), r(2), r(1))).unwrap();
    assert_ne!(a, c);
    let eth_usdt = Instrument::spot(&Asset::eth(), &Asset::usdt());
    assert_ne!(a, Position::new(eth_usdt, (r(5), r(2), r(8))).unwrap());
}
