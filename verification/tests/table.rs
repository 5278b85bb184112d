use positions::asset::Asset;
use positions::bucket::SingleValue;
use positions::convert::Reversed;
use positions::instrument::Instrument;
use positions::num::PositionNum;
use positions::position::Position;
use positions::rational::Rational;
use positions::table::Positions;

fn r(n: i64) -> Rational {
    Rational::from_integer(n)
}

fn d(numer: i64, denom: i64) -> Rational {
    Rational::new(numer, denom).unwrap()
}

fn swap(name: &str, base: &Asset, quote: &Asset) -> Instrument {
    Instrument::try_new(name, base, quote).unwrap()
}

fn pos(inst: &Instrument, price: i64, size: i64, value: i64) -> Position<Rational> {
    Position::new(inst.clone(), (r(price), r(size), r(value))).unwrap()
}

#[test]
fn table_basic() {
    let btc = Asset::btc();
    let usdt = Asset::usdt();
    let btc_usdt_swap = swap("SWAP:BTC-USDT-SWAP", &Asset::btc(), &Asset::usdt());
    let btc_usd_swap =
        swap("SWAP:BTC-USD-SWAP", &Asset::usd(), &Asset::btc()).prefer_reversed(true);
    let eth_btc_swap = swap("SWAP:ETH-BTC-SWAP", &Asset::eth(), &Asset::btc());
    let mut p = Positions::default();
    p.insert_value(r(-16000), &usdt);
    p.insert_value(r(1), &btc);
    p.insert_position(
        Position::new(btc_usd_swap.clone(), Reversed((r(16000), r(-16000)))).unwrap(),
    );
    p.insert_position(Position::new(eth_btc_swap.clone(), (d(67, 1000), d(-215, 10))).unwrap());
    p.insert_position(
        Position::new(btc_usdt_swap.clone(), (r(16001), d(-15, 10), d(-27, 10))).unwrap(),
    );
    assert_eq!(p.len(), 2);
    assert_eq!(p.get_value(&usdt), Some(&r(-16000)));
    assert_eq!(p.get_value(&btc), Some(&r(1)));
    assert_eq!(p.asset_at(0), &usdt);
    assert_eq!(p.asset_at(1), &btc);
    assert_eq!(p.single_at(0).len(), 1);
    assert_eq!(p.single_at(1).len(), 2);
    assert_eq!(p.get_position(&btc_usd_swap).unwrap().size(), r(-16000));
    assert_eq!(p.get_position(&btc_usd_swap).unwrap().price(), Some(r(16000)));
    let assets: Vec<&str> = p.iter().iter().map(|(asset, _)| asset.as_str()).collect();
    assert_eq!(assets, vec!["USDT", "BTC"]);
    let symbols: Vec<String> =
        p.single_at(1).iter().iter().map(|(symbol, _)| symbol.to_text()).collect();
    assert_eq!(symbols, vec!["SWAP:BTC-USD-SWAP", "SWAP:ETH-BTC-SWAP"]);
}

#[test]
fn insert_position_merges_by_symbol() {
    let inst = swap("SWAP:BTC-USDT-SWAP", &Asset::btc(), &Asset::usdt());
    let other = swap("SWAP:ETH-USDT-SWAP", &Asset::eth(), &Asset::usdt());
    let mut p = Positions::default();
    assert!(p.is_empty());
    p.insert_position(pos(&inst, 10, 2, 0));
    p.insert_position(pos(&other, 7, 1, 0));
    p.insert_position(pos(&inst, 20, 2, 3));
    assert_eq!(p.len(), 1);
    assert_eq!(p.single_at(0).len(), 2);
    let held = p.get_position(&inst).unwrap();
    assert_eq!(held.as_naive().price, r(15));
    assert_eq!(held.as_naive().size, r(4));
    assert_eq!(held.as_naive().value, r(3));
    assert_eq!(*p.get_value(&Asset::usdt()).unwrap(), r(0));
    // The reversed preference is no part of the identity.
    p.insert_position(pos(&inst.clone().prefer_reversed(true), 15, -4, 0));
    assert_eq!(p.single_at(0).len(), 2);
    assert_eq!(p.get_position(&inst).unwrap().as_naive().size, r(0));
}

#[test]
fn accessors_make_nothing() {
    let inst = swap("SWAP:BTC-USDT-SWAP", &Asset::btc(), &Asset::usdt());
    let other = swap("SWAP:ETH-USDT-SWAP", &Asset::eth(), &Asset::usdt());
    let elsewhere = swap("SWAP:ETH-BTC-SWAP", &Asset::eth(), &Asset::btc());
    let mut p: Positions<Rational> = Positions::default();
    assert!(p.get_value(&Asset::usdt()).is_none());
    assert!(p.get_position(&inst).is_none());
    assert!(p.get_value_mut(&Asset::usdt()).is_none());
    assert!(p.get_position_mut(&inst).is_none());
    assert!(p.is_empty());
    p.insert_position(pos(&inst, 10, 2, 0));
    assert!(p.get_position(&other).is_none());
    assert!(p.get_position(&elsewhere).is_none());
    assert!(p.get_position_mut(&other).is_none());
    assert!(p.get_value(&Asset::btc()).is_none());
    assert_eq!(p.len(), 1);
    assert_eq!(p.single_at(0).len(), 1);
}

#[test]
fn mutable_accessors_change_in_place() {
    let inst = swap("SWAP:BTC-USDT-SWAP", &Asset::btc(), &Asset::usdt());
    let mut p = Positions::default();
    p.insert_position(pos(&inst, 10, 2, 0));
    *p.get_value_mut(&Asset::usdt()).unwrap() = r(5);
    assert_eq!(p.get_value(&Asset::usdt()), Some(&r(5)));
    p.get_position_mut(&inst).unwrap().add_assign((r(20), r(2))).unwrap();
    assert_eq!(p.get_position(&inst).unwrap().as_naive().price, r(15));
    assert_eq!(p.get_position(&inst).unwrap().as_naive().size, r(4));
}

#[test]
fn insert_value_adds_up() {
    let mut p = Positions::default();
    p.insert_value(r(3), &Asset::usdt());
    p.insert_value(d(1, 2), &Asset::usdt());
    p.insert_value(r(-1), &Asset::btc());
    assert_eq!(p.len(), 2);
    assert_eq!(p.get_value(&Asset::usdt()), Some(&d(7, 2)));
    assert_eq!(p.get_value(&Asset::btc()), Some(&r(-1)));
    assert_eq!(Asset::eth().to_positions(r(9)).get_value(&Asset::eth()), Some(&r(9)));
}

#[test]
fn concentrate_moves_values_once() {
    let a = swap("SWAP:BTC-USDT-SWAP", &Asset::btc(), &Asset::usdt());
    let b = swap("SWAP:ETH-USDT-SWAP", &Asset::eth(), &Asset::usdt());
    let c = swap("SWAP:ETH-BTC-SWAP", &Asset::eth(), &Asset::btc());
    let mut p = Positions::default();
    p.insert_value(r(100), &Asset::usdt());
    p.insert_position(pos(&a, 10, 2, 3));
    p.insert_position(pos(&b, 7, -1, -5));
    p.insert_position(pos(&c, 1, 1, 4));
    p.concentrate();
    assert_eq!(p.get_value(&Asset::usdt()), Some(&r(98)));
    assert_eq!(p.get_value(&Asset::btc()), Some(&r(4)));
    for inst in [&a, &b, &c] {
        assert_eq!(*p.get_position(inst).unwrap().value(), r(0));
    }
    assert_eq!(p.get_position(&a).unwrap().as_naive().price, r(10));
    assert_eq!(p.get_position(&a).unwrap().as_naive().size, r(2));
    let once = p.clone();
    p.concentrate();
    assert_eq!(p, once);
    assert_eq!(p.get_value(&Asset::usdt()), Some(&r(98)));
}

#[test]
fn tables_add_bucket_by_bucket() {
    let a = swap("SWAP:BTC-USDT-SWAP", &Asset::btc(), &Asset::usdt());
    let b = swap("SWAP:ETH-USDT-SWAP", &Asset::eth(), &Asset::usdt());
    let c = swap("SWAP:ETH-BTC-SWAP", &Asset::eth(), &Asset::btc());
    let mut left = Positions::default();
    left.insert_value(r(1), &Asset::usdt());
    left.insert_position(pos(&a, 10, 2, 0));
    let mut right = Positions::default();
    right.insert_value(r(2), &Asset::usdt());
    right.insert_position(pos(&a, 20, 2, 1));
    right.insert_position(pos(&b, 5, 1, 0));
    right.insert_position(pos(&c, 3, 1, 0));
    right.insert_value(r(7), &Asset::btc());

    let mut sum = left.clone();
    sum.add_assign(&right);
    assert_eq!(sum.len(), 2);
    assert_eq!(sum.get_value(&Asset::usdt()), Some(&r(3)));
    assert_eq!(sum.get_value(&Asset::btc()), Some(&r(7)));
    assert_eq!(sum.get_position(&a).unwrap(), &pos(&a, 15, 4, 1));
    assert_eq!(sum.get_position(&b).unwrap(), &pos(&b, 5, 1, 0));
    assert_eq!(sum.get_position(&c).unwrap(), &pos(&c, 3, 1, 0));
    // The right table stays as it was.
    assert_eq!(right.get_position(&a).unwrap(), &pos(&a, 20, 2, 1));

    assert_eq!(left.clone().add(right.clone()), sum);
    assert_eq!(right.clone().add(left.clone()), sum);
    assert_ne!(left, sum);
}

#[test]
fn table_of_one_position() {
    let a = swap("SWAP:BTC-USDT-SWAP", &Asset::btc(), &Asset::usdt());
    let p = Positions::from_position(pos(&a, 10, 2, 1));
    assert_eq!(p.len(), 1);
    assert_eq!(p.get_value(&Asset::usdt()), Some(&r(0)));
    assert_eq!(p.get_position(&a).unwrap(), &pos(&a, 10, 2, 1));
}

#[test]
fn single_value_on_its_own() {
    let a = swap("SWAP:BTC-USDT-SWAP", &Asset::btc(), &Asset::usdt());
    let b = swap("SWAP:ETH-USDT-SWAP", &Asset::eth(), &Asset::usdt());
    let mut sv: SingleValue<Rational> = SingleValue::default();
    assert!(sv.is_empty());
    assert!(sv.value().is_zero());
    sv.add_value(r(4));
    sv.insert(pos(&a, 10, 2, 1));
    sv.insert(pos(&b, 5, 1, 2));
    sv.insert(pos(&a, 10, -2, 0));
    assert_eq!(sv.len(), 2);
    assert_eq!(sv.find(a.as_symbol()), Some(0));
    assert_eq!(sv.find(b.as_symbol()), Some(1));
    assert_eq!(sv.get(a.as_symbol()).unwrap(), &pos(&a, 10, 0, 1));
    assert_eq!(sv.at(1), &pos(&b, 5, 1, 2));
    assert_eq!(sv.subtotal(), r(7));
    sv.get_mut(b.as_symbol()).unwrap().take();
    assert_eq!(sv.subtotal(), r(5));
    *sv.value_mut() = r(0);
    assert_eq!(sv.subtotal(), r(1));
    sv.concentrate();
    assert_eq!(*sv.value(), r(1));
    assert_eq!(sv.subtotal(), r(1));

    let mut other = SingleValue::with_value(r(1));
    other.insert(pos(&b, 5, 1, 0));
    other.insert(pos(&a, 10, 0, 0));
    assert_eq!(sv, other);
    other.add_assign(&sv);
    assert_eq!(*other.value(), r(2));
    assert_eq!(other.get(b.as_symbol()).unwrap(), &pos(&b, 5, 2, 0));
    assert_ne!(sv, other);
}
