use positions::asset::Asset;
use positions::convert::{InvalidReversedPrice, Reversed};
use positions::expr::{carry_over, sum_options, Expr};
use positions::instrument::Instrument;
use positions::num::PositionNum;
use positions::position::Position;
use positions::prices::Prices;
use positions::rational::Rational;
use positions::symbol::Symbol;
use positions::table::Positions;

fn r(n: i64) -> Rational {
    Rational::from_integer(n)
}

fn d(numer: i64, denom: i64) -> Rational {
    Rational::new(numer, denom).unwrap()
}

fn instruments() -> (Instrument, Instrument, Instrument) {
    let btc_usdt_swap =
        Instrument::try_new("SWAP:BTC-USDT-SWAP", &Asset::btc(), &Asset::usdt()).unwrap();
    let btc_usd_swap = Instrument::try_new("SWAP:BTC-USD-SWAP", &Asset::usd(), &Asset::btc())
        .unwrap()
        .prefer_reversed(true);
    let eth_btc_swap =
        Instrument::try_new("SWAP:ETH-BTC-SWAP", &Asset::eth(), &Asset::btc()).unwrap();
    (btc_usdt_swap, btc_usd_swap, eth_btc_swap)
}

fn table() -> Positions<Rational> {
    let (btc_usdt_swap, btc_usd_swap, eth_btc_swap) = instruments();
    let mut p = Positions::default();
    p.insert_value(r(-16000), &Asset::usdt());
    p.insert_value(r(1), &Asset::btc());
    p.insert_position(Position::new(btc_usd_swap, Reversed((r(16000), r(-16000)))).unwrap());
    p.insert_position(Position::new(eth_btc_swap, (d(67, 1000), d(-215, 10))).unwrap());
    p.insert_position(Position::new(btc_usdt_swap, (r(16001), d(-15, 10), d(-27, 10))).unwrap());
    p
}

fn prices() -> Prices<Rational> {
    let (btc_usdt_swap, btc_usd_swap, eth_btc_swap) = instruments();
    let mut prices = Prices::new();
    prices.insert(eth_btc_swap.as_symbol().clone(), d(59, 1000));
    prices.insert(btc_usd_swap.as_symbol().clone(), r(17000));
    prices.insert(btc_usdt_swap.as_symbol().clone(), r(17002));
    prices.insert(Symbol::spot(&Asset::btc(), &Asset::usdt()), r(17000));
    prices
}

#[test]
fn positions_as_tree() {
    let p = table();
    let tree = p.as_tree(&Asset::usdt());
    assert_eq!(tree.asset(), &Asset::usdt());
    assert_eq!(tree.instruments().len(), 4);
    let ans = tree.eval(&prices()).unwrap().unwrap();
    assert_eq!(ans, d(14198, 10));
}

#[test]
fn tree_and_expression_agree() {
    let p = table();
    for root in [Asset::usdt(), Asset::btc(), Asset::eth()] {
        let mut prices = prices();
        prices.insert(Symbol::spot(&Asset::usdt(), &Asset::btc()), d(1, 17000));
        prices.insert(Symbol::spot(&Asset::usdt(), &Asset::eth()), d(1, 1000));
        prices.insert(Symbol::spot(&Asset::btc(), &Asset::eth()), r(17));
        let by_tree = p.as_tree(&root).eval(&prices).unwrap().unwrap();
        let by_expr = p.as_expr().eval(&root, &prices).unwrap().unwrap();
        assert_eq!(by_tree, by_expr);
    }
    let by_eth = p.as_expr().eval(&Asset::eth(), &{
        let mut prices = prices();
        prices.insert(Symbol::spot(&Asset::usdt(), &Asset::eth()), d(1, 1000));
        prices.insert(Symbol::spot(&Asset::btc(), &Asset::eth()), r(17));
        prices
    });
    // -17504.2 / 1000 + (1 + 0.172 - 1/17) * 17
    assert_eq!(by_eth, Ok(Some(d(-175042, 10000).add(&d(18924, 1000)))));
}

#[test]
fn tree_of_one_position() {
    let inst = Instrument::spot(&Asset::btc(), &Asset::usdt());
    let p = Position::new(inst.clone(), (r(10), r(2), r(1))).unwrap();
    let tree = p.as_tree();
    assert_eq!(tree.asset(), &Asset::usdt());
    assert_eq!(tree.instruments(), vec![inst.clone()]);
    let mut prices = Prices::new();
    assert_eq!(tree.eval(&prices), Ok(None));
    prices.insert(inst.as_symbol().clone(), r(13));
    assert_eq!(tree.eval(&prices), Ok(Some(r(7))));
}

#[test]
fn eval_is_all_or_nothing() {
    let p = table();
    let expr = p.as_expr();
    let usdt = Asset::usdt();
    let full = prices();
    assert_eq!(expr.eval(&usdt, &full), Ok(Some(d(14198, 10))));
    assert!(expr.priced(&usdt, &full));
    for missing in expr.instruments(&usdt) {
        let mut some = Prices::new();
        for inst in expr.instruments(&usdt) {
            if inst.as_symbol() != missing.as_symbol() {
                some.insert(inst.as_symbol().clone(), full.get(inst.as_symbol()).unwrap().clone());
            }
        }
        assert_eq!(expr.eval(&usdt, &some), Ok(None));
        assert!(!expr.priced(&usdt, &some));
        assert_eq!(p.as_tree(&usdt).eval(&some), Ok(None));
    }
    // A price that nothing asks for changes nothing.
    let mut more = prices();
    more.insert(Symbol::spot(&Asset::eth(), &Asset::usd()), r(1));
    assert_eq!(expr.eval(&usdt, &more), Ok(Some(d(14198, 10))));
    // Another root asks for other spots.
    assert_eq!(expr.eval(&Asset::btc(), &full), Ok(None));
}

#[test]
fn eval_of_an_empty_table_is_zero() {
    let p: Positions<Rational> = Positions::default();
    assert_eq!(p.as_expr().eval(&Asset::usdt(), &Prices::new()), Ok(Some(r(0))));
    assert_eq!(p.as_expr().instruments(&Asset::usdt()), vec![]);
    assert_eq!(p.as_tree(&Asset::usdt()).eval(&Prices::new()), Ok(Some(r(0))));
    assert_eq!(p.as_expr().eval_with(&Asset::usdt(), |_| None), Some(r(0)));
}

#[test]
fn eval_needs_the_spot_of_every_other_bucket() {
    let mut p = Positions::default();
    p.insert_value(r(0), &Asset::btc());
    p.insert_value(r(5), &Asset::usdt());
    let expr = p.as_expr();
    assert_eq!(
        expr.instruments(&Asset::usdt()),
        vec![Instrument::spot(&Asset::btc(), &Asset::usdt())]
    );
    assert_eq!(expr.eval(&Asset::usdt(), &Prices::new()), Ok(None));
    let mut prices = Prices::new();
    prices.insert(Symbol::spot(&Asset::btc(), &Asset::usdt()), r(17000));
    assert_eq!(expr.eval(&Asset::usdt(), &prices), Ok(Some(r(5))));
}

#[test]
fn eval_refuses_a_zero_price_in_reversed_form() {
    let p = table();
    let (_, btc_usd_swap, eth_btc_swap) = instruments();
    let mut zero = prices();
    zero.insert(btc_usd_swap.as_symbol().clone(), r(0));
    assert_eq!(p.as_expr().eval(&Asset::usdt(), &zero), Err(InvalidReversedPrice));
    assert_eq!(p.as_tree(&Asset::usdt()).eval(&zero), Err(InvalidReversedPrice));
    // A zero price in normal form is a price like any other.
    let mut plain = prices();
    plain.insert(eth_btc_swap.as_symbol().clone(), r(0));
    assert!(p.as_expr().eval(&Asset::usdt(), &plain).unwrap().is_some());
}

#[test]
fn eval_does_not_depend_on_the_order_of_insertion() {
    let (btc_usdt_swap, btc_usd_swap, eth_btc_swap) = instruments();
    let mut q = Positions::default();
    q.insert_position(Position::new(eth_btc_swap, (d(67, 1000), d(-215, 10))).unwrap());
    q.insert_position(
        Position::new(btc_usdt_swap.clone(), (r(16001), r(-1), d(-27, 10))).unwrap(),
    );
    q.insert_value(r(1), &Asset::btc());
    q.insert_position(Position::new(btc_usd_swap, Reversed((r(16000), r(-16000)))).unwrap());
    q.insert_position(Position::new(btc_usdt_swap, (r(16001), d(-5, 10))).unwrap());
    q.insert_value(r(-16000), &Asset::usdt());
    assert_eq!(q.asset_at(0), &Asset::btc());
    assert_eq!(q, table());
    assert_eq!(q.as_expr().eval(&Asset::usdt(), &prices()), Ok(Some(d(14198, 10))));
    assert_eq!(q.as_tree(&Asset::usdt()).eval(&prices()), Ok(Some(d(14198, 10))));
}

#[test]
fn eval_with_asks_the_valuer() {
    let p = table();
    let prices = prices();
    let expr = Expr::new(&p);
    let by_prices = expr.eval_with(&Asset::usdt(), |q: &Position<Rational>| {
        q.closed(prices.get(q.instrument().as_symbol())?).ok()
    });
    assert_eq!(by_prices, Some(d(14198, 10)));
    // A valuer that takes the value of each position and carries a balance
    // over at a price of two.
    let flat = expr.eval_with(&Asset::usdt(), |q: &Position<Rational>| {
        Some(q.value().add(&q.as_naive().size.mul(&r(2))))
    });
    // USDT: -16000 - 2.7 - 3; BTC: (1 + 2 * 16000 - 43) * 2.
    assert_eq!(flat, Some(d(-160057, 10).add(&r(63916))));
    let none = expr.eval_with(&Asset::usdt(), |q: &Position<Rational>| {
        if q.instrument().is_spot() {
            None
        } else {
            Some(r(0))
        }
    });
    assert_eq!(none, None);
    assert_eq!(expr.positions().len(), 2);
}

#[test]
fn cross_position_carries_an_amount_over() {
    let cross = Expr::<Rational>::cross(&Asset::btc(), &Asset::usdt(), d(3, 2));
    assert_eq!(cross.instrument(), &Instrument::spot(&Asset::btc(), &Asset::usdt()));
    assert_eq!(cross.closed(&r(17000)), Ok(r(25500)));
}

#[test]
fn sums_of_options() {
    assert_eq!(sum_options::<Rational>(&vec![]), Some(r(0)));
    assert_eq!(sum_options(&vec![Some(r(1)), Some(d(1, 2))]), Some(d(3, 2)));
    assert_eq!(sum_options(&vec![Some(r(1)), None, Some(r(2))]), None);
}

#[test]
fn prices_replace_by_symbol() {
    let mut prices = Prices::new();
    let s = Symbol::spot(&Asset::btc(), &Asset::usdt());
    assert_eq!(prices.get(&s), None);
    prices.insert(s.clone(), r(1));
    prices.insert(Symbol::parse("btc-usdt").unwrap(), r(2));
    assert_eq!(prices.get(&s), Some(&r(2)));
    assert_eq!(prices.get(&Symbol::spot(&Asset::usdt(), &Asset::btc())), None);
}

#[test]
fn tree_eval_with_asks_the_valuer() {
    let p = table();
    let prices = prices();
    let tree = p.as_tree(&Asset::usdt());
    let by_prices = tree.eval_with(|q: &Position<Rational>| {
        q.closed(prices.get(q.instrument().as_symbol())?).ok()
    });
    assert_eq!(by_prices, Some(d(14198, 10)));
    let flat = tree.eval_with(|q: &Position<Rational>| {
        Some(q.value().add(&q.as_naive().size.mul(&r(2))))
    });
    assert_eq!(flat, Some(d(-160057, 10).add(&r(63916))));
    assert_eq!(tree.eval_with(|_| None), None);
    let empty: Positions<Rational> = Positions::default();
    assert_eq!(empty.as_tree(&Asset::usdt()).eval_with(|_| None), Some(r(0)));
}

#[test]
fn carrying_over_asks_for_a_position_at_price_zero() {
    let spot = Instrument::spot(&Asset::btc(), &Asset::usdt());
    let seen = carry_over(spot.clone(), Some(d(3, 2)), &|q: &Position<Rational>| {
        assert_eq!(q.instrument(), &spot);
        assert_eq!(q.as_naive().price, r(0));
        assert_eq!(*q.value(), r(0));
        Some(q.as_naive().size.clone())
    });
    assert_eq!(seen, Some(d(3, 2)));
    let unasked = carry_over(spot.clone(), None, &|_: &Position<Rational>| Some(r(1)));
    assert_eq!(unasked, None);
    let mut p = Positions::default();
    p.insert_position(Position::new(spot, (r(10), r(2), r(1))).unwrap());
    p.insert_value(r(4), &Asset::usdt());
    let total = p.single_at(0).total_with(&|q: &Position<Rational>| Some(q.value().clone()));
    assert_eq!(total, Some(r(5)));
}

#[derive(Clone)]
enum Call {
    Value(Rational, Asset),
    Position(Position<Rational>),
}

fn build(calls: &[Call], order: &[usize]) -> Positions<Rational> {
    let mut p = Positions::default();
    for &i in order {
        match calls[i].clone() {
            Call::Value(v, asset) => p.insert_value(v, &asset),
            Call::Position(q) => p.insert_position(q),
        }
    }
    p
}

fn orders(n: usize) -> Vec<Vec<usize>> {
    if n == 0 {
        return vec![vec![]];
    }
    let mut out = Vec::new();
    for shorter in orders(n - 1) {
        for at in 0..n {
            let mut next = shorter.clone();
            next.insert(at, n - 1);
            out.push(next);
        }
    }
    out
}

#[test]
fn eval_does_not_depend_on_the_order_of_any_calls() {
    let (btc_usdt_swap, btc_usd_swap, eth_btc_swap) = instruments();
    let calls = vec![
        Call::Value(r(-16000), Asset::usdt()),
        Call::Value(r(1), Asset::btc()),
        Call::Position(Position::new(btc_usd_swap, Reversed((r(16000), r(-16000)))).unwrap()),
        Call::Position(Position::new(eth_btc_swap, (d(67, 1000), d(-215, 10))).unwrap()),
        Call::Position(Position::new(btc_usdt_swap.clone(), (r(16001), r(-3), d(-27, 10))).unwrap()),
        Call::Position(Position::new(btc_usdt_swap, (r(16001), d(3, 2))).unwrap()),
    ];
    let all = orders(calls.len());
    assert_eq!(all.len(), 720);
    let mut zero = prices();
    zero.insert(instruments().1.as_symbol().clone(), r(0));
    let mut some = Prices::new();
    some.insert(Symbol::spot(&Asset::btc(), &Asset::usdt()), r(17000));
    for order in all {
        let p = build(&calls, &order);
        assert_eq!(p.as_expr().eval(&Asset::usdt(), &prices()), Ok(Some(d(14198, 10))));
        assert_eq!(p.as_expr().eval(&Asset::usdt(), &zero), Err(InvalidReversedPrice));
        assert_eq!(p.as_expr().eval(&Asset::usdt(), &some), Ok(None));
        assert_eq!(p.as_expr().eval(&Asset::eth(), &prices()), Ok(None));
    }
}

#[test]
fn positions_that_disagree_on_an_instrument_make_the_order_matter() {
    let plain = Instrument::spot(&Asset::btc(), &Asset::usdt());
    let marked = plain.clone().prefer_reversed(true);
    assert_eq!(plain, marked);
    let calls = vec![
        Call::Position(Position::new(plain.clone(), (d(1, 2), r(1))).unwrap()),
        Call::Position(Position::new(marked, (d(1, 2), r(1))).unwrap()),
    ];
    let mut prices = Prices::new();
    prices.insert(plain.as_symbol().clone(), r(4));
    // The position that came first keeps its instrument, and with it the
    // form in which the price is read.
    let first = build(&calls, &[0, 1]).as_expr().eval(&Asset::usdt(), &prices);
    let second = build(&calls, &[1, 0]).as_expr().eval(&Asset::usdt(), &prices);
    assert_eq!(first, Ok(Some(r(7))));
    assert_eq!(second, Ok(Some(d(-1, 2))));
}
