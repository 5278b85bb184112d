use positions::asset::Asset;
use positions::convert::{InvalidReversedPrice, Reversed};
use positions::prices::Prices;
use positions::rational::Rational;
use positions::strong::{tree, PositionTree};
use positions::symbol::Symbol;
use positions::weak::WeakTree;

fn r(n: i64) -> Rational {
    Rational::from_integer(n)
}

fn d(numer: i64, denom: i64) -> Rational {
    Rational::new(numer, denom).unwrap()
}

fn names(pairs: Vec<(Asset, Asset)>) -> Vec<(String, String)> {
    pairs
        .iter()
        .map(|(a, b)| (a.as_str().to_string(), b.as_str().to_string()))
        .collect()
}

fn pair(a: &str, b: &str) -> (String, String) {
    (a.to_string(), b.to_string())
}

#[test]
fn mod_basic() {
    let usdt = Asset::usdt();
    let btc = Asset::btc();
    let btcusdt_swap = Asset::parse("btc_usdt_swap").unwrap();
    let btcusd_swap = Asset::parse("btc_usd_swap").unwrap();
    let mut p: PositionTree<Rational> = tree(&usdt);
    p.insert_value(r(2), &btc);
    p.weak_mut().insert_position((r(16000), r(12)), &btcusdt_swap).unwrap();
    p.insert_value(r(-1), &usdt);
    p.weak_mut().insert_position((r(14000), r(-2)), &btcusdt_swap).unwrap();
    assert_eq!(p.to_text(), "2 BTC + (16000, 10 BTC_USDT_SWAP) - 4001 USDT");
    let mut q: PositionTree<Rational> = tree(&btc);
    q.insert_value(r(2), &btc);
    q.weak_mut().insert_position((d(1, 16000), r(-200)), &btcusd_swap).unwrap();
    assert_eq!(q.to_text(), "(1/16000, -200 BTC_USD_SWAP) + 2 BTC");
    p.add_assign(q);
    assert_eq!(
        p.to_text(),
        "(1/16000, -200 BTC_USD_SWAP) + 4 BTC + (16000, 10 BTC_USDT_SWAP) - 4001 USDT"
    );
    p.get_weak_mut(&btc).unwrap().insert_position((r(0), r(1)), &btc).unwrap();
    assert_eq!(*p.get_weak_mut(&btc).unwrap().value(), r(5));
    p.get_weak_mut(&btc).unwrap().add_value(r(-1));
    assert_eq!(*p.get_weak_mut(&btc).unwrap().value(), r(4));
    assert_eq!(*p.weak().value(), r(-4001));
    assert!(p.get_weak_mut(&Asset::eth()).is_none());
    assert_eq!(p.get_weak_mut(&usdt).unwrap().asset(), &usdt);
    assert_eq!(
        names(p.all_pairs()),
        vec![
            pair("BTC_USD_SWAP", "BTC"),
            pair("BTC_USDT_SWAP", "USDT"),
            pair("BTC", "USDT"),
        ]
    );
}

#[test]
fn strong_tree_reversed() {
    let usdt = Asset::usdt();
    let btc = Asset::btc();
    let btc_usd_swap = Asset::parse("BTC_USD_SWAP").unwrap();
    let mut p: PositionTree<Rational> = tree(&usdt);
    p.insert_value(r(-16000), &usdt);
    p.insert_value(r(1), &btc);
    p.get_weak_mut(&btc)
        .unwrap()
        .insert_position(Reversed((r(16000), r(-16000))), &btc_usd_swap)
        .unwrap();
    assert_eq!(p.to_text(), "(1/16000, 16000 BTC_USD_SWAP) + 1 BTC - 16000 USDT");
    let mut prices = Prices::new();
    assert_eq!(p.eval(&prices), None);
    prices.insert(Symbol::spot(&btc_usd_swap, &btc), d(1, 17000));
    assert_eq!(p.eval(&prices), None);
    prices.insert(Symbol::spot(&btc, &usdt), r(17000));
    assert_eq!(p.eval(&prices), Some(r(0)));
    assert_eq!(
        p.get_weak_mut(&btc).unwrap().insert_position(Reversed((r(0), r(1))), &btc_usd_swap),
        Err(InvalidReversedPrice)
    );
    assert_eq!(p.eval(&prices), Some(r(0)));
}

#[test]
fn weak_tree_on_its_own() {
    let usdt = Asset::usdt();
    let btc = Asset::btc();
    let eth = Asset::eth();
    let mut w = WeakTree::new(r(10), &usdt);
    assert_eq!(w.asset(), &usdt);
    assert_eq!(w.to_text(), "10 USDT");
    assert_eq!(w.pairs().len(), 0);
    assert_eq!(w.eval_weak(&Prices::new()), Some(r(10)));
    w.insert_position((r(100), r(2)), &btc).unwrap();
    w.insert_position((r(110), r(-1), r(3)), &btc).unwrap();
    // The close of one at 110 realizes 10, and the value of 3 comes along.
    assert_eq!(*w.value(), r(23));
    w.insert_position((r(7), r(-3)), &eth).unwrap();
    // A holding of the tree's own asset is restated at price one.
    w.insert_position((r(3), r(2), r(50)), &usdt).unwrap();
    assert_eq!(*w.value(), r(19));
    assert_eq!(w.to_text(), "(100, 1 BTC) + (7, -3 ETH) + 19 USDT");
    assert_eq!(w.to_text_after(true), " + (100, 1 BTC) + (7, -3 ETH) + 19 USDT");
    assert_eq!(names(w.pairs()), vec![pair("BTC", "USDT"), pair("ETH", "USDT")]);
    let mut prices = Prices::new();
    prices.insert(Symbol::spot(&btc, &usdt), r(120));
    assert_eq!(w.eval_weak(&prices), None);
    prices.insert(Symbol::spot(&eth, &usdt), r(5));
    // 19 + (120 - 100) * 1 + (5 - 7) * -3
    assert_eq!(w.eval_weak(&prices), Some(r(45)));

    let mut other = WeakTree::new(r(1), &usdt);
    other.insert_position((r(130), r(-1)), &btc).unwrap();
    other.insert_position((r(2), r(1)), &Asset::usd()).unwrap();
    w.join(&other);
    assert_eq!(*w.value(), r(50));
    assert_eq!(w.to_text(), "(100, 0 BTC) + (7, -3 ETH) + (2, 1 USD) + 50 USDT");
    let negative = WeakTree::new(r(-4), &usdt);
    assert_eq!(negative.to_text(), "- 4 USDT");
    assert_eq!(negative.clone().to_text_after(true), " - 4 USDT");
}

#[test]
fn strong_tree_adds_weak_trees() {
    let usdt = Asset::usdt();
    let btc = Asset::btc();
    let eth = Asset::eth();
    let mut p = PositionTree::new(r(1), &usdt);
    let mut own = WeakTree::new(r(2), &usdt);
    own.insert_position((r(100), r(1)), &btc).unwrap();
    p.add_weak(own);
    let mut child = WeakTree::new(r(3), &btc);
    child.insert_position((r(10), r(2)), &eth).unwrap();
    p.add_weak(child.clone());
    p.add_weak(child);
    assert_eq!(p.to_text(), "(10, 4 ETH) + 6 BTC + (100, 1 BTC) + 3 USDT");
    let mut prices = Prices::new();
    prices.insert(Symbol::spot(&btc, &usdt), r(120));
    assert_eq!(p.eval(&prices), None);
    prices.insert(Symbol::spot(&eth, &btc), r(11));
    // 3 + (120 - 100) + 120 * (6 + (11 - 10) * 4)
    assert_eq!(p.eval(&prices), Some(r(1223)));
    assert_eq!(
        names(p.all_pairs()),
        vec![pair("ETH", "BTC"), pair("BTC", "USDT"), pair("BTC", "USDT")]
    );
}
