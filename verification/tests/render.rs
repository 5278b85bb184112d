use positions::asset::Asset;
use positions::convert::Reversed;
use positions::instrument::Instrument;
use positions::position::Position;
use positions::rational::Rational;
use positions::table::Positions;

fn r(n: i64) -> Rational {
    Rational::from_integer(n)
}

fn d(numer: i64, denom: i64) -> Rational {
    Rational::new(numer, denom).unwrap()
}

fn btc_usdt() -> Instrument {
    Instrument::spot(&Asset::btc(), &Asset::usdt())
}

fn swap() -> Instrument {
    Instrument::try_new("SWAP:BTC-USD-SWAP", &Asset::usd(), &Asset::btc())
        .unwrap()
        .prefer_reversed(true)
}

#[test]
fn position_as_text() {
    let p = Position::new(btc_usdt(), (r(16000), d(3, 2))).unwrap();
    assert_eq!(p.to_text(), "(16000, 3/2 BTC)");
    assert_eq!(p.to_short_text(), "(16000, 3/2 BTC)");
    let p = Position::new(btc_usdt(), (r(16000), r(-2), r(7))).unwrap();
    assert_eq!(p.to_text(), "(16000, -2 BTC) + 7 USDT");
    let p = Position::new(btc_usdt(), (r(16000), r(-2), d(-7, 2))).unwrap();
    assert_eq!(p.to_text(), "(16000, -2 BTC) - 7/2 USDT");
    assert_eq!(p.to_short_text(), "(16000, -2 BTC)");
    let p = Position::new(swap(), Reversed((r(16000), r(-16000), r(1)))).unwrap();
    assert_eq!(p.to_text(), "(16000, -16000 USD)* + 1 BTC");
    let p = Position::new(swap(), (r(0), r(5))).unwrap();
    assert_eq!(p.to_text(), "(Nan, -5 USD)*");
    assert_eq!(Position::<Rational>::signed(&r(-3)), " - 3");
    assert_eq!(Position::<Rational>::signed(&r(0)), " + 0");
}

#[test]
fn expression_as_text() {
    let mut p: Positions<Rational> = Positions::default();
    assert_eq!(p.as_expr().to_text(), "0");
    p.insert_value(r(-16000), &Asset::usdt());
    assert_eq!(p.as_expr().to_text(), "-16000 USDT");
    p.insert_value(r(1), &Asset::btc());
    assert_eq!(p.as_expr().to_text(), "-16000 USDT + 1 BTC");
    p.insert_position(Position::new(swap(), Reversed((r(16000), r(-16000)))).unwrap());
    assert_eq!(
        p.as_expr().to_text(),
        "-16000 USDT + (16000, -16000 USD)* + 1 BTC"
    );
    p.insert_position(Position::new(btc_usdt(), (r(16001), d(-3, 2), d(-27, 10))).unwrap());
    assert_eq!(
        p.as_expr().to_text(),
        "(16001, -3/2 BTC) - 160027/10 USDT + (16000, -16000 USD)* + 1 BTC"
    );
    let eth_usdt = Instrument::spot(&Asset::eth(), &Asset::usdt());
    p.insert_position(Position::new(eth_usdt, (r(1200), r(2))).unwrap());
    assert_eq!(
        p.as_expr().to_text(),
        "(16001, -3/2 BTC) + (1200, 2 ETH) - 160027/10 USDT + (16000, -16000 USD)* + 1 BTC"
    );
}

#[test]
fn tree_as_text() {
    let mut p: Positions<Rational> = Positions::default();
    assert_eq!(p.as_tree(&Asset::usdt()).to_text(), "0 USDT");
    p.insert_value(r(-16000), &Asset::usdt());
    assert_eq!(p.as_tree(&Asset::usdt()).to_text(), "- 16000 USDT");
    p.insert_value(r(1), &Asset::btc());
    assert_eq!(p.as_tree(&Asset::usdt()).to_text(), "1 BTC - 16000 USDT");
    assert_eq!(p.as_tree(&Asset::btc()).to_text(), "- 16000 USDT + 1 BTC");
    assert_eq!(p.as_tree(&Asset::eth()).to_text(), "- 16000 USDT + 1 BTC0 ETH");
    p.insert_position(Position::new(swap(), Reversed((r(16000), r(-16000)))).unwrap());
    p.insert_position(Position::new(btc_usdt(), (r(16001), d(-3, 2), d(-27, 10))).unwrap());
    assert_eq!(
        p.as_tree(&Asset::usdt()).to_text(),
        "(16000, -16000 USD)* + 1 BTC + (16001, -3/2 BTC) - 160027/10 USDT"
    );
    let one = Position::new(btc_usdt(), (r(10), r(2), r(1))).unwrap();
    assert_eq!(one.as_tree().to_text(), "(10, 2 BTC) + 1 USDT");
    let flat = Position::new(btc_usdt(), (r(10), r(2))).unwrap();
    assert_eq!(flat.as_tree().to_text(), "(10, 2 BTC)0 USDT");
}

#[test]
fn table_as_text() {
    let mut p: Positions<Rational> = Positions::default();
    assert_eq!(p.to_text(), "");
    p.insert_value(r(-16000), &Asset::usdt());
    p.insert_position(Position::new(btc_usdt(), (r(16001), d(-3, 2), d(-27, 10))).unwrap());
    let eth_usdt = Instrument::spot(&Asset::eth(), &Asset::usdt());
    p.insert_position(Position::new(eth_usdt.clone(), (r(1200), r(2))).unwrap());
    p.insert_position(Position::new(swap(), Reversed((r(16000), r(-16000)))).unwrap());
    assert_eq!(
        p.to_text(),
        "USDT => -16000 USDT\n\
         \u{251c} BTC-USDT => (16001, -3/2 BTC) - 27/10 USDT\n\
         \u{2514} ETH-USDT => (1200, 2 ETH)\n\
         BTC => 0 BTC\n\
         \u{2514} SWAP:BTC-USD-SWAP => (16000, -16000 USD)*\n"
    );
    assert_eq!(
        p.single_at(0).to_text(),
        "\u{251c} BTC-USDT => (16001, -3/2 BTC) - 27/10 USDT\n\u{2514} ETH-USDT => (1200, 2 ETH)\n"
    );
    assert_eq!(p.single_at(0).joined_text(true), " + (16001, -3/2 BTC) + (1200, 2 ETH)");
    // A position without size and value has no line.
    p.insert_position(Position::new(eth_usdt, (r(1200), r(-2))).unwrap());
    assert_eq!(
        p.single_at(0).to_text(),
        "\u{251c} BTC-USDT => (16001, -3/2 BTC) - 27/10 USDT\n"
    );
}
