use positions::asset::Asset;
use positions::convert::Reversed;
use positions::instrument::Instrument;
use positions::position::Position;
use positions::prices::Prices;
use positions::rational::Rational;
use positions::symbol::Symbol;
use positions::table::Positions;

fn r(n: i64) -> Rational {
    Rational::from_integer(n)
}

fn d(numer: i64, denom: i64) -> Rational {
    Rational::new(numer, denom).unwrap()
}

struct Fixture {
    btc_usdt_swap: Instrument,
    btc_usd_swap: Instrument,
    eth_btc_swap: Instrument,
    table: Positions<Rational>,
}

fn fixture() -> Fixture {
    let btc = Asset::btc();
    let usdt = Asset::usdt();
    let btc_usdt_swap =
        Instrument::try_new("SWAP:BTC-USDT-SWAP", &Asset::btc(), &Asset::usdt()).unwrap();
    let btc_usd_swap = Instrument::try_new("SWAP:BTC-USD-SWAP", &Asset::usd(), &Asset::btc())
        .unwrap()
        .prefer_reversed(true);
    let eth_btc_swap =
        Instrument::try_new("SWAP:ETH-BTC-SWAP", &Asset::eth(), &Asset::btc()).unwrap();
    let mut p = Positions::default();
    p.insert_value(r(-16000), &usdt);
    p.insert_value(r(1), &btc);
    p.insert_position(Position::new(btc_usd_swap.clone(), Reversed((r(16000), r(-16000)))).unwrap());
    p.insert_position(Position::new(eth_btc_swap.clone(), (d(67, 1000), d(-215, 10))).unwrap());
    p.insert_position(
        Position::new(btc_usdt_swap.clone(), (r(16001), d(-15, 10), d(-27, 10))).unwrap(),
    );
    Fixture { btc_usdt_swap, btc_usd_swap, eth_btc_swap, table: p }
}

#[test]
fn basic_positions() {
    let f = fixture();
    assert_eq!(f.table.len(), 2);
    assert_eq!(
        f.table.to_text(),
        "USDT => -16000 USDT\n\
         \u{2514} SWAP:BTC-USDT-SWAP => (16001, -3/2 BTC) - 27/10 USDT\n\
         BTC => 1 BTC\n\
         \u{251c} SWAP:BTC-USD-SWAP => (16000, -16000 USD)*\n\
         \u{2514} SWAP:ETH-BTC-SWAP => (67/1000, -43/2 ETH)\n"
    );
}

#[test]
fn instruments_of_expr() {
    let f = fixture();
    let insts = f.table.as_expr().instruments(&Asset::eth());
    let usdt_eth = Instrument::spot(&Asset::usdt(), &Asset::eth());
    let btc_eth = Instrument::spot(&Asset::btc(), &Asset::eth());
    assert_eq!(insts.len(), 5);
    for inst in [&f.btc_usd_swap, &f.btc_usdt_swap, &f.eth_btc_swap, &usdt_eth, &btc_eth] {
        assert!(insts.contains(inst));
    }
}

#[test]
fn eval_expr() {
    let f = fixture();
    let btc = Asset::btc();
    let usdt = Asset::usdt();
    let expr = f.table.as_expr();
    let mut prices = Prices::new();
    prices.insert(f.eth_btc_swap.as_symbol().clone(), d(59, 1000));
    prices.insert(f.btc_usd_swap.as_symbol().clone(), r(17000));
    prices.insert(f.btc_usdt_swap.as_symbol().clone(), r(17002));
    prices.insert(Symbol::spot(&btc, &usdt), r(17000));
    let ans = expr.eval(&Asset::usdt(), &prices).unwrap().unwrap();
    assert_eq!(ans, d(14198, 10));
}
