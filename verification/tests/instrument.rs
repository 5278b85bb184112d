use std::collections::hash_map::DefaultHasher;
use std::collections::HashMap;
use std::hash::{Hash, Hasher};
use std::str::FromStr;

use positions::asset::{Asset, ParseAssetError};
use positions::instrument::Instrument;
use positions::symbol::{ParseSymbolError, Symbol};

#[test]
fn symbol_from_str() {
    let swap = Symbol::from_str("SWAP:btcusdt").unwrap();
    assert!(!swap.is_spot());
    assert_eq!(swap, Symbol::derivative("SWAP", "btcusdt").unwrap());
    assert_eq!(swap.to_text(), "SWAP:btcusdt");
    let spot = Symbol::from_str("btc-usdt").unwrap();
    assert!(spot.is_spot());
    assert_eq!(spot, Symbol::spot(&Asset::btc(), &Asset::usdt()));
    assert_eq!(spot.to_text(), "BTC-USDT");
}

#[test]
fn reversed_spot_symbol() {
    let spot: Symbol = "BTC-USDT".parse().unwrap();
    assert_eq!(
        spot.to_reversed_symbol(),
        Some(Symbol::spot(&Asset::usdt(), &Asset::btc()))
    );
}

#[test]
fn reversed_spot() {
    let spot = Instrument::spot(&Asset::btc(), &Asset::usdt());
    assert_eq!(
        spot.to_reversed_spot(),
        Some(Instrument::spot(&Asset::usdt(), &Asset::btc()))
    );
}

#[test]
fn symbol_parse_errors() {
    assert_eq!(Symbol::parse("btcusdt").unwrap_err(), ParseSymbolError::InvalidSpotFormat);
    assert_eq!(Symbol::parse("").unwrap_err(), ParseSymbolError::InvalidSpotFormat);
    assert_eq!(
        Symbol::parse("-usdt").unwrap_err(),
        ParseSymbolError::Asset(ParseAssetError::Empty)
    );
    assert_eq!(
        Symbol::parse("btc-usdt-swap").unwrap_err(),
        ParseSymbolError::Asset(ParseAssetError::ContainsSep)
    );
    assert_eq!(
        Symbol::parse("btc-\u{20bf}").unwrap_err(),
        ParseSymbolError::Asset(ParseAssetError::NonAscii)
    );
    assert_eq!(
        Symbol::derivative("a:b", "c").unwrap_err(),
        ParseSymbolError::InvalidPrefix
    );
    assert_eq!(ParseSymbolError::InvalidPrefix.message(), "invalid prefix");
    assert_eq!(ParseSymbolError::InvalidSpotFormat.message(), "invalid spot format");
    assert_eq!(
        ParseSymbolError::Asset(ParseAssetError::Empty).message(),
        "parse asset error: empty str cannot be asset"
    );
}

#[test]
fn symbol_splits_at_the_first_separator() {
    let s = Symbol::parse("futures:BTC-USDT:210101").unwrap();
    assert_eq!(s.as_derivative(), Some(("futures", "BTC-USDT:210101")));
    assert_eq!(s.derivative_prefix(), Some("futures"));
    assert_eq!(s.derivative_symbol(), Some("BTC-USDT:210101"));
    assert!(s.is_derivative());
    assert_eq!(s.as_spot(), None);
    assert_eq!(s.to_reversed_symbol(), None);
    let empty_prefix = Symbol::parse(":x").unwrap();
    assert_eq!(empty_prefix.as_derivative(), Some(("", "x")));
}

#[test]
fn symbols_are_equal_by_their_text() {
    let spot = Symbol::spot(&Asset::parse("a:b").unwrap(), &Asset::parse("c").unwrap());
    let derivative = Symbol::derivative("A", "B-C").unwrap();
    assert_eq!(spot.to_text(), derivative.to_text());
    assert_eq!(spot, derivative);
    assert_ne!(derivative, Symbol::derivative("A", "B-D").unwrap());
}

#[test]
fn instrument_builders() {
    let btc = Asset::btc();
    let usdt = Asset::usdt();
    let swap = Instrument::try_new("SWAP:BTC-USDT-SWAP", &btc, &usdt).unwrap();
    assert!(swap.is_derivative());
    assert!(!swap.is_spot());
    assert!(!swap.is_prefer_reversed());
    assert_eq!(swap.base(), &btc);
    assert_eq!(swap.quote(), &usdt);
    assert_eq!(swap.to_text(), "SWAP:BTC-USDT-SWAP");
    assert_eq!(swap.to_reversed_spot(), None);
    assert_eq!(
        swap,
        Instrument::derivative("SWAP", "BTC-USDT-SWAP", &btc, &usdt).unwrap()
    );
    let reversed = swap.clone().prefer_reversed(true);
    assert!(reversed.is_prefer_reversed());
    assert_eq!(reversed.as_symbol(), swap.as_symbol());
    // The preferred direction is an attribute and no part of the identity.
    assert_eq!(reversed, swap);

    let spot = Instrument::try_new("btc-usdt", &btc, &usdt).unwrap();
    assert_eq!(spot, Instrument::spot(&btc, &usdt));
    assert_eq!(
        Instrument::try_new("btc-usdt", &usdt, &btc).unwrap_err(),
        ParseSymbolError::InvalidSpotFormat
    );
    assert_eq!(
        Instrument::try_new("btcusdt", &btc, &usdt).unwrap_err(),
        ParseSymbolError::InvalidSpotFormat
    );
    assert_eq!(
        Instrument::try_with_symbol(Symbol::spot(&usdt, &btc), &btc, &usdt).unwrap_err(),
        ParseSymbolError::InvalidSpotFormat
    );
    assert_eq!(
        Instrument::derivative("a:b", "c", &btc, &usdt).unwrap_err(),
        ParseSymbolError::InvalidPrefix
    );
}

fn hash_of<X: Hash>(x: &X) -> u64 {
    let mut state = DefaultHasher::new();
    x.hash(&mut state);
    state.finish()
}

#[test]
fn instruments_are_equal_by_their_symbol() {
    let btc = Asset::btc();
    let usdt = Asset::usdt();
    let usd = Asset::usd();
    let a = Instrument::derivative("SWAP", "BTC-USD-SWAP", &btc, &usdt).unwrap();
    let b = Instrument::derivative("SWAP", "BTC-USD-SWAP", &usd, &btc).unwrap().prefer_reversed(true);
    assert_eq!(a.as_symbol(), b.as_symbol());
    assert_eq!(a, b);
    assert_eq!(hash_of(&a), hash_of(&b));
    assert_ne!(a.base(), b.base());
    assert_ne!(a.quote(), b.quote());
    assert_ne!(a.is_prefer_reversed(), b.is_prefer_reversed());
    let c = Instrument::derivative("SWAP", "BTC-USDT-SWAP", &btc, &usdt).unwrap();
    assert_ne!(a, c);
    let spot = Instrument::spot(&btc, &usdt);
    assert_eq!(spot.clone().prefer_reversed(true), spot);
    assert_eq!(hash_of(&spot.clone().prefer_reversed(true)), hash_of(&spot));
}

#[test]
fn equal_identifiers_hash_alike() {
    let spot = Symbol::spot(&Asset::parse("a:b").unwrap(), &Asset::parse("c").unwrap());
    let derivative = Symbol::derivative("A", "B-C").unwrap();
    assert_eq!(spot, derivative);
    assert_eq!(hash_of(&spot), hash_of(&derivative));
    assert_eq!(hash_of(&Asset::parse("usdt").unwrap()), hash_of(&Asset::usdt()));
    assert_ne!(hash_of(&Asset::usd()), hash_of(&Asset::usdt()));
    assert_ne!(hash_of(&Symbol::parse("btc-usdt").unwrap()), hash_of(&Symbol::parse("usdt-btc").unwrap()));
    let mut prices = HashMap::new();
    prices.insert(Instrument::spot(&Asset::btc(), &Asset::usdt()), 1);
    prices.insert(Instrument::spot(&Asset::btc(), &Asset::usdt()).prefer_reversed(true), 2);
    assert_eq!(prices.len(), 1);
    assert_eq!(prices.get(&Instrument::try_new("btc-usdt", &Asset::btc(), &Asset::usdt()).unwrap()), Some(&2));
}
