use std::str::FromStr;

use positions::asset::{Asset, ParseAssetError};

#[test]
fn from_str() {
    let asset = Asset::from_str("usdt").unwrap();
    assert_eq!(asset.as_str(), "USDT");
}

#[test]
fn equal() {
    let asset = Asset::from_str("usdt").unwrap();
    assert_eq!(asset, Asset::usdt());
    assert!(asset.eq_ignore_case("usdt"));
    assert!(asset.eq_ignore_case(&String::from("uSdt")));
    assert!(!asset.eq_ignore_case("usd"));
}

#[test]
fn asset_constants() {
    assert_eq!(Asset::usdt().as_str(), "USDT");
    assert_eq!(Asset::usd().as_str(), "USD");
    assert_eq!(Asset::btc().as_str(), "BTC");
    assert_eq!(Asset::eth().as_str(), "ETH");
    assert_ne!(Asset::usd(), Asset::usdt());
}

#[test]
fn asset_parse_errors() {
    assert_eq!(Asset::parse("").unwrap_err(), ParseAssetError::Empty);
    assert_eq!(Asset::parse("btc-usdt").unwrap_err(), ParseAssetError::ContainsSep);
    assert_eq!(Asset::parse("\u{20bf}").unwrap_err(), ParseAssetError::NonAscii);
    // The separator is looked for before the characters are held to ASCII.
    assert_eq!(Asset::parse("\u{20bf}-x").unwrap_err(), ParseAssetError::ContainsSep);
    assert_eq!(ParseAssetError::Empty.message(), "empty str cannot be asset");
    assert_eq!(ParseAssetError::ContainsSep.message(), "contains `-`");
    assert_eq!(ParseAssetError::NonAscii.message(), "contains non-ascii characters");
}

#[test]
fn asset_parse_uppercases_letters_only() {
    assert_eq!(Asset::parse("x1:y_z").unwrap().as_str(), "X1:Y_Z");
    assert_eq!(Asset::parse("Eth").unwrap(), Asset::eth());
}
