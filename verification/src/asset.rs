//! Assets: short tokens in upper case that name what is held and what
//! prices are quoted in.

use vstd::prelude::*;
use vstd::string::*;
use vstd::utf8::is_ascii_chars;

verus! {

/// The upper-case form of an ASCII letter; any other character is itself.
pub open spec fn upper_char(c: char) -> char {
    if 'a' <= c && c <= 'z' {
        ((c as u8) - 32) as char
    } else {
        c
    }
}

/// The text with each ASCII letter in upper case.
pub open spec fn upper(s: Seq<char>) -> Seq<char> {
    Seq::new(s.len(), |i: int| upper_char(s[i]))
}

/// The delimiter of the two assets in the text of a spot.
pub open spec fn asset_sep() -> char {
    '-'
}

/// Why a text is no asset.
#[derive(Debug, Clone, Copy, PartialEq, Eq, Structural)]
pub enum ParseAssetError {
    /// Contains the asset delimiter.
    ContainsSep,
    /// Empty str.
    Empty,
    /// Contains non-ascii characters.
    NonAscii,
}

impl ParseAssetError {
    /// What went wrong, in words.
    pub open spec fn words(self) -> Seq<char> {
        match self {
            ParseAssetError::ContainsSep => "contains `-`"@,
            ParseAssetError::Empty => "empty str cannot be asset"@,
            ParseAssetError::NonAscii => "contains non-ascii characters"@,
        }
    }

    /// What went wrong, in words.
    pub fn message(&self) -> (r: &'static str)
        ensures
            r@ == self.words(),
    {
        match self {
            ParseAssetError::ContainsSep => "contains `-`",
            ParseAssetError::Empty => "empty str cannot be asset",
            ParseAssetError::NonAscii => "contains non-ascii characters",
        }
    }
}

/// What a text reads as: the asset's token, or why it is none. An empty text
/// is refused first, then one that holds the delimiter, then one that holds
/// a character outside ASCII.
pub open spec fn parse_asset(s: Seq<char>) -> Result<Seq<char>, ParseAssetError> {
    if s.len() == 0 {
        Err(ParseAssetError::Empty)
    } else if s.contains(asset_sep()) {
        Err(ParseAssetError::ContainsSep)
    } else if !is_ascii_chars(s) {
        Err(ParseAssetError::NonAscii)
    } else {
        Ok(upper(s))
    }
}

/// `str::to_ascii_uppercase`: a copy in which each of the ASCII letters `a`
/// to `z` is mapped to `A` to `Z` and every other character is unchanged.
#[verifier::external_body]
fn ascii_uppercase(s: &str) -> (r: String)
    ensures
        r@ == upper(s@),
{
    s.to_ascii_uppercase()
}

/// Where `c` first occurs in `s`, if it does.
pub fn find_char(s: &str, c: char) -> (r: Option<usize>)
    ensures
        match r {
            Some(i) => s@.index_of_first(c) == Some(i as int),
            None => s@.index_of_first(c).is_none(),
        },
{
    let n = s.unicode_len();
    let mut i: usize = 0;
    while i < n
        invariant
            n == s@.len(),
            i <= n,
            forall|j: int| 0 <= j < i ==> s@[j] != c,
        decreases n - i,
    {
        if s.get_char(i) == c {
            proof {
                s@.index_of_first_ensures(c);
                assert(s@[i as int] == c);
                assert(s@.contains(c));
                let k = s@.index_of_first(c).unwrap();
                assert(s@[k] == c);
                assert(k == i);
            }
            return Some(i);
        }
        i += 1;
    }
    proof {
        s@.index_of_first_ensures(c);
    }
    None
}

/// `smol_str::SmolStr`, an immutable string that is cheap to clone.
#[verifier::external_type_specification]
#[verifier::external_body]
pub struct ExSmolStr(smol_str::SmolStr);

/// The text that a small string holds.
pub uninterp spec fn smol_text(s: smol_str::SmolStr) -> Seq<char>;

/// `SmolStr::new`: a small string that holds the given text.
#[verifier::external_body]
pub(crate) fn smol_new(text: &str) -> (r: smol_str::SmolStr)
    ensures
        smol_text(r) == text@,
{
    smol_str::SmolStr::new(text)
}

/// `SmolStr::as_str`: the text that the small string holds.
#[verifier::external_body]
pub(crate) fn smol_as_str(s: &smol_str::SmolStr) -> (r: &str)
    ensures
        r@ == smol_text(*s),
{
    s.as_str()
}

/// `Clone::clone` of `SmolStr`: a small string that holds the same text.
#[verifier::external_body]
pub(crate) fn smol_clone(s: &smol_str::SmolStr) -> (r: smol_str::SmolStr)
    ensures
        smol_text(r) == smol_text(*s),
{
    s.clone()
}

/// `PartialEq::eq` of `SmolStr`: whether the two hold the same text.
#[verifier::external_body]
pub(crate) fn smol_eq(a: &smol_str::SmolStr, b: &smol_str::SmolStr) -> (r: bool)
    ensures
        r == (smol_text(*a) == smol_text(*b)),
{
    a == b
}

/// An asset: a nonempty ASCII token in upper case without the delimiter.
#[derive(Debug)]
pub struct Asset {
    inner: smol_str::SmolStr,
}

impl View for Asset {
    type V = Seq<char>;

    closed spec fn view(&self) -> Seq<char> {
        smol_text(self.inner)
    }
}

impl Clone for Asset {
    fn clone(&self) -> (r: Self)
        ensures
            r@ == self@,
    {
        Asset { inner: smol_clone(&self.inner) }
    }
}

impl PartialEq for Asset {
    fn eq(&self, other: &Self) -> (b: bool) {
        smol_eq(&self.inner, &other.inner)
    }
}

impl Eq for Asset {

}

impl vstd::std_specs::cmp::PartialEqSpecImpl for Asset {
    open spec fn obeys_eq_spec() -> bool {
        true
    }

    open spec fn eq_spec(&self, other: &Self) -> bool {
        self@ == other@
    }
}

/// `Hash::hash` of `str`, which feeds the text into the hasher. What the
/// hasher makes of it is its own affair, so nothing is stated of its state.
#[verifier::external_body]
pub(crate) fn hash_text<H: core::hash::Hasher>(text: &str, state: &mut H) {
    core::hash::Hash::hash(text, state)
}

impl core::hash::Hash for Asset {
    /// Feeds the token into the hasher, so that equal assets hash alike.
    fn hash<H: core::hash::Hasher>(&self, state: &mut H) {
        hash_text(smol_as_str(&self.inner), state)
    }
}

impl core::str::FromStr for Asset {
    type Err = ParseAssetError;

    fn from_str(s: &str) -> (r: Result<Self, Self::Err>)
        ensures
            match r {
                Ok(a) => parse_asset(s@) == Ok::<Seq<char>, ParseAssetError>(a@),
                Err(e) => parse_asset(s@) == Err::<Seq<char>, ParseAssetError>(e),
            },
    {
        Asset::parse(s)
    }
}

impl Asset {
    /// Reads an asset from a text, in any case.
    pub fn parse(value: &str) -> (r: Result<Asset, ParseAssetError>)
        ensures
            match r {
                Ok(a) => parse_asset(value@) == Ok::<Seq<char>, ParseAssetError>(a@),
                Err(e) => parse_asset(value@) == Err::<Seq<char>, ParseAssetError>(e),
            },
    {
        if value.is_empty() {
            Err(ParseAssetError::Empty)
        } else if find_char(value, '-').is_some() {
            proof {
                value@.index_of_first_ensures(asset_sep());
            }
            Err(ParseAssetError::ContainsSep)
        } else if !value.is_ascii() {
            proof {
                value@.index_of_first_ensures(asset_sep());
            }
            Err(ParseAssetError::NonAscii)
        } else {
            proof {
                value@.index_of_first_ensures(asset_sep());
            }
            Ok(Asset { inner: smol_new(ascii_uppercase(value).as_str()) })
        }
    }

    /// Usdt.
    pub fn usdt() -> (r: Self)
        ensures
            r@ == "USDT"@,
    {
        Asset { inner: smol_new("USDT") }
    }

    /// Usd.
    pub fn usd() -> (r: Self)
        ensures
            r@ == "USD"@,
    {
        Asset { inner: smol_new("USD") }
    }

    /// Btc.
    pub fn btc() -> (r: Self)
        ensures
            r@ == "BTC"@,
    {
        Asset { inner: smol_new("BTC") }
    }

    /// Eth.
    pub fn eth() -> (r: Self)
        ensures
            r@ == "ETH"@,
    {
        Asset { inner: smol_new("ETH") }
    }

    /// The token.
    pub fn as_str(&self) -> (r: &str)
        ensures
            r@ == self@,
    {
        smol_as_str(&self.inner)
    }

    /// Whether the asset is the given text read without regard to the case
    /// of ASCII letters.
    pub fn eq_ignore_case(&self, other: &str) -> (b: bool)
        ensures
            b == (upper(self@) == upper(other@)),
    {
        let mine = ascii_uppercase(smol_as_str(&self.inner));
        let theirs = ascii_uppercase(other);
        mine == theirs
    }
}

} // verus!
