//! A price for each symbol.

use vstd::prelude::*;
use crate::num::PositionNum;
use crate::symbol::Symbol;

verus! {

#[derive(Debug)]
struct Quote<T> {
    symbol: Symbol,
    price: T,
}

/// The prices of instruments, one for each symbol that has one.
#[derive(Debug)]
pub struct Prices<T> {
    quotes: Vec<Quote<T>>,
}

impl<T: PositionNum> Prices<T> {
    /// Whether some quote carries the symbol text `key`.
    pub closed spec fn quoted(&self, key: Seq<char>) -> bool {
        exists|i: int| 0 <= i < self.quotes@.len() && (#[trigger] self.quotes@[i]).symbol@.text() == key
    }

    /// Where the quote with the symbol text `key` stands.
    pub closed spec fn quote_index(&self, key: Seq<char>) -> int {
        choose|i: int| 0 <= i < self.quotes@.len() && (#[trigger] self.quotes@[i]).symbol@.text() == key
    }

    /// Whether no symbol has two quotes.
    pub closed spec fn wf(&self) -> bool {
        forall|i: int, j: int|
            0 <= i < j < self.quotes@.len() ==> (#[trigger] self.quotes@[i]).symbol@.text() != (
            #[trigger] self.quotes@[j]).symbol@.text()
    }
}

impl<T: PositionNum> View for Prices<T> {
    type V = Map<Seq<char>, real>;

    closed spec fn view(&self) -> Map<Seq<char>, real> {
        Map::new(
            |key: Seq<char>| self.quoted(key),
            |key: Seq<char>| self.quotes@[self.quote_index(key)].price.value(),
        )
    }
}

impl<T: PositionNum> Prices<T> {
    /// No prices.
    pub fn new() -> (r: Self)
        ensures
            r.wf(),
            r@ == Map::<Seq<char>, real>::empty(),
    {
        let r = Prices { quotes: Vec::new() };
        assert(r@ =~= Map::<Seq<char>, real>::empty());
        r
    }

    fn find(&self, symbol: &Symbol) -> (r: Option<usize>)
        requires
            self.wf(),
        ensures
            match r {
                Some(i) => self.quoted(symbol@.text()) && i == self.quote_index(symbol@.text())
                    && i < self.quotes@.len(),
                None => !self.quoted(symbol@.text()),
            },
    {
        let n = self.quotes.len();
        let mut i: usize = 0;
        while i < n
            invariant
                n == self.quotes@.len(),
                i <= n,
                self.wf(),
                forall|j: int|
                    0 <= j < i ==> (#[trigger] self.quotes@[j]).symbol@.text() != symbol@.text(),
            decreases n - i,
        {
            if self.quotes[i].symbol == *symbol {
                proof {
                    assert(self.quotes@[i as int].symbol@.text() == symbol@.text());
                    let k = self.quote_index(symbol@.text());
                    assert(self.quotes@[k].symbol@.text() == symbol@.text());
                    assert(k == i);
                }
                return Some(i);
            }
            i += 1;
        }
        None
    }

    /// Sets the price of a symbol, in place of the one it had.
    pub fn insert(&mut self, symbol: Symbol, price: T)
        requires
            old(self).wf(),
        ensures
            final(self).wf(),
            final(self)@ == old(self)@.insert(symbol@.text(), price.value()),
    {
        let ghost before = *self;
        let ghost key = symbol@.text();
        let ghost value = price.value();
        match self.find(&symbol) {
            Some(i) => {
                self.quotes.set(i, Quote { symbol, price });
                proof {
                    assert forall|j: int| 0 <= j < self.quotes@.len() implies (
                    #[trigger] self.quotes@[j]).symbol@.text() == before.quotes@[j].symbol@.text() by {}
                    assert forall|k: Seq<char>| self.quoted(k) == before.quoted(k) by {
                        if self.quoted(k) {
                            let j = self.quote_index(k);
                            assert(before.quotes@[j].symbol@.text() == k);
                        }
                        if before.quoted(k) {
                            let j = before.quote_index(k);
                            assert(self.quotes@[j].symbol@.text() == k);
                        }
                    }
                    assert forall|k: Seq<char>| self.quoted(k) implies #[trigger] self@[k]
                        == before@.insert(key, value)[k] by {
                        let j = self.quote_index(k);
                        let b = before.quote_index(k);
                        assert(self.quotes@[j].symbol@.text() == k);
                        assert(before.quotes@[b].symbol@.text() == k);
                        assert(self.quotes@[b].symbol@.text() == k);
                        assert(j == b);
                    }
                    assert(self@ =~= before@.insert(key, value));
                }
            },
            None => {
                self.quotes.push(Quote { symbol, price });
                proof {
                    let n = before.quotes@.len() as int;
                    assert(self.quotes@[n].symbol@.text() == key);
                    assert forall|j: int| 0 <= j < n implies (#[trigger] self.quotes@[j])
                        == before.quotes@[j] by {}
                    assert forall|k: Seq<char>| self.quoted(k) == (before.quoted(k) || k == key) by {
                        if self.quoted(k) {
                            let j = self.quote_index(k);
                            if j < n {
                                assert(before.quotes@[j].symbol@.text() == k);
                            }
                        }
                        if before.quoted(k) {
                            let j = before.quote_index(k);
                            assert(self.quotes@[j].symbol@.text() == k);
                        }
                    }
                    assert forall|k: Seq<char>| self.quoted(k) implies #[trigger] self@[k]
                        == before@.insert(key, value)[k] by {
                        let j = self.quote_index(k);
                        assert(self.quotes@[j].symbol@.text() == k);
                        if k != key {
                            let b = before.quote_index(k);
                            assert(before.quotes@[b].symbol@.text() == k);
                            assert(self.quotes@[b].symbol@.text() == k);
                            assert(j == b);
                        } else {
                            assert(j == n);
                        }
                    }
                    assert(self@ =~= before@.insert(key, value));
                }
            },
        }
    }

    /// The price of a symbol, if it has one.
    pub fn get(&self, symbol: &Symbol) -> (r: Option<&T>)
        requires
            self.wf(),
        ensures
            match r {
                Some(p) => self@.dom().contains(symbol@.text()) && self@[symbol@.text()]
                    == p.value(),
                None => !self@.dom().contains(symbol@.text()),
            },
    {
        match self.find(symbol) {
            Some(i) => Some(&self.quotes[i].price),
            None => None,
        }
    }
}

} // verus!
