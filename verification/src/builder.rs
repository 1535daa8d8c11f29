//! A builder for configuring and creating order books.

use vstd::prelude::*;

use crate::book::{
    all_levels_valid, spec_replace_side, spec_trim, FastOrderBook, OrderBookSnapshot, PriceLevel,
    DEFAULT_BOOK_DEPTH, MAX_BOOK_DEPTH,
};
use crate::types::{Symbol, VenueId};

verus! {

/// Accumulates a book's configuration before building it.
#[derive(Debug)]
pub struct OrderBookBuilder {
    pub symbol: Option<Symbol>,
    pub venue_id: Option<VenueId>,
    pub max_depth: Option<usize>,
    pub initial_bids: Vec<PriceLevel>,
    pub initial_asks: Vec<PriceLevel>,
    pub sequence: Option<u64>,
}

impl OrderBookBuilder {
    /// A builder with nothing configured.
    pub fn new() -> (r: OrderBookBuilder)
        ensures
            r.symbol is None,
            r.venue_id is None,
            r.max_depth is None,
            r.initial_bids@.len() == 0,
            r.initial_asks@.len() == 0,
            r.sequence is None,
    {
        OrderBookBuilder {
            symbol: None,
            venue_id: None,
            max_depth: None,
            initial_bids: Vec::new(),
            initial_asks: Vec::new(),
            sequence: None,
        }
    }

    /// Sets the symbol.
    pub fn symbol(self, symbol: Symbol) -> (r: OrderBookBuilder)
        ensures
            r.symbol == Some(symbol),
            r.venue_id == self.venue_id,
            r.max_depth == self.max_depth,
            r.initial_bids@ == self.initial_bids@,
            r.initial_asks@ == self.initial_asks@,
            r.sequence == self.sequence,
    {
        OrderBookBuilder { symbol: Some(symbol), ..self }
    }

    /// Sets the venue.
    pub fn venue_id(self, venue_id: VenueId) -> (r: OrderBookBuilder)
        ensures
            r.venue_id == Some(venue_id),
            r.symbol == self.symbol,
            r.max_depth == self.max_depth,
            r.initial_bids@ == self.initial_bids@,
            r.initial_asks@ == self.initial_asks@,
            r.sequence == self.sequence,
    {
        OrderBookBuilder { venue_id: Some(venue_id), ..self }
    }

    /// Sets the retained depth.
    pub fn max_depth(self, depth: usize) -> (r: OrderBookBuilder)
        ensures
            r.max_depth == Some(depth),
            r.symbol == self.symbol,
            r.venue_id == self.venue_id,
            r.initial_bids@ == self.initial_bids@,
            r.initial_asks@ == self.initial_asks@,
            r.sequence == self.sequence,
    {
        OrderBookBuilder { max_depth: Some(depth), ..self }
    }

    /// Sets the initial bid levels.
    pub fn with_bids(self, bids: Vec<PriceLevel>) -> (r: OrderBookBuilder)
        ensures
            r.initial_bids@ == bids@,
            r.symbol == self.symbol,
            r.venue_id == self.venue_id,
            r.max_depth == self.max_depth,
            r.initial_asks@ == self.initial_asks@,
            r.sequence == self.sequence,
    {
        OrderBookBuilder { initial_bids: bids, ..self }
    }

    /// Sets the initial ask levels.
    pub fn with_asks(self, asks: Vec<PriceLevel>) -> (r: OrderBookBuilder)
        ensures
            r.initial_asks@ == asks@,
            r.symbol == self.symbol,
            r.venue_id == self.venue_id,
            r.max_depth == self.max_depth,
            r.initial_bids@ == self.initial_bids@,
            r.sequence == self.sequence,
    {
        OrderBookBuilder { initial_asks: asks, ..self }
    }

    /// Sets the starting sequence number.
    pub fn sequence(self, seq: u64) -> (r: OrderBookBuilder)
        ensures
            r.sequence == Some(seq),
            r.symbol == self.symbol,
            r.venue_id == self.venue_id,
            r.max_depth == self.max_depth,
            r.initial_bids@ == self.initial_bids@,
            r.initial_asks@ == self.initial_asks@,
    {
        OrderBookBuilder { sequence: Some(seq), ..self }
    }

    /// Adopts a snapshot's symbol, levels and sequence.
    pub fn from_snapshot(self, snapshot: &OrderBookSnapshot) -> (r: OrderBookBuilder)
        ensures
            r.symbol == Some(snapshot.symbol),
            r.initial_bids@ == snapshot.bids@,
            r.initial_asks@ == snapshot.asks@,
            r.sequence == Some(snapshot.sequence),
            r.venue_id == self.venue_id,
            r.max_depth == self.max_depth,
    {
        let bids = snapshot.bids.clone();
        let asks = snapshot.asks.clone();
        proof {
            assert(bids@ =~= snapshot.bids@);
            assert(asks@ =~= snapshot.asks@);
        }
        OrderBookBuilder {
            symbol: Some(snapshot.symbol.clone()),
            initial_bids: bids,
            initial_asks: asks,
            sequence: Some(snapshot.sequence),
            ..self
        }
    }

    /// Builds the configured book. A missing symbol or an invalid initial
    /// level is rejected.
    pub fn build(self) -> (r: Result<FastOrderBook, String>)
        ensures
            r is Ok <==> (self.symbol is Some && all_levels_valid(self.initial_bids@)
                && all_levels_valid(self.initial_asks@)),
            r matches Ok(b) ==> ({
                let d = match self.max_depth {
                    Some(x) => if x > MAX_BOOK_DEPTH {
                        MAX_BOOK_DEPTH as int
                    } else {
                        x as int
                    },
                    None => DEFAULT_BOOK_DEPTH as int,
                };
                &&& b.wf()
                &&& b.symbol == self.symbol->Some_0
                &&& b.max_depth == d
                &&& (self.initial_bids@.len() > 0 ==> b.bids@ == spec_trim(
                    spec_replace_side(self.initial_bids@, true),
                    d,
                ))
                &&& (self.initial_bids@.len() == 0 ==> b.bids@.len() == 0)
                &&& (self.initial_asks@.len() > 0 ==> b.asks@ == spec_trim(
                    spec_replace_side(self.initial_asks@, false),
                    d,
                ))
                &&& (self.initial_asks@.len() == 0 ==> b.asks@.len() == 0)
                &&& (self.sequence matches Some(sq) ==> b.sequence == sq)
                &&& (self.sequence is None && self.initial_bids@.len() == 0
                    && self.initial_asks@.len() == 0 ==> b.sequence == 0)
            }),
    {
        let symbol: Symbol = match self.symbol {
            Some(s) => s,
            None => {
                return Err("Symbol is required".to_owned());
            },
        };
        let mut book = FastOrderBook::new(symbol, self.max_depth);
        if self.initial_bids.len() > 0 {
            if let Err(_) = book.replace_bids(self.initial_bids) {
                return Err("Initial bid level is out of range".to_owned());
            }
        }
        if self.initial_asks.len() > 0 {
            if let Err(_) = book.replace_asks(self.initial_asks) {
                return Err("Initial ask level is out of range".to_owned());
            }
        }
        if let Some(seq) = self.sequence {
            book.set_sequence(seq);
        }
        Ok(book)
    }
}

impl Default for OrderBookBuilder {
    /// The same unconfigured builder `new` makes.
    fn default() -> (r: OrderBookBuilder)
        ensures
            r.symbol is None,
            r.sequence is None,
    {
        OrderBookBuilder::new()
    }
}

} // verus!
