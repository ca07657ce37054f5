//! The Binance source: a depth stream per currency pair that needs no
//! subscription.

use crate::exchanges::connector::{advance, advance_spec, Command, Event, Failure, Phase};
use crate::merge::views;
use crate::order_book::{all_parse, parse_data, parsed_levels};
use vstd::prelude::*;
use vstd::string::StringExecFns;

verus! {

/// A depth message of the stream: price and amount texts of the best bids
/// and asks.
#[derive(Debug)]
pub struct BinanceMsg {
    pub last_update_id: u64,
    pub bids: Vec<(String, String)>,
    pub asks: Vec<(String, String)>,
}

pub struct BinanceExchangeSource {
    currency_pair: String,
}

impl BinanceExchangeSource {
    /// The currency pair whose book this source streams.
    pub closed spec fn pair(&self) -> Seq<char> {
        self.currency_pair@
    }

    pub fn new(currency_pair: String) -> (source: BinanceExchangeSource)
        ensures
            source.pair() == currency_pair@,
    {
        BinanceExchangeSource { currency_pair }
    }

    /// The address of the pair's depth stream.
    pub fn url(&self) -> (url: String)
        ensures
            url@ == "wss://stream.binance.com:9443/ws/"@ + self.pair() + "@depth20@100ms"@,
    {
        let mut url = "wss://stream.binance.com:9443/ws/".to_owned();
        url.append(self.currency_pair.as_str());
        url.append("@depth20@100ms");
        url
    }

    /// What a message of the stream means for the source's cycle: an update
    /// under the name "binance" if every price and amount is a decimal, a
    /// decode failure if not.
    pub fn decode(&self, message: BinanceMsg) -> (event: Event)
        ensures
            match event {
                Event::Update(update) => {
                    &&& all_parse(message.bids@) && all_parse(message.asks@)
                    &&& update.exchange@ == "binance"@
                    &&& views(update.bids@) == parsed_levels(message.bids@)
                    &&& views(update.asks@) == parsed_levels(message.asks@)
                },
                Event::Failed(failure) => failure == Failure::Decode && !(all_parse(message.bids@)
                    && all_parse(message.asks@)),
                _ => false,
            },
    {
        match parse_data(message.bids, message.asks, "binance") {
            Ok(update) => Event::Update(update),
            Err(_) => Event::Failed(Failure::Decode),
        }
    }

    /// The next phase of this source and what it is to do.
    pub fn step(&self, phase: Phase, event: Event) -> (next: (Phase, Command))
        ensures
            next == advance_spec(phase, event, false),
    {
        advance(phase, event, false)
    }
}

} // verus!
