//! The Bitstamp source: one address for all pairs, and a subscription to the
//! pair's order-book channel before data comes.

use crate::exchanges::connector::{advance, advance_spec, Command, Event, Failure, Phase};
use crate::merge::views;
use crate::order_book::{all_parse, parse_data, parsed_levels};
use vstd::prelude::*;
use vstd::string::StringExecFns;

verus! {

/// The payload of a data message: price and amount texts of the best bids
/// and asks.
#[derive(Debug)]
pub struct OrderBookData {
    pub timestamp: String,
    pub bids: Vec<(String, String)>,
    pub asks: Vec<(String, String)>,
}

/// A message of the stream.
#[derive(Debug)]
pub enum BitstampMessage {
    /// The subscription to a channel was accepted.
    BtsSubscriptionSucceeded { channel: String },
    /// The channel's data.
    Data { data: OrderBookData },
}

pub struct BitstampExchangeSource {
    currency_pair: String,
}

impl BitstampExchangeSource {
    /// The currency pair whose book this source streams.
    pub closed spec fn pair(&self) -> Seq<char> {
        self.currency_pair@
    }

    pub fn new(currency_pair: String) -> (source: BitstampExchangeSource)
        ensures
            source.pair() == currency_pair@,
    {
        BitstampExchangeSource { currency_pair }
    }

    /// The address of the stream.
    pub fn url(&self) -> (url: String)
        ensures
            url@ == "wss://ws.bitstamp.net"@,
    {
        "wss://ws.bitstamp.net".to_owned()
    }

    /// The message that subscribes to the pair's order-book channel.
    pub fn subscription(&self) -> (message: String)
        ensures
            message@
                == "\n        {\n            \"event\": \"bts:subscribe\",\n            \"data\": {\n                \"channel\": \"order_book_"@
                + self.pair() + "\"\n            }\n        }\n        "@,
    {
        let mut message =
            "\n        {\n            \"event\": \"bts:subscribe\",\n            \"data\": {\n                \"channel\": \"order_book_".to_owned();
        message.append(self.currency_pair.as_str());
        message.append("\"\n            }\n        }\n        ");
        message
    }

    /// What a message of the stream means for the source's cycle: nothing if
    /// it confirms the subscription; for data an update under the name
    /// "bitstamp" if every price and amount is a decimal, a decode failure
    /// if not.
    pub fn decode(&self, message: BitstampMessage) -> (event: Event)
        ensures
            match message {
                BitstampMessage::BtsSubscriptionSucceeded { .. } => event is Skipped,
                BitstampMessage::Data { data } => match event {
                    Event::Update(update) => {
                        &&& all_parse(data.bids@) && all_parse(data.asks@)
                        &&& update.exchange@ == "bitstamp"@
                        &&& views(update.bids@) == parsed_levels(data.bids@)
                        &&& views(update.asks@) == parsed_levels(data.asks@)
                    },
                    Event::Failed(failure) => failure == Failure::Decode && !(all_parse(data.bids@)
                        && all_parse(data.asks@)),
                    _ => false,
                },
            },
    {
        match message {
            BitstampMessage::BtsSubscriptionSucceeded { channel: _ } => Event::Skipped,
            BitstampMessage::Data { data } => {
                match parse_data(data.bids, data.asks, "bitstamp") {
                    Ok(update) => Event::Update(update),
                    Err(_) => Event::Failed(Failure::Decode),
                }
            },
        }
    }

    /// The next phase of this source and what it is to do.
    pub fn step(&self, phase: Phase, event: Event) -> (next: (Phase, Command))
        ensures
            next == advance_spec(phase, event, true),
    {
        advance(phase, event, true)
    }
}

} // verus!
