use orderbook_merger::decimal::Decimal;
use orderbook_merger::exchanges::binance::{BinanceExchangeSource, BinanceMsg};
use orderbook_merger::exchanges::bitstamp::{BitstampExchangeSource, BitstampMessage, OrderBookData};
use orderbook_merger::exchanges::connector::{
    advance, Command, Event, Failure, Phase, READ_TIMEOUT_SECS, RETRY_DELAY_SECS,
};
use orderbook_merger::order_book::{Bid, MergedOrderBook, OrderBookUpdate};

fn pairs(rows: &[(&str, &str)]) -> Vec<(String, String)> {
    rows.iter().map(|(p, a)| (p.to_string(), a.to_string())).collect()
}

fn sample_update() -> OrderBookUpdate {
    OrderBookUpdate {
        exchange: "x".to_owned(),
        bids: vec![Bid {
            price: Decimal::parse("100").unwrap(),
            amount: Decimal::parse("1").unwrap(),
        }],
        asks: vec![],
    }
}

#[test]
fn binance_url_names_the_pair() {
    let source = BinanceExchangeSource::new("btcusdt".to_owned());
    assert_eq!(source.url(), "wss://stream.binance.com:9443/ws/btcusdt@depth20@100ms");
}

#[test]
fn bitstamp_url_is_the_same_for_every_pair() {
    assert_eq!(BitstampExchangeSource::new("btcusd".to_owned()).url(), "wss://ws.bitstamp.net");
    assert_eq!(BitstampExchangeSource::new("ethbtc".to_owned()).url(), "wss://ws.bitstamp.net");
}

#[test]
fn bitstamp_subscribes_to_the_pairs_channel() {
    let source = BitstampExchangeSource::new("btcusd".to_owned());
    let expected = "\n        {\n            \"event\": \"bts:subscribe\",\n            \"data\": {\n                \"channel\": \"order_book_btcusd\"\n            }\n        }\n        ";
    assert_eq!(source.subscription(), expected);
}

#[test]
fn binance_decodes_a_depth_message() {
    let source = BinanceExchangeSource::new("btcusdt".to_owned());
    let event = source.decode(BinanceMsg {
        last_update_id: 7,
        bids: pairs(&[("100.5", "1.5")]),
        asks: pairs(&[("101.0", "2"), ("102", "3")]),
    });
    match event {
        Event::Update(update) => {
            assert_eq!(update.exchange, "binance");
            assert_eq!(update.bids.len(), 1);
            assert_eq!((update.bids[0].price.mantissa(), update.bids[0].price.scale()), (1005, 1));
            assert_eq!(update.asks.len(), 2);
            assert_eq!((update.asks[1].amount.mantissa(), update.asks[1].amount.scale()), (3, 0));
        }
        other => panic!("expected an update, got {:?}", other),
    }
}

#[test]
fn binance_reports_a_bad_number_as_a_decode_failure() {
    let source = BinanceExchangeSource::new("btcusdt".to_owned());
    let event = source.decode(BinanceMsg {
        last_update_id: 7,
        bids: pairs(&[("100.5", "lots")]),
        asks: vec![],
    });
    assert!(matches!(event, Event::Failed(Failure::Decode)));
}

#[test]
fn bitstamp_skips_the_subscription_reply() {
    let source = BitstampExchangeSource::new("btcusd".to_owned());
    let event = source.decode(BitstampMessage::BtsSubscriptionSucceeded {
        channel: "order_book_btcusd".to_owned(),
    });
    assert!(matches!(event, Event::Skipped));
}

#[test]
fn bitstamp_decodes_data() {
    let source = BitstampExchangeSource::new("btcusd".to_owned());
    let event = source.decode(BitstampMessage::Data {
        data: OrderBookData {
            timestamp: "1700000000".to_owned(),
            bids: pairs(&[("27000.5", "0.1")]),
            asks: pairs(&[("27001", "0.2")]),
        },
    });
    match event {
        Event::Update(update) => {
            assert_eq!(update.exchange, "bitstamp");
            assert_eq!((update.bids[0].price.mantissa(), update.bids[0].price.scale()), (270005, 1));
            assert_eq!((update.asks[0].amount.mantissa(), update.asks[0].amount.scale()), (2, 1));
        }
        other => panic!("expected an update, got {:?}", other),
    }
}

#[test]
fn a_bad_price_forwards_nothing_and_reconnects() {
    let mut book = MergedOrderBook::new(3);
    let before = book.update(sample_update());

    let source = BitstampExchangeSource::new("btcusd".to_owned());
    let event = source.decode(BitstampMessage::Data {
        data: OrderBookData {
            timestamp: "1700000000".to_owned(),
            bids: pairs(&[("not-a-price", "0.1")]),
            asks: vec![],
        },
    });
    assert!(matches!(event, Event::Failed(Failure::Decode)));

    let (phase, command) = source.step(Phase::Streaming, event);
    assert_eq!(phase, Phase::Disconnected);
    assert!(matches!(command, Command::Retry { delay_secs: 2 }));

    let (phase, command) = source.step(phase, Event::Wake);
    assert_eq!(phase, Phase::Connecting);
    assert!(matches!(command, Command::Connect));

    let after = book.update(sample_update());
    assert_eq!(after.bids.len(), before.bids.len());
    assert_eq!(after.bids[0].exchange, before.bids[0].exchange);
    assert_eq!(after.bids[0].price, before.bids[0].price);
}

#[test]
fn binance_streams_without_a_handshake() {
    let source = BinanceExchangeSource::new("btcusdt".to_owned());
    let (phase, command) = source.step(Phase::Disconnected, Event::Wake);
    assert_eq!(phase, Phase::Connecting);
    assert!(matches!(command, Command::Connect));
    let (phase, command) = source.step(phase, Event::Connected);
    assert_eq!(phase, Phase::Streaming);
    assert!(matches!(command, Command::Receive { timeout_secs: 15 }));
    let (phase, command) = source.step(phase, Event::Update(sample_update()));
    assert_eq!(phase, Phase::Streaming);
    match command {
        Command::Deliver(update) => assert_eq!(update.exchange, "x"),
        other => panic!("expected a delivery, got {:?}", other),
    }
    let (phase, command) = source.step(phase, Event::Delivered);
    assert_eq!(phase, Phase::Streaming);
    assert!(matches!(command, Command::Receive { timeout_secs: 15 }));
    let (phase, command) = source.step(phase, Event::Skipped);
    assert_eq!(phase, Phase::Streaming);
    assert!(matches!(command, Command::Receive { timeout_secs: 15 }));
}

#[test]
fn bitstamp_subscribes_before_it_streams() {
    let source = BitstampExchangeSource::new("btcusd".to_owned());
    let (phase, _) = source.step(Phase::Disconnected, Event::Wake);
    let (phase, command) = source.step(phase, Event::Connected);
    assert_eq!(phase, Phase::Handshaking);
    assert!(matches!(command, Command::Subscribe));
    let (phase, command) = source.step(phase, Event::Subscribed);
    assert_eq!(phase, Phase::Streaming);
    assert!(matches!(command, Command::Receive { timeout_secs: 15 }));
}

#[test]
fn every_failure_in_every_phase_leads_to_a_retry() {
    for handshake in [false, true] {
        for phase in [Phase::Disconnected, Phase::Connecting, Phase::Handshaking, Phase::Streaming] {
            for failure in [Failure::Connection, Failure::Timeout, Failure::Decode, Failure::Send] {
                let (next, command) = advance(phase, Event::Failed(failure), handshake);
                assert_eq!(next, Phase::Disconnected);
                assert!(matches!(command, Command::Retry { delay_secs: 2 }));
            }
            let (next, command) = advance(phase, Event::Closed, handshake);
            assert_eq!(next, Phase::Disconnected);
            assert!(matches!(command, Command::Retry { delay_secs: 2 }));
        }
    }
}

#[test]
fn an_event_out_of_turn_drops_the_connection() {
    let (next, command) = advance(Phase::Connecting, Event::Update(sample_update()), false);
    assert_eq!(next, Phase::Disconnected);
    assert!(matches!(command, Command::Retry { delay_secs: 2 }));
    let (next, command) = advance(Phase::Handshaking, Event::Connected, true);
    assert_eq!(next, Phase::Disconnected);
    assert!(matches!(command, Command::Retry { delay_secs: 2 }));
    let (next, command) = advance(Phase::Streaming, Event::Wake, true);
    assert_eq!(next, Phase::Disconnected);
    assert!(matches!(command, Command::Retry { delay_secs: 2 }));
}

#[test]
fn the_delays_are_fifteen_and_two_seconds() {
    assert_eq!(READ_TIMEOUT_SECS, 15);
    assert_eq!(RETRY_DELAY_SECS, 2);
}
