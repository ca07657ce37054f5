//! The merged order book: the latest bids and asks of every source, merged on
//! each update into the best levels of both sides and the spread between them.

use crate::decimal::{decimal_difference, difference_fits, parsed_decimal, Decimal, ParseError};
use crate::merge::{views, Ranked, SideBook};
use crate::ranking::{
    distinct_sources, in_rank_order, lemma_merged_in_order, merged, replace_source, PriceLevel,
    RankedEntry, SourceSnapshot,
};
use vstd::prelude::*;

verus! {

/// An offer to buy.
#[derive(Debug, Clone, Copy)]
pub struct Bid {
    pub price: Decimal,
    pub amount: Decimal,
}

/// An offer to sell.
#[derive(Debug, Clone, Copy)]
pub struct Ask {
    pub price: Decimal,
    pub amount: Decimal,
}

/// What one source reports at one moment: its best bids, highest price
/// first, and its best asks, lowest price first.
#[derive(Debug, Clone)]
pub struct OrderBookUpdate {
    pub exchange: String,
    pub bids: Vec<Bid>,
    pub asks: Vec<Ask>,
}

/// An ask in the merged book, with the source it came from.
#[derive(Debug, Clone)]
pub struct ExchangeAsk {
    pub exchange: String,
    pub price: Decimal,
    pub amount: Decimal,
}

/// A bid in the merged book, with the source it came from.
#[derive(Debug, Clone)]
pub struct ExchangeBid {
    pub exchange: String,
    pub price: Decimal,
    pub amount: Decimal,
}

/// The merged book after an update.
#[derive(Debug, Clone)]
pub struct UpdateResult {
    pub asks: Vec<ExchangeAsk>,
    pub bids: Vec<ExchangeBid>,
    pub spread: Option<Decimal>,
}

/// The merged book as a value: asks by rising price, bids by falling price,
/// and the spread between the best of each.
pub struct MergedResult {
    pub asks: Seq<RankedEntry>,
    pub bids: Seq<RankedEntry>,
    pub spread: Option<Decimal>,
}

impl View for Bid {
    type V = PriceLevel;

    open spec fn view(&self) -> PriceLevel {
        PriceLevel { price: self.price, amount: self.amount }
    }
}

impl View for Ask {
    type V = PriceLevel;

    open spec fn view(&self) -> PriceLevel {
        PriceLevel { price: self.price, amount: self.amount }
    }
}

impl View for ExchangeAsk {
    type V = RankedEntry;

    open spec fn view(&self) -> RankedEntry {
        RankedEntry { exchange: self.exchange@, price: self.price, amount: self.amount }
    }
}

impl View for ExchangeBid {
    type V = RankedEntry;

    open spec fn view(&self) -> RankedEntry {
        RankedEntry { exchange: self.exchange@, price: self.price, amount: self.amount }
    }
}

impl View for UpdateResult {
    type V = MergedResult;

    open spec fn view(&self) -> MergedResult {
        MergedResult { asks: views(self.asks@), bids: views(self.bids@), spread: self.spread }
    }
}

/// The spread of a merged book: the best ask's price less the best bid's,
/// as far as both sides hold an entry and the difference is a decimal.
pub open spec fn spread_of(asks: Seq<RankedEntry>, bids: Seq<RankedEntry>) -> Option<Decimal> {
    if asks.len() > 0 && bids.len() > 0 {
        decimal_difference(asks[0].price, bids[0].price)
    } else {
        None
    }
}

/// An entry with its price and amount cut to the given fractional digits.
pub open spec fn round_entry(e: RankedEntry, price_places: u32, amount_places: u32) -> RankedEntry {
    RankedEntry {
        exchange: e.exchange,
        price: e.price.rounded(price_places),
        amount: e.amount.rounded(amount_places),
    }
}

/// Every entry of a list rounded.
pub open spec fn round_entries(s: Seq<RankedEntry>, price_places: u32, amount_places: u32) -> Seq<
    RankedEntry,
> {
    Seq::new(s.len(), |i: int| round_entry(s[i], price_places, amount_places))
}

/// A merged book with every price, amount and the spread rounded.
pub open spec fn round_result(
    m: MergedResult,
    price_places: u32,
    amount_places: u32,
    spread_places: u32,
) -> MergedResult {
    MergedResult {
        asks: round_entries(m.asks, price_places, amount_places),
        bids: round_entries(m.bids, price_places, amount_places),
        spread: match m.spread {
            Some(d) => Some(d.rounded(spread_places)),
            None => None,
        },
    }
}

/// The price level that a pair of texts stands for, if both are decimals.
pub open spec fn parsed_level(pair: (String, String)) -> Option<PriceLevel> {
    match (parsed_decimal(pair.0@), parsed_decimal(pair.1@)) {
        (Some(price), Some(amount)) => Some(PriceLevel { price, amount }),
        _ => None,
    }
}

/// Whether every pair of texts stands for a price level.
pub open spec fn all_parse(pairs: Seq<(String, String)>) -> bool {
    forall|i: int| 0 <= i < pairs.len() ==> (#[trigger] parsed_level(pairs[i])) is Some
}

/// The price levels that the pairs of texts stand for, one for one.
pub open spec fn parsed_levels(pairs: Seq<(String, String)>) -> Seq<PriceLevel> {
    Seq::new(pairs.len(), |i: int| parsed_level(pairs[i]).unwrap())
}

fn levels_of_bids(bids: &Vec<Bid>) -> (levels: Vec<PriceLevel>)
    ensures
        levels@ == views(bids@),
{
    let mut levels: Vec<PriceLevel> = Vec::new();
    let mut i: usize = 0;
    while i < bids.len()
        invariant
            i <= bids.len(),
            levels@ == views(bids@).take(i as int),
        decreases bids.len() - i,
    {
        levels.push(PriceLevel { price: bids[i].price, amount: bids[i].amount });
        i += 1;
    }
    levels
}

fn levels_of_asks(asks: &Vec<Ask>) -> (levels: Vec<PriceLevel>)
    ensures
        levels@ == views(asks@),
{
    let mut levels: Vec<PriceLevel> = Vec::new();
    let mut i: usize = 0;
    while i < asks.len()
        invariant
            i <= asks.len(),
            levels@ == views(asks@).take(i as int),
        decreases asks.len() - i,
    {
        levels.push(PriceLevel { price: asks[i].price, amount: asks[i].amount });
        i += 1;
    }
    levels
}

fn bids_of_levels(levels: &Vec<PriceLevel>) -> (bids: Vec<Bid>)
    ensures
        views(bids@) == levels@,
{
    let mut bids: Vec<Bid> = Vec::new();
    let mut i: usize = 0;
    while i < levels.len()
        invariant
            i <= levels.len(),
            bids@.len() == i,
            views(bids@) == levels@.take(i as int),
        decreases levels.len() - i,
    {
        let ghost prev = bids@;
        bids.push(Bid { price: levels[i].price, amount: levels[i].amount });
        i += 1;
        proof {
            assert forall|k: int| 0 <= k < i implies views(bids@)[k] == levels@[k] by {
                if k < i - 1 {
                    assert(views(prev)[k] == levels@.take(i - 1)[k]);
                }
            }
            assert(views(bids@) =~= levels@.take(i as int));
        }
    }
    bids
}

fn asks_of_levels(levels: &Vec<PriceLevel>) -> (asks: Vec<Ask>)
    ensures
        views(asks@) == levels@,
{
    let mut asks: Vec<Ask> = Vec::new();
    let mut i: usize = 0;
    while i < levels.len()
        invariant
            i <= levels.len(),
            asks@.len() == i,
            views(asks@) == levels@.take(i as int),
        decreases levels.len() - i,
    {
        let ghost prev = asks@;
        asks.push(Ask { price: levels[i].price, amount: levels[i].amount });
        i += 1;
        proof {
            assert forall|k: int| 0 <= k < i implies views(asks@)[k] == levels@[k] by {
                if k < i - 1 {
                    assert(views(prev)[k] == levels@.take(i - 1)[k]);
                }
            }
            assert(views(asks@) =~= levels@.take(i as int));
        }
    }
    asks
}

fn bids_of_ranked(ranked: &Vec<Ranked>) -> (bids: Vec<ExchangeBid>)
    ensures
        views(bids@) == views(ranked@),
{
    let mut bids: Vec<ExchangeBid> = Vec::new();
    let mut i: usize = 0;
    while i < ranked.len()
        invariant
            i <= ranked.len(),
            bids@.len() == i,
            views(bids@) == views(ranked@).take(i as int),
        decreases ranked.len() - i,
    {
        let ghost prev = bids@;
        let entry = &ranked[i];
        bids.push(
            ExchangeBid {
                exchange: entry.exchange.clone(),
                price: entry.price,
                amount: entry.amount,
            },
        );
        i += 1;
        proof {
            assert forall|k: int| 0 <= k < i implies views(bids@)[k] == views(ranked@)[k] by {
                if k < i - 1 {
                    assert(views(prev)[k] == views(ranked@).take(i - 1)[k]);
                }
            }
            assert(views(bids@) =~= views(ranked@).take(i as int));
        }
    }
    bids
}

fn asks_of_ranked(ranked: &Vec<Ranked>) -> (asks: Vec<ExchangeAsk>)
    ensures
        views(asks@) == views(ranked@),
{
    let mut asks: Vec<ExchangeAsk> = Vec::new();
    let mut i: usize = 0;
    while i < ranked.len()
        invariant
            i <= ranked.len(),
            asks@.len() == i,
            views(asks@) == views(ranked@).take(i as int),
        decreases ranked.len() - i,
    {
        let ghost prev = asks@;
        let entry = &ranked[i];
        asks.push(
            ExchangeAsk {
                exchange: entry.exchange.clone(),
                price: entry.price,
                amount: entry.amount,
            },
        );
        i += 1;
        proof {
            assert forall|k: int| 0 <= k < i implies views(asks@)[k] == views(ranked@)[k] by {
                if k < i - 1 {
                    assert(views(prev)[k] == views(ranked@).take(i - 1)[k]);
                }
            }
            assert(views(asks@) =~= views(ranked@).take(i as int));
        }
    }
    asks
}

/// Reads pairs of price and amount texts, stopping at the first text that is
/// no decimal.
fn parse_levels(pairs: &Vec<(String, String)>) -> (r: Result<Vec<PriceLevel>, ParseError>)
    ensures
        match r {
            Ok(levels) => all_parse(pairs@) && levels@ == parsed_levels(pairs@),
            Err(_) => !all_parse(pairs@),
        },
{
    let mut levels: Vec<PriceLevel> = Vec::new();
    let mut i: usize = 0;
    while i < pairs.len()
        invariant
            i <= pairs.len(),
            forall|k: int| 0 <= k < i ==> (#[trigger] parsed_level(pairs@[k])) is Some,
            levels@ == parsed_levels(pairs@).take(i as int),
        decreases pairs.len() - i,
    {
        let pair = &pairs[i];
        let price = match Decimal::parse(pair.0.as_str()) {
            Ok(d) => d,
            Err(e) => {
                assert(parsed_level(pairs@[i as int]) is None);
                return Err(e);
            },
        };
        let amount = match Decimal::parse(pair.1.as_str()) {
            Ok(d) => d,
            Err(e) => {
                assert(parsed_level(pairs@[i as int]) is None);
                return Err(e);
            },
        };
        levels.push(PriceLevel { price, amount });
        i += 1;
    }
    Ok(levels)
}

/// Turns the texts of one report into an update of the source `exchange`.
/// Fails if any price or amount is not a decimal.
pub fn parse_data(bids: Vec<(String, String)>, asks: Vec<(String, String)>, exchange: &str) -> (r:
    Result<OrderBookUpdate, ParseError>)
    ensures
        match r {
            Ok(update) => {
                &&& all_parse(bids@) && all_parse(asks@)
                &&& update.exchange@ == exchange@
                &&& views(update.bids@) == parsed_levels(bids@)
                &&& views(update.asks@) == parsed_levels(asks@)
            },
            Err(_) => !(all_parse(bids@) && all_parse(asks@)),
        },
{
    let bid_levels = match parse_levels(&bids) {
        Ok(levels) => levels,
        Err(e) => {
            return Err(e);
        },
    };
    let ask_levels = match parse_levels(&asks) {
        Ok(levels) => levels,
        Err(e) => {
            return Err(e);
        },
    };
    Ok(
        OrderBookUpdate {
            exchange: exchange.to_owned(),
            bids: bids_of_levels(&bid_levels),
            asks: asks_of_levels(&ask_levels),
        },
    )
}

/// The best ask's price less the best bid's.
fn spread_between(asks: &Vec<ExchangeAsk>, bids: &Vec<ExchangeBid>) -> (spread: Option<Decimal>)
    ensures
        spread == spread_of(views(asks@), views(bids@)),
        asks@.len() > 0 && bids@.len() > 0 && difference_fits(asks@[0].price, bids@[0].price)
            ==> spread is Some && spread.unwrap().scaled() == asks@[0].price.scaled()
            - bids@[0].price.scaled(),
{
    if asks.len() > 0 && bids.len() > 0 {
        asks[0].price.checked_sub(&bids[0].price)
    } else {
        None
    }
}

/// The latest bids and asks of every source, and the depth to which they
/// are merged.
#[derive(Debug)]
pub struct MergedOrderBook {
    latest_bids: SideBook,
    latest_asks: SideBook,
    top_n: usize,
}

impl MergedOrderBook {
    /// The latest bids of every source that has reported.
    pub closed spec fn bid_sources(&self) -> Seq<SourceSnapshot> {
        self.latest_bids@
    }

    /// The latest asks of every source that has reported.
    pub closed spec fn ask_sources(&self) -> Seq<SourceSnapshot> {
        self.latest_asks@
    }

    /// How many levels a source contributes at most, and how many a merged
    /// side holds at most.
    pub closed spec fn depth(&self) -> nat {
        self.top_n as nat
    }

    /// A book of depth `top_n` to which no source has reported.
    pub fn new(top_n: usize) -> (book: MergedOrderBook)
        ensures
            book.bid_sources() == Seq::<SourceSnapshot>::empty(),
            book.ask_sources() == Seq::<SourceSnapshot>::empty(),
            book.depth() == top_n,
    {
        MergedOrderBook { latest_bids: SideBook::new(), latest_asks: SideBook::new(), top_n }
    }

    /// Takes `bids` as the latest bids of `exchange` and merges the bids of
    /// all sources, best price first.
    pub fn update_bids(&mut self, exchange: &str, bids: Vec<Bid>) -> (top: Vec<ExchangeBid>)
        ensures
            final(self).bid_sources() == replace_source(
                old(self).bid_sources(),
                exchange@,
                views(bids@),
            ),
            final(self).ask_sources() == old(self).ask_sources(),
            final(self).depth() == old(self).depth(),
            distinct_sources(final(self).bid_sources()),
            views(top@) == merged(final(self).bid_sources(), final(self).depth(), true),
            top@.len() <= final(self).depth(),
            in_rank_order(views(top@), true),
    {
        let levels = levels_of_bids(&bids);
        self.latest_bids.replace(exchange, levels);
        let ranked = self.latest_bids.merge(self.top_n, true);
        proof {
            lemma_merged_in_order(self.latest_bids@, self.top_n as nat, true);
        }
        bids_of_ranked(&ranked)
    }

    /// Takes `asks` as the latest asks of `exchange` and merges the asks of
    /// all sources, best price first.
    pub fn update_asks(&mut self, exchange: &str, asks: Vec<Ask>) -> (top: Vec<ExchangeAsk>)
        ensures
            final(self).ask_sources() == replace_source(
                old(self).ask_sources(),
                exchange@,
                views(asks@),
            ),
            final(self).bid_sources() == old(self).bid_sources(),
            final(self).depth() == old(self).depth(),
            distinct_sources(final(self).ask_sources()),
            views(top@) == merged(final(self).ask_sources(), final(self).depth(), false),
            top@.len() <= final(self).depth(),
            in_rank_order(views(top@), false),
    {
        let levels = levels_of_asks(&asks);
        self.latest_asks.replace(exchange, levels);
        let ranked = self.latest_asks.merge(self.top_n, false);
        proof {
            lemma_merged_in_order(self.latest_asks@, self.top_n as nat, false);
        }
        asks_of_ranked(&ranked)
    }

    /// Takes in what a source reports and returns the merged book: the best
    /// asks and bids over all sources, and the spread between the best ask
    /// and the best bid.
    pub fn update(&mut self, update: OrderBookUpdate) -> (result: UpdateResult)
        ensures
            final(self).ask_sources() == replace_source(
                old(self).ask_sources(),
                update.exchange@,
                views(update.asks@),
            ),
            final(self).bid_sources() == replace_source(
                old(self).bid_sources(),
                update.exchange@,
                views(update.bids@),
            ),
            final(self).depth() == old(self).depth(),
            distinct_sources(final(self).ask_sources()),
            distinct_sources(final(self).bid_sources()),
            result@.asks == merged(final(self).ask_sources(), final(self).depth(), false),
            result@.bids == merged(final(self).bid_sources(), final(self).depth(), true),
            result@.asks.len() <= final(self).depth(),
            result@.bids.len() <= final(self).depth(),
            in_rank_order(result@.asks, false),
            in_rank_order(result@.bids, true),
            result@.spread == spread_of(result@.asks, result@.bids),
            result@.asks.len() > 0 && result@.bids.len() > 0 && difference_fits(
                result@.asks[0].price,
                result@.bids[0].price,
            ) ==> result.spread is Some && result.spread.unwrap().scaled()
                == result@.asks[0].price.scaled() - result@.bids[0].price.scaled(),
    {
        let OrderBookUpdate { exchange, bids, asks } = update;
        let top_asks = self.update_asks(exchange.as_str(), asks);
        let top_bids = self.update_bids(exchange.as_str(), bids);
        let spread = spread_between(&top_asks, &top_bids);
        UpdateResult { asks: top_asks, bids: top_bids, spread }
    }
}

impl UpdateResult {
    /// Rounds every price, every amount and the spread to the given numbers
    /// of fractional digits, half to even.
    pub fn normalize(
        &mut self,
        price_decimal_places: u32,
        amount_decimal_places: u32,
        spread_decimal_places: u32,
    )
        ensures
            final(self)@ == round_result(
                old(self)@,
                price_decimal_places,
                amount_decimal_places,
                spread_decimal_places,
            ),
    {
        let ghost before = self@;
        let mut i: usize = 0;
        while i < self.asks.len()
            invariant
                i <= self.asks.len(),
                self.asks.len() == before.asks.len(),
                self.bids == old(self).bids,
                self.spread == old(self).spread,
                forall|k: int|
                    0 <= k < i ==> (#[trigger] self.asks@[k])@ == round_entry(
                        before.asks[k],
                        price_decimal_places,
                        amount_decimal_places,
                    ),
                forall|k: int|
                    i <= k < self.asks.len() ==> (#[trigger] self.asks@[k])@ == before.asks[k],
            decreases self.asks.len() - i,
        {
            let price = self.asks[i].price.round_dp(price_decimal_places);
            let amount = self.asks[i].amount.round_dp(amount_decimal_places);
            self.asks[i].price = price;
            self.asks[i].amount = amount;
            i += 1;
        }
        let mut j: usize = 0;
        while j < self.bids.len()
            invariant
                j <= self.bids.len(),
                self.bids.len() == before.bids.len(),
                views(self.asks@) == round_entries(
                    before.asks,
                    price_decimal_places,
                    amount_decimal_places,
                ),
                self.spread == old(self).spread,
                forall|k: int|
                    0 <= k < j ==> (#[trigger] self.bids@[k])@ == round_entry(
                        before.bids[k],
                        price_decimal_places,
                        amount_decimal_places,
                    ),
                forall|k: int|
                    j <= k < self.bids.len() ==> (#[trigger] self.bids@[k])@ == before.bids[k],
            decreases self.bids.len() - j,
        {
            let price = self.bids[j].price.round_dp(price_decimal_places);
            let amount = self.bids[j].amount.round_dp(amount_decimal_places);
            self.bids[j].price = price;
            self.bids[j].amount = amount;
            j += 1;
        }
        self.spread = match self.spread {
            Some(spread) => Some(spread.round_dp(spread_decimal_places)),
            None => None,
        };
        proof {
            assert(views(self.bids@) =~= round_entries(
                before.bids,
                price_decimal_places,
                amount_decimal_places,
            ));
        }
    }
}

/// Rounding a rounded book to the same numbers of digits changes nothing.
pub proof fn lemma_normalize_idempotent(
    m: MergedResult,
    price_places: u32,
    amount_places: u32,
    spread_places: u32,
)
    ensures
        round_result(
            round_result(m, price_places, amount_places, spread_places),
            price_places,
            amount_places,
            spread_places,
        ) == round_result(m, price_places, amount_places, spread_places),
{
    let once = round_result(m, price_places, amount_places, spread_places);
    let twice = round_result(once, price_places, amount_places, spread_places);
    assert forall|k: int| 0 <= k < once.asks.len() implies twice.asks[k] == once.asks[k] by {
        m.asks[k].price.lemma_rounded_idempotent(price_places);
        m.asks[k].amount.lemma_rounded_idempotent(amount_places);
    }
    assert forall|k: int| 0 <= k < once.bids.len() implies twice.bids[k] == once.bids[k] by {
        m.bids[k].price.lemma_rounded_idempotent(price_places);
        m.bids[k].amount.lemma_rounded_idempotent(amount_places);
    }
    assert(twice.asks =~= once.asks);
    assert(twice.bids =~= once.bids);
    if let Some(d) = m.spread {
        d.lemma_rounded_idempotent(spread_places);
    }
}

} // verus!
