//! One side of the book in executable form: the latest list of every source,
//! and the merge of those lists into one ranked list.

use crate::decimal::Decimal;
use crate::ranking::{
    distinct_sources, first_levels, has_source, insert_ranked, lemma_insert_ranked,
    lemma_replace_distinct, merged, outranks, ranked, replace_source, source_index, top,
    working_set, PriceLevel, RankedEntry, SourceSnapshot,
};
use vstd::prelude::*;

verus! {

/// The latest list of one source.
#[derive(Debug)]
pub struct SourceLevels {
    pub exchange: String,
    pub levels: Vec<PriceLevel>,
}

impl View for SourceLevels {
    type V = SourceSnapshot;

    open spec fn view(&self) -> SourceSnapshot {
        SourceSnapshot { exchange: self.exchange@, levels: self.levels@ }
    }
}

/// A price level tagged with the source that reported it.
#[derive(Debug)]
pub struct Ranked {
    pub exchange: String,
    pub price: Decimal,
    pub amount: Decimal,
}

impl View for Ranked {
    type V = RankedEntry;

    open spec fn view(&self) -> RankedEntry {
        RankedEntry { exchange: self.exchange@, price: self.price, amount: self.amount }
    }
}

/// The views of a list of values, one for one.
pub open spec fn views<T: View>(s: Seq<T>) -> Seq<T::V> {
    Seq::new(s.len(), |i: int| s[i]@)
}

/// The latest list of every source that has reported, sources in the order
/// in which they first reported.
#[derive(Debug)]
pub struct SideBook {
    sources: Vec<SourceLevels>,
}

impl View for SideBook {
    type V = Seq<SourceSnapshot>;

    closed spec fn view(&self) -> Seq<SourceSnapshot> {
        views(self.sources@)
    }
}

impl SideBook {
    #[verifier::type_invariant]
    spec fn distinct(&self) -> bool {
        distinct_sources(views(self.sources@))
    }

    /// A side on which no source has reported.
    pub fn new() -> (side: SideBook)
        ensures
            side@ == Seq::<SourceSnapshot>::empty(),
    {
        SideBook { sources: Vec::new() }
    }

    /// Takes `levels` as the latest list of the source `exchange`.
    pub fn replace(&mut self, exchange: &str, levels: Vec<PriceLevel>)
        ensures
            final(self)@ == replace_source(old(self)@, exchange@, levels@),
            distinct_sources(final(self)@),
    {
        proof {
            use_type_invariant(&*self);
        }
        let name = exchange.to_owned();
        let mut sources: Vec<SourceLevels> = Vec::new();
        core::mem::swap(&mut self.sources, &mut sources);
        let ghost before = views(sources@);
        let mut i: usize = 0;
        let mut found = false;
        while i < sources.len() && !found
            invariant
                i <= sources.len(),
                views(sources@) == before,
                name@ == exchange@,
                forall|k: int|
                    0 <= k < i - (if found { 1int } else { 0int }) ==> (
                    #[trigger] before[k]).exchange != name@,
                found ==> 0 < i && before[i - 1].exchange == name@,
            decreases sources.len() - i + (if found { 0int } else { 1int }),
        {
            if sources[i].exchange == name {
                found = true;
            }
            i += 1;
        }
        let ghost snapshot = SourceSnapshot { exchange: exchange@, levels: levels@ };
        if found {
            let at = i - 1;
            proof {
                assert(has_source(before, name@));
                let c = source_index(before, name@);
                assert(before[c].exchange == name@);
                assert(c == at);
            }
            sources[at] = SourceLevels { exchange: name, levels };
            proof {
                assert(views(sources@) =~= before.update(at as int, snapshot));
            }
        } else {
            proof {
                assert(!has_source(before, name@));
            }
            sources.push(SourceLevels { exchange: name, levels });
            proof {
                assert(views(sources@) =~= before.push(snapshot));
            }
        }
        proof {
            lemma_replace_distinct(before, exchange@, levels@);
        }
        core::mem::swap(&mut self.sources, &mut sources);
    }

    /// The first `n` levels of every source, merged into one list in rank
    /// order and cut to `n` entries.
    pub fn merge(&self, n: usize, descending: bool) -> (out: Vec<Ranked>)
        ensures
            views(out@) == merged(self@, n as nat, descending),
    {
        let mut out: Vec<Ranked> = Vec::new();
        let ghost snaps = views(self.sources@);
        let mut i: usize = 0;
        assert(snaps.take(0) =~= Seq::<SourceSnapshot>::empty());
        assert(views(out@) =~= Seq::<RankedEntry>::empty());
        while i < self.sources.len()
            invariant
                i <= self.sources.len(),
                snaps == views(self.sources@),
                views(out@) == ranked(working_set(snaps.take(i as int), n as nat), descending),
            decreases self.sources.len() - i,
        {
            let source = &self.sources[i];
            let limit = if source.levels.len() <= n { source.levels.len() } else { n };
            let ghost base = working_set(snaps.take(i as int), n as nat);
            let ghost added = first_levels(snaps[i as int], n as nat);
            let mut j: usize = 0;
            assert(base + added.take(0) =~= base);
            while j < limit
                invariant
                    j <= limit,
                    limit == added.len(),
                    limit <= source.levels.len(),
                    source@ == snaps[i as int],
                    added == first_levels(snaps[i as int], n as nat),
                    views(out@) == ranked(base + added.take(j as int), descending),
                decreases limit - j,
            {
                let level = &source.levels[j];
                let entry = Ranked {
                    exchange: source.exchange.clone(),
                    price: level.price,
                    amount: level.amount,
                };
                proof {
                    let next = base + added.take(j + 1);
                    assert(next.drop_last() =~= base + added.take(j as int));
                    assert(next.last() == added[j as int]);
                    assert(entry@ == added[j as int]);
                }
                insert_entry(&mut out, entry, descending);
                j += 1;
            }
            proof {
                let upto = snaps.take(i + 1);
                assert(added.take(limit as int) =~= added);
                assert(upto.drop_last() =~= snaps.take(i as int));
                assert(upto.last() == snaps[i as int]);
            }
            i += 1;
        }
        proof {
            assert(snaps.take(self.sources.len() as int) =~= snaps);
        }
        let ghost full = views(out@);
        out.truncate(n);
        proof {
            assert(views(out@) =~= top(full, n as nat));
        }
        out
    }
}

/// Whether the price `x` is strictly better than `y` on a side kept in the
/// given order.
fn price_outranks(x: &Decimal, y: &Decimal, descending: bool) -> (r: bool)
    ensures
        r == if descending {
            x.scaled() > y.scaled()
        } else {
            x.scaled() < y.scaled()
        },
{
    if descending {
        x.is_greater_than(y)
    } else {
        x.is_less_than(y)
    }
}

/// Puts `entry` into a list from the back, behind the last entry that it
/// does not outrank.
fn insert_entry(out: &mut Vec<Ranked>, entry: Ranked, descending: bool)
    ensures
        views(final(out)@) == insert_ranked(views(old(out)@), entry@, descending),
{
    let ghost t = views(out@);
    let ghost x = entry@;
    let mut p: usize = out.len();
    let mut moving = true;
    assert(t.take(p as int) =~= t);
    assert(insert_ranked(t, x, descending) + t.skip(p as int) =~= insert_ranked(t, x, descending));
    while p > 0 && moving
        invariant
            p <= out.len(),
            views(out@) == t,
            x == entry@,
            insert_ranked(t, x, descending) == insert_ranked(t.take(p as int), x, descending)
                + t.skip(p as int),
            !moving ==> p > 0 && !outranks(x, t[p - 1], descending),
        decreases p + if moving { 1int } else { 0int },
    {
        if price_outranks(&entry.price, &out[p - 1].price, descending) {
            proof {
                let front = t.take(p as int);
                assert(front.last() == t[p - 1]);
                assert(front.drop_last() =~= t.take(p - 1));
                lemma_insert_ranked(t.take(p - 1), x, descending);
                assert(insert_ranked(front, x, descending) == insert_ranked(
                    t.take(p - 1),
                    x,
                    descending,
                ).push(t[p - 1]));
                assert(insert_ranked(front, x, descending) + t.skip(p as int) =~= insert_ranked(
                    t.take(p - 1),
                    x,
                    descending,
                ) + t.skip(p - 1));
            }
            p -= 1;
        } else {
            moving = false;
        }
    }
    proof {
        let front = t.take(p as int);
        if p > 0 {
            assert(front.last() == t[p - 1]);
        }
        assert(insert_ranked(front, x, descending) == front.push(x));
        assert(front.push(x) + t.skip(p as int) =~= t.insert(p as int, x));
    }
    out.insert(p, entry);
    proof {
        assert(views(out@) =~= t.insert(p as int, x));
    }
}

} // verus!