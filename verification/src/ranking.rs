//! The mathematical model of one side of the merged book: what each source
//! last reported, the working set drawn from it, and that set in rank order.

use crate::decimal::Decimal;
use vstd::prelude::*;

verus! {

/// One entry of a book side: a price and the amount offered at it.
#[derive(Clone, Copy, Debug)]
pub struct PriceLevel {
    pub price: Decimal,
    pub amount: Decimal,
}

/// A price level together with the name of the source that reported it.
pub struct RankedEntry {
    pub exchange: Seq<char>,
    pub price: Decimal,
    pub amount: Decimal,
}

/// The list that one source last reported for one side of the book.
pub struct SourceSnapshot {
    pub exchange: Seq<char>,
    pub levels: Seq<PriceLevel>,
}

/// Whether `x` has the strictly better price: the higher one on a side kept
/// in descending order (bids), the lower one otherwise (asks).
pub open spec fn outranks(x: RankedEntry, y: RankedEntry, descending: bool) -> bool {
    if descending {
        x.price.scaled() > y.price.scaled()
    } else {
        x.price.scaled() < y.price.scaled()
    }
}

/// No entry is outranked by one that stands behind it.
pub open spec fn in_rank_order(s: Seq<RankedEntry>, descending: bool) -> bool {
    forall|i: int, j: int|
        0 <= i < j < s.len() ==> !outranks(#[trigger] s[j], #[trigger] s[i], descending)
}

/// `t` with `x` put in from the back: `x` passes every entry that it
/// outranks and stops behind the first that it does not.
pub open spec fn insert_ranked(t: Seq<RankedEntry>, x: RankedEntry, descending: bool) -> Seq<
    RankedEntry,
>
    decreases t.len(),
{
    if t.len() > 0 && outranks(x, t.last(), descending) {
        insert_ranked(t.drop_last(), x, descending).push(t.last())
    } else {
        t.push(x)
    }
}

/// The entries of `s` in rank order, entries of equal price in the order in
/// which they stand in `s`.
pub open spec fn ranked(s: Seq<RankedEntry>, descending: bool) -> Seq<RankedEntry>
    decreases s.len(),
{
    if s.len() == 0 {
        Seq::empty()
    } else {
        insert_ranked(ranked(s.drop_last(), descending), s.last(), descending)
    }
}

/// The first `n` levels of a source, or all of them if it has fewer, each
/// tagged with the source's name.
pub open spec fn first_levels(snapshot: SourceSnapshot, n: nat) -> Seq<RankedEntry> {
    Seq::new(
        if snapshot.levels.len() <= n { snapshot.levels.len() } else { n },
        |j: int|
            RankedEntry {
                exchange: snapshot.exchange,
                price: snapshot.levels[j].price,
                amount: snapshot.levels[j].amount,
            },
    )
}

/// What the sources contribute to a merge: the first `n` levels of each, in
/// the order of the sources.
pub open spec fn working_set(sources: Seq<SourceSnapshot>, n: nat) -> Seq<RankedEntry>
    decreases sources.len(),
{
    if sources.len() == 0 {
        Seq::empty()
    } else {
        working_set(sources.drop_last(), n) + first_levels(sources.last(), n)
    }
}

/// The first `n` entries of `s`, or all of them if it has fewer.
pub open spec fn top(s: Seq<RankedEntry>, n: nat) -> Seq<RankedEntry> {
    if s.len() <= n {
        s
    } else {
        s.take(n as int)
    }
}

/// One side of the merged book: the working set in rank order, cut to depth `n`.
pub open spec fn merged(sources: Seq<SourceSnapshot>, n: nat, descending: bool) -> Seq<
    RankedEntry,
> {
    top(ranked(working_set(sources, n), descending), n)
}

/// How many entries of `s` carry the name `exchange`.
pub open spec fn count_from(s: Seq<RankedEntry>, exchange: Seq<char>) -> nat
    decreases s.len(),
{
    if s.len() == 0 {
        0
    } else {
        count_from(s.drop_last(), exchange) + if s.last().exchange == exchange {
            1nat
        } else {
            0nat
        }
    }
}

/// No two sources carry the same name.
pub open spec fn distinct_sources(sources: Seq<SourceSnapshot>) -> bool {
    forall|i: int, j: int|
        0 <= i < j < sources.len() ==> (#[trigger] sources[i]).exchange != (
        #[trigger] sources[j]).exchange
}

/// Whether a source of that name has reported.
pub open spec fn has_source(sources: Seq<SourceSnapshot>, exchange: Seq<char>) -> bool {
    exists|i: int| 0 <= i < sources.len() && (#[trigger] sources[i]).exchange == exchange
}

/// Where the source of that name stands, if it has reported.
pub open spec fn source_index(sources: Seq<SourceSnapshot>, exchange: Seq<char>) -> int {
    choose|i: int| 0 <= i < sources.len() && (#[trigger] sources[i]).exchange == exchange
}

/// The sources after `exchange` has reported `levels`: its earlier list is
/// replaced in place, and a source that reports for the first time comes last.
pub open spec fn replace_source(
    sources: Seq<SourceSnapshot>,
    exchange: Seq<char>,
    levels: Seq<PriceLevel>,
) -> Seq<SourceSnapshot> {
    let snapshot = SourceSnapshot { exchange, levels };
    if has_source(sources, exchange) {
        sources.update(source_index(sources, exchange), snapshot)
    } else {
        sources.push(snapshot)
    }
}

/// Putting an entry in adds that entry and nothing else, and keeps a list
/// that is in rank order in rank order.
pub proof fn lemma_insert_ranked(t: Seq<RankedEntry>, x: RankedEntry, descending: bool)
    ensures
        insert_ranked(t, x, descending).len() == t.len() + 1,
        forall|e: RankedEntry|
            #[trigger] insert_ranked(t, x, descending).contains(e) <==> (e == x || t.contains(e)),
        forall|name: Seq<char>|
            #[trigger] count_from(insert_ranked(t, x, descending), name) == count_from(t, name)
                + if x.exchange == name {
                1nat
            } else {
                0nat
            },
        in_rank_order(t, descending) ==> in_rank_order(
            insert_ranked(t, x, descending),
            descending,
        ),
    decreases t.len(),
{
    let r = insert_ranked(t, x, descending);
    if t.len() > 0 && outranks(x, t.last(), descending) {
        let head = t.drop_last();
        let inner = insert_ranked(head, x, descending);
        lemma_insert_ranked(head, x, descending);
        assert(r == inner.push(t.last()));
        assert(r.drop_last() == inner);
        assert forall|e: RankedEntry| r.contains(e) <==> (e == x || t.contains(e)) by {
            if r.contains(e) {
                let i = choose|i: int| 0 <= i < r.len() && r[i] == e;
                if i < inner.len() {
                    assert(inner[i] == e);
                    assert(inner.contains(e));
                    if e != x {
                        assert(head.contains(e));
                        let j = choose|j: int| 0 <= j < head.len() && head[j] == e;
                        assert(t[j] == e);
                    }
                } else {
                    assert(t[t.len() - 1] == e);
                }
            }
            if e == x {
                assert(inner.contains(x));
                let i = choose|i: int| 0 <= i < inner.len() && inner[i] == x;
                assert(r[i] == x);
            }
            if t.contains(e) {
                let j = choose|j: int| 0 <= j < t.len() && t[j] == e;
                if j < head.len() {
                    assert(head[j] == e);
                    assert(inner.contains(e));
                    let i = choose|i: int| 0 <= i < inner.len() && inner[i] == e;
                    assert(r[i] == e);
                } else {
                    assert(r[r.len() - 1] == e);
                }
            }
        }
        assert forall|name: Seq<char>|
            count_from(r, name) == count_from(t, name) + if x.exchange == name {
                1nat
            } else {
                0nat
            } by {
            assert(count_from(inner, name) == count_from(head, name) + if x.exchange == name {
                1nat
            } else {
                0nat
            });
        }
        if in_rank_order(t, descending) {
            assert(in_rank_order(head, descending)) by {
                assert forall|i: int, j: int| 0 <= i < j < head.len() implies !outranks(
                    #[trigger] head[j],
                    #[trigger] head[i],
                    descending,
                ) by {
                    assert(head[i] == t[i] && head[j] == t[j]);
                }
            }
            assert forall|i: int, j: int| 0 <= i < j < r.len() implies !outranks(
                #[trigger] r[j],
                #[trigger] r[i],
                descending,
            ) by {
                if j < inner.len() {
                    assert(r[i] == inner[i] && r[j] == inner[j]);
                } else {
                    assert(r[j] == t.last());
                    assert(r[i] == inner[i]);
                    assert(inner.contains(inner[i]));
                    if inner[i] != x {
                        assert(head.contains(inner[i]));
                        let k = choose|k: int| 0 <= k < head.len() && head[k] == inner[i];
                        assert(t[k] == inner[i]);
                        assert(!outranks(t[t.len() - 1], t[k], descending));
                    }
                }
            }
        }
    } else {
        assert(r == t.push(x));
        assert(r.drop_last() == t);
        assert forall|e: RankedEntry| r.contains(e) <==> (e == x || t.contains(e)) by {
            if r.contains(e) {
                let i = choose|i: int| 0 <= i < r.len() && r[i] == e;
                if i < t.len() {
                    assert(t[i] == e);
                }
            }
            if e == x {
                assert(r[r.len() - 1] == x);
            }
            if t.contains(e) {
                let j = choose|j: int| 0 <= j < t.len() && t[j] == e;
                assert(r[j] == e);
            }
        }
        if in_rank_order(t, descending) {
            assert forall|i: int, j: int| 0 <= i < j < r.len() implies !outranks(
                #[trigger] r[j],
                #[trigger] r[i],
                descending,
            ) by {
                if j < t.len() {
                    assert(r[i] == t[i] && r[j] == t[j]);
                } else {
                    assert(r[i] == t[i]);
                    if i < t.len() - 1 {
                        assert(!outranks(t[t.len() - 1], t[i], descending));
                    }
                }
            }
        }
    }
}

/// Ranking keeps every entry, adds none, and gives a list in rank order.
pub proof fn lemma_ranked(s: Seq<RankedEntry>, descending: bool)
    ensures
        ranked(s, descending).len() == s.len(),
        forall|e: RankedEntry| #[trigger] ranked(s, descending).contains(e) <==> s.contains(e),
        forall|name: Seq<char>|
            #[trigger] count_from(ranked(s, descending), name) == count_from(s, name),
        in_rank_order(ranked(s, descending), descending),
    decreases s.len(),
{
    if s.len() > 0 {
        let head = s.drop_last();
        lemma_ranked(head, descending);
        lemma_insert_ranked(ranked(head, descending), s.last(), descending);
        let base = ranked(head, descending);
        assert(ranked(s, descending) == insert_ranked(base, s.last(), descending));
        assert forall|name: Seq<char>|
            count_from(ranked(s, descending), name) == count_from(s, name) by {
            assert(count_from(insert_ranked(base, s.last(), descending), name) == count_from(
                base,
                name,
            ) + if s.last().exchange == name {
                1nat
            } else {
                0nat
            });
            assert(count_from(base, name) == count_from(head, name));
        }
        assert forall|e: RankedEntry| ranked(s, descending).contains(e) <==> s.contains(e) by {
            assert(insert_ranked(base, s.last(), descending).contains(e) <==> (e == s.last()
                || base.contains(e)));
            assert(base.contains(e) <==> head.contains(e));
            if s.contains(e) {
                let j = choose|j: int| 0 <= j < s.len() && s[j] == e;
                if j < head.len() {
                    assert(head[j] == e);
                }
            }
            if head.contains(e) {
                let j = choose|j: int| 0 <= j < head.len() && head[j] == e;
                assert(s[j] == e);
            }
            if e == s.last() {
                assert(s[s.len() - 1] == e);
            }
        }
    }
}

/// A cut at depth `n` holds at most `n` entries, each of them one of the
/// list, no more of any source than the list has, and stays in rank order.
pub proof fn lemma_top(s: Seq<RankedEntry>, n: nat, descending: bool)
    ensures
        top(s, n).len() <= n,
        top(s, n).len() <= s.len(),
        forall|k: int| 0 <= k < top(s, n).len() ==> top(s, n)[k] == s[k],
        forall|name: Seq<char>| #[trigger] count_from(top(s, n), name) <= count_from(s, name),
        in_rank_order(s, descending) ==> in_rank_order(top(s, n), descending),
{
    assert forall|name: Seq<char>| count_from(top(s, n), name) <= count_from(s, name) by {
        lemma_count_prefix(s, top(s, n).len() as int, name);
        assert(s.take(s.len() as int) == s);
    }
}

/// A prefix holds no more entries of a source than the whole list.
pub proof fn lemma_count_prefix(s: Seq<RankedEntry>, k: int, name: Seq<char>)
    requires
        0 <= k <= s.len(),
    ensures
        count_from(s.take(k), name) <= count_from(s, name),
    decreases s.len() - k,
{
    if k < s.len() {
        lemma_count_prefix(s, k + 1, name);
        assert(s.take(k + 1).drop_last() == s.take(k));
    } else {
        assert(s.take(k) == s);
    }
}

/// Counting over two lists joined is counting each and adding.
pub proof fn lemma_count_concat(a: Seq<RankedEntry>, b: Seq<RankedEntry>, name: Seq<char>)
    ensures
        count_from(a + b, name) == count_from(a, name) + count_from(b, name),
    decreases b.len(),
{
    if b.len() == 0 {
        assert(a + b == a);
    } else {
        lemma_count_concat(a, b.drop_last(), name);
        assert((a + b).drop_last() == a + b.drop_last());
    }
}

/// A list holds at most as many entries of a source as it is long, and none
/// if no entry carries the name.
pub proof fn lemma_count_bounds(s: Seq<RankedEntry>, name: Seq<char>)
    ensures
        count_from(s, name) <= s.len(),
        (forall|k: int| 0 <= k < s.len() ==> (#[trigger] s[k]).exchange != name) ==> count_from(
            s,
            name,
        ) == 0,
    decreases s.len(),
{
    if s.len() > 0 {
        lemma_count_bounds(s.drop_last(), name);
        if forall|k: int| 0 <= k < s.len() ==> (#[trigger] s[k]).exchange != name {
            assert forall|k: int| 0 <= k < s.drop_last().len() implies (
            #[trigger] s.drop_last()[k]).exchange != name by {
                assert(s.drop_last()[k] == s[k]);
            }
            assert(s[s.len() - 1].exchange != name);
        }
    }
}

/// Taking a new list from a source keeps the names distinct, and leaves
/// every other source as it was.
pub proof fn lemma_replace_distinct(
    sources: Seq<SourceSnapshot>,
    exchange: Seq<char>,
    levels: Seq<PriceLevel>,
)
    requires
        distinct_sources(sources),
    ensures
        distinct_sources(replace_source(sources, exchange, levels)),
        has_source(replace_source(sources, exchange, levels), exchange),
        replace_source(sources, exchange, levels)[source_index(
            replace_source(sources, exchange, levels),
            exchange,
        )] == (SourceSnapshot { exchange, levels }),
        forall|i: int|
            0 <= i < sources.len() && (#[trigger] sources[i]).exchange != exchange
                ==> replace_source(sources, exchange, levels)[i] == sources[i],
        replace_source(sources, exchange, levels).len() == sources.len() + if has_source(
            sources,
            exchange,
        ) {
            0int
        } else {
            1int
        },
{
    let after = replace_source(sources, exchange, levels);
    let snapshot = SourceSnapshot { exchange, levels };
    if has_source(sources, exchange) {
        let at = source_index(sources, exchange);
        assert(after[at] == snapshot);
        assert forall|i: int, j: int| 0 <= i < j < after.len() implies (
        #[trigger] after[i]).exchange != (#[trigger] after[j]).exchange by {
            assert(after[i].exchange == sources[i].exchange);
            assert(after[j].exchange == sources[j].exchange);
        }
    } else {
        assert(after[sources.len() as int] == snapshot);
        assert forall|i: int, j: int| 0 <= i < j < after.len() implies (
        #[trigger] after[i]).exchange != (#[trigger] after[j]).exchange by {
            assert(after[i] == sources[i]);
            if j < sources.len() {
                assert(after[j] == sources[j]);
            }
        }
    }
    let c = source_index(after, exchange);
    assert(after[c].exchange == exchange);
    if after[c] != snapshot {
        if has_source(sources, exchange) {
            let at = source_index(sources, exchange);
            assert(after[at].exchange == exchange);
            assert(c == at);
        } else {
            assert(after[sources.len() as int].exchange == exchange);
            assert(c == sources.len());
        }
    }
}

/// Every entry of the working set is one of the first `n` levels of some
/// source, and carries that source's name.
pub proof fn lemma_working_set_origin(sources: Seq<SourceSnapshot>, n: nat, k: int)
    requires
        0 <= k < working_set(sources, n).len(),
    ensures
        exists|i: int|
            0 <= i < sources.len() && (#[trigger] sources[i]).exchange == working_set(
                sources,
                n,
            )[k].exchange && first_levels(sources[i], n).contains(working_set(sources, n)[k]),
    decreases sources.len(),
{
    let head = sources.drop_last();
    let front = working_set(head, n);
    let back = first_levels(sources.last(), n);
    let e = working_set(sources, n)[k];
    if k < front.len() {
        assert(e == front[k]);
        lemma_working_set_origin(head, n, k);
        let i = choose|i: int|
            0 <= i < head.len() && (#[trigger] head[i]).exchange == e.exchange && first_levels(
                head[i],
                n,
            ).contains(e);
        assert(sources[i] == head[i]);
    } else {
        assert(e == back[k - front.len()]);
        assert(back.contains(e));
        assert(sources[sources.len() - 1] == sources.last());
    }
}

/// The merged list is in rank order and holds at most `n` entries.
pub proof fn lemma_merged_in_order(sources: Seq<SourceSnapshot>, n: nat, descending: bool)
    ensures
        merged(sources, n, descending).len() <= n,
        in_rank_order(merged(sources, n, descending), descending),
{
    lemma_ranked(working_set(sources, n), descending);
    lemma_top(ranked(working_set(sources, n), descending), n, descending);
}

/// No source has more than `n` entries in the working set, however many
/// levels it reported, and so none has more than `n` in the merged list.
pub proof fn lemma_source_cap(
    sources: Seq<SourceSnapshot>,
    n: nat,
    descending: bool,
    name: Seq<char>,
)
    requires
        distinct_sources(sources),
    ensures
        count_from(working_set(sources, n), name) <= n,
        count_from(merged(sources, n, descending), name) <= n,
        !has_source(sources, name) ==> count_from(working_set(sources, n), name) == 0,
    decreases sources.len(),
{
    if sources.len() > 0 {
        let head = sources.drop_last();
        let front = working_set(head, n);
        let back = first_levels(sources.last(), n);
        assert(distinct_sources(head)) by {
            assert forall|i: int, j: int| 0 <= i < j < head.len() implies (
            #[trigger] head[i]).exchange != (#[trigger] head[j]).exchange by {
                assert(head[i] == sources[i] && head[j] == sources[j]);
            }
        }
        lemma_source_cap(head, n, descending, name);
        lemma_count_concat(front, back, name);
        lemma_count_bounds(back, name);
        if sources.last().exchange == name {
            assert(sources[sources.len() - 1].exchange == name);
            assert(!has_source(head, name)) by {
                if has_source(head, name) {
                    let i = choose|i: int|
                        0 <= i < head.len() && (#[trigger] head[i]).exchange == name;
                    assert(sources[i] == head[i]);
                    assert(sources[i].exchange != sources[sources.len() - 1].exchange);
                }
            }
        } else {
            assert forall|k: int| 0 <= k < back.len() implies (#[trigger] back[k]).exchange
                != name by {}
            if !has_source(sources, name) {
                assert(!has_source(head, name)) by {
                    if has_source(head, name) {
                        let i = choose|i: int|
                            0 <= i < head.len() && (#[trigger] head[i]).exchange == name;
                        assert(sources[i] == head[i]);
                    }
                }
            }
        }
    }
    let working = working_set(sources, n);
    lemma_ranked(working, descending);
    lemma_top(ranked(working, descending), n, descending);
    assert(count_from(ranked(working, descending), name) == count_from(working, name));
    assert(count_from(top(ranked(working, descending), n), name) <= count_from(
        ranked(working, descending),
        name,
    ));
}

/// Every entry of the merged list is one of the first `n` levels that the
/// source whose name it carries reported last.
pub proof fn lemma_merged_origin(sources: Seq<SourceSnapshot>, n: nat, descending: bool, k: int)
    requires
        distinct_sources(sources),
        0 <= k < merged(sources, n, descending).len(),
    ensures
        has_source(sources, merged(sources, n, descending)[k].exchange),
        first_levels(
            sources[source_index(sources, merged(sources, n, descending)[k].exchange)],
            n,
        ).contains(merged(sources, n, descending)[k]),
{
    let working = working_set(sources, n);
    let e = merged(sources, n, descending)[k];
    lemma_ranked(working, descending);
    lemma_top(ranked(working, descending), n, descending);
    assert(ranked(working, descending)[k] == e);
    assert(ranked(working, descending).contains(e));
    assert(working.contains(e));
    let w = choose|w: int| 0 <= w < working.len() && working[w] == e;
    lemma_working_set_origin(sources, n, w);
    let i = choose|i: int|
        0 <= i < sources.len() && (#[trigger] sources[i]).exchange == e.exchange && first_levels(
            sources[i],
            n,
        ).contains(e);
    let c = source_index(sources, e.exchange);
    assert(sources[c].exchange == e.exchange);
    assert(c == i);
}

/// A second report of a source replaces the first altogether: the sources
/// are as if the first had never come, and whatever the merged list then
/// holds under that source's name is one of the first `n` levels of the
/// second report.
pub proof fn lemma_replacement(
    sources: Seq<SourceSnapshot>,
    exchange: Seq<char>,
    first: Seq<PriceLevel>,
    second: Seq<PriceLevel>,
    n: nat,
    descending: bool,
)
    requires
        distinct_sources(sources),
    ensures
        replace_source(replace_source(sources, exchange, first), exchange, second)
            == replace_source(sources, exchange, second),
        forall|k: int|
            0 <= k < merged(replace_source(sources, exchange, second), n, descending).len() && (
            #[trigger] merged(replace_source(sources, exchange, second), n, descending)[k]).exchange
                == exchange ==> exists|j: int|
                0 <= j < second.len() && j < n && (#[trigger] second[j]).price == merged(
                    replace_source(sources, exchange, second),
                    n,
                    descending,
                )[k].price && second[j].amount == merged(
                    replace_source(sources, exchange, second),
                    n,
                    descending,
                )[k].amount,
{
    let once = replace_source(sources, exchange, first);
    let twice = replace_source(once, exchange, second);
    let direct = replace_source(sources, exchange, second);
    lemma_replace_distinct(sources, exchange, first);
    lemma_replace_distinct(sources, exchange, second);
    let at = source_index(once, exchange);
    assert(once[at].exchange == exchange);
    if has_source(sources, exchange) {
        let c = source_index(sources, exchange);
        assert(once[c].exchange == exchange);
        assert(at == c);
        assert(twice =~= direct);
    } else {
        assert(once[sources.len() as int].exchange == exchange);
        assert(at == sources.len());
        assert(twice =~= direct);
    }
    let list = merged(direct, n, descending);
    assert forall|k: int| 0 <= k < list.len() && (#[trigger] list[k]).exchange
        == exchange implies exists|j: int|
        0 <= j < second.len() && j < n && (#[trigger] second[j]).price == list[k].price
            && second[j].amount == list[k].amount by {
        lemma_merged_origin(direct, n, descending, k);
        let snapshot = direct[source_index(direct, exchange)];
        assert(snapshot == SourceSnapshot { exchange, levels: second });
        let offered = first_levels(snapshot, n);
        let j = choose|j: int| 0 <= j < offered.len() && offered[j] == list[k];
        assert(second[j].price == list[k].price);
    }
}

/// The entries of `s` whose price, in units of 10^-28, is `v`, in the order
/// in which they stand in `s`.
pub open spec fn at_price(s: Seq<RankedEntry>, v: int) -> Seq<RankedEntry>
    decreases s.len(),
{
    if s.len() == 0 {
        Seq::empty()
    } else if s.last().price.scaled() == v {
        at_price(s.drop_last(), v).push(s.last())
    } else {
        at_price(s.drop_last(), v)
    }
}

/// An entry that is put in comes behind every entry of the same price.
pub proof fn lemma_insert_ranked_stable(
    t: Seq<RankedEntry>,
    x: RankedEntry,
    descending: bool,
    v: int,
)
    ensures
        at_price(insert_ranked(t, x, descending), v) == if x.price.scaled() == v {
            at_price(t, v).push(x)
        } else {
            at_price(t, v)
        },
    decreases t.len(),
{
    let r = insert_ranked(t, x, descending);
    if t.len() > 0 && outranks(x, t.last(), descending) {
        let inner = insert_ranked(t.drop_last(), x, descending);
        lemma_insert_ranked_stable(t.drop_last(), x, descending, v);
        assert(r == inner.push(t.last()));
        assert(r.drop_last() == inner);
        assert(r.last() == t.last());
    } else {
        assert(r.drop_last() == t);
        assert(r.last() == x);
    }
}

/// Ranking is stable: entries of equal price keep the order in which they
/// stood, so ties between sources go to the source that reported first.
pub proof fn lemma_ranked_stable(s: Seq<RankedEntry>, descending: bool, v: int)
    ensures
        at_price(ranked(s, descending), v) == at_price(s, v),
    decreases s.len(),
{
    if s.len() > 0 {
        lemma_ranked_stable(s.drop_last(), descending, v);
        lemma_insert_ranked_stable(ranked(s.drop_last(), descending), s.last(), descending, v);
    }
}

} // verus!
