//! Orders and stable sorting.

use vstd::prelude::*;

use crate::config::ids::StrategyId;
use crate::config::model::{MarketKey, MarketKeyModel};
use crate::text::{text_less, text_lt, text_order, text_order_transitive};

verus! {

/// `s` with `x` put behind the last element that does not come after `x`.
pub open spec fn placed<T>(s: Seq<T>, x: T, less: spec_fn(T, T) -> bool) -> Seq<T>
    decreases s.len(),
{
    if s.len() == 0 || !less(x, s.last()) {
        s.push(x)
    } else {
        placed(s.drop_last(), x, less).push(s.last())
    }
}

/// `s` in the order of `less`; elements of which neither comes before the other keep their order.
pub open spec fn stably_sorted<T>(s: Seq<T>, less: spec_fn(T, T) -> bool) -> Seq<T>
    decreases s.len(),
{
    if s.len() == 0 {
        s
    } else {
        placed(stably_sorted(s.drop_last(), less), s.last(), less)
    }
}

/// Whether no element of `s` comes before one that stands to its left.
pub open spec fn in_order<T>(s: Seq<T>, less: spec_fn(T, T) -> bool) -> bool {
    forall|i: int, j: int| 0 <= i < j < s.len() ==> !less(#[trigger] s[j], #[trigger] s[i])
}

/// Whether "does not come before" is transitive and "comes before" never holds both ways.
pub open spec fn orders<T>(less: spec_fn(T, T) -> bool) -> bool {
    &&& forall|a: T, b: T| #[trigger] less(a, b) ==> !less(b, a)
    &&& forall|a: T, b: T, c: T|
        !(#[trigger] less(b, a)) && !(#[trigger] less(c, b)) ==> !less(c, a)
}

proof fn lemma_placed_multiset<T>(s: Seq<T>, x: T, less: spec_fn(T, T) -> bool)
    ensures
        placed(s, x, less).to_multiset() == s.to_multiset().insert(x),
        placed(s, x, less).len() == s.len() + 1,
    decreases s.len(),
{
    broadcast use vstd::seq_lib::group_to_multiset_ensures;

    if s.len() == 0 || !less(x, s.last()) {
    } else {
        lemma_placed_multiset(s.drop_last(), x, less);
        assert(s.drop_last().push(s.last()) =~= s);
        assert(placed(s, x, less).to_multiset() =~= s.to_multiset().insert(x));
    }
}

proof fn lemma_placed_elements<T>(s: Seq<T>, x: T, less: spec_fn(T, T) -> bool, i: int)
    requires
        0 <= i < placed(s, x, less).len(),
    ensures
        placed(s, x, less)[i] == x || s.contains(placed(s, x, less)[i]),
    decreases s.len(),
{
    lemma_placed_multiset(s, x, less);
    if s.len() == 0 || !less(x, s.last()) {
        if i < s.len() {
            assert(s[i] == placed(s, x, less)[i]);
        }
    } else {
        lemma_placed_multiset(s.drop_last(), x, less);
        if i < s.len() {
            lemma_placed_elements(s.drop_last(), x, less, i);
            let y = placed(s, x, less)[i];
            if y != x {
                let k = choose|k: int| 0 <= k < s.drop_last().len() && s.drop_last()[k] == y;
                assert(s[k] == y);
            }
        } else {
            assert(s[s.len() - 1] == placed(s, x, less)[i]);
        }
    }
}

proof fn lemma_placed_in_order<T>(s: Seq<T>, x: T, less: spec_fn(T, T) -> bool)
    requires
        orders(less),
        in_order(s, less),
    ensures
        in_order(placed(s, x, less), less),
    decreases s.len(),
{
    let r = placed(s, x, less);
    lemma_placed_multiset(s, x, less);
    if s.len() == 0 {
    } else if !less(x, s.last()) {
        assert forall|i: int, j: int| 0 <= i < j < r.len() implies !less(
            #[trigger] r[j],
            #[trigger] r[i],
        ) by {
            if j == s.len() {
                if i == s.len() - 1 {
                } else {
                    assert(!less(s[s.len() - 1], s[i]));
                }
            } else {
                assert(r[j] == s[j] && r[i] == s[i]);
            }
        }
    } else {
        let front = s.drop_last();
        assert(in_order(front, less)) by {
            assert forall|i: int, j: int| 0 <= i < j < front.len() implies !less(
                #[trigger] front[j],
                #[trigger] front[i],
            ) by {
                assert(front[j] == s[j] && front[i] == s[i]);
            }
        }
        lemma_placed_in_order(front, x, less);
        let head = placed(front, x, less);
        lemma_placed_multiset(front, x, less);
        assert forall|i: int, j: int| 0 <= i < j < r.len() implies !less(
            #[trigger] r[j],
            #[trigger] r[i],
        ) by {
            if j == s.len() {
                assert(r[j] == s.last());
                assert(r[i] == head[i]);
                lemma_placed_elements(front, x, less, i);
                if head[i] == x {
                } else {
                    let k = choose|k: int| 0 <= k < front.len() && front[k] == head[i];
                    assert(s[k] == head[i]);
                    assert(!less(s[s.len() - 1], s[k]));
                }
            } else {
                assert(r[j] == head[j] && r[i] == head[i]);
            }
        }
    }
}

/// Sorting keeps every element as often as it was there, and leaves them in order.
pub proof fn sorting_sorts<T>(s: Seq<T>, less: spec_fn(T, T) -> bool)
    requires
        orders(less),
    ensures
        stably_sorted(s, less).to_multiset() == s.to_multiset(),
        stably_sorted(s, less).len() == s.len(),
        in_order(stably_sorted(s, less), less),
    decreases s.len(),
{
    broadcast use vstd::seq_lib::group_to_multiset_ensures;

    if s.len() > 0 {
        sorting_sorts(s.drop_last(), less);
        lemma_placed_multiset(stably_sorted(s.drop_last(), less), s.last(), less);
        lemma_placed_in_order(stably_sorted(s.drop_last(), less), s.last(), less);
        assert(s.drop_last().push(s.last()) =~= s);
        assert(stably_sorted(s, less).to_multiset() =~= s.to_multiset());
    }
}

/// Sorting keeps the number of elements, whatever decides the order.
pub proof fn lemma_sorted_length<T>(s: Seq<T>, less: spec_fn(T, T) -> bool)
    ensures
        stably_sorted(s, less).len() == s.len(),
        stably_sorted(s, less).to_multiset() == s.to_multiset(),
    decreases s.len(),
{
    broadcast use vstd::seq_lib::group_to_multiset_ensures;

    if s.len() > 0 {
        lemma_sorted_length(s.drop_last(), less);
        lemma_placed_multiset(stably_sorted(s.drop_last(), less), s.last(), less);
        assert(s.drop_last().push(s.last()) =~= s);
        assert(stably_sorted(s, less).to_multiset() =~= s.to_multiset());
    }
}

/// Sorting gives back elements of what it sorts, and all of them.
pub proof fn lemma_sorted_contains<T>(s: Seq<T>, less: spec_fn(T, T) -> bool, x: T)
    ensures
        stably_sorted(s, less).contains(x) <==> s.contains(x),
{
    broadcast use vstd::seq_lib::group_to_multiset_ensures;

    lemma_sorted_length(s, less);
    assert(s.to_multiset().contains(x) <==> s.contains(x));
    assert(stably_sorted(s, less).to_multiset().contains(x) <==> stably_sorted(s, less).contains(
        x,
    ));
}

/// What is in order already stays as it is.
pub proof fn lemma_sorted_unchanged<T>(s: Seq<T>, less: spec_fn(T, T) -> bool)
    requires
        in_order(s, less),
    ensures
        stably_sorted(s, less) == s,
    decreases s.len(),
{
    if s.len() > 0 {
        let front = s.drop_last();
        assert forall|i: int, j: int| 0 <= i < j < front.len() implies !less(
            #[trigger] front[j],
            #[trigger] front[i],
        ) by {
            assert(front[j] == s[j] && front[i] == s[i]);
        }
        lemma_sorted_unchanged(front, less);
        if front.len() > 0 {
            assert(!less(s[s.len() - 1], s[s.len() - 2]));
            assert(front.last() == s[s.len() - 2]);
        }
        assert(front.push(s.last()) =~= s);
    }
}

/// A list in a total order without repetitions is determined by its elements.
pub proof fn one_order<T>(a: Seq<T>, b: Seq<T>, less: spec_fn(T, T) -> bool)
    requires
        forall|x: T, y: T| x == y || #[trigger] less(x, y) || less(y, x),
        in_order(a, less),
        in_order(b, less),
        a.no_duplicates(),
        b.no_duplicates(),
        forall|x: T| #[trigger] a.contains(x) <==> b.contains(x),
    ensures
        a == b,
    decreases a.len(),
{
    if a.len() == 0 {
        if b.len() > 0 {
            assert(b.contains(b[0]));
            assert(a.contains(b[0]));
        }
        assert(a =~= b);
    } else {
        let x = a.last();
        assert(a.contains(a[a.len() - 1]));
        assert(b.contains(x));
        let y = b.last();
        assert(b.contains(b[b.len() - 1]));
        assert(a.contains(y));
        let i = choose|i: int| 0 <= i < a.len() && a[i] == y;
        let j = choose|j: int| 0 <= j < b.len() && b[j] == x;
        if x != y {
            assert(i < a.len() - 1);
            assert(j < b.len() - 1);
            assert(!less(a[a.len() - 1], a[i]));
            assert(!less(b[b.len() - 1], b[j]));
            assert(x == y || less(x, y) || less(y, x));
        }
        let c = a.drop_last();
        let d = b.drop_last();
        assert forall|z: T| #[trigger] c.contains(z) <==> d.contains(z) by {
            if c.contains(z) {
                let k = choose|k: int| 0 <= k < c.len() && c[k] == z;
                assert(a[k] == z);
                assert(a.contains(z));
                let l = choose|l: int| 0 <= l < b.len() && b[l] == z;
                assert(d[l] == z);
            }
            if d.contains(z) {
                let k = choose|k: int| 0 <= k < d.len() && d[k] == z;
                assert(b[k] == z);
                assert(b.contains(z));
                assert(a.contains(z));
                let l = choose|l: int| 0 <= l < a.len() && a[l] == z;
                assert(c[l] == z);
            }
        }
        one_order(c, d, less);
        assert(a =~= c.push(x));
        assert(b =~= d.push(y));
    }
}

/// Whether every two elements that stand at different places are related.
pub open spec fn pairwise<T>(s: Seq<T>, related: spec_fn(T, T) -> bool) -> bool {
    forall|i: int, j: int|
        0 <= i < s.len() && 0 <= j < s.len() && i != j ==> related(
            #[trigger] s[i],
            #[trigger] s[j],
        )
}

proof fn lemma_placed_pairwise<T>(
    s: Seq<T>,
    x: T,
    less: spec_fn(T, T) -> bool,
    related: spec_fn(T, T) -> bool,
)
    requires
        pairwise(s, related),
        forall|i: int|
            0 <= i < s.len() ==> related(#[trigger] s[i], x) && related(x, s[i]),
    ensures
        pairwise(placed(s, x, less), related),
    decreases s.len(),
{
    let r = placed(s, x, less);
    lemma_placed_multiset(s, x, less);
    if s.len() > 0 && less(x, s.last()) {
        let front = s.drop_last();
        assert forall|i: int, j: int|
            0 <= i < front.len() && 0 <= j < front.len() && i != j implies related(
            #[trigger] front[i],
            #[trigger] front[j],
        ) by {
            assert(front[i] == s[i] && front[j] == s[j]);
        }
        assert forall|i: int| 0 <= i < front.len() implies related(#[trigger] front[i], x)
            && related(x, front[i]) by {
            assert(front[i] == s[i]);
        }
        lemma_placed_pairwise(front, x, less, related);
        let head = placed(front, x, less);
        lemma_placed_multiset(front, x, less);
        let last = s[s.len() - 1];
        assert forall|i: int| 0 <= i < head.len() implies related(#[trigger] head[i], last)
            && related(last, head[i]) by {
            lemma_placed_elements(front, x, less, i);
            if head[i] == x {
                assert(related(s[s.len() - 1], x));
            } else {
                let k = choose|k: int| 0 <= k < front.len() && front[k] == head[i];
                assert(s[k] == head[i]);
                assert(related(s[k], s[s.len() - 1]) && related(s[s.len() - 1], s[k]));
            }
        }
        assert forall|i: int, j: int|
            0 <= i < r.len() && 0 <= j < r.len() && i != j implies related(
            #[trigger] r[i],
            #[trigger] r[j],
        ) by {
            if i < head.len() {
                assert(r[i] == head[i]);
            }
            if j < head.len() {
                assert(r[j] == head[j]);
            }
        }
    } else {
        assert forall|i: int, j: int|
            0 <= i < r.len() && 0 <= j < r.len() && i != j implies related(
            #[trigger] r[i],
            #[trigger] r[j],
        ) by {
            if i < s.len() {
                assert(r[i] == s[i]);
            }
            if j < s.len() {
                assert(r[j] == s[j]);
            }
        }
    }
}

/// Sorting keeps what holds of every two elements.
pub proof fn sorting_keeps_pairs<T>(
    s: Seq<T>,
    less: spec_fn(T, T) -> bool,
    related: spec_fn(T, T) -> bool,
)
    requires
        pairwise(s, related),
    ensures
        pairwise(stably_sorted(s, less), related),
    decreases s.len(),
{
    if s.len() > 0 {
        let front = s.drop_last();
        assert forall|i: int, j: int|
            0 <= i < front.len() && 0 <= j < front.len() && i != j implies related(
            #[trigger] front[i],
            #[trigger] front[j],
        ) by {
            assert(front[i] == s[i] && front[j] == s[j]);
        }
        sorting_keeps_pairs(front, less, related);
        let sorted = stably_sorted(front, less);
        assert forall|i: int| 0 <= i < sorted.len() implies related(#[trigger] sorted[i], s.last())
            && related(s.last(), sorted[i]) by {
            lemma_sorted_contains(front, less, sorted[i]);
            assert(sorted.contains(sorted[i]));
            let k = choose|k: int| 0 <= k < front.len() && front[k] == sorted[i];
            assert(s[k] == sorted[i]);
            assert(related(s[k], s[s.len() - 1]) && related(s[s.len() - 1], s[k]));
        }
        lemma_placed_pairwise(sorted, s.last(), less, related);
    }
}

/// Whether `less` decides as `model` does.
pub open spec fn decides<T: DeepView, F: Fn(&T, &T) -> bool>(
    less: F,
    model: spec_fn(T::V, T::V) -> bool,
) -> bool {
    &&& forall|a: &T, b: &T| #[trigger] call_requires(less, (a, b))
    &&& forall|a: &T, b: &T, r: bool| #[trigger]
        call_ensures(less, (a, b), r) ==> r == model(a.deep_view(), b.deep_view())
}

proof fn lemma_placed_at<T>(s: Seq<T>, x: T, less: spec_fn(T, T) -> bool, at: int)
    requires
        0 <= at <= s.len(),
        forall|i: int| at <= i < s.len() ==> less(x, #[trigger] s[i]),
        at > 0 ==> !less(x, s[at - 1]),
    ensures
        placed(s, x, less) == s.insert(at, x),
    decreases s.len(),
{
    if at == s.len() {
        assert(s.insert(at, x) =~= s.push(x));
    } else {
        assert(less(x, s[s.len() - 1]));
        lemma_placed_at(s.drop_last(), x, less, at);
        assert(s.drop_last().insert(at, x).push(s.last()) =~= s.insert(at, x));
    }
}

/// Sorts stably.
pub(crate) fn stable_sort<T: DeepView, F: Fn(&T, &T) -> bool>(
    items: Vec<T>,
    less: F,
    Ghost(model): Ghost<spec_fn(T::V, T::V) -> bool>,
) -> (r: Vec<T>)
    requires
        decides(less, model),
    ensures
        r.deep_view() == stably_sorted(items.deep_view(), model),
{
    let ghost all = items.deep_view();
    let mut rest = items;
    let mut out: Vec<T> = Vec::new();
    let ghost mut done: int = 0;
    assert(out.deep_view() =~= all.take(0));
    assert(rest.deep_view() =~= all.skip(0));
    while rest.len() > 0
        invariant
            decides(less, model),
            0 <= done <= all.len(),
            rest.deep_view() == all.skip(done),
            out.deep_view() == stably_sorted(all.take(done), model),
        decreases rest.len(),
    {
        let ghost before = rest.deep_view();
        let ghost sorted = out.deep_view();
        let x = rest.remove(0);
        assert(x.deep_view() == before[0]);
        assert(rest.deep_view() =~= before.drop_first());
        let mut at: usize = out.len();
        let mut searching = true;
        while searching && at > 0
            invariant
                decides(less, model),
                at <= out.len(),
                out.deep_view() == sorted,
                forall|i: int|
                    at <= i < sorted.len() ==> model(x.deep_view(), #[trigger] sorted[i]),
                !searching ==> at > 0 && !model(x.deep_view(), sorted[at - 1]),
            decreases at + (if searching { 1int } else { 0 }),
        {
            assert(out[at - 1].deep_view() == sorted[at - 1]);
            if less(&x, &out[at - 1]) {
                at -= 1;
            } else {
                searching = false;
            }
        }
        proof {
            lemma_placed_at(sorted, x.deep_view(), model, at as int);
        }
        let ghost xv = x.deep_view();
        out.insert(at, x);
        proof {
            assert(out.deep_view() =~= sorted.insert(at as int, xv));
            assert(all.take(done + 1).drop_last() =~= all.take(done));
            assert(all.take(done + 1).last() == xv);
            assert(all.skip(done).drop_first() =~= all.skip(done + 1));
            done = done + 1;
        }
    }
    assert(all.take(done) =~= all);
    out
}

/// The order of markets: by exchange, then by symbol.
pub open spec fn market_lt(a: MarketKeyModel, b: MarketKeyModel) -> bool {
    ||| a.exchange.place() < b.exchange.place()
    ||| a.exchange == b.exchange && text_lt(a.symbol, b.symbol)
}

pub proof fn market_order(a: MarketKeyModel, b: MarketKeyModel)
    ensures
        !market_lt(a, a),
        market_lt(a, b) ==> !market_lt(b, a) && a != b,
        a == b || market_lt(a, b) || market_lt(b, a),
{
    text_order(a.symbol, a.symbol);
    text_order(a.symbol, b.symbol);
}

pub proof fn market_order_transitive(a: MarketKeyModel, b: MarketKeyModel, c: MarketKeyModel)
    requires
        market_lt(a, b),
        market_lt(b, c),
    ensures
        market_lt(a, c),
{
    if a.exchange == b.exchange && b.exchange == c.exchange {
        text_order_transitive(a.symbol, b.symbol, c.symbol);
    }
}

pub fn market_less(a: &MarketKey, b: &MarketKey) -> (r: bool)
    ensures
        r == market_lt(a@, b@),
{
    if a.exchange == b.exchange {
        text_less(a.symbol.as_str(), b.symbol.as_str())
    } else {
        matches!(a.exchange, crate::config::model::Exchange::BinanceUsdM)
    }
}

/// Whether `s` is in strictly ascending order of markets.
pub open spec fn markets_ascend(s: Seq<MarketKeyModel>) -> bool {
    forall|i: int, j: int| 0 <= i < j < s.len() ==> market_lt(#[trigger] s[i], #[trigger] s[j])
}

/// A set of markets, as a sequence in ascending order, with one more market.
pub open spec fn market_added(s: Seq<MarketKeyModel>, m: MarketKeyModel) -> Seq<MarketKeyModel>
    decreases s.len(),
{
    if s.len() == 0 || market_lt(s.last(), m) {
        s.push(m)
    } else if s.last() == m {
        s
    } else {
        market_added(s.drop_last(), m).push(s.last())
    }
}

/// The different markets of `s`, in ascending order.
pub open spec fn market_set(s: Seq<MarketKeyModel>) -> Seq<MarketKeyModel>
    decreases s.len(),
{
    if s.len() == 0 {
        s
    } else {
        market_added(market_set(s.drop_last()), s.last())
    }
}

proof fn lemma_market_added(s: Seq<MarketKeyModel>, m: MarketKeyModel)
    requires
        markets_ascend(s),
    ensures
        markets_ascend(market_added(s, m)),
        forall|x: MarketKeyModel| #[trigger]
            market_added(s, m).contains(x) <==> s.contains(x) || x == m,
    decreases s.len(),
{
    let r = market_added(s, m);
    if s.len() == 0 || market_lt(s.last(), m) {
        assert forall|i: int, j: int| 0 <= i < j < r.len() implies market_lt(
            #[trigger] r[i],
            #[trigger] r[j],
        ) by {
            if j == s.len() {
                if i < s.len() - 1 {
                    assert(market_lt(s[i], s[s.len() - 1]));
                    market_order_transitive(s[i], s.last(), m);
                }
            } else {
                assert(market_lt(s[i], s[j]));
            }
        }
        assert forall|x: MarketKeyModel| #[trigger] r.contains(x) <==> s.contains(x) || x == m by {
            if s.contains(x) {
                let k = choose|k: int| 0 <= k < s.len() && s[k] == x;
                assert(r[k] == x);
            }
            if x == m {
                assert(r[s.len() as int] == m);
            }
            if r.contains(x) {
                let k = choose|k: int| 0 <= k < r.len() && r[k] == x;
                if k < s.len() {
                    assert(s[k] == x);
                }
            }
        }
    } else if s.last() == m {
        assert(s[s.len() - 1] == m);
        assert(s.contains(m));
    } else {
        let front = s.drop_last();
        let last = s.last();
        market_order(last, m);
        assert forall|i: int, j: int| 0 <= i < j < front.len() implies market_lt(
            #[trigger] front[i],
            #[trigger] front[j],
        ) by {
            assert(market_lt(s[i], s[j]));
        }
        lemma_market_added(front, m);
        let head = market_added(front, m);
        assert forall|i: int, j: int| 0 <= i < j < r.len() implies market_lt(
            #[trigger] r[i],
            #[trigger] r[j],
        ) by {
            if j == head.len() {
                assert(head.contains(r[i]));
                if r[i] != m {
                    let k = choose|k: int| 0 <= k < front.len() && front[k] == r[i];
                    assert(market_lt(s[k], s[s.len() - 1]));
                }
            } else {
                assert(market_lt(head[i], head[j]));
            }
        }
        assert forall|x: MarketKeyModel| #[trigger] r.contains(x) <==> s.contains(x) || x == m by {
            assert(s =~= front.push(last));
            assert(head.contains(x) <==> front.contains(x) || x == m);
            if r.contains(x) {
                let k = choose|k: int| 0 <= k < r.len() && r[k] == x;
                if k < head.len() {
                    assert(head[k] == x);
                    assert(head.contains(x));
                    if x != m {
                        let k2 = choose|k2: int| 0 <= k2 < front.len() && front[k2] == x;
                        assert(s[k2] == x);
                    }
                } else {
                    assert(s[s.len() - 1] == x);
                }
            }
            if s.contains(x) || x == m {
                if x == last {
                    assert(r[head.len() as int] == x);
                } else {
                    if x != m {
                        let k2 = choose|k2: int| 0 <= k2 < s.len() && s[k2] == x;
                        assert(front[k2] == x);
                        assert(front.contains(x));
                    }
                    assert(head.contains(x));
                    let k = choose|k: int| 0 <= k < head.len() && head[k] == x;
                    assert(r[k] == x);
                }
            }
        }
    }
}

/// `market_set` holds the markets of `s`, each once, in ascending order.
pub proof fn market_set_is_the_set(s: Seq<MarketKeyModel>)
    ensures
        markets_ascend(market_set(s)),
        forall|x: MarketKeyModel| #[trigger] market_set(s).contains(x) <==> s.contains(x),
        market_set(s).no_duplicates(),
        market_set(s).to_set() == s.to_set(),
        market_set(s).len() == s.to_set().len(),
    decreases s.len(),
{
    let r = market_set(s);
    if s.len() > 0 {
        let front = s.drop_last();
        market_set_is_the_set(front);
        lemma_market_added(market_set(front), s.last());
        assert forall|x: MarketKeyModel| #[trigger] r.contains(x) <==> s.contains(x) by {
            assert(market_set(front).contains(x) <==> front.contains(x));
            if s.contains(x) {
                let k = choose|k: int| 0 <= k < s.len() && s[k] == x;
                if k < front.len() {
                    assert(front[k] == x);
                }
            }
            if front.contains(x) {
                let k = choose|k: int| 0 <= k < front.len() && front[k] == x;
                assert(s[k] == x);
            }
            if x == s.last() {
                assert(s[s.len() - 1] == x);
            }
        }
    }
    assert forall|i: int, j: int| 0 <= i < r.len() && 0 <= j < r.len() && i != j implies r[i]
        != r[j] by {
        if i < j {
            assert(market_lt(r[i], r[j]));
            market_order(r[i], r[j]);
        } else {
            assert(market_lt(r[j], r[i]));
            market_order(r[j], r[i]);
        }
    }
    assert forall|x: MarketKeyModel| r.to_set().contains(x) <==> s.to_set().contains(x) by {
        assert(r.contains(x) <==> s.contains(x));
    }
    assert(r.to_set() =~= s.to_set());
    r.unique_seq_to_set();
}

/// Puts a market into a set of markets kept in ascending order.
pub(crate) fn add_market(set: &mut Vec<MarketKey>, market: MarketKey)
    requires
        markets_ascend(old(set).deep_view()),
    ensures
        final(set).deep_view() == market_added(old(set).deep_view(), market@),
        markets_ascend(final(set).deep_view()),
{
    let ghost before = set.deep_view();
    proof {
        lemma_market_added(before, market@);
    }
    let mut at: usize = set.len();
    let ghost m = market@;
    assert(before.take(before.len() as int) =~= before);
    assert(before.skip(before.len() as int) =~= Seq::empty());
    assert(market_added(before, m) + Seq::empty() =~= market_added(before, m));
    while at > 0 && !market_less(&set[at - 1], &market)
        invariant
            at <= set.len(),
            set.deep_view() == before,
            m == market@,
            markets_ascend(market_added(before, m)),
            market_added(before, m) == market_added(before.take(at as int), m) + before.skip(
                at as int,
            ),
        decreases at,
    {
        assert(set[at - 1]@ == before[at - 1]);
        if set[at - 1].same(&market) {
            proof {
                assert(before.take(at as int).last() == m);
                market_order(m, m);
                assert(before.take(at as int) + before.skip(at as int) =~= before);
            }
            return;
        }
        proof {
            let part = before.take(at as int);
            assert(part.last() == before[at - 1]);
            assert(part.drop_last() =~= before.take(at - 1));
            assert(market_added(part, m) == market_added(before.take(at - 1), m).push(part.last()));
            assert(market_added(before.take(at - 1), m).push(part.last()) + before.skip(at as int)
                =~= market_added(before.take(at - 1), m) + before.skip(at - 1));
        }
        at -= 1;
    }
    proof {
        if at > 0 {
            assert(set[at - 1]@ == before[at - 1]);
            assert(before.take(at as int).last() == before[at - 1]);
        }
        assert(before.take(at as int).push(m) + before.skip(at as int) =~= before.insert(
            at as int,
            m,
        ));
    }
    set.insert(at, market);
    assert(set.deep_view() =~= before.insert(at as int, m));
}

/// Whether `market` is one of `markets`.
pub(crate) fn has_market(markets: &Vec<MarketKey>, market: &MarketKey) -> (r: bool)
    ensures
        r == markets.deep_view().contains(market@),
{
    let mut i: usize = 0;
    while i < markets.len()
        invariant
            i <= markets.len(),
            forall|j: int| 0 <= j < i ==> markets.deep_view()[j] != market@,
        decreases markets.len() - i,
    {
        if markets[i].same(market) {
            assert(markets.deep_view()[i as int] == market@);
            return true;
        }
        i += 1;
    }
    false
}

/// The order of lists of texts: by the first text that differs, a proper prefix first.
pub open spec fn list_lt(a: Seq<Seq<char>>, b: Seq<Seq<char>>) -> bool
    decreases a.len(),
{
    if b.len() == 0 {
        false
    } else if a.len() == 0 {
        true
    } else if a[0] == b[0] {
        list_lt(a.drop_first(), b.drop_first())
    } else {
        text_lt(a[0], b[0])
    }
}

pub proof fn list_order(a: Seq<Seq<char>>, b: Seq<Seq<char>>)
    ensures
        !list_lt(a, a),
        list_lt(a, b) ==> !list_lt(b, a) && a != b,
        a == b || list_lt(a, b) || list_lt(b, a),
    decreases a.len(),
{
    if a.len() > 0 {
        list_order(a.drop_first(), a.drop_first());
    }
    if a.len() > 0 && b.len() > 0 {
        text_order(a[0], b[0]);
        list_order(a.drop_first(), b.drop_first());
        if a[0] == b[0] && a.drop_first() == b.drop_first() {
            assert(a =~= seq![a[0]] + a.drop_first());
            assert(b =~= seq![b[0]] + b.drop_first());
        }
    } else if a.len() == 0 && b.len() == 0 {
        assert(a =~= b);
    }
}

pub proof fn list_order_transitive(a: Seq<Seq<char>>, b: Seq<Seq<char>>, c: Seq<Seq<char>>)
    requires
        list_lt(a, b),
        list_lt(b, c),
    ensures
        list_lt(a, c),
    decreases a.len(),
{
    if a.len() > 0 && b.len() > 0 && c.len() > 0 {
        if a[0] == b[0] && b[0] == c[0] {
            list_order_transitive(a.drop_first(), b.drop_first(), c.drop_first());
        } else if a[0] != b[0] && b[0] != c[0] {
            text_order_transitive(a[0], b[0], c[0]);
            text_order(a[0], c[0]);
        }
    }
}

/// Whether the list `a` comes before the list `b`.
pub fn list_less(a: &Vec<StrategyId>, b: &Vec<StrategyId>) -> (r: bool)
    ensures
        r == list_lt(a.deep_view(), b.deep_view()),
{
    let ghost x = a.deep_view();
    let ghost y = b.deep_view();
    let mut i: usize = 0;
    assert(x.skip(0) =~= x);
    assert(y.skip(0) =~= y);
    while i < a.len() && i < b.len()
        invariant
            x == a.deep_view(),
            y == b.deep_view(),
            i <= a.len(),
            i <= b.len(),
            list_lt(x, y) == list_lt(x.skip(i as int), y.skip(i as int)),
        decreases a.len() - i,
    {
        assert(x.skip(i as int)[0] == a[i as int]@);
        assert(y.skip(i as int)[0] == b[i as int]@);
        if !a[i].same(&b[i]) {
            return text_less(a[i].as_str(), b[i].as_str());
        }
        assert(x.skip(i as int).drop_first() =~= x.skip(i + 1));
        assert(y.skip(i as int).drop_first() =~= y.skip(i + 1));
        i += 1;
    }
    i < b.len()
}

} // verus!
