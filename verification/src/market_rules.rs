//! The rules of markets: tick sizes, quantity steps and minimums, as venues publish them.

use vstd::prelude::*;
use vstd::utf8::encode_utf8;

use crate::config::model::{now_ms, Exchange, MarketKey, MarketKeyModel};
use crate::config::planner::on_exchange;
use crate::num::{one, parses_all, reads, Binary64};
use crate::order::{add_market, has_market, market_set, markets_ascend};
use crate::text::{
    chars_of, decimal_signed, parse_u32, read_u32, same_text, signed_numeral, text_of, trim,
    trimmed,
};

verus! {

/// What orders of a market have to keep to.
#[derive(Debug)]
pub struct MarketRule {
    pub market: MarketKey,
    pub min_qty: Option<Binary64>,
    pub min_notional: Option<Binary64>,
    pub price_tick: Option<Binary64>,
    pub qty_step: Option<Binary64>,
    pub price_precision: Option<u32>,
    pub qty_precision: Option<u32>,
    pub contract_multiplier: Option<Binary64>,
    pub updated_at_ms: u64,
}

/// What a [`MarketRule`] holds.
#[verifier::ext_equal]
pub struct MarketRuleModel {
    pub market: MarketKeyModel,
    pub min_qty: Option<Binary64>,
    pub min_notional: Option<Binary64>,
    pub price_tick: Option<Binary64>,
    pub qty_step: Option<Binary64>,
    pub price_precision: Option<u32>,
    pub qty_precision: Option<u32>,
    pub contract_multiplier: Option<Binary64>,
    pub updated_at_ms: u64,
}

impl View for MarketRule {
    type V = MarketRuleModel;

    open spec fn view(&self) -> MarketRuleModel {
        MarketRuleModel {
            market: self.market@,
            min_qty: self.min_qty,
            min_notional: self.min_notional,
            price_tick: self.price_tick,
            qty_step: self.qty_step,
            price_precision: self.price_precision,
            qty_precision: self.qty_precision,
            contract_multiplier: self.contract_multiplier,
            updated_at_ms: self.updated_at_ms,
        }
    }
}

impl DeepView for MarketRule {
    type V = MarketRuleModel;

    open spec fn deep_view(&self) -> MarketRuleModel {
        self@
    }
}

impl Clone for MarketRule {
    fn clone(&self) -> (r: Self)
        ensures
            r == *self,
    {
        MarketRule {
            market: self.market.clone(),
            min_qty: self.min_qty,
            min_notional: self.min_notional,
            price_tick: self.price_tick,
            qty_step: self.qty_step,
            price_precision: self.price_precision,
            qty_precision: self.qty_precision,
            contract_multiplier: self.contract_multiplier,
            updated_at_ms: self.updated_at_ms,
        }
    }
}

/// Rules by their markets; of rules for one market the last.
pub open spec fn rules_added(
    table: Map<MarketKeyModel, MarketRuleModel>,
    rules: Seq<MarketRuleModel>,
) -> Map<MarketKeyModel, MarketRuleModel>
    decreases rules.len(),
{
    if rules.len() == 0 {
        table
    } else {
        rules_added(table, rules.drop_last()).insert(rules.last().market, rules.last())
    }
}

/// A table of rules after a refresh: rules that were fetched replace older ones, and only those of
/// watched markets stay.
pub open spec fn refreshed(
    table: Map<MarketKeyModel, MarketRuleModel>,
    fetched: Seq<MarketRuleModel>,
    watched: Seq<MarketKeyModel>,
) -> Map<MarketKeyModel, MarketRuleModel> {
    rules_added(table, fetched).restrict(watched.to_set())
}

/// What a [`MarketRuleSnapshot`] holds.
#[verifier::ext_equal]
pub struct MarketRuleSnapshotModel {
    pub updated_at_ms: u64,
    pub rules: Map<MarketKeyModel, MarketRuleModel>,
}

/// The rules of markets at one time.
#[derive(Debug)]
pub struct MarketRuleSnapshot {
    pub updated_at_ms: u64,
    rules: Vec<MarketRule>,
}

impl View for MarketRuleSnapshot {
    type V = MarketRuleSnapshotModel;

    closed spec fn view(&self) -> MarketRuleSnapshotModel {
        MarketRuleSnapshotModel {
            updated_at_ms: self.updated_at_ms,
            rules: rules_added(Map::empty(), self.rules.deep_view()),
        }
    }
}

/// Whether no two rules are of one market.
spec fn markets_differ(rules: Seq<MarketRuleModel>) -> bool {
    forall|i: int, j: int|
        0 <= i < j < rules.len() ==> (#[trigger] rules[i]).market != (#[trigger] rules[j]).market
}

proof fn lemma_table(rules: Seq<MarketRuleModel>)
    requires
        markets_differ(rules),
    ensures
        forall|k: MarketKeyModel| #[trigger]
            rules_added(Map::empty(), rules).contains_key(k) <==> exists|i: int|
                0 <= i < rules.len() && (#[trigger] rules[i]).market == k,
        forall|i: int|
            0 <= i < rules.len() ==> rules_added(
                Map::<MarketKeyModel, MarketRuleModel>::empty(),
                rules,
            )[(#[trigger] rules[i]).market] == rules[i],
        rules_added(Map::<MarketKeyModel, MarketRuleModel>::empty(), rules).dom().finite(),
        rules_added(Map::<MarketKeyModel, MarketRuleModel>::empty(), rules).len() == rules.len(),
    decreases rules.len(),
{
    let t = rules_added(Map::<MarketKeyModel, MarketRuleModel>::empty(), rules);
    if rules.len() > 0 {
        let front = rules.drop_last();
        assert forall|i: int, j: int| 0 <= i < j < front.len() implies (
        #[trigger] front[i]).market != (#[trigger] front[j]).market by {
            assert(front[i] == rules[i] && front[j] == rules[j]);
        }
        lemma_table(front);
        let u = rules_added(Map::<MarketKeyModel, MarketRuleModel>::empty(), front);
        let last = rules.last();
        assert(rules[rules.len() - 1] == last);
        assert forall|k: MarketKeyModel| #[trigger] t.contains_key(k) <==> exists|i: int|
            0 <= i < rules.len() && (#[trigger] rules[i]).market == k by {
            if t.contains_key(k) && k != last.market {
                assert(u.contains_key(k));
                let i = choose|i: int| 0 <= i < front.len() && (#[trigger] front[i]).market == k;
                assert(rules[i].market == k);
            }
            if exists|i: int| 0 <= i < rules.len() && (#[trigger] rules[i]).market == k {
                let i = choose|i: int| 0 <= i < rules.len() && (#[trigger] rules[i]).market == k;
                if i < front.len() {
                    assert(front[i].market == k);
                    assert(u.contains_key(k));
                }
            }
        }
        assert forall|i: int| 0 <= i < rules.len() implies t[(#[trigger] rules[i]).market]
            == rules[i] by {
            if i < front.len() {
                assert(front[i] == rules[i]);
                assert(rules[i].market != rules[rules.len() - 1].market);
            }
        }
        assert(!u.contains_key(last.market)) by {
            if u.contains_key(last.market) {
                let i = choose|i: int|
                    0 <= i < front.len() && (#[trigger] front[i]).market == last.market;
                assert(rules[i].market == rules[rules.len() - 1].market);
            }
        }
    } else {
        assert(t.dom() =~= Set::empty());
    }
}

impl Clone for MarketRuleSnapshot {
    fn clone(&self) -> (r: Self)
        ensures
            r@ == self@,
            self.wf() ==> r.wf(),
    {
        let rules = self.rules.clone();
        assert(rules.deep_view() =~= self.rules.deep_view());
        MarketRuleSnapshot { updated_at_ms: self.updated_at_ms, rules }
    }
}

/// Puts a rule into rules of different markets, in place of the one of its market if there is one.
fn put_rule(rules: &mut Vec<MarketRule>, rule: MarketRule)
    requires
        markets_differ(old(rules).deep_view()),
    ensures
        markets_differ(final(rules).deep_view()),
        rules_added(Map::empty(), final(rules).deep_view()) == rules_added(
            Map::empty(),
            old(rules).deep_view(),
        ).insert(rule@.market, rule@),
{
    let ghost all = rules.deep_view();
    let ghost rv = rule@;
    let mut i: usize = 0;
    while i < rules.len() && !rules[i].market.same(&rule.market)
        invariant
            i <= rules.len(),
            all == rules.deep_view(),
            rv == rule@,
            forall|j: int| 0 <= j < i ==> (#[trigger] all[j]).market != rv.market,
        decreases rules.len() - i,
    {
        assert(all[i as int] == rules[i as int]@);
        i += 1;
    }
    if i < rules.len() {
        assert(all[i as int] == rules[i as int]@);
        rules[i] = rule;
        assert(rules.deep_view() =~= all.update(i as int, rv));
    } else {
        rules.push(rule);
        assert(rules.deep_view() =~= all.push(rv));
    }
    proof {
        let after = rules.deep_view();
        assert forall|a: int, b: int| 0 <= a < b < after.len() implies (#[trigger] after[a]).market
            != (#[trigger] after[b]).market by {
            if a < all.len() {
                assert(after[a].market == all[a].market);
            }
            if b < all.len() {
                assert(after[b].market == all[b].market);
            }
        }
        lemma_table(all);
        lemma_table(after);
        let t = rules_added(Map::<MarketKeyModel, MarketRuleModel>::empty(), all);
        let u = rules_added(Map::<MarketKeyModel, MarketRuleModel>::empty(), after);
        let w = t.insert(rv.market, rv);
        assert forall|k: MarketKeyModel| u.contains_key(k) <==> w.contains_key(k) by {
            if u.contains_key(k) {
                let j = choose|j: int| 0 <= j < after.len() && (#[trigger] after[j]).market == k;
                if j < all.len() {
                    assert(all[j].market == k);
                    assert(t.contains_key(k));
                }
            }
            if t.contains_key(k) {
                let j = choose|j: int| 0 <= j < all.len() && (#[trigger] all[j]).market == k;
                assert(after[j].market == k);
            }
            assert(after[i as int].market == rv.market);
            assert(u.contains_key(rv.market));
        }
        assert forall|k: MarketKeyModel| u.contains_key(k) implies #[trigger] u[k] == w[k] by {
            let j = choose|j: int| 0 <= j < after.len() && (#[trigger] after[j]).market == k;
            assert(u[after[j].market] == after[j]);
            if j != i {
                assert(after[j] == all[j]);
                assert(t[all[j].market] == all[j]);
                if i < all.len() {
                    assert(all[i as int].market != all[j].market);
                }
            }
        }
        assert(u =~= w);
    }
}

impl MarketRuleSnapshot {
    /// Whether no two rules are of one market; every snapshot is so.
    pub closed spec fn wf(&self) -> bool {
        markets_differ(self.rules.deep_view())
    }

    /// When the rules were last refreshed.
    pub fn updated_at_ms(&self) -> (r: u64)
        ensures
            r == self@.updated_at_ms,
    {
        self.updated_at_ms
    }

    /// The snapshot without rules.
    pub fn empty() -> (r: Self)
        ensures
            r@ == (MarketRuleSnapshotModel { updated_at_ms: 0, rules: Map::empty() }),
            r.wf(),
    {
        let r = MarketRuleSnapshot { updated_at_ms: 0, rules: Vec::new() };
        assert(r.rules.deep_view() =~= Seq::empty());
        r
    }

    /// The rule of a market.
    pub fn get(&self, market: &MarketKey) -> (r: Option<&MarketRule>)
        requires
            self.wf(),
        ensures
            match r {
                Some(rule) => self@.rules.contains_key(market@) && rule@ == self@.rules[market@],
                None => !self@.rules.contains_key(market@),
            },
    {
        let ghost all = self.rules.deep_view();
        proof {
            lemma_table(all);
        }
        let mut i: usize = 0;
        while i < self.rules.len()
            invariant
                i <= self.rules.len(),
                all == self.rules.deep_view(),
                markets_differ(all),
                self@.rules == rules_added(Map::empty(), all),
                forall|k: MarketKeyModel| #[trigger]
                    self@.rules.contains_key(k) <==> exists|j: int|
                        0 <= j < all.len() && (#[trigger] all[j]).market == k,
                forall|j: int|
                    0 <= j < all.len() ==> self@.rules[(#[trigger] all[j]).market] == all[j],
                forall|j: int| 0 <= j < i ==> (#[trigger] all[j]).market != market@,
            decreases self.rules.len() - i,
        {
            assert(all[i as int] == self.rules[i as int]@);
            if self.rules[i].market.same(market) {
                assert(self@.rules.contains_key(market@));
                return Some(&self.rules[i]);
            }
            i += 1;
        }
        None
    }

    /// How many markets have a rule.
    pub fn len(&self) -> (r: usize)
        requires
            self.wf(),
        ensures
            r == self@.rules.len(),
    {
        proof {
            lemma_table(self.rules.deep_view());
        }
        self.rules.len()
    }

    /// The snapshot after a refresh.
    fn refresh(&self, fetched: Vec<MarketRule>, watched: &Vec<MarketKey>) -> (r: Self)
        requires
            self.wf(),
        ensures
            r.wf(),
            r@.rules == refreshed(self@.rules, fetched.deep_view(), watched.deep_view()),
    {
        let ghost new_rules = fetched.deep_view();
        let mut merged = self.rules.clone();
        assert(merged.deep_view() =~= self.rules.deep_view());
        let mut i: usize = 0;
        assert(new_rules.take(0) =~= Seq::empty());
        while i < fetched.len()
            invariant
                i <= fetched.len(),
                new_rules == fetched.deep_view(),
                markets_differ(merged.deep_view()),
                rules_added(Map::empty(), merged.deep_view()) == rules_added(
                    self@.rules,
                    new_rules.take(i as int),
                ),
            decreases fetched.len() - i,
        {
            assert(new_rules.take(i + 1).drop_last() =~= new_rules.take(i as int));
            put_rule(&mut merged, fetched[i].clone());
            i += 1;
        }
        assert(new_rules.take(new_rules.len() as int) =~= new_rules);
        let ghost all = merged.deep_view();
        let mut kept: Vec<MarketRule> = Vec::new();
        let mut j: usize = 0;
        assert(kept.deep_view() =~= kept_of(all.take(0), watched.deep_view()));
        while j < merged.len()
            invariant
                j <= merged.len(),
                all == merged.deep_view(),
                kept.deep_view() == kept_of(all.take(j as int), watched.deep_view()),
            decreases merged.len() - j,
        {
            let ghost before = kept.deep_view();
            assert(all.take(j + 1).drop_last() =~= all.take(j as int));
            assert(all.take(j + 1).last() == merged[j as int]@);
            if has_market(watched, &merged[j].market) {
                kept.push(merged[j].clone());
                assert(kept.deep_view() =~= before.push(all[j as int]));
            }
            j += 1;
        }
        proof {
            assert(all.take(all.len() as int) =~= all);
            lemma_kept(all, watched.deep_view());
        }
        MarketRuleSnapshot { updated_at_ms: now_ms(), rules: kept }
    }
}

/// The rules of watched markets.
spec fn kept_of(rules: Seq<MarketRuleModel>, watched: Seq<MarketKeyModel>) -> Seq<MarketRuleModel>
    decreases rules.len(),
{
    if rules.len() == 0 {
        rules
    } else if watched.contains(rules.last().market) {
        kept_of(rules.drop_last(), watched).push(rules.last())
    } else {
        kept_of(rules.drop_last(), watched)
    }
}

proof fn lemma_kept(rules: Seq<MarketRuleModel>, watched: Seq<MarketKeyModel>)
    requires
        markets_differ(rules),
    ensures
        markets_differ(kept_of(rules, watched)),
        forall|i: int|
            0 <= i < kept_of(rules, watched).len() ==> rules.contains(
                #[trigger] kept_of(rules, watched)[i],
            ),
        rules_added(Map::empty(), kept_of(rules, watched)) == rules_added(
            Map::empty(),
            rules,
        ).restrict(watched.to_set()),
    decreases rules.len(),
{
    let r = kept_of(rules, watched);
    let t = rules_added(Map::<MarketKeyModel, MarketRuleModel>::empty(), rules);
    let u = rules_added(Map::<MarketKeyModel, MarketRuleModel>::empty(), r);
    if rules.len() > 0 {
        let front = rules.drop_last();
        let last = rules.last();
        assert(rules[rules.len() - 1] == last);
        assert forall|i: int, j: int| 0 <= i < j < front.len() implies (
        #[trigger] front[i]).market != (#[trigger] front[j]).market by {
            assert(front[i] == rules[i] && front[j] == rules[j]);
        }
        lemma_kept(front, watched);
        let head = kept_of(front, watched);
        assert forall|i: int| 0 <= i < r.len() implies rules.contains(#[trigger] r[i]) by {
            if i < head.len() {
                assert(r[i] == head[i]);
                let k = choose|k: int| 0 <= k < front.len() && front[k] == head[i];
                assert(rules[k] == r[i]);
            }
        }
        assert forall|i: int, j: int| 0 <= i < j < r.len() implies (#[trigger] r[i]).market != (
        #[trigger] r[j]).market by {
            assert(r[i] == head[i]);
            if j < head.len() {
                assert(r[j] == head[j]);
            } else {
                assert(front.contains(head[i]));
                let k = choose|k: int| 0 <= k < front.len() && front[k] == head[i];
                assert(rules[k].market != rules[rules.len() - 1].market);
            }
        }
        let tf = rules_added(Map::<MarketKeyModel, MarketRuleModel>::empty(), front);
        lemma_table(front);
        assert(!tf.contains_key(last.market)) by {
            if tf.contains_key(last.market) {
                let i = choose|i: int|
                    0 <= i < front.len() && (#[trigger] front[i]).market == last.market;
                assert(rules[i].market == rules[rules.len() - 1].market);
            }
        }
        assert(watched.to_set().contains(last.market) <==> watched.contains(last.market));
        assert(rules_added(Map::empty(), head) == tf.restrict(watched.to_set()));
        if watched.contains(last.market) {
            assert(r.drop_last() =~= head);
        }
        assert(u =~= t.restrict(watched.to_set()));
    } else {
        assert(u =~= t.restrict(watched.to_set()));
    }
}

/// What a [`MarketRuleStore`] holds.
#[verifier::ext_equal]
pub struct MarketRuleStoreModel {
    pub snapshot: MarketRuleSnapshotModel,
    /// The watched markets, in ascending order.
    pub watched: Seq<MarketKeyModel>,
}

/// The rules of the markets that are watched.
#[derive(Debug)]
pub struct MarketRuleStore {
    snapshot: MarketRuleSnapshot,
    watched_markets: Vec<MarketKey>,
}

impl View for MarketRuleStore {
    type V = MarketRuleStoreModel;

    closed spec fn view(&self) -> MarketRuleStoreModel {
        MarketRuleStoreModel {
            snapshot: self.snapshot@,
            watched: self.watched_markets.deep_view(),
        }
    }
}

impl Clone for MarketRuleStore {
    fn clone(&self) -> (r: Self)
        ensures
            r@ == self@,
            self.wf() ==> r.wf(),
    {
        let watched_markets = self.watched_markets.clone();
        assert(watched_markets.deep_view() =~= self.watched_markets.deep_view());
        MarketRuleStore { snapshot: self.snapshot.clone(), watched_markets }
    }
}

impl Default for MarketRuleStore {
    fn default() -> (r: Self)
        ensures
            r@.snapshot == (MarketRuleSnapshotModel { updated_at_ms: 0, rules: Map::empty() }),
            r@.watched.len() == 0,
            r.wf(),
    {
        MarketRuleStore::new()
    }
}

impl MarketRuleStore {
    /// Whether no two rules are of one market; every store is so.
    pub closed spec fn wf(&self) -> bool {
        self.snapshot.wf()
    }

    /// A store that watches nothing.
    pub fn new() -> (r: Self)
        ensures
            r@.snapshot == (MarketRuleSnapshotModel { updated_at_ms: 0, rules: Map::empty() }),
            r@.watched.len() == 0,
            r.wf(),
    {
        MarketRuleStore { snapshot: MarketRuleSnapshot::empty(), watched_markets: Vec::new() }
    }

    /// Watches markets, and no others.
    pub fn watch_markets(&mut self, markets: Vec<MarketKey>)
        requires
            old(self).wf(),
        ensures
            final(self)@ == (MarketRuleStoreModel {
                watched: market_set(markets.deep_view()),
                ..old(self)@
            }),
            final(self).wf(),
    {
        let ghost all = markets.deep_view();
        let mut watched: Vec<MarketKey> = Vec::new();
        let mut i: usize = 0;
        assert(watched.deep_view() =~= market_set(all.take(0)));
        while i < markets.len()
            invariant
                i <= markets.len(),
                all == markets.deep_view(),
                watched.deep_view() == market_set(all.take(i as int)),
                markets_ascend(watched.deep_view()),
            decreases markets.len() - i,
        {
            assert(all.take(i + 1).drop_last() =~= all.take(i as int));
            assert(all.take(i + 1).last() == markets[i as int]@);
            add_market(&mut watched, markets[i].clone());
            i += 1;
        }
        assert(all.take(all.len() as int) =~= all);
        self.watched_markets = watched;
    }

    /// The watched markets, in ascending order.
    pub fn watched_markets(&self) -> (r: Vec<MarketKey>)
        ensures
            r.deep_view() == self@.watched,
    {
        let r = self.watched_markets.clone();
        assert(r.deep_view() =~= self.watched_markets.deep_view());
        r
    }

    /// The rules as they are.
    pub fn snapshot(&self) -> (r: &MarketRuleSnapshot)
        requires
            self.wf(),
        ensures
            r@ == self@.snapshot,
            r.wf(),
    {
        &self.snapshot
    }

    /// The rule of a market.
    pub fn get(&self, market: &MarketKey) -> (r: Option<MarketRule>)
        requires
            self.wf(),
        ensures
            r.deep_view() == (if self@.snapshot.rules.contains_key(market@) {
                Some(self@.snapshot.rules[market@])
            } else {
                None
            }),
    {
        match self.snapshot.get(market) {
            Some(rule) => Some(rule.clone()),
            None => None,
        }
    }

    /// Takes in the rules that were fetched for `watched` markets. Nothing is said of the time that
    /// the rules then carry.
    pub fn refresh_market_rules(&mut self, watched: &Vec<MarketKey>, fetched: Vec<MarketRule>)
        requires
            old(self).wf(),
        ensures
            final(self)@.watched == old(self)@.watched,
            watched.len() == 0 ==> final(self)@.snapshot == old(self)@.snapshot,
            watched.len() > 0 ==> final(self)@.snapshot.rules == refreshed(
                old(self)@.snapshot.rules,
                fetched.deep_view(),
                watched.deep_view(),
            ),
            final(self).wf(),
    {
        if watched.len() == 0 {
            return;
        }
        self.snapshot = self.snapshot.refresh(fetched, watched);
    }
}

/// The symbols of `markets`.
pub open spec fn symbols_of(markets: Seq<MarketKeyModel>) -> Seq<Seq<char>> {
    markets.map_values(|market: MarketKeyModel| market.symbol)
}

/// The symbols whose rules an exchange is asked for.
pub fn wanted_symbols(watched: &Vec<MarketKey>, exchange: Exchange) -> (r: Vec<String>)
    ensures
        r.deep_view() == symbols_of(on_exchange(watched.deep_view(), exchange)),
{
    let ghost all = watched.deep_view();
    let mut out: Vec<String> = Vec::new();
    let mut i: usize = 0;
    assert(out.deep_view() =~= symbols_of(on_exchange(all.take(0), exchange)));
    while i < watched.len()
        invariant
            i <= watched.len(),
            all == watched.deep_view(),
            out.deep_view() == symbols_of(on_exchange(all.take(i as int), exchange)),
        decreases watched.len() - i,
    {
        let ghost before = out.deep_view();
        assert(all.take(i + 1).drop_last() =~= all.take(i as int));
        assert(all.take(i + 1).last() == watched[i as int]@);
        if watched[i].exchange == exchange {
            out.push(watched[i].symbol.clone());
            assert(out.deep_view() =~= before.push(all[i as int].symbol));
            assert(symbols_of(on_exchange(all.take(i + 1), exchange)) =~= before.push(
                all[i as int].symbol,
            ));
        }
        i += 1;
    }
    assert(all.take(all.len() as int) =~= all);
    out
}

fn has_symbol(symbols: &Vec<String>, symbol: &String) -> (r: bool)
    ensures
        r == symbols.deep_view().contains(symbol@),
{
    let mut i: usize = 0;
    while i < symbols.len()
        invariant
            i <= symbols.len(),
            forall|j: int| 0 <= j < i ==> symbols.deep_view()[j] != symbol@,
        decreases symbols.len() - i,
    {
        if symbols[i] == *symbol {
            assert(symbols.deep_view()[i as int] == symbol@);
            return true;
        }
        i += 1;
    }
    false
}

/// The number that a text stands for, if there is a text and it stands for one.
pub open spec fn decimal_of(
    rd: spec_fn(Seq<char>) -> Option<Binary64>,
    value: Option<Seq<char>>,
) -> Option<Binary64> {
    match value {
        Some(text) => rd(text),
        None => None,
    }
}

fn parse_decimal<P: Fn(&str) -> Option<Binary64>>(value: &Option<String>, parse: &P) -> (r: Option<
    Binary64,
>)
    requires
        parses_all(*parse),
    ensures
        forall|rd: spec_fn(Seq<char>) -> Option<Binary64>| #[trigger]
            reads(*parse, rd) ==> r == decimal_of(rd, value.deep_view()),
{
    match value {
        Some(text) => parse(text.as_str()),
        None => None,
    }
}

/// The first of two values that is there.
pub open spec fn first_of(a: Option<Binary64>, b: Option<Binary64>) -> Option<Binary64> {
    if a is Some {
        a
    } else {
        b
    }
}

/// A filter in the exchange information of Binance.
#[derive(Debug)]
pub struct BinanceFilter {
    pub filter_type: String,
    pub tick_size: Option<String>,
    pub step_size: Option<String>,
    pub min_qty: Option<String>,
    pub notional: Option<String>,
    pub min_notional: Option<String>,
}

/// What a [`BinanceFilter`] holds.
#[verifier::ext_equal]
pub struct BinanceFilterModel {
    pub filter_type: Seq<char>,
    pub tick_size: Option<Seq<char>>,
    pub step_size: Option<Seq<char>>,
    pub min_qty: Option<Seq<char>>,
    pub notional: Option<Seq<char>>,
    pub min_notional: Option<Seq<char>>,
}

impl View for BinanceFilter {
    type V = BinanceFilterModel;

    open spec fn view(&self) -> BinanceFilterModel {
        BinanceFilterModel {
            filter_type: self.filter_type@,
            tick_size: self.tick_size.deep_view(),
            step_size: self.step_size.deep_view(),
            min_qty: self.min_qty.deep_view(),
            notional: self.notional.deep_view(),
            min_notional: self.min_notional.deep_view(),
        }
    }
}

impl DeepView for BinanceFilter {
    type V = BinanceFilterModel;

    open spec fn deep_view(&self) -> BinanceFilterModel {
        self@
    }
}

/// A symbol in the exchange information of Binance.
#[derive(Debug)]
pub struct BinanceSymbol {
    pub symbol: String,
    pub price_precision: Option<u32>,
    pub quantity_precision: Option<u32>,
    pub filters: Vec<BinanceFilter>,
}

/// What a [`BinanceSymbol`] holds.
#[verifier::ext_equal]
pub struct BinanceSymbolModel {
    pub symbol: Seq<char>,
    pub price_precision: Option<u32>,
    pub quantity_precision: Option<u32>,
    pub filters: Seq<BinanceFilterModel>,
}

impl View for BinanceSymbol {
    type V = BinanceSymbolModel;

    open spec fn view(&self) -> BinanceSymbolModel {
        BinanceSymbolModel {
            symbol: self.symbol@,
            price_precision: self.price_precision,
            quantity_precision: self.quantity_precision,
            filters: self.filters.deep_view(),
        }
    }
}

impl DeepView for BinanceSymbol {
    type V = BinanceSymbolModel;

    open spec fn deep_view(&self) -> BinanceSymbolModel {
        self@
    }
}

/// What the filters of a symbol say.
#[derive(Clone, Copy, Debug, PartialEq, Eq, Structural)]
pub struct FilterValues {
    pub price_tick: Option<Binary64>,
    pub qty_step: Option<Binary64>,
    pub min_qty: Option<Binary64>,
    pub min_notional: Option<Binary64>,
}

impl FilterValues {
    /// What one more filter adds: a price filter decides the tick, the first lot size that says so
    /// the step and the least quantity, the first notional filter that says so the least notional.
    pub open spec fn with(
        self,
        rd: spec_fn(Seq<char>) -> Option<Binary64>,
        filter: BinanceFilterModel,
    ) -> FilterValues {
        if filter.filter_type == "PRICE_FILTER"@ {
            FilterValues { price_tick: decimal_of(rd, filter.tick_size), ..self }
        } else if filter.filter_type == "LOT_SIZE"@ || filter.filter_type == "MARKET_LOT_SIZE"@ {
            FilterValues {
                qty_step: first_of(self.qty_step, decimal_of(rd, filter.step_size)),
                min_qty: first_of(self.min_qty, decimal_of(rd, filter.min_qty)),
                ..self
            }
        } else if filter.filter_type == "MIN_NOTIONAL"@ || filter.filter_type == "NOTIONAL"@ {
            FilterValues {
                min_notional: first_of(
                    first_of(self.min_notional, decimal_of(rd, filter.notional)),
                    decimal_of(rd, filter.min_notional),
                ),
                ..self
            }
        } else {
            self
        }
    }
}

/// What filters say.
pub open spec fn filter_values(
    rd: spec_fn(Seq<char>) -> Option<Binary64>,
    filters: Seq<BinanceFilterModel>,
) -> FilterValues
    decreases filters.len(),
{
    if filters.len() == 0 {
        FilterValues { price_tick: None, qty_step: None, min_qty: None, min_notional: None }
    } else {
        filter_values(rd, filters.drop_last()).with(rd, filters.last())
    }
}

/// The rule of a symbol of Binance.
pub open spec fn binance_rule_of(
    rd: spec_fn(Seq<char>) -> Option<Binary64>,
    symbol: BinanceSymbolModel,
    updated_at_ms: u64,
) -> MarketRuleModel {
    let values = filter_values(rd, symbol.filters);
    MarketRuleModel {
        market: MarketKeyModel { exchange: Exchange::BinanceUsdM, symbol: symbol.symbol },
        min_qty: values.min_qty,
        min_notional: values.min_notional,
        price_tick: values.price_tick,
        qty_step: values.qty_step,
        price_precision: symbol.price_precision,
        qty_precision: symbol.quantity_precision,
        contract_multiplier: Some(one()),
        updated_at_ms,
    }
}

/// Reads a value unless there is one already.
fn keep_or_parse<P: Fn(&str) -> Option<Binary64>>(
    value: Option<Binary64>,
    text: &Option<String>,
    parse: &P,
) -> (r: Option<Binary64>)
    requires
        parses_all(*parse),
    ensures
        forall|rd: spec_fn(Seq<char>) -> Option<Binary64>| #[trigger]
            reads(*parse, rd) ==> r == first_of(value, decimal_of(rd, text.deep_view())),
{
    if value.is_some() {
        value
    } else {
        parse_decimal(text, parse)
    }
}

pub fn binance_rule<P: Fn(&str) -> Option<Binary64>>(
    symbol: &BinanceSymbol,
    updated_at_ms: u64,
    parse: &P,
) -> (r: MarketRule)
    requires
        parses_all(*parse),
    ensures
        forall|rd: spec_fn(Seq<char>) -> Option<Binary64>| #[trigger]
            reads(*parse, rd) ==> r@ == binance_rule_of(rd, symbol@, updated_at_ms),
{
    let mut values = FilterValues {
        price_tick: None,
        qty_step: None,
        min_qty: None,
        min_notional: None,
    };
    let ghost all = symbol.filters.deep_view();
    let mut i: usize = 0;
    while i < symbol.filters.len()
        invariant
            parses_all(*parse),
            i <= symbol.filters.len(),
            all == symbol.filters.deep_view(),
            forall|rd: spec_fn(Seq<char>) -> Option<Binary64>| #[trigger]
                reads(*parse, rd) ==> values == filter_values(rd, all.take(i as int)),
        decreases symbol.filters.len() - i,
    {
        let filter = &symbol.filters[i];
        let name = filter.filter_type.as_str();
        assert(filter@ == all[i as int]);
        assert(all.take(i + 1).drop_last() =~= all.take(i as int));
        if same_text(name, "PRICE_FILTER") {
            values.price_tick = parse_decimal(&filter.tick_size, parse);
        } else if same_text(name, "LOT_SIZE") || same_text(name, "MARKET_LOT_SIZE") {
            values.qty_step = keep_or_parse(values.qty_step, &filter.step_size, parse);
            values.min_qty = keep_or_parse(values.min_qty, &filter.min_qty, parse);
        } else if same_text(name, "MIN_NOTIONAL") || same_text(name, "NOTIONAL") {
            values.min_notional = keep_or_parse(values.min_notional, &filter.notional, parse);
            values.min_notional = keep_or_parse(values.min_notional, &filter.min_notional, parse);
        }
        i += 1;
    }
    assert(all.take(all.len() as int) =~= all);
    MarketRule {
        market: MarketKey::new(Exchange::BinanceUsdM, symbol.symbol.clone()),
        min_qty: values.min_qty,
        min_notional: values.min_notional,
        price_tick: values.price_tick,
        qty_step: values.qty_step,
        price_precision: symbol.price_precision,
        qty_precision: symbol.quantity_precision,
        contract_multiplier: Some(one()),
        updated_at_ms,
    }
}

/// The rules of those symbols of Binance that are wanted.
pub open spec fn binance_rules_of(
    rd: spec_fn(Seq<char>) -> Option<Binary64>,
    symbols: Seq<BinanceSymbolModel>,
    wanted: Seq<Seq<char>>,
    updated_at_ms: u64,
) -> Seq<MarketRuleModel>
    decreases symbols.len(),
{
    if symbols.len() == 0 {
        Seq::empty()
    } else if wanted.contains(symbols.last().symbol) {
        binance_rules_of(rd, symbols.drop_last(), wanted, updated_at_ms).push(
            binance_rule_of(rd, symbols.last(), updated_at_ms),
        )
    } else {
        binance_rules_of(rd, symbols.drop_last(), wanted, updated_at_ms)
    }
}

pub fn binance_rules<P: Fn(&str) -> Option<Binary64>>(
    symbols: &Vec<BinanceSymbol>,
    wanted: &Vec<String>,
    updated_at_ms: u64,
    parse: &P,
) -> (r: Vec<MarketRule>)
    requires
        parses_all(*parse),
    ensures
        forall|rd: spec_fn(Seq<char>) -> Option<Binary64>| #[trigger]
            reads(*parse, rd) ==> r.deep_view() == binance_rules_of(
                rd,
                symbols.deep_view(),
                wanted.deep_view(),
                updated_at_ms,
            ),
{
    let ghost all = symbols.deep_view();
    let mut out: Vec<MarketRule> = Vec::new();
    let mut i: usize = 0;
    assert(out.deep_view() =~= Seq::empty());
    while i < symbols.len()
        invariant
            parses_all(*parse),
            i <= symbols.len(),
            all == symbols.deep_view(),
            forall|rd: spec_fn(Seq<char>) -> Option<Binary64>| #[trigger]
                reads(*parse, rd) ==> out.deep_view() == binance_rules_of(
                    rd,
                    all.take(i as int),
                    wanted.deep_view(),
                    updated_at_ms,
                ),
        decreases symbols.len() - i,
    {
        let ghost before = out.deep_view();
        assert(all.take(i + 1).drop_last() =~= all.take(i as int));
        assert(all.take(i + 1).last() == symbols[i as int]@);
        if has_symbol(wanted, &symbols[i].symbol) {
            let rule = binance_rule(&symbols[i], updated_at_ms, parse);
            let ghost rv = rule@;
            out.push(rule);
            assert(out.deep_view() =~= before.push(rv));
        }
        i += 1;
    }
    assert(all.take(all.len() as int) =~= all);
    out
}

/// The price filter of an instrument of Bybit.
#[derive(Debug)]
pub struct BybitPriceFilter {
    pub tick_size: Option<String>,
}

/// What a [`BybitPriceFilter`] holds.
#[verifier::ext_equal]
pub struct BybitPriceFilterModel {
    pub tick_size: Option<Seq<char>>,
}

impl View for BybitPriceFilter {
    type V = BybitPriceFilterModel;

    open spec fn view(&self) -> BybitPriceFilterModel {
        BybitPriceFilterModel {
            tick_size: self.tick_size.deep_view(),
        }
    }
}

impl DeepView for BybitPriceFilter {
    type V = BybitPriceFilterModel;

    open spec fn deep_view(&self) -> BybitPriceFilterModel {
        self@
    }
}

/// The lot size filter of an instrument of Bybit.
#[derive(Debug)]
pub struct BybitLotSizeFilter {
    pub min_order_qty: Option<String>,
    pub min_notional_value: Option<String>,
    pub qty_step: Option<String>,
}

/// What a [`BybitLotSizeFilter`] holds.
#[verifier::ext_equal]
pub struct BybitLotSizeFilterModel {
    pub min_order_qty: Option<Seq<char>>,
    pub min_notional_value: Option<Seq<char>>,
    pub qty_step: Option<Seq<char>>,
}

impl View for BybitLotSizeFilter {
    type V = BybitLotSizeFilterModel;

    open spec fn view(&self) -> BybitLotSizeFilterModel {
        BybitLotSizeFilterModel {
            min_order_qty: self.min_order_qty.deep_view(),
            min_notional_value: self.min_notional_value.deep_view(),
            qty_step: self.qty_step.deep_view(),
        }
    }
}

impl DeepView for BybitLotSizeFilter {
    type V = BybitLotSizeFilterModel;

    open spec fn deep_view(&self) -> BybitLotSizeFilterModel {
        self@
    }
}

/// An instrument of Bybit.
#[derive(Debug)]
pub struct BybitInstrument {
    pub symbol: String,
    pub price_scale: Option<String>,
    pub price_filter: BybitPriceFilter,
    pub lot_size_filter: BybitLotSizeFilter,
    pub contract_size: Option<String>,
}

/// What a [`BybitInstrument`] holds.
#[verifier::ext_equal]
pub struct BybitInstrumentModel {
    pub symbol: Seq<char>,
    pub price_scale: Option<Seq<char>>,
    pub price_filter: BybitPriceFilterModel,
    pub lot_size_filter: BybitLotSizeFilterModel,
    pub contract_size: Option<Seq<char>>,
}

impl View for BybitInstrument {
    type V = BybitInstrumentModel;

    open spec fn view(&self) -> BybitInstrumentModel {
        BybitInstrumentModel {
            symbol: self.symbol@,
            price_scale: self.price_scale.deep_view(),
            price_filter: self.price_filter@,
            lot_size_filter: self.lot_size_filter@,
            contract_size: self.contract_size.deep_view(),
        }
    }
}

impl DeepView for BybitInstrument {
    type V = BybitInstrumentModel;

    open spec fn deep_view(&self) -> BybitInstrumentModel {
        self@
    }
}

/// A page of instruments of Bybit.
#[derive(Debug)]
pub struct BybitInstrumentPage {
    pub ret_code: i64,
    pub ret_msg: String,
    pub list: Vec<BybitInstrument>,
    pub next_page_cursor: Option<String>,
}

/// What a [`BybitInstrumentPage`] holds.
#[verifier::ext_equal]
pub struct BybitInstrumentPageModel {
    pub ret_code: i64,
    pub ret_msg: Seq<char>,
    pub list: Seq<BybitInstrumentModel>,
    pub next_page_cursor: Option<Seq<char>>,
}

impl View for BybitInstrumentPage {
    type V = BybitInstrumentPageModel;

    open spec fn view(&self) -> BybitInstrumentPageModel {
        BybitInstrumentPageModel {
            ret_code: self.ret_code,
            ret_msg: self.ret_msg@,
            list: self.list.deep_view(),
            next_page_cursor: self.next_page_cursor.deep_view(),
        }
    }
}

impl DeepView for BybitInstrumentPage {
    type V = BybitInstrumentPageModel;

    open spec fn deep_view(&self) -> BybitInstrumentPageModel {
        self@
    }
}

/// `s` without the zeros at its end.
pub open spec fn without_end_zeros(s: Seq<char>) -> Seq<char>
    decreases s.len(),
{
    if s.len() > 0 && s.last() == '0' {
        without_end_zeros(s.drop_last())
    } else {
        s
    }
}

/// What stands behind the first point, if there is one.
pub open spec fn behind_point(s: Seq<char>) -> Option<Seq<char>>
    decreases s.len(),
{
    if s.len() == 0 {
        None
    } else if s[0] == '.' {
        Some(s.drop_first())
    } else {
        behind_point(s.drop_first())
    }
}

/// How many decimals a step has, zeros at the end left out; nothing for a step without a point.
pub open spec fn precision_of_step(step: Seq<char>) -> Option<u32> {
    match behind_point(without_end_zeros(trimmed(step))) {
        Some(decimals) => Some(encode_utf8(decimals).len() as u32),
        None => None,
    }
}

proof fn lemma_end_zeros(s: Seq<char>, n: int)
    requires
        0 <= n <= s.len(),
        forall|i: int| n <= i < s.len() ==> #[trigger] s[i] == '0',
        n > 0 ==> s[n - 1] != '0',
    ensures
        without_end_zeros(s) == s.take(n),
    decreases s.len(),
{
    if n == s.len() {
        assert(s.take(n) =~= s);
    } else {
        assert(s[s.len() - 1] == '0');
        lemma_end_zeros(s.drop_last(), n);
        assert(s.drop_last().take(n) =~= s.take(n));
    }
}

pub fn decimal_precision_from_step(value: &str) -> (r: Option<u32>)
    ensures
        r == precision_of_step(value@),
{
    let text = trim(value);
    let chars = chars_of(text.as_str());
    let mut n: usize = chars.len();
    while n > 0 && chars[n - 1] == '0'
        invariant
            n <= chars.len(),
            forall|i: int| n <= i < chars@.len() ==> #[trigger] chars@[i] == '0',
        decreases n,
    {
        n -= 1;
    }
    let ghost normalized = chars@.take(n as int);
    proof {
        lemma_end_zeros(chars@, n as int);
    }
    let mut i: usize = 0;
    assert(normalized.skip(0) =~= normalized);
    while i < n
        invariant
            i <= n <= chars.len(),
            normalized == chars@.take(n as int),
            normalized == without_end_zeros(trimmed(value@)),
            behind_point(normalized) == behind_point(normalized.skip(i as int)),
        decreases n - i,
    {
        assert(normalized.skip(i as int).drop_first() =~= normalized.skip(i + 1));
        assert(normalized[i as int] == chars@[i as int]);
        if chars[i] == '.' {
            let decimals = text_of(&chars, i + 1, n);
            assert(decimals@ =~= normalized.skip(i + 1));
            let length: usize = decimals.as_str().as_bytes().len();
            return Some(length as u32);
        }
        i += 1;
    }
    None
}

/// The rule of an instrument of Bybit.
pub open spec fn bybit_rule_of(
    rd: spec_fn(Seq<char>) -> Option<Binary64>,
    instrument: BybitInstrumentModel,
    updated_at_ms: u64,
) -> MarketRuleModel {
    MarketRuleModel {
        market: MarketKeyModel { exchange: Exchange::BybitLinear, symbol: instrument.symbol },
        min_qty: decimal_of(rd, instrument.lot_size_filter.min_order_qty),
        min_notional: decimal_of(rd, instrument.lot_size_filter.min_notional_value),
        price_tick: decimal_of(rd, instrument.price_filter.tick_size),
        qty_step: decimal_of(rd, instrument.lot_size_filter.qty_step),
        price_precision: match instrument.price_scale {
            Some(text) => read_u32(text),
            None => None,
        },
        qty_precision: match instrument.lot_size_filter.qty_step {
            Some(text) => precision_of_step(text),
            None => None,
        },
        contract_multiplier: first_of(decimal_of(rd, instrument.contract_size), Some(one())),
        updated_at_ms,
    }
}

pub fn bybit_rule<P: Fn(&str) -> Option<Binary64>>(
    instrument: &BybitInstrument,
    updated_at_ms: u64,
    parse: &P,
) -> (r: MarketRule)
    requires
        parses_all(*parse),
    ensures
        forall|rd: spec_fn(Seq<char>) -> Option<Binary64>| #[trigger]
            reads(*parse, rd) ==> r@ == bybit_rule_of(rd, instrument@, updated_at_ms),
{
    let lots = &instrument.lot_size_filter;
    let multiplier = parse_decimal(&instrument.contract_size, parse);
    MarketRule {
        market: MarketKey::new(Exchange::BybitLinear, instrument.symbol.clone()),
        min_qty: parse_decimal(&lots.min_order_qty, parse),
        min_notional: parse_decimal(&lots.min_notional_value, parse),
        price_tick: parse_decimal(&instrument.price_filter.tick_size, parse),
        qty_step: parse_decimal(&lots.qty_step, parse),
        price_precision: match &instrument.price_scale {
            Some(text) => parse_u32(text.as_str()),
            None => None,
        },
        qty_precision: match &lots.qty_step {
            Some(text) => decimal_precision_from_step(text.as_str()),
            None => None,
        },
        contract_multiplier: if multiplier.is_some() {
            multiplier
        } else {
            Some(one())
        },
        updated_at_ms,
    }
}

/// The rules of those instruments of Bybit that are wanted.
pub open spec fn bybit_rules_of(
    rd: spec_fn(Seq<char>) -> Option<Binary64>,
    instruments: Seq<BybitInstrumentModel>,
    wanted: Seq<Seq<char>>,
    updated_at_ms: u64,
) -> Seq<MarketRuleModel>
    decreases instruments.len(),
{
    if instruments.len() == 0 {
        Seq::empty()
    } else if wanted.contains(instruments.last().symbol) {
        bybit_rules_of(rd, instruments.drop_last(), wanted, updated_at_ms).push(
            bybit_rule_of(rd, instruments.last(), updated_at_ms),
        )
    } else {
        bybit_rules_of(rd, instruments.drop_last(), wanted, updated_at_ms)
    }
}

/// What a [`BybitPages`] holds.
#[verifier::ext_equal]
pub struct BybitPagesModel {
    /// Where the next page begins, if there is one.
    pub cursor: Option<Seq<char>>,
    pub instruments: Seq<BybitInstrumentModel>,
}

/// The pages of instruments that have come so far.
#[derive(Debug)]
pub struct BybitPages {
    pub cursor: Option<String>,
    pub instruments: Vec<BybitInstrument>,
}

impl View for BybitPages {
    type V = BybitPagesModel;

    open spec fn view(&self) -> BybitPagesModel {
        BybitPagesModel {
            cursor: self.cursor.deep_view(),
            instruments: self.instruments.deep_view(),
        }
    }
}

/// Why a page is refused, if it is.
pub open spec fn page_refusal(page: BybitInstrumentPageModel) -> Option<Seq<char>> {
    if page.ret_code != 0 {
        Some("ret_code="@ + signed_numeral(page.ret_code as int) + " ret_msg="@ + page.ret_msg)
    } else {
        None
    }
}

impl BybitPagesModel {
    /// The pages with one more. An empty cursor is none.
    pub open spec fn with(self, page: BybitInstrumentPageModel) -> BybitPagesModel {
        BybitPagesModel {
            cursor: match page.next_page_cursor {
                Some(cursor) => if cursor.len() == 0 {
                    None
                } else {
                    Some(cursor)
                },
                None => None,
            },
            instruments: self.instruments + page.list,
        }
    }
}

impl BybitPages {
    pub fn new() -> (r: Self)
        ensures
            r@.cursor is None,
            r@.instruments.len() == 0,
    {
        BybitPages { cursor: None, instruments: Vec::new() }
    }

    /// Takes a page and says whether another one is to be fetched.
    pub fn accept(&mut self, page: BybitInstrumentPage) -> (r: Result<bool, String>)
        ensures
            match page_refusal(page@) {
                Some(why) => r is Err && r->Err_0@ == why && final(self)@ == old(self)@,
                None => final(self)@ == old(self)@.with(page@) && r == Ok::<bool, String>(
                    final(self)@.cursor is Some,
                ),
            },
    {
        if page.ret_code != 0 {
            let mut why = "ret_code=".to_owned();
            why.append(decimal_signed(page.ret_code).as_str());
            why.append(" ret_msg=");
            why.append(page.ret_msg.as_str());
            return Err(why);
        }
        let ghost before = self.instruments.deep_view();
        let ghost added = page.list.deep_view();
        let mut list = page.list;
        self.instruments.append(&mut list);
        assert(self.instruments.deep_view() =~= before + added);
        self.cursor = match page.next_page_cursor {
            Some(cursor) => if cursor.as_str().is_empty() {
                None
            } else {
                Some(cursor)
            },
            None => None,
        };
        Ok(self.cursor.is_some())
    }

    /// The rules of the wanted instruments of all pages.
    pub fn rules<P: Fn(&str) -> Option<Binary64>>(
        &self,
        wanted: &Vec<String>,
        updated_at_ms: u64,
        parse: &P,
    ) -> (r: Vec<MarketRule>)
        requires
            parses_all(*parse),
        ensures
            forall|rd: spec_fn(Seq<char>) -> Option<Binary64>| #[trigger]
                reads(*parse, rd) ==> r.deep_view() == bybit_rules_of(
                    rd,
                    self@.instruments,
                    wanted.deep_view(),
                    updated_at_ms,
                ),
    {
        let ghost all = self.instruments.deep_view();
        let mut out: Vec<MarketRule> = Vec::new();
        let mut i: usize = 0;
        assert(out.deep_view() =~= Seq::empty());
        while i < self.instruments.len()
            invariant
                parses_all(*parse),
                i <= self.instruments.len(),
                all == self.instruments.deep_view(),
                forall|rd: spec_fn(Seq<char>) -> Option<Binary64>| #[trigger]
                    reads(*parse, rd) ==> out.deep_view() == bybit_rules_of(
                        rd,
                        all.take(i as int),
                        wanted.deep_view(),
                        updated_at_ms,
                    ),
            decreases self.instruments.len() - i,
        {
            let ghost before = out.deep_view();
            assert(all.take(i + 1).drop_last() =~= all.take(i as int));
            assert(all.take(i + 1).last() == self.instruments[i as int]@);
            if has_symbol(wanted, &self.instruments[i].symbol) {
                let rule = bybit_rule(&self.instruments[i], updated_at_ms, parse);
                let ghost rv = rule@;
                out.push(rule);
                assert(out.deep_view() =~= before.push(rv));
            }
            i += 1;
        }
        assert(all.take(all.len() as int) =~= all);
        out
    }
}

proof fn lemma_added_key(
    table: Map<MarketKeyModel, MarketRuleModel>,
    rules: Seq<MarketRuleModel>,
    market: MarketKeyModel,
)
    requires
        forall|i: int| 0 <= i < rules.len() ==> (#[trigger] rules[i]).market != market,
    ensures
        rules_added(table, rules).contains_key(market) <==> table.contains_key(market),
        table.contains_key(market) ==> rules_added(table, rules)[market] == table[market],
    decreases rules.len(),
{
    if rules.len() > 0 {
        let front = rules.drop_last();
        assert forall|i: int| 0 <= i < front.len() implies (#[trigger] front[i]).market
            != market by {
            assert(front[i] == rules[i]);
        }
        lemma_added_key(table, front, market);
        assert(rules[rules.len() - 1] == rules.last());
    }
}

/// A refresh keeps rules of watched markets only.
pub proof fn only_watched_markets_have_rules(
    table: Map<MarketKeyModel, MarketRuleModel>,
    fetched: Seq<MarketRuleModel>,
    watched: Seq<MarketKeyModel>,
    market: MarketKeyModel,
)
    requires
        refreshed(table, fetched, watched).contains_key(market),
    ensures
        watched.contains(market),
{
}

/// A watched market for which a refresh brought nothing keeps its rule.
pub proof fn unfetched_rules_stay(
    table: Map<MarketKeyModel, MarketRuleModel>,
    fetched: Seq<MarketRuleModel>,
    watched: Seq<MarketKeyModel>,
    market: MarketKeyModel,
)
    requires
        watched.contains(market),
        forall|i: int| 0 <= i < fetched.len() ==> (#[trigger] fetched[i]).market != market,
    ensures
        refreshed(table, fetched, watched).contains_key(market) <==> table.contains_key(market),
        table.contains_key(market) ==> refreshed(table, fetched, watched)[market] == table[market],
{
    lemma_added_key(table, fetched, market);
}

/// A watched market for which a refresh brought rules has the last one of them.
pub proof fn fetched_rules_win(
    table: Map<MarketKeyModel, MarketRuleModel>,
    fetched: Seq<MarketRuleModel>,
    watched: Seq<MarketKeyModel>,
    i: int,
)
    requires
        0 <= i < fetched.len(),
        watched.contains(fetched[i].market),
        forall|j: int|
            i < j < fetched.len() ==> (#[trigger] fetched[j]).market != fetched[i].market,
    ensures
        refreshed(table, fetched, watched).contains_key(fetched[i].market),
        refreshed(table, fetched, watched)[fetched[i].market] == fetched[i],
    decreases fetched.len(),
{
    let front = fetched.drop_last();
    if i < front.len() {
        assert forall|j: int| i < j < front.len() implies (#[trigger] front[j]).market
            != front[i].market by {
            assert(front[j] == fetched[j]);
        }
        fetched_rules_win(table, front, watched, i);
        assert(fetched[fetched.len() - 1].market != fetched[i].market);
    }
}

} // verus!
