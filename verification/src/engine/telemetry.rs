//! What strategies report at run time, and the state behind it.
//!
//! Shards report metrics and planned orders of a generation, the generation of the plan they run.
//! The state keeps one view for each loaded strategy and the latest planned orders, and decides when
//! a new snapshot of both is due.

use std::collections::VecDeque;

use vstd::prelude::*;

use crate::config::ids::{ShardId, StrategyId};
use crate::config::model::{now_ms, MarketKey, MarketKeyModel};
use crate::num::{zero, Binary64};
use crate::text::{text_less, text_lt, text_order, text_order_transitive};

verus! {

/// How many planned orders are remembered.
pub const MATCH_EVENT_LIMIT: usize = 200;

/// A strategy at run time.
#[derive(Debug)]
pub struct StrategyRuntimeView {
    pub strategy_id: StrategyId,
    pub name: String,
    pub enabled: bool,
    pub long_market: MarketKey,
    pub short_market: MarketKey,
    pub open_spread_pct: Option<Binary64>,
    pub close_spread_pct: Option<Binary64>,
    pub current_pair_notional: Binary64,
    pub pending_open_notional: Binary64,
    pub pending_close_notional: Binary64,
    pub active_order_count: u32,
    pub last_updated_ms: u64,
}

/// What a [`StrategyRuntimeView`] holds.
#[verifier::ext_equal]
pub struct StrategyRuntimeViewModel {
    pub strategy_id: Seq<char>,
    pub name: Seq<char>,
    pub enabled: bool,
    pub long_market: MarketKeyModel,
    pub short_market: MarketKeyModel,
    pub open_spread_pct: Option<Binary64>,
    pub close_spread_pct: Option<Binary64>,
    pub current_pair_notional: Binary64,
    pub pending_open_notional: Binary64,
    pub pending_close_notional: Binary64,
    pub active_order_count: u32,
    pub last_updated_ms: u64,
}

impl View for StrategyRuntimeView {
    type V = StrategyRuntimeViewModel;

    open spec fn view(&self) -> StrategyRuntimeViewModel {
        StrategyRuntimeViewModel {
            strategy_id: self.strategy_id@,
            name: self.name@,
            enabled: self.enabled,
            long_market: self.long_market@,
            short_market: self.short_market@,
            open_spread_pct: self.open_spread_pct,
            close_spread_pct: self.close_spread_pct,
            current_pair_notional: self.current_pair_notional,
            pending_open_notional: self.pending_open_notional,
            pending_close_notional: self.pending_close_notional,
            active_order_count: self.active_order_count,
            last_updated_ms: self.last_updated_ms,
        }
    }
}

impl DeepView for StrategyRuntimeView {
    type V = StrategyRuntimeViewModel;

    open spec fn deep_view(&self) -> StrategyRuntimeViewModel {
        self@
    }
}

impl Clone for StrategyRuntimeView {
    fn clone(&self) -> (r: Self)
        ensures
            r == *self,
    {
        StrategyRuntimeView {
            strategy_id: self.strategy_id.clone(),
            name: self.name.clone(),
            enabled: self.enabled,
            long_market: self.long_market.clone(),
            short_market: self.short_market.clone(),
            open_spread_pct: self.open_spread_pct,
            close_spread_pct: self.close_spread_pct,
            current_pair_notional: self.current_pair_notional,
            pending_open_notional: self.pending_open_notional,
            pending_close_notional: self.pending_close_notional,
            active_order_count: self.active_order_count,
            last_updated_ms: self.last_updated_ms,
        }
    }
}

/// A strategy that has been loaded.
#[derive(Debug)]
pub struct StrategyRuntimeDescriptor {
    pub strategy_id: StrategyId,
    pub name: String,
    pub enabled: bool,
    pub long_market: MarketKey,
    pub short_market: MarketKey,
}

/// What a [`StrategyRuntimeDescriptor`] holds.
#[verifier::ext_equal]
pub struct StrategyRuntimeDescriptorModel {
    pub strategy_id: Seq<char>,
    pub name: Seq<char>,
    pub enabled: bool,
    pub long_market: MarketKeyModel,
    pub short_market: MarketKeyModel,
}

impl View for StrategyRuntimeDescriptor {
    type V = StrategyRuntimeDescriptorModel;

    open spec fn view(&self) -> StrategyRuntimeDescriptorModel {
        StrategyRuntimeDescriptorModel {
            strategy_id: self.strategy_id@,
            name: self.name@,
            enabled: self.enabled,
            long_market: self.long_market@,
            short_market: self.short_market@,
        }
    }
}

impl DeepView for StrategyRuntimeDescriptor {
    type V = StrategyRuntimeDescriptorModel;

    open spec fn deep_view(&self) -> StrategyRuntimeDescriptorModel {
        self@
    }
}

impl Clone for StrategyRuntimeDescriptor {
    fn clone(&self) -> (r: Self)
        ensures
            r == *self,
    {
        StrategyRuntimeDescriptor {
            strategy_id: self.strategy_id.clone(),
            name: self.name.clone(),
            enabled: self.enabled,
            long_market: self.long_market.clone(),
            short_market: self.short_market.clone(),
        }
    }
}

/// What a planned order is about.
#[derive(Clone, Copy, Debug, PartialEq, Eq, Structural)]
pub enum StrategyMatchEventKind {
    SpreadUpdated,
    OpenPlanned,
    ClosePlanned,
}

/// A planned order.
#[derive(Debug)]
pub struct StrategyMatchEvent {
    pub ts_ms: u64,
    pub shard_id: ShardId,
    pub strategy_id: StrategyId,
    pub kind: StrategyMatchEventKind,
    pub open_spread_pct: Option<Binary64>,
    pub close_spread_pct: Option<Binary64>,
    pub notional_usd: Option<Binary64>,
    pub message: String,
}

/// What a [`StrategyMatchEvent`] holds.
#[verifier::ext_equal]
pub struct StrategyMatchEventModel {
    pub ts_ms: u64,
    pub shard_id: Seq<char>,
    pub strategy_id: Seq<char>,
    pub kind: StrategyMatchEventKind,
    pub open_spread_pct: Option<Binary64>,
    pub close_spread_pct: Option<Binary64>,
    pub notional_usd: Option<Binary64>,
    pub message: Seq<char>,
}

impl View for StrategyMatchEvent {
    type V = StrategyMatchEventModel;

    open spec fn view(&self) -> StrategyMatchEventModel {
        StrategyMatchEventModel {
            ts_ms: self.ts_ms,
            shard_id: self.shard_id@,
            strategy_id: self.strategy_id@,
            kind: self.kind,
            open_spread_pct: self.open_spread_pct,
            close_spread_pct: self.close_spread_pct,
            notional_usd: self.notional_usd,
            message: self.message@,
        }
    }
}

impl DeepView for StrategyMatchEvent {
    type V = StrategyMatchEventModel;

    open spec fn deep_view(&self) -> StrategyMatchEventModel {
        self@
    }
}

impl Clone for StrategyMatchEvent {
    fn clone(&self) -> (r: Self)
        ensures
            r == *self,
    {
        StrategyMatchEvent {
            ts_ms: self.ts_ms,
            shard_id: self.shard_id.clone(),
            strategy_id: self.strategy_id.clone(),
            kind: self.kind,
            open_spread_pct: self.open_spread_pct,
            close_spread_pct: self.close_spread_pct,
            notional_usd: self.notional_usd,
            message: self.message.clone(),
        }
    }
}

/// What a strategy measures of itself.
#[derive(Clone, Copy, Debug, PartialEq, Eq, Structural)]
pub struct StrategyRuntimeMetrics {
    pub open_spread_pct: Option<Binary64>,
    pub close_spread_pct: Option<Binary64>,
    pub current_pair_notional: Binary64,
    pub pending_open_notional: Binary64,
    pub pending_close_notional: Binary64,
    pub active_order_count: u32,
}

/// What is published of the run time.
#[derive(Debug)]
pub struct StrategyRuntimeSnapshot {
    pub generated_at_ms: u64,
    pub strategies: Vec<StrategyRuntimeView>,
    pub match_events: Vec<StrategyMatchEvent>,
}

/// What a [`StrategyRuntimeSnapshot`] holds.
#[verifier::ext_equal]
pub struct StrategyRuntimeSnapshotModel {
    pub generated_at_ms: u64,
    pub strategies: Seq<StrategyRuntimeViewModel>,
    pub match_events: Seq<StrategyMatchEventModel>,
}

impl View for StrategyRuntimeSnapshot {
    type V = StrategyRuntimeSnapshotModel;

    open spec fn view(&self) -> StrategyRuntimeSnapshotModel {
        StrategyRuntimeSnapshotModel {
            generated_at_ms: self.generated_at_ms,
            strategies: self.strategies.deep_view(),
            match_events: self.match_events.deep_view(),
        }
    }
}

impl DeepView for StrategyRuntimeSnapshot {
    type V = StrategyRuntimeSnapshotModel;

    open spec fn deep_view(&self) -> StrategyRuntimeSnapshotModel {
        self@
    }
}

impl Clone for StrategyRuntimeSnapshot {
    fn clone(&self) -> (r: Self)
        ensures
            r@ == self@,
    {
        let strategies = self.strategies.clone();
        let match_events = self.match_events.clone();
        assert(strategies.deep_view() =~= self.strategies.deep_view());
        assert(match_events.deep_view() =~= self.match_events.deep_view());
        StrategyRuntimeSnapshot {
            generated_at_ms: self.generated_at_ms,
            strategies,
            match_events,
        }
    }
}

/// A report to the telemetry state.
#[derive(Debug)]
pub enum StrategyTelemetryEvent {
    RuntimeLoaded { generation: u64, strategies: Vec<StrategyRuntimeDescriptor> },
    MetricsUpdated {
        generation: u64,
        shard_id: ShardId,
        strategy_id: StrategyId,
        metrics: StrategyRuntimeMetrics,
        ts_ms: u64,
    },
    OrderPlanned { generation: u64, event: StrategyMatchEvent },
    Shutdown,
}

/// What a [`StrategyTelemetryEvent`] holds.
#[verifier::ext_equal]
pub enum TelemetryEventModel {
    RuntimeLoaded { generation: u64, strategies: Seq<StrategyRuntimeDescriptorModel> },
    MetricsUpdated {
        generation: u64,
        shard_id: Seq<char>,
        strategy_id: Seq<char>,
        metrics: StrategyRuntimeMetrics,
        ts_ms: u64,
    },
    OrderPlanned { generation: u64, event: StrategyMatchEventModel },
    Shutdown,
}

impl View for StrategyTelemetryEvent {
    type V = TelemetryEventModel;

    open spec fn view(&self) -> TelemetryEventModel {
        match self {
            StrategyTelemetryEvent::RuntimeLoaded { generation, strategies } =>
                TelemetryEventModel::RuntimeLoaded {
                generation: *generation,
                strategies: strategies.deep_view(),
            },
            StrategyTelemetryEvent::MetricsUpdated {
                generation,
                shard_id,
                strategy_id,
                metrics,
                ts_ms,
            } => TelemetryEventModel::MetricsUpdated {
                generation: *generation,
                shard_id: shard_id@,
                strategy_id: strategy_id@,
                metrics: *metrics,
                ts_ms: *ts_ms,
            },
            StrategyTelemetryEvent::OrderPlanned { generation, event } =>
                TelemetryEventModel::OrderPlanned { generation: *generation, event: event@ },
            StrategyTelemetryEvent::Shutdown => TelemetryEventModel::Shutdown,
        }
    }
}

impl DeepView for StrategyTelemetryEvent {
    type V = TelemetryEventModel;

    open spec fn deep_view(&self) -> TelemetryEventModel {
        self@
    }
}

/// What reaches the telemetry state.
#[derive(Debug)]
pub enum TelemetryInput {
    /// A report.
    Event(StrategyTelemetryEvent),
    /// The queue of reports has closed.
    Closed,
    /// The time to publish has come.
    Tick,
}

/// What a [`TelemetryInput`] holds.
pub enum TelemetryInputModel {
    Event(TelemetryEventModel),
    Closed,
    Tick,
}

impl View for TelemetryInput {
    type V = TelemetryInputModel;

    open spec fn view(&self) -> TelemetryInputModel {
        match self {
            TelemetryInput::Event(event) => TelemetryInputModel::Event(event@),
            TelemetryInput::Closed => TelemetryInputModel::Closed,
            TelemetryInput::Tick => TelemetryInputModel::Tick,
        }
    }
}

/// What is to be done after an input.
#[derive(Clone, Copy, Debug, PartialEq, Eq, Structural)]
pub enum TelemetryStep {
    /// Wait for the next input.
    Wait,
    /// Publish a snapshot, then wait.
    Publish,
    /// Stop, after publishing a snapshot if `publish`.
    Stop { publish: bool },
}

/// The view of a strategy that has not reported yet.
pub open spec fn first_view(d: StrategyRuntimeDescriptorModel) -> StrategyRuntimeViewModel {
    StrategyRuntimeViewModel {
        strategy_id: d.strategy_id,
        name: d.name,
        enabled: d.enabled,
        long_market: d.long_market,
        short_market: d.short_market,
        open_spread_pct: None,
        close_spread_pct: None,
        current_pair_notional: zero(),
        pending_open_notional: zero(),
        pending_close_notional: zero(),
        active_order_count: 0,
        last_updated_ms: 0,
    }
}

/// A view after a report of metrics.
pub open spec fn measured(
    v: StrategyRuntimeViewModel,
    metrics: StrategyRuntimeMetrics,
    ts_ms: u64,
) -> StrategyRuntimeViewModel {
    StrategyRuntimeViewModel {
        open_spread_pct: metrics.open_spread_pct,
        close_spread_pct: metrics.close_spread_pct,
        current_pair_notional: metrics.current_pair_notional,
        pending_open_notional: metrics.pending_open_notional,
        pending_close_notional: metrics.pending_close_notional,
        active_order_count: metrics.active_order_count,
        last_updated_ms: ts_ms,
        ..v
    }
}

/// Views in ascending order of their ids, with `v` put in its place or in place of the view with its
/// id.
pub open spec fn view_inserted(
    views: Seq<StrategyRuntimeViewModel>,
    v: StrategyRuntimeViewModel,
) -> Seq<StrategyRuntimeViewModel>
    decreases views.len(),
{
    if views.len() == 0 || text_lt(views.last().strategy_id, v.strategy_id) {
        views.push(v)
    } else if views.last().strategy_id == v.strategy_id {
        views.drop_last().push(v)
    } else {
        view_inserted(views.drop_last(), v).push(views.last())
    }
}

/// The views of loaded strategies, by ascending id; of strategies with one id the last.
pub open spec fn views_of(strategies: Seq<StrategyRuntimeDescriptorModel>) -> Seq<
    StrategyRuntimeViewModel,
>
    decreases strategies.len(),
{
    if strategies.len() == 0 {
        Seq::empty()
    } else {
        view_inserted(views_of(strategies.drop_last()), first_view(strategies.last()))
    }
}

/// The views with the one of `strategy_id` measured anew.
pub open spec fn views_measured(
    views: Seq<StrategyRuntimeViewModel>,
    strategy_id: Seq<char>,
    metrics: StrategyRuntimeMetrics,
    ts_ms: u64,
) -> Seq<StrategyRuntimeViewModel> {
    views.map_values(
        |v: StrategyRuntimeViewModel|
            if v.strategy_id == strategy_id {
                measured(v, metrics, ts_ms)
            } else {
                v
            },
    )
}

/// Whether some view has the id.
pub open spec fn has_view(views: Seq<StrategyRuntimeViewModel>, strategy_id: Seq<char>) -> bool {
    exists|i: int| 0 <= i < views.len() && (#[trigger] views[i]).strategy_id == strategy_id
}

/// Whether views stand in strictly ascending order of their ids.
pub open spec fn views_ascend(views: Seq<StrategyRuntimeViewModel>) -> bool {
    forall|i: int, j: int|
        0 <= i < j < views.len() ==> text_lt(
            (#[trigger] views[i]).strategy_id,
            (#[trigger] views[j]).strategy_id,
        )
}

/// Events with one more; the oldest leaves where there are too many.
pub open spec fn event_pushed(
    events: Seq<StrategyMatchEventModel>,
    event: StrategyMatchEventModel,
) -> Seq<StrategyMatchEventModel> {
    if events.len() == MATCH_EVENT_LIMIT {
        events.drop_first().push(event)
    } else {
        events.push(event)
    }
}

/// What a [`TelemetryState`] holds.
#[verifier::ext_equal]
pub struct TelemetryModel {
    /// The generation whose reports count.
    pub generation: u64,
    pub views: Seq<StrategyRuntimeViewModel>,
    pub events: Seq<StrategyMatchEventModel>,
    /// Whether something has changed since the last snapshot.
    pub dirty: bool,
}

impl TelemetryModel {
    /// Whether the views are in order and the events not too many.
    pub open spec fn ok(self) -> bool {
        views_ascend(self.views) && self.events.len() <= MATCH_EVENT_LIMIT
    }

    /// The state after an input.
    pub open spec fn after(self, input: TelemetryInputModel) -> TelemetryModel {
        match input {
            TelemetryInputModel::Event(
                TelemetryEventModel::RuntimeLoaded { generation, strategies },
            ) => TelemetryModel {
                generation,
                views: views_of(strategies),
                events: Seq::empty(),
                dirty: false,
            },
            TelemetryInputModel::Event(
                TelemetryEventModel::MetricsUpdated { generation, strategy_id, metrics, ts_ms, .. },
            ) => if generation == self.generation && has_view(self.views, strategy_id) {
                TelemetryModel {
                    views: views_measured(self.views, strategy_id, metrics, ts_ms),
                    dirty: true,
                    ..self
                }
            } else {
                self
            },
            TelemetryInputModel::Event(
                TelemetryEventModel::OrderPlanned { generation, event },
            ) => if generation == self.generation {
                TelemetryModel { events: event_pushed(self.events, event), dirty: true, ..self }
            } else {
                self
            },
            TelemetryInputModel::Event(TelemetryEventModel::Shutdown) => self,
            TelemetryInputModel::Closed => self,
            TelemetryInputModel::Tick => TelemetryModel { dirty: false, ..self },
        }
    }

    /// What is to be done after an input.
    pub open spec fn reaction(self, input: TelemetryInputModel) -> TelemetryStep {
        match input {
            TelemetryInputModel::Event(TelemetryEventModel::RuntimeLoaded { .. }) =>
                TelemetryStep::Publish,
            TelemetryInputModel::Event(TelemetryEventModel::MetricsUpdated { .. }) =>
                TelemetryStep::Wait,
            TelemetryInputModel::Event(TelemetryEventModel::OrderPlanned { .. }) =>
                TelemetryStep::Wait,
            TelemetryInputModel::Event(TelemetryEventModel::Shutdown) => TelemetryStep::Stop {
                publish: self.dirty,
            },
            TelemetryInputModel::Closed => TelemetryStep::Stop { publish: false },
            TelemetryInputModel::Tick => if self.dirty {
                TelemetryStep::Publish
            } else {
                TelemetryStep::Wait
            },
        }
    }
}

/// The views of the loaded strategies and the latest planned orders.
#[derive(Debug)]
pub struct TelemetryState {
    generation: u64,
    views: Vec<StrategyRuntimeView>,
    events: VecDeque<StrategyMatchEvent>,
    dirty: bool,
}

impl View for TelemetryState {
    type V = TelemetryModel;

    closed spec fn view(&self) -> TelemetryModel {
        TelemetryModel {
            generation: self.generation,
            views: self.views.deep_view(),
            events: self.events.deep_view(),
            dirty: self.dirty,
        }
    }
}

proof fn lemma_view_inserted_ids(
    views: Seq<StrategyRuntimeViewModel>,
    v: StrategyRuntimeViewModel,
    id: Seq<char>,
)
    requires
        views_ascend(views),
    ensures
        has_view(view_inserted(views, v), id) <==> id == v.strategy_id || has_view(views, id),
        view_inserted(views, v).contains(v),
        forall|w: StrategyRuntimeViewModel|
            w.strategy_id != v.strategy_id && #[trigger] views.contains(w) ==> view_inserted(
                views,
                v,
            ).contains(w),
    decreases views.len(),
{
    let r = view_inserted(views, v);
    let front = views.drop_last();
    if views.len() == 0 || text_lt(views.last().strategy_id, v.strategy_id) {
        assert(r[views.len() as int] == v);
        if has_view(views, id) {
            let i = choose|i: int| 0 <= i < views.len() && (#[trigger] views[i]).strategy_id == id;
            assert(r[i] == views[i]);
        }
        if has_view(r, id) {
            let i = choose|i: int| 0 <= i < r.len() && (#[trigger] r[i]).strategy_id == id;
            if i < views.len() {
                assert(r[i] == views[i]);
            }
        }
        assert forall|w: StrategyRuntimeViewModel|
            w.strategy_id != v.strategy_id && #[trigger] views.contains(w) implies r.contains(w) by {
            let i = choose|i: int| 0 <= i < views.len() && views[i] == w;
            assert(r[i] == w);
        }
    } else {
        assert(views_ascend(front)) by {
            assert forall|i: int, j: int| 0 <= i < j < front.len() implies text_lt(
                (#[trigger] front[i]).strategy_id,
                (#[trigger] front[j]).strategy_id,
            ) by {
                assert(front[i] == views[i] && front[j] == views[j]);
            }
        }
        let last = views.last();
        assert(has_view(views, id) <==> has_view(front, id) || last.strategy_id == id) by {
            if has_view(views, id) {
                let i = choose|i: int|
                    0 <= i < views.len() && (#[trigger] views[i]).strategy_id == id;
                if i < front.len() {
                    assert(front[i] == views[i]);
                }
            }
            if has_view(front, id) {
                let i = choose|i: int|
                    0 <= i < front.len() && (#[trigger] front[i]).strategy_id == id;
                assert(front[i] == views[i]);
            }
            assert(views[views.len() - 1] == last);
        }
        if last.strategy_id == v.strategy_id {
            assert(r[front.len() as int] == v);
            if has_view(front, id) {
                let i = choose|i: int|
                    0 <= i < front.len() && (#[trigger] front[i]).strategy_id == id;
                assert(r[i] == front[i]);
            }
            if has_view(r, id) {
                let i = choose|i: int| 0 <= i < r.len() && (#[trigger] r[i]).strategy_id == id;
                if i < front.len() {
                    assert(r[i] == front[i]);
                }
            }
            assert forall|w: StrategyRuntimeViewModel|
                w.strategy_id != v.strategy_id && #[trigger] views.contains(w) implies r.contains(
                w,
            ) by {
                let i = choose|i: int| 0 <= i < views.len() && views[i] == w;
                assert(r[i] == w);
            }
        } else {
            lemma_view_inserted_ids(front, v, id);
            let head = view_inserted(front, v);
            assert(r[head.len() as int] == last);
            if has_view(head, id) {
                let i = choose|i: int|
                    0 <= i < head.len() && (#[trigger] head[i]).strategy_id == id;
                assert(r[i] == head[i]);
            }
            if has_view(r, id) {
                let i = choose|i: int| 0 <= i < r.len() && (#[trigger] r[i]).strategy_id == id;
                if i < head.len() {
                    assert(r[i] == head[i]);
                }
            }
            assert(r.contains(v)) by {
                let i = choose|i: int| 0 <= i < head.len() && head[i] == v;
                assert(r[i] == v);
            }
            assert forall|w: StrategyRuntimeViewModel|
                w.strategy_id != v.strategy_id && #[trigger] views.contains(w) implies r.contains(
                w,
            ) by {
                let i = choose|i: int| 0 <= i < views.len() && views[i] == w;
                if i < front.len() {
                    assert(front[i] == w);
                    assert(front.contains(w));
                    let k = choose|k: int| 0 <= k < head.len() && head[k] == w;
                    assert(r[k] == w);
                } else {
                    assert(r[head.len() as int] == w);
                }
            }
        }
    }
}

proof fn lemma_view_inserted_ascends(
    views: Seq<StrategyRuntimeViewModel>,
    v: StrategyRuntimeViewModel,
)
    requires
        views_ascend(views),
    ensures
        views_ascend(view_inserted(views, v)),
    decreases views.len(),
{
    let r = view_inserted(views, v);
    if views.len() > 0 {
        let front = views.drop_last();
        let last = views.last();
        assert forall|i: int, j: int| 0 <= i < j < front.len() implies text_lt(
            (#[trigger] front[i]).strategy_id,
            (#[trigger] front[j]).strategy_id,
        ) by {
            assert(front[i] == views[i] && front[j] == views[j]);
        }
        if text_lt(last.strategy_id, v.strategy_id) {
            assert forall|i: int, j: int| 0 <= i < j < r.len() implies text_lt(
                (#[trigger] r[i]).strategy_id,
                (#[trigger] r[j]).strategy_id,
            ) by {
                assert(r[i] == views[i]);
                if j < views.len() {
                    assert(r[j] == views[j]);
                } else if i < views.len() - 1 {
                    assert(text_lt(views[i].strategy_id, views[views.len() - 1].strategy_id));
                    text_order_transitive(views[i].strategy_id, last.strategy_id, v.strategy_id);
                }
            }
        } else if last.strategy_id == v.strategy_id {
            assert forall|i: int, j: int| 0 <= i < j < r.len() implies text_lt(
                (#[trigger] r[i]).strategy_id,
                (#[trigger] r[j]).strategy_id,
            ) by {
                assert(r[i] == views[i]);
                assert(text_lt(views[i].strategy_id, views[j].strategy_id));
                assert(r[j].strategy_id == views[j].strategy_id);
            }
        } else {
            lemma_view_inserted_ascends(front, v);
            text_order(last.strategy_id, v.strategy_id);
            let head = view_inserted(front, v);
            assert forall|i: int, j: int| 0 <= i < j < r.len() implies text_lt(
                (#[trigger] r[i]).strategy_id,
                (#[trigger] r[j]).strategy_id,
            ) by {
                assert(r[i] == head[i]);
                if j < head.len() {
                    assert(r[j] == head[j]);
                } else {
                    lemma_view_inserted_ids(front, v, head[i].strategy_id);
                    assert(has_view(head, head[i].strategy_id));
                    if head[i].strategy_id != v.strategy_id {
                        let k = choose|k: int|
                            0 <= k < front.len() && (#[trigger] front[k]).strategy_id
                                == head[i].strategy_id;
                        assert(front[k] == views[k]);
                        assert(text_lt(
                            views[k].strategy_id,
                            views[views.len() - 1].strategy_id,
                        ));
                    }
                }
            }
        }
    }
}

pub(crate) proof fn lemma_views_of_ascend(strategies: Seq<StrategyRuntimeDescriptorModel>)
    ensures
        views_ascend(views_of(strategies)),
    decreases strategies.len(),
{
    if strategies.len() > 0 {
        lemma_views_of_ascend(strategies.drop_last());
        lemma_view_inserted_ascends(
            views_of(strategies.drop_last()),
            first_view(strategies.last()),
        );
    }
}

proof fn lemma_view_inserted_at(
    views: Seq<StrategyRuntimeViewModel>,
    v: StrategyRuntimeViewModel,
    at: int,
)
    requires
        0 <= at <= views.len(),
        forall|i: int|
            at <= i < views.len() ==> !text_lt((#[trigger] views[i]).strategy_id, v.strategy_id)
                && views[i].strategy_id != v.strategy_id,
        at > 0 ==> text_lt(views[at - 1].strategy_id, v.strategy_id) || views[at - 1].strategy_id
            == v.strategy_id,
    ensures
        view_inserted(views, v) == (if at > 0 && views[at - 1].strategy_id == v.strategy_id {
            views.update(at - 1, v)
        } else {
            views.insert(at, v)
        }),
    decreases views.len(),
{
    if at == views.len() {
        if at > 0 {
            text_order(views[at - 1].strategy_id, v.strategy_id);
        }
        if at > 0 && views[at - 1].strategy_id == v.strategy_id {
            assert(views.drop_last().push(v) =~= views.update(at - 1, v));
        } else {
            assert(views.push(v) =~= views.insert(at, v));
        }
    } else {
        let front = views.drop_last();
        assert(views[views.len() - 1] == views.last());
        lemma_view_inserted_at(front, v, at);
        if at > 0 && views[at - 1].strategy_id == v.strategy_id {
            assert(front.update(at - 1, v).push(views.last()) =~= views.update(at - 1, v));
        } else {
            assert(front.insert(at, v).push(views.last()) =~= views.insert(at, v));
        }
    }
}

fn insert_view(views: &mut Vec<StrategyRuntimeView>, v: StrategyRuntimeView)
    ensures
        final(views).deep_view() == view_inserted(old(views).deep_view(), v@),
{
    let ghost all = views.deep_view();
    let ghost vv = v@;
    let mut at: usize = views.len();
    let mut searching = true;
    while searching && at > 0
        invariant
            at <= views.len(),
            views.deep_view() == all,
            vv == v@,
            forall|i: int|
                at <= i < all.len() ==> !text_lt((#[trigger] all[i]).strategy_id, vv.strategy_id)
                    && all[i].strategy_id != vv.strategy_id,
            !searching ==> at > 0 && (text_lt(all[at - 1].strategy_id, vv.strategy_id)
                || all[at - 1].strategy_id == vv.strategy_id),
        decreases at + (if searching { 1int } else { 0 }),
    {
        assert(all[at - 1] == views[at - 1]@);
        let id = &views[at - 1].strategy_id;
        if text_less(id.as_str(), v.strategy_id.as_str()) || id.same(&v.strategy_id) {
            searching = false;
        } else {
            at -= 1;
        }
    }
    proof {
        lemma_view_inserted_at(all, vv, at as int);
    }
    if at > 0 && views[at - 1].strategy_id.same(&v.strategy_id) {
        views[at - 1] = v;
        assert(views.deep_view() =~= all.update(at - 1, vv));
    } else {
        views.insert(at, v);
        assert(views.deep_view() =~= all.insert(at as int, vv));
    }
}

fn push_event(events: &mut VecDeque<StrategyMatchEvent>, event: StrategyMatchEvent)
    ensures
        final(events).deep_view() == event_pushed(old(events).deep_view(), event@),
{
    let ghost all = events.deep_view();
    if events.len() == MATCH_EVENT_LIMIT {
        let oldest = events.pop_front();
        assert(events.deep_view() =~= all.drop_first());
    }
    let ghost kept = events.deep_view();
    events.push_back(event);
    assert(events.deep_view() =~= kept.push(event@));
}

impl StrategyRuntimeSnapshot {
    /// The snapshot before anything has been loaded; nothing is said of its time.
    pub fn empty() -> (r: Self)
        ensures
            r@.strategies.len() == 0,
            r@.match_events.len() == 0,
    {
        StrategyRuntimeSnapshot {
            generated_at_ms: now_ms(),
            strategies: Vec::new(),
            match_events: Vec::new(),
        }
    }
}

impl TelemetryState {
    /// Whether the views are in order and the events not too many; every state is so.
    pub open spec fn wf(&self) -> bool {
        self@.ok()
    }

    /// The state before anything has been loaded.
    pub fn new() -> (r: Self)
        ensures
            r@ == (TelemetryModel {
                generation: 0,
                views: Seq::empty(),
                events: Seq::empty(),
                dirty: false,
            }),
            r.wf(),
    {
        let r = TelemetryState {
            generation: 0,
            views: Vec::new(),
            events: VecDeque::new(),
            dirty: false,
        };
        assert(r@.views =~= Seq::empty());
        assert(r@.events =~= Seq::empty());
        r
    }

    /// Takes an input and says what is to be done.
    pub fn step(&mut self, input: TelemetryInput) -> (r: TelemetryStep)
        requires
            old(self).wf(),
        ensures
            final(self)@ == old(self)@.after(input@),
            r == old(self)@.reaction(input@),
            final(self).wf(),
    {
        match input {
            TelemetryInput::Event(event) => match event {
                StrategyTelemetryEvent::RuntimeLoaded { generation, strategies } => {
                    self.load(generation, strategies);
                    TelemetryStep::Publish
                },
                StrategyTelemetryEvent::MetricsUpdated {
                    generation,
                    strategy_id,
                    metrics,
                    ts_ms,
                    ..
                } => {
                    if generation == self.generation {
                        self.measure(&strategy_id, metrics, ts_ms);
                    }
                    TelemetryStep::Wait
                },
                StrategyTelemetryEvent::OrderPlanned { generation, event } => {
                    if generation == self.generation {
                        push_event(&mut self.events, event);
                        self.dirty = true;
                    }
                    TelemetryStep::Wait
                },
                StrategyTelemetryEvent::Shutdown => TelemetryStep::Stop { publish: self.dirty },
            },
            TelemetryInput::Closed => TelemetryStep::Stop { publish: false },
            TelemetryInput::Tick => {
                if self.dirty {
                    self.dirty = false;
                    TelemetryStep::Publish
                } else {
                    TelemetryStep::Wait
                }
            },
        }
    }

    fn load(&mut self, generation: u64, strategies: Vec<StrategyRuntimeDescriptor>)
        ensures
            final(self)@ == (TelemetryModel {
                generation,
                views: views_of(strategies.deep_view()),
                events: Seq::empty(),
                dirty: false,
            }),
            final(self).wf(),
    {
        let ghost all = strategies.deep_view();
        let mut views: Vec<StrategyRuntimeView> = Vec::new();
        let mut i: usize = 0;
        assert(views.deep_view() =~= views_of(all.take(0)));
        while i < strategies.len()
            invariant
                i <= strategies.len(),
                all == strategies.deep_view(),
                views.deep_view() == views_of(all.take(i as int)),
            decreases strategies.len() - i,
        {
            let descriptor = &strategies[i];
            assert(descriptor@ == all[i as int]);
            assert(all.take(i + 1).drop_last() =~= all.take(i as int));
            insert_view(
                &mut views,
                StrategyRuntimeView {
                    strategy_id: descriptor.strategy_id.clone(),
                    name: descriptor.name.clone(),
                    enabled: descriptor.enabled,
                    long_market: descriptor.long_market.clone(),
                    short_market: descriptor.short_market.clone(),
                    open_spread_pct: None,
                    close_spread_pct: None,
                    current_pair_notional: zero(),
                    pending_open_notional: zero(),
                    pending_close_notional: zero(),
                    active_order_count: 0,
                    last_updated_ms: 0,
                },
            );
            i += 1;
        }
        proof {
            assert(all.take(all.len() as int) =~= all);
            lemma_views_of_ascend(all);
        }
        self.generation = generation;
        self.views = views;
        self.events.clear();
        self.dirty = false;
        assert(self@.events =~= Seq::empty());
    }

    fn measure(&mut self, strategy_id: &StrategyId, metrics: StrategyRuntimeMetrics, ts_ms: u64)
        requires
            old(self).wf(),
        ensures
            final(self)@ == (if has_view(old(self)@.views, strategy_id@) {
                TelemetryModel {
                    views: views_measured(old(self)@.views, strategy_id@, metrics, ts_ms),
                    dirty: true,
                    ..old(self)@
                }
            } else {
                old(self)@
            }),
            final(self).wf(),
    {
        let ghost all = self@.views;
        let mut i: usize = 0;
        while i < self.views.len() && !self.views[i].strategy_id.same(strategy_id)
            invariant
                i <= self.views.len(),
                self@ == old(self)@,
                all == self@.views,
                forall|j: int| 0 <= j < i ==> (#[trigger] all[j]).strategy_id != strategy_id@,
            decreases self.views.len() - i,
        {
            assert(all[i as int] == self.views[i as int]@);
            i += 1;
        }
        if i < self.views.len() {
            let mut view = self.views[i].clone();
            assert(all[i as int] == self.views[i as int]@);
            view.open_spread_pct = metrics.open_spread_pct;
            view.close_spread_pct = metrics.close_spread_pct;
            view.current_pair_notional = metrics.current_pair_notional;
            view.pending_open_notional = metrics.pending_open_notional;
            view.pending_close_notional = metrics.pending_close_notional;
            view.active_order_count = metrics.active_order_count;
            view.last_updated_ms = ts_ms;
            self.views[i] = view;
            self.dirty = true;
            proof {
                let after = views_measured(all, strategy_id@, metrics, ts_ms);
                assert forall|j: int| 0 <= j < all.len() implies #[trigger] after[j] == self@.views[j] by {
                    if j < i {
                        assert(all[j].strategy_id != strategy_id@);
                    } else if j > i {
                        text_order(all[i as int].strategy_id, all[j].strategy_id);
                    }
                }
                assert(self@.views =~= after);
                assert forall|a: int, b: int| 0 <= a < b < after.len() implies text_lt(
                    (#[trigger] after[a]).strategy_id,
                    (#[trigger] after[b]).strategy_id,
                ) by {
                    assert(after[a].strategy_id == all[a].strategy_id);
                    assert(after[b].strategy_id == all[b].strategy_id);
                }
            }
        } else {
            assert(!has_view(all, strategy_id@));
        }
    }

    /// A snapshot of the views and the events; nothing is said of its time.
    pub fn snapshot(&self) -> (r: StrategyRuntimeSnapshot)
        ensures
            r@.strategies == self@.views,
            r@.match_events == self@.events,
    {
        let strategies = self.views.clone();
        assert(strategies.deep_view() =~= self.views.deep_view());
        let mut match_events: Vec<StrategyMatchEvent> = Vec::new();
        let ghost all = self.events.deep_view();
        let mut i: usize = 0;
        assert(match_events.deep_view() =~= all.take(0));
        while i < self.events.len()
            invariant
                i <= self.events.len(),
                all == self.events.deep_view(),
                match_events.deep_view() == all.take(i as int),
            decreases self.events.len() - i,
        {
            let ghost before = match_events.deep_view();
            match_events.push(self.events[i].clone());
            assert(match_events.deep_view() =~= before.push(all[i as int]));
            assert(all.take(i + 1) =~= all.take(i as int).push(all[i as int]));
            i += 1;
        }
        assert(all.take(all.len() as int) =~= all);
        StrategyRuntimeSnapshot { generated_at_ms: now_ms(), strategies, match_events }
    }
}

/// Loading gives exactly the loaded strategies a view.
pub proof fn loaded_strategies_have_views(
    strategies: Seq<StrategyRuntimeDescriptorModel>,
    id: Seq<char>,
)
    ensures
        has_view(views_of(strategies), id) <==> exists|i: int|
            0 <= i < strategies.len() && (#[trigger] strategies[i]).strategy_id == id,
    decreases strategies.len(),
{
    if strategies.len() > 0 {
        let front = strategies.drop_last();
        loaded_strategies_have_views(front, id);
        lemma_views_of_ascend(front);
        lemma_view_inserted_ids(views_of(front), first_view(strategies.last()), id);
        if exists|i: int| 0 <= i < front.len() && (#[trigger] front[i]).strategy_id == id {
            let i = choose|i: int| 0 <= i < front.len() && (#[trigger] front[i]).strategy_id == id;
            assert(strategies[i].strategy_id == id);
        }
        if exists|i: int| 0 <= i < strategies.len() && (#[trigger] strategies[i]).strategy_id == id {
            let i = choose|i: int|
                0 <= i < strategies.len() && (#[trigger] strategies[i]).strategy_id == id;
            if i < front.len() {
                assert(front[i].strategy_id == id);
            }
        }
        assert(strategies[strategies.len() - 1] == strategies.last());
    }
}

/// Of loaded strategies with one id, the last decides the view.
pub proof fn last_loaded_strategy_decides(
    strategies: Seq<StrategyRuntimeDescriptorModel>,
    i: int,
)
    requires
        0 <= i < strategies.len(),
        forall|j: int|
            i < j < strategies.len() ==> (#[trigger] strategies[j]).strategy_id
                != strategies[i].strategy_id,
    ensures
        views_of(strategies).contains(first_view(strategies[i])),
    decreases strategies.len(),
{
    let front = strategies.drop_last();
    lemma_views_of_ascend(front);
    lemma_view_inserted_ids(views_of(front), first_view(strategies.last()), Seq::empty());
    if i < front.len() {
        assert forall|j: int| i < j < front.len() implies (#[trigger] front[j]).strategy_id
            != front[i].strategy_id by {
            assert(front[j] == strategies[j]);
        }
        last_loaded_strategy_decides(front, i);
        assert(strategies[strategies.len() - 1].strategy_id != strategies[i].strategy_id);
    }
}

/// Reports of another generation change nothing.
pub proof fn other_generations_change_nothing(state: TelemetryModel, event: TelemetryEventModel)
    requires
        match event {
            TelemetryEventModel::MetricsUpdated { generation, .. } => generation
                != state.generation,
            TelemetryEventModel::OrderPlanned { generation, .. } => generation != state.generation,
            _ => false,
        },
    ensures
        state.after(TelemetryInputModel::Event(event)) == state,
{
}

/// Every input keeps the views in order and the events few enough.
pub proof fn inputs_keep_bounds(state: TelemetryModel, input: TelemetryInputModel)
    requires
        state.ok(),
    ensures
        state.after(input).ok(),
{
    match input {
        TelemetryInputModel::Event(TelemetryEventModel::RuntimeLoaded { strategies, .. }) => {
            lemma_views_of_ascend(strategies);
        },
        TelemetryInputModel::Event(
            TelemetryEventModel::MetricsUpdated { strategy_id, metrics, ts_ms, .. },
        ) => {
            let after = views_measured(state.views, strategy_id, metrics, ts_ms);
            assert forall|a: int, b: int| 0 <= a < b < after.len() implies text_lt(
                (#[trigger] after[a]).strategy_id,
                (#[trigger] after[b]).strategy_id,
            ) by {
                assert(after[a].strategy_id == state.views[a].strategy_id);
                assert(after[b].strategy_id == state.views[b].strategy_id);
            }
        },
        _ => {},
    }
}

/// No change is lost: an input that changes the views or the events leaves the state marked, or
/// asks for a snapshot at once.
pub proof fn changes_are_published(state: TelemetryModel, input: TelemetryInputModel)
    requires
        state.after(input).views != state.views || state.after(input).events != state.events,
    ensures
        state.after(input).dirty || state.reaction(input) == TelemetryStep::Publish,
{
}

/// A mark stays until a snapshot is published.
pub proof fn marks_stay_until_published(state: TelemetryModel, input: TelemetryInputModel)
    requires
        state.dirty,
        !state.after(input).dirty,
    ensures
        state.reaction(input) == TelemetryStep::Publish,
{
}

/// The latest planned order of the generation stands last, and those before it stand as they were,
/// the oldest left out where there were too many.
pub proof fn latest_order_stands_last(
    events: Seq<StrategyMatchEventModel>,
    event: StrategyMatchEventModel,
)
    requires
        events.len() <= MATCH_EVENT_LIMIT,
    ensures
        event_pushed(events, event).last() == event,
        event_pushed(events, event).drop_last() == events.skip(
            if events.len() == MATCH_EVENT_LIMIT {
                1
            } else {
                0
            },
        ),
{
    let skipped: int = if events.len() == MATCH_EVENT_LIMIT {
        1
    } else {
        0
    };
    assert(event_pushed(events, event).drop_last() =~= events.skip(skipped));
}

} // verus!
