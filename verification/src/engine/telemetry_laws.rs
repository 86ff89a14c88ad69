//! What a whole run of reports leads to.

use vstd::prelude::*;

use crate::engine::telemetry::{
    first_view, has_view, last_loaded_strategy_decides, lemma_views_of_ascend,
    loaded_strategies_have_views, measured, views_ascend, views_of, StrategyMatchEventModel,
    StrategyRuntimeDescriptorModel, StrategyRuntimeMetrics, StrategyRuntimeViewModel,
    TelemetryEventModel, TelemetryInputModel, TelemetryModel, TelemetryStep, MATCH_EVENT_LIMIT,
};
use crate::num::zero;
use crate::text::text_lt;

verus! {

/// What a published snapshot shows.
#[verifier::ext_equal]
pub struct Published {
    pub views: Seq<StrategyRuntimeViewModel>,
    pub events: Seq<StrategyMatchEventModel>,
}

/// The state after inputs, and what was published last on the way.
#[verifier::ext_equal]
pub struct Run {
    pub state: TelemetryModel,
    pub published: Option<Published>,
}

/// The run over inputs from a state.
pub open spec fn run(state: TelemetryModel, inputs: Seq<TelemetryInputModel>) -> Run
    decreases inputs.len(),
{
    if inputs.len() == 0 {
        Run { state, published: None }
    } else {
        let before = run(state, inputs.drop_last());
        let after = before.state.after(inputs.last());
        Run {
            state: after,
            published: match before.state.reaction(inputs.last()) {
                TelemetryStep::Publish => Some(
                    Published { views: after.views, events: after.events },
                ),
                TelemetryStep::Stop { publish: true } => Some(
                    Published { views: after.views, events: after.events },
                ),
                _ => before.published,
            },
        }
    }
}

/// Whether an input is a report of metrics or of a planned order, or a time to publish.
pub open spec fn is_report(input: TelemetryInputModel) -> bool {
    match input {
        TelemetryInputModel::Event(TelemetryEventModel::MetricsUpdated { .. }) => true,
        TelemetryInputModel::Event(TelemetryEventModel::OrderPlanned { .. }) => true,
        TelemetryInputModel::Tick => true,
        _ => false,
    }
}

/// The last metrics that a strategy reported in a generation, and when.
pub open spec fn last_metrics(
    reports: Seq<TelemetryInputModel>,
    of: u64,
    id: Seq<char>,
) -> Option<(StrategyRuntimeMetrics, u64)>
    decreases reports.len(),
{
    if reports.len() == 0 {
        None
    } else {
        let before = last_metrics(reports.drop_last(), of, id);
        match reports.last() {
            TelemetryInputModel::Event(
                TelemetryEventModel::MetricsUpdated { generation, strategy_id, metrics, ts_ms, .. },
            ) => if generation == of && strategy_id == id {
                Some((metrics, ts_ms))
            } else {
                before
            },
            _ => before,
        }
    }
}

/// The orders that were planned in a generation, the oldest first.
pub open spec fn planned_orders(reports: Seq<TelemetryInputModel>, of: u64) -> Seq<
    StrategyMatchEventModel,
>
    decreases reports.len(),
{
    if reports.len() == 0 {
        Seq::empty()
    } else {
        let before = planned_orders(reports.drop_last(), of);
        match reports.last() {
            TelemetryInputModel::Event(
                TelemetryEventModel::OrderPlanned { generation, event },
            ) => if generation == of {
                before.push(event)
            } else {
                before
            },
            _ => before,
        }
    }
}

/// The last of planned orders, as many as are kept.
pub open spec fn latest(orders: Seq<StrategyMatchEventModel>) -> Seq<StrategyMatchEventModel> {
    if orders.len() <= MATCH_EVENT_LIMIT {
        orders
    } else {
        orders.skip(orders.len() - MATCH_EVENT_LIMIT)
    }
}

/// A view as the last metrics of its strategy show it.
pub open spec fn shown(
    view: StrategyRuntimeViewModel,
    reports: Seq<TelemetryInputModel>,
    of: u64,
) -> StrategyRuntimeViewModel {
    match last_metrics(reports, of, view.strategy_id) {
        Some((metrics, ts_ms)) => measured(view, metrics, ts_ms),
        None => view,
    }
}

/// The views of loaded strategies as reports show them.
pub open spec fn views_shown(
    strategies: Seq<StrategyRuntimeDescriptorModel>,
    reports: Seq<TelemetryInputModel>,
    of: u64,
) -> Seq<StrategyRuntimeViewModel> {
    views_of(strategies).map_values(|view: StrategyRuntimeViewModel| shown(view, reports, of))
}

/// The loading of strategies as an input.
pub open spec fn loading(
    generation: u64,
    strategies: Seq<StrategyRuntimeDescriptorModel>,
) -> TelemetryInputModel {
    TelemetryInputModel::Event(TelemetryEventModel::RuntimeLoaded { generation, strategies })
}

proof fn lemma_same_ids(
    strategies: Seq<StrategyRuntimeDescriptorModel>,
    reports: Seq<TelemetryInputModel>,
    of: u64,
    id: Seq<char>,
)
    ensures
        has_view(views_shown(strategies, reports, of), id) <==> has_view(views_of(strategies), id),
{
    let all = views_of(strategies);
    let seen = views_shown(strategies, reports, of);
    if has_view(all, id) {
        let i = choose|i: int| 0 <= i < all.len() && (#[trigger] all[i]).strategy_id == id;
        assert(seen[i].strategy_id == id);
    }
    if has_view(seen, id) {
        let i = choose|i: int| 0 <= i < seen.len() && (#[trigger] seen[i]).strategy_id == id;
        assert(all[i].strategy_id == id);
    }
}

proof fn lemma_run(
    start: TelemetryModel,
    generation: u64,
    strategies: Seq<StrategyRuntimeDescriptorModel>,
    reports: Seq<TelemetryInputModel>,
)
    requires
        forall|i: int| 0 <= i < reports.len() ==> is_report(#[trigger] reports[i]),
    ensures
        ({
            let r = run(start, seq![loading(generation, strategies)] + reports);
            let last = Published {
                views: views_shown(strategies, reports, generation),
                events: latest(planned_orders(reports, generation)),
            };
            &&& r.state.generation == generation
            &&& r.state.views == last.views
            &&& r.state.events == last.events
            &&& !r.state.dirty ==> r.published == Some(last)
        }),
    decreases reports.len(),
{
    let inputs = seq![loading(generation, strategies)] + reports;
    let r = run(start, inputs);
    if reports.len() == 0 {
        assert(inputs.drop_last() =~= Seq::empty());
        assert(inputs.last() == loading(generation, strategies));
        assert(views_shown(strategies, reports, generation) =~= views_of(strategies));
    } else {
        let front = reports.drop_last();
        let input = reports.last();
        assert forall|i: int| 0 <= i < front.len() implies is_report(#[trigger] front[i]) by {
            assert(reports[i] == front[i]);
        }
        assert(is_report(reports[reports.len() - 1]));
        lemma_run(start, generation, strategies, front);
        assert(inputs.drop_last() =~= seq![loading(generation, strategies)] + front);
        assert(inputs.last() == input);
        let before = run(start, inputs.drop_last());
        match input {
            TelemetryInputModel::Event(
                TelemetryEventModel::MetricsUpdated { generation: g, strategy_id, metrics, ts_ms, .. },
            ) => {
                lemma_same_ids(strategies, front, generation, strategy_id);
                let all = views_of(strategies);
                assert forall|i: int| 0 <= i < all.len() && all[i].strategy_id
                    == strategy_id implies has_view(all, strategy_id) by {
                    assert(all[i].strategy_id == strategy_id);
                }
                assert(r.state.views =~= views_shown(strategies, reports, generation));
            },
            TelemetryInputModel::Event(
                TelemetryEventModel::OrderPlanned { generation: g, event },
            ) => {
                assert(views_shown(strategies, reports, generation) =~= views_shown(
                    strategies,
                    front,
                    generation,
                ));
                assert(r.state.events =~= latest(planned_orders(reports, generation)));
            },
            _ => {
                assert(views_shown(strategies, reports, generation) =~= views_shown(
                    strategies,
                    front,
                    generation,
                ));
            },
        }
    }
}

/// Strategies are loaded, reports come, and the telemetry is told to stop. Then what was published
/// last shows one view for each loaded id, by ascending id, each as the last metrics of its
/// strategy in the generation say, or as it was loaded where there were none; and the orders
/// planned in the generation, the oldest first, as many of the last as are kept. Other generations
/// and unknown ids have no effect, nor has what the state was before.
pub proof fn runs_show_the_last_reports(
    start: TelemetryModel,
    generation: u64,
    strategies: Seq<StrategyRuntimeDescriptorModel>,
    reports: Seq<TelemetryInputModel>,
    id: Seq<char>,
)
    requires
        forall|i: int| 0 <= i < reports.len() ==> is_report(#[trigger] reports[i]),
    ensures
        ({
            let inputs = (seq![loading(generation, strategies)] + reports).push(
                TelemetryInputModel::Event(TelemetryEventModel::Shutdown),
            );
            let last = Published {
                views: views_shown(strategies, reports, generation),
                events: latest(planned_orders(reports, generation)),
            };
            &&& run(start, inputs).published == Some(last)
            &&& views_ascend(last.views)
            &&& has_view(last.views, id) <==> exists|k: int|
                0 <= k < strategies.len() && (#[trigger] strategies[k]).strategy_id == id
        }),
{
    let told = seq![loading(generation, strategies)] + reports;
    let inputs = told.push(TelemetryInputModel::Event(TelemetryEventModel::Shutdown));
    lemma_run(start, generation, strategies, reports);
    assert(inputs.drop_last() =~= told);
    lemma_same_ids(strategies, reports, generation, id);
    loaded_strategies_have_views(strategies, id);
    lemma_views_of_ascend(strategies);
    let all = views_of(strategies);
    let seen = views_shown(strategies, reports, generation);
    assert forall|i: int, j: int| 0 <= i < j < seen.len() implies text_lt(
        (#[trigger] seen[i]).strategy_id,
        (#[trigger] seen[j]).strategy_id,
    ) by {
        assert(text_lt(all[i].strategy_id, all[j].strategy_id));
    }
}

/// A report of metrics shows in the view of its strategy: its metrics and its time stand there, and who
/// the strategy is stays. All other views, the events and the generation stay.
pub proof fn metrics_show_in_their_view(
    state: TelemetryModel,
    shard: Seq<char>,
    id: Seq<char>,
    metrics: StrategyRuntimeMetrics,
    ts_ms: u64,
    i: int,
)
    requires
        0 <= i < state.views.len(),
    ensures
        ({
            let after = state.after(
                TelemetryInputModel::Event(
                    TelemetryEventModel::MetricsUpdated {
                        generation: state.generation,
                        shard_id: shard,
                        strategy_id: id,
                        metrics,
                        ts_ms,
                    },
                ),
            );
            let old_view = state.views[i];
            let view = after.views[i];
            &&& after.generation == state.generation
            &&& after.events == state.events
            &&& after.views.len() == state.views.len()
            &&& old_view.strategy_id == id ==> after.dirty
            &&& view.strategy_id == old_view.strategy_id
            &&& view.name == old_view.name
            &&& view.enabled == old_view.enabled
            &&& view.long_market == old_view.long_market
            &&& view.short_market == old_view.short_market
            &&& if old_view.strategy_id == id {
                &&& view.open_spread_pct == metrics.open_spread_pct
                &&& view.close_spread_pct == metrics.close_spread_pct
                &&& view.current_pair_notional == metrics.current_pair_notional
                &&& view.pending_open_notional == metrics.pending_open_notional
                &&& view.pending_close_notional == metrics.pending_close_notional
                &&& view.active_order_count == metrics.active_order_count
                &&& view.last_updated_ms == ts_ms
            } else {
                view == old_view
            }
        }),
{
    if state.views[i].strategy_id == id {
        assert(has_view(state.views, id));
    }
}

/// Whether a view is that of a loaded strategy that has not reported yet.
pub open spec fn is_bare_view(
    loaded: StrategyRuntimeDescriptorModel,
    view: StrategyRuntimeViewModel,
) -> bool {
    &&& view.strategy_id == loaded.strategy_id
    &&& view.name == loaded.name
    &&& view.enabled == loaded.enabled
    &&& view.long_market == loaded.long_market
    &&& view.short_market == loaded.short_market
    &&& view.open_spread_pct is None
    &&& view.close_spread_pct is None
    &&& view.current_pair_notional.eq_num(zero())
    &&& view.pending_open_notional.eq_num(zero())
    &&& view.pending_close_notional.eq_num(zero())
    &&& view.active_order_count == 0
    &&& view.last_updated_ms == 0
}

/// Loading forgets all views and events, and gives each loaded strategy that no later one with its id
/// replaces a view: who it is, no spreads, no notionals, no orders. There is no other view; the ids
/// ascend.
pub proof fn loading_starts_anew(
    state: TelemetryModel,
    of: u64,
    strategies: Seq<StrategyRuntimeDescriptorModel>,
    k: int,
    i: int,
)
    ensures
        ({
            let after = state.after(loading(of, strategies));
            &&& after.generation == of
            &&& after.events.len() == 0
            &&& !after.dirty
            &&& state.reaction(loading(of, strategies)) == TelemetryStep::Publish
            &&& 0 <= k < strategies.len() && (forall|j: int|
                k < j < strategies.len() ==> (#[trigger] strategies[j]).strategy_id
                    != strategies[k].strategy_id) ==> exists|v: int|
                0 <= v < after.views.len() && #[trigger] is_bare_view(
                    strategies[k],
                    after.views[v],
                )
            &&& 0 <= i < after.views.len() ==> exists|l: int|
                0 <= l < strategies.len() && (#[trigger] strategies[l]).strategy_id
                    == after.views[i].strategy_id
            &&& forall|a: int, b: int|
                0 <= a < b < after.views.len() ==> text_lt(
                    (#[trigger] after.views[a]).strategy_id,
                    (#[trigger] after.views[b]).strategy_id,
                )
        }),
{
    let after = state.after(loading(of, strategies));
    lemma_views_of_ascend(strategies);
    if 0 <= k < strategies.len() && (forall|j: int|
        k < j < strategies.len() ==> (#[trigger] strategies[j]).strategy_id
            != strategies[k].strategy_id) {
        last_loaded_strategy_decides(strategies, k);
        let v = choose|v: int|
            0 <= v < after.views.len() && after.views[v] == first_view(strategies[k]);
        assert(is_bare_view(strategies[k], after.views[v]));
    }
    if 0 <= i < after.views.len() {
        assert(has_view(after.views, after.views[i].strategy_id));
        loaded_strategies_have_views(strategies, after.views[i].strategy_id);
    }
}

/// A planned order of the generation is remembered as the last one, and with it the last 199 before it;
/// nothing else changes.
pub proof fn planned_orders_are_remembered(
    state: TelemetryModel,
    event: StrategyMatchEventModel,
    i: int,
)
    requires
        state.events.len() <= 200,
    ensures
        ({
            let after = state.after(
                TelemetryInputModel::Event(
                    TelemetryEventModel::OrderPlanned { generation: state.generation, event },
                ),
            );
            let gone: int = if state.events.len() == 200 {
                1
            } else {
                0
            };
            &&& after.generation == state.generation
            &&& after.views == state.views
            &&& after.dirty
            &&& after.events.len() == state.events.len() + 1 - gone
            &&& after.events.last() == event
            &&& gone <= i < state.events.len() ==> after.events[i - gone] == state.events[i]
        }),
{
}

/// A tick publishes exactly what has changed since the last snapshot, and marks it as published. Being
/// told to stop publishes it too; a closed queue does not. Neither changes the state. Reports alone
/// publish nothing.
pub proof fn snapshots_are_due_after_changes(state: TelemetryModel, event: TelemetryEventModel)
    ensures
        state.reaction(TelemetryInputModel::Tick) == (if state.dirty {
            TelemetryStep::Publish
        } else {
            TelemetryStep::Wait
        }),
        !state.after(TelemetryInputModel::Tick).dirty,
        state.after(TelemetryInputModel::Tick).views == state.views,
        state.after(TelemetryInputModel::Tick).events == state.events,
        state.after(TelemetryInputModel::Tick).generation == state.generation,
        state.after(TelemetryInputModel::Closed) == state,
        state.reaction(TelemetryInputModel::Closed) == (TelemetryStep::Stop { publish: false }),
        event is Shutdown ==> state.after(TelemetryInputModel::Event(event)) == state
            && state.reaction(TelemetryInputModel::Event(event)) == (TelemetryStep::Stop {
            publish: state.dirty,
        }),
        event is MetricsUpdated || event is OrderPlanned ==> state.reaction(
            TelemetryInputModel::Event(event),
        ) == TelemetryStep::Wait,
{
}

} // verus!
