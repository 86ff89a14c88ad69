//! Orders brought into the shape that a market's rule asks for.

use vstd::prelude::*;

use crate::engine::types::{Side, TradeCommand};
use crate::market_rules::{MarketRule, MarketRuleModel};
use crate::num::{answers_all, computes, renders, shows_all, zero, Arith, Binary64};

verus! {

/// What rounding forgives: `1e-12`.
#[verifier::allow_in_spec]
pub fn rounding_eps() -> Binary64
    returns
        (Binary64 { bits: 0x3d71_9799_812d_ea11 }),
{
    Binary64 { bits: 0x3d71_9799_812d_ea11 }
}

/// Order execution.
#[derive(Clone, Copy, Debug)]
pub struct TradeExecRuntime {
    pub command_queue_bound: usize,
}

impl Default for TradeExecRuntime {
    fn default() -> (r: Self)
        ensures
            r.command_queue_bound == 1024,
    {
        TradeExecRuntime { command_queue_bound: 1024 }
    }
}

impl TradeExecRuntime {
    /// Whether a command can be carried out; every one can.
    pub fn accepts(&self, _command: &TradeCommand) -> (r: bool)
        ensures
            r,
    {
        true
    }
}

/// An order as it can be placed.
#[derive(Clone, Copy, Debug, PartialEq, Eq, Structural)]
pub struct PreparedPlaceOrder {
    pub qty: Binary64,
    pub limit_price: Option<Binary64>,
    pub notional_usd: Option<Binary64>,
}

/// Why an order cannot be placed.
#[derive(Clone, Copy, Debug, PartialEq, Eq, Structural)]
pub enum PlaceOrderReject {
    InvalidQty,
    InvalidLimitPrice,
    BelowMinQty { qty: Binary64, min_qty: Binary64 },
    BelowMinNotional { notional_usd: Binary64, min_notional: Binary64 },
}

impl PlaceOrderReject {
    /// The reason in words.
    pub open spec fn words(self, show: spec_fn(Binary64) -> Seq<char>) -> Seq<char> {
        match self {
            PlaceOrderReject::InvalidQty => "invalid qty"@,
            PlaceOrderReject::InvalidLimitPrice => "invalid limit price"@,
            PlaceOrderReject::BelowMinQty { qty, min_qty } => "qty "@ + show(qty)
                + " below min_qty "@ + show(min_qty),
            PlaceOrderReject::BelowMinNotional { notional_usd, min_notional } => "notional "@
                + show(notional_usd) + " below min_notional "@ + show(min_notional),
        }
    }

    /// The reason in words, with numbers rendered by `show`.
    pub fn describe<S: Fn(Binary64) -> String>(&self, show: &S) -> (r: String)
        requires
            shows_all(*show),
        ensures
            forall|m: spec_fn(Binary64) -> Seq<char>| #[trigger]
                renders(*show, m) ==> r@ == self.words(m),
    {
        match self {
            PlaceOrderReject::InvalidQty => "invalid qty".to_owned(),
            PlaceOrderReject::InvalidLimitPrice => "invalid limit price".to_owned(),
            PlaceOrderReject::BelowMinQty { qty, min_qty } => {
                let mut out = "qty ".to_owned();
                let shown_qty = show(*qty);
                out.append(shown_qty.as_str());
                out.append(" below min_qty ");
                let shown_min = show(*min_qty);
                out.append(shown_min.as_str());
                out
            },
            PlaceOrderReject::BelowMinNotional { notional_usd, min_notional } => {
                let mut out = "notional ".to_owned();
                let shown_notional = show(*notional_usd);
                out.append(shown_notional.as_str());
                out.append(" below min_notional ");
                let shown_min = show(*min_notional);
                out.append(shown_min.as_str());
                out
            },
        }
    }
}

/// The multiple of `step` at or below a value.
pub open spec fn step_below(
    m: spec_fn(Arith) -> Binary64,
    value: Binary64,
    step: Binary64,
) -> Binary64 {
    m(
        Arith::Mul(
            m(Arith::Floor(m(Arith::Add(m(Arith::Div(value, step)), rounding_eps())))),
            step,
        ),
    )
}

/// The multiple of `step` at or above a value.
pub open spec fn step_above(
    m: spec_fn(Arith) -> Binary64,
    value: Binary64,
    step: Binary64,
) -> Binary64 {
    m(
        Arith::Mul(
            m(Arith::Ceil(m(Arith::Sub(m(Arith::Div(value, step)), rounding_eps())))),
            step,
        ),
    )
}

/// The number of `precision` decimals at or below a value.
pub open spec fn decimals_below(
    m: spec_fn(Arith) -> Binary64,
    value: Binary64,
    precision: u32,
) -> Binary64 {
    let scale = m(Arith::PowerOfTen(precision as i32));
    m(
        Arith::Div(
            m(Arith::Floor(m(Arith::Add(m(Arith::Mul(value, scale)), rounding_eps())))),
            scale,
        ),
    )
}

/// The number of `precision` decimals at or above a value.
pub open spec fn decimals_above(
    m: spec_fn(Arith) -> Binary64,
    value: Binary64,
    precision: u32,
) -> Binary64 {
    let scale = m(Arith::PowerOfTen(precision as i32));
    m(
        Arith::Div(
            m(Arith::Ceil(m(Arith::Sub(m(Arith::Mul(value, scale)), rounding_eps())))),
            scale,
        ),
    )
}

/// Whether a number can be a quantity or a price.
pub open spec fn tradable(x: Binary64) -> bool {
    x.finite() && x.positive()
}

/// A quantity brought down to the rule's step and precision.
pub open spec fn aligned_qty(
    m: spec_fn(Arith) -> Binary64,
    qty: Binary64,
    rule: MarketRuleModel,
) -> Binary64 {
    let stepped = match rule.qty_step {
        Some(step) => if step.positive() {
            step_below(m, qty, step)
        } else {
            qty
        },
        None => qty,
    };
    match rule.qty_precision {
        Some(precision) => decimals_below(m, stepped, precision),
        None => stepped,
    }
}

/// A price brought to the rule's tick and precision: down for a buyer, up for a seller.
pub open spec fn aligned_price(
    m: spec_fn(Arith) -> Binary64,
    price: Binary64,
    side: Side,
    rule: MarketRuleModel,
) -> Binary64 {
    let ticked = match rule.price_tick {
        Some(tick) => if !tick.positive() {
            price
        } else if side == Side::Sell {
            step_above(m, price, tick)
        } else {
            step_below(m, price, tick)
        },
        None => price,
    };
    match rule.price_precision {
        Some(precision) => if side == Side::Sell {
            decimals_above(m, ticked, precision)
        } else {
            decimals_below(m, ticked, precision)
        },
        None => ticked,
    }
}

/// An order brought into the shape that a rule asks for, or why it cannot be placed.
pub open spec fn prepared(
    m: spec_fn(Arith) -> Binary64,
    qty: Binary64,
    limit_price: Option<Binary64>,
    side: Side,
    rule: MarketRuleModel,
) -> Result<PreparedPlaceOrder, PlaceOrderReject> {
    let q = aligned_qty(m, qty, rule);
    if !tradable(qty) || !tradable(q) {
        Err(PlaceOrderReject::InvalidQty)
    } else if rule.min_qty matches Some(min_qty) && q.lt(min_qty) {
        Err(PlaceOrderReject::BelowMinQty { qty: q, min_qty: rule.min_qty->0 })
    } else {
        match limit_price {
            None => Ok(PreparedPlaceOrder { qty: q, limit_price: None, notional_usd: None }),
            Some(price) => {
                let p = aligned_price(m, price, side, rule);
                let notional_usd = m(Arith::Mul(q, p));
                if !tradable(price) || !tradable(p) {
                    Err(PlaceOrderReject::InvalidLimitPrice)
                } else if rule.min_notional matches Some(min_notional) && notional_usd.lt(
                    min_notional,
                ) {
                    Err(
                        PlaceOrderReject::BelowMinNotional {
                            notional_usd,
                            min_notional: rule.min_notional->0,
                        },
                    )
                } else {
                    Ok(
                        PreparedPlaceOrder {
                            qty: q,
                            limit_price: Some(p),
                            notional_usd: Some(notional_usd),
                        },
                    )
                }
            },
        }
    }
}

/// Brings an order into the shape that a market's rule asks for.
pub fn prepare_place_order<F: Fn(Arith) -> Binary64>(
    qty: Binary64,
    limit_price: Option<Binary64>,
    side: &Side,
    rule: &MarketRule,
    arith: &F,
) -> (r: Result<PreparedPlaceOrder, PlaceOrderReject>)
    requires
        answers_all(*arith),
    ensures
        forall|m: spec_fn(Arith) -> Binary64| #[trigger]
            computes(*arith, m) ==> r == prepared(m, qty, limit_price, *side, rule@),
{
    let qty = match align_qty(qty, rule, arith) {
        Ok(qty) => qty,
        Err(reason) => return Err(reason),
    };
    if let Some(min_qty) = rule.min_qty {
        if qty.less(min_qty) {
            return Err(PlaceOrderReject::BelowMinQty { qty, min_qty });
        }
    }
    let price = match limit_price {
        Some(price) => price,
        None => return Ok(PreparedPlaceOrder { qty, limit_price: None, notional_usd: None }),
    };
    let price = match align_limit_price(price, side, rule, arith) {
        Ok(price) => price,
        Err(reason) => return Err(reason),
    };
    let notional_usd = arith(Arith::Mul(qty, price));
    if let Some(min_notional) = rule.min_notional {
        if notional_usd.less(min_notional) {
            return Err(PlaceOrderReject::BelowMinNotional { notional_usd, min_notional });
        }
    }
    Ok(PreparedPlaceOrder { qty, limit_price: Some(price), notional_usd: Some(notional_usd) })
}

fn align_qty<F: Fn(Arith) -> Binary64>(qty: Binary64, rule: &MarketRule, arith: &F) -> (r: Result<
    Binary64,
    PlaceOrderReject,
>)
    requires
        answers_all(*arith),
    ensures
        forall|m: spec_fn(Arith) -> Binary64| #[trigger]
            computes(*arith, m) ==> r == (if tradable(qty) && tradable(aligned_qty(m, qty, rule@)) {
                Ok::<Binary64, PlaceOrderReject>(aligned_qty(m, qty, rule@))
            } else {
                Err(PlaceOrderReject::InvalidQty)
            }),
{
    if !qty.is_finite() || !qty.is_positive() {
        return Err(PlaceOrderReject::InvalidQty);
    }
    let mut aligned = match rule.qty_step {
        Some(step) => if step.is_positive() {
            floor_to_step(qty, step, arith)
        } else {
            qty
        },
        None => qty,
    };
    if let Some(precision) = rule.qty_precision {
        aligned = floor_to_precision(aligned, precision, arith);
    }
    if aligned.is_finite() && aligned.is_positive() {
        Ok(aligned)
    } else {
        Err(PlaceOrderReject::InvalidQty)
    }
}

fn align_limit_price<F: Fn(Arith) -> Binary64>(
    price: Binary64,
    side: &Side,
    rule: &MarketRule,
    arith: &F,
) -> (r: Result<Binary64, PlaceOrderReject>)
    requires
        answers_all(*arith),
    ensures
        forall|m: spec_fn(Arith) -> Binary64| #[trigger]
            computes(*arith, m) ==> r == (if tradable(price) && tradable(
                aligned_price(m, price, *side, rule@),
            ) {
                Ok::<Binary64, PlaceOrderReject>(aligned_price(m, price, *side, rule@))
            } else {
                Err(PlaceOrderReject::InvalidLimitPrice)
            }),
{
    if !price.is_finite() || !price.is_positive() {
        return Err(PlaceOrderReject::InvalidLimitPrice);
    }
    let align_up = *side == Side::Sell;
    let mut aligned = match rule.price_tick {
        Some(tick) => if !tick.is_positive() {
            price
        } else if align_up {
            ceil_to_step(price, tick, arith)
        } else {
            floor_to_step(price, tick, arith)
        },
        None => price,
    };
    if let Some(precision) = rule.price_precision {
        aligned = if align_up {
            ceil_to_precision(aligned, precision, arith)
        } else {
            floor_to_precision(aligned, precision, arith)
        };
    }
    if aligned.is_finite() && aligned.is_positive() {
        Ok(aligned)
    } else {
        Err(PlaceOrderReject::InvalidLimitPrice)
    }
}

fn floor_to_step<F: Fn(Arith) -> Binary64>(value: Binary64, step: Binary64, arith: &F) -> (r:
    Binary64)
    requires
        answers_all(*arith),
    ensures
        forall|m: spec_fn(Arith) -> Binary64| #[trigger]
            computes(*arith, m) ==> r == step_below(m, value, step),
{
    let ratio = arith(Arith::Div(value, step));
    let steps = arith(Arith::Floor(arith(Arith::Add(ratio, rounding_eps()))));
    arith(Arith::Mul(steps, step))
}

fn ceil_to_step<F: Fn(Arith) -> Binary64>(value: Binary64, step: Binary64, arith: &F) -> (r:
    Binary64)
    requires
        answers_all(*arith),
    ensures
        forall|m: spec_fn(Arith) -> Binary64| #[trigger]
            computes(*arith, m) ==> r == step_above(m, value, step),
{
    let ratio = arith(Arith::Div(value, step));
    let steps = arith(Arith::Ceil(arith(Arith::Sub(ratio, rounding_eps()))));
    arith(Arith::Mul(steps, step))
}

fn floor_to_precision<F: Fn(Arith) -> Binary64>(
    value: Binary64,
    precision: u32,
    arith: &F,
) -> (r: Binary64)
    requires
        answers_all(*arith),
    ensures
        forall|m: spec_fn(Arith) -> Binary64| #[trigger]
            computes(*arith, m) ==> r == decimals_below(m, value, precision),
{
    let scale = arith(Arith::PowerOfTen(precision as i32));
    let scaled = arith(Arith::Mul(value, scale));
    let units = arith(Arith::Floor(arith(Arith::Add(scaled, rounding_eps()))));
    arith(Arith::Div(units, scale))
}

fn ceil_to_precision<F: Fn(Arith) -> Binary64>(
    value: Binary64,
    precision: u32,
    arith: &F,
) -> (r: Binary64)
    requires
        answers_all(*arith),
    ensures
        forall|m: spec_fn(Arith) -> Binary64| #[trigger]
            computes(*arith, m) ==> r == decimals_above(m, value, precision),
{
    let scale = arith(Arith::PowerOfTen(precision as i32));
    let scaled = arith(Arith::Mul(value, scale));
    let units = arith(Arith::Ceil(arith(Arith::Sub(scaled, rounding_eps()))));
    arith(Arith::Div(units, scale))
}

/// Every order that can be placed keeps the rule's minimums, has a quantity and a price that can be
/// traded, and a price and a notional exactly if a price was asked for.
pub proof fn prepared_orders_keep_the_rule(
    m: spec_fn(Arith) -> Binary64,
    qty: Binary64,
    limit_price: Option<Binary64>,
    side: Side,
    rule: MarketRuleModel,
)
    requires
        prepared(m, qty, limit_price, side, rule) is Ok,
    ensures
        ({
            let order = prepared(m, qty, limit_price, side, rule)->Ok_0;
            &&& tradable(order.qty)
            &&& rule.min_qty matches Some(min_qty) ==> !order.qty.lt(min_qty)
            &&& order.limit_price is Some <==> limit_price is Some
            &&& order.notional_usd is Some <==> limit_price is Some
            &&& order.limit_price matches Some(price) ==> tradable(price)
            &&& order.notional_usd matches Some(notional) ==> notional == m(
                Arith::Mul(order.qty, order.limit_price->0),
            ) && (rule.min_notional matches Some(min_notional) ==> !notional.lt(min_notional))
        }),
{
}

/// Without steps, ticks and precisions an order is placed as it was asked for.
pub proof fn a_rule_without_steps_changes_nothing(
    m: spec_fn(Arith) -> Binary64,
    qty: Binary64,
    price: Binary64,
    side: Side,
    rule: MarketRuleModel,
)
    requires
        rule.qty_step is None,
        rule.price_tick is None,
        rule.qty_precision is None,
        rule.price_precision is None,
        prepared(m, qty, Some(price), side, rule) is Ok,
    ensures
        prepared(m, qty, Some(price), side, rule)->Ok_0.qty == qty,
        prepared(m, qty, Some(price), side, rule)->Ok_0.limit_price == Some(price),
{
}

/// How many whole units a quotient stands for: what a rounding error may have taken or added, `1e-12`,
/// is forgiven.
pub open spec fn whole_units(m: spec_fn(Arith) -> Binary64, quotient: Binary64, up: bool) -> Binary64 {
    let forgiven = Binary64 { bits: 4427486594234968593 };
    if up {
        m(Arith::Ceil(m(Arith::Sub(quotient, forgiven))))
    } else {
        m(Arith::Floor(m(Arith::Add(quotient, forgiven))))
    }
}

/// Whether `r` is a value brought to whole steps, where there is a step above zero, and then to a number
/// of decimals, where one is asked for: upwards or downwards.
pub open spec fn is_aligned(
    m: spec_fn(Arith) -> Binary64,
    value: Binary64,
    step: Option<Binary64>,
    decimals: Option<u32>,
    up: bool,
    r: Binary64,
) -> bool {
    let stepped = if step is Some && zero().lt(step->0) {
        m(Arith::Mul(whole_units(m, m(Arith::Div(value, step->0)), up), step->0))
    } else {
        value
    };
    if decimals is Some {
        let scale = m(Arith::PowerOfTen(decimals->0 as i32));
        r == m(Arith::Div(whole_units(m, m(Arith::Mul(stepped, scale)), up), scale))
    } else {
        r == stepped
    }
}

/// Whether a number is finite and above zero.
pub open spec fn is_amount(x: Binary64) -> bool {
    x.finite() && zero().lt(x)
}

/// An order is placed with its quantity brought down to the rule's step and decimals, and its price
/// brought down to the rule's tick and decimals by a buyer, and up by a seller. It can be placed exactly
/// if these and what was asked for are finite and above zero, the quantity is not below the smallest
/// one, and the product of both is not below the smallest notional.
pub proof fn orders_are_brought_to_the_rule(
    m: spec_fn(Arith) -> Binary64,
    qty: Binary64,
    price: Binary64,
    side: Side,
    rule: MarketRuleModel,
    q: Binary64,
    p: Binary64,
)
    requires
        is_aligned(m, qty, rule.qty_step, rule.qty_precision, false, q),
        is_aligned(m, price, rule.price_tick, rule.price_precision, side is Sell, p),
    ensures
        ({
            let order = prepared(m, qty, Some(price), side, rule);
            let bare = prepared(m, qty, None, side, rule);
            let notional_usd = m(Arith::Mul(q, p));
            let qty_fits = is_amount(qty) && is_amount(q);
            let price_fits = is_amount(price) && is_amount(p);
            let qty_suffices = rule.min_qty is None || !q.lt(rule.min_qty->0);
            let notional_suffices = rule.min_notional is None || !notional_usd.lt(
                rule.min_notional->0,
            );
            &&& order is Ok <==> qty_fits && qty_suffices && price_fits && notional_suffices
            &&& order is Ok ==> order->Ok_0.qty == q && order->Ok_0.limit_price == Some(p)
                && order->Ok_0.notional_usd == Some(notional_usd)
            &&& bare is Ok <==> qty_fits && qty_suffices
            &&& bare is Ok ==> bare->Ok_0.qty == q && bare->Ok_0.limit_price is None
                && bare->Ok_0.notional_usd is None
            &&& !qty_fits ==> order == Err::<PreparedPlaceOrder, PlaceOrderReject>(
                PlaceOrderReject::InvalidQty,
            ) && bare == order
            &&& qty_fits && !qty_suffices ==> order == Err::<PreparedPlaceOrder, PlaceOrderReject>(
                PlaceOrderReject::BelowMinQty { qty: q, min_qty: rule.min_qty->0 },
            ) && bare == order
            &&& qty_fits && qty_suffices && !price_fits ==> order == Err::<
                PreparedPlaceOrder,
                PlaceOrderReject,
            >(PlaceOrderReject::InvalidLimitPrice)
            &&& qty_fits && qty_suffices && price_fits && !notional_suffices ==> order == Err::<
                PreparedPlaceOrder,
                PlaceOrderReject,
            >(
                PlaceOrderReject::BelowMinNotional {
                    notional_usd,
                    min_notional: rule.min_notional->0,
                },
            )
        }),
{
}

/// A rejection says which limit was missed, with what it was held against.
pub proof fn rejections_are_worded(
    show: spec_fn(Binary64) -> Seq<char>,
    had: Binary64,
    least: Binary64,
)
    ensures
        PlaceOrderReject::InvalidQty.words(show) == "invalid qty"@,
        PlaceOrderReject::InvalidLimitPrice.words(show) == "invalid limit price"@,
        (PlaceOrderReject::BelowMinQty { qty: had, min_qty: least }).words(show) == "qty "@ + show(had)
            + " below min_qty "@ + show(least),
        (PlaceOrderReject::BelowMinNotional { notional_usd: had, min_notional: least }).words(show)
            == "notional "@ + show(had) + " below min_notional "@ + show(least),
{
}

} // verus!
