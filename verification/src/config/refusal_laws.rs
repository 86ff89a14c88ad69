//! What is said of strategies and accounts that break a rule.

use vstd::prelude::*;
use vstd::utf8::encode_utf8;

use crate::config::model::{
    AccountRecordModel, AccountUpsertRequestModel, SpreadLevel, StrategyConfigModel,
    StrategyLegModel, ValidatedAccountInputModel,
};
use crate::config::validate::{
    account_fault, checked_account, checked_strategy, first_level_fault, identifier, leg_of,
    level_fault, levels_fault, name_of, secret_of, symbol_of,
};
use crate::config::validate_laws::{
    is_account_of, is_identifier, is_symbol, lemma_account_of, lemma_identifier, lemma_symbol,
};
use crate::error::AppErrorModel;
use crate::num::zero;
use crate::text::{numeral, trimmed, uppercased};

verus! {

/// A refusal with a text.
pub open spec fn refused<T>(text: Seq<char>) -> Result<T, AppErrorModel> {
    Err(AppErrorModel::Validation(text))
}

/// What is said of a field names the field: that it is empty, that it has characters which it may not
/// have, or that it is too short.
pub proof fn fields_are_refused_by_name(value: Seq<char>, field: Seq<char>)
    ensures
        trimmed(value).len() == 0 ==> {
            &&& identifier(value, field) == refused::<Seq<char>>(field + " 不能为空"@)
            &&& name_of(value, field) == refused::<Seq<char>>(field + " 不能为空"@)
            &&& symbol_of(value, field) == refused::<Seq<char>>(field + " 不能为空"@)
        },
        trimmed(value).len() > 0 ==> name_of(value, field) == Ok::<Seq<char>, AppErrorModel>(
            trimmed(value),
        ),
        trimmed(value).len() > 0 && !is_identifier(trimmed(value)) ==> identifier(value, field)
            == refused::<Seq<char>>(field + " 只能包含字母、数字、`_`、`-`"@),
        is_identifier(trimmed(value)) ==> identifier(value, field) == Ok::<
            Seq<char>,
            AppErrorModel,
        >(trimmed(value)),
        trimmed(value).len() > 0 && !is_symbol(trimmed(value)) ==> symbol_of(value, field)
            == refused::<Seq<char>>(field + " 只能包含字母、数字、`_`、`-`、`.`"@),
        is_symbol(trimmed(value)) ==> symbol_of(value, field) == Ok::<Seq<char>, AppErrorModel>(
            uppercased(trimmed(value)),
        ),
        encode_utf8(trimmed(value)).len() < 4 ==> secret_of(value, field) == refused::<Seq<char>>(
            field + " 至少需要 4 个字符"@,
        ),
        encode_utf8(trimmed(value)).len() >= 4 ==> secret_of(value, field) == Ok::<
            Seq<char>,
            AppErrorModel,
        >(trimmed(value)),
{
    lemma_identifier(value, field);
    lemma_symbol(value, field);
}

/// What is said of a leg: first what is wrong with its account's id, then with its symbol; then that
/// there is no such account, or that it is on another exchange.
pub proof fn legs_are_refused(
    leg: StrategyLegModel,
    label: Seq<char>,
    accounts: Seq<AccountRecordModel>,
    k: int,
)
    ensures
        ({
            let id = trimmed(leg.account_id);
            let symbol = trimmed(leg.symbol);
            let r = leg_of(leg, label, accounts);
            let found = is_account_of(accounts, id, k);
            let missing = forall|j: int|
                0 <= j < accounts.len() ==> (#[trigger] accounts[j]).id != id;
            let fits = is_identifier(id) && is_symbol(symbol);
            &&& id.len() == 0 ==> r == refused::<StrategyLegModel>(
                label + ".account_id"@ + " 不能为空"@,
            )
            &&& id.len() > 0 && !is_identifier(id) ==> r == refused::<StrategyLegModel>(
                label + ".account_id"@ + " 只能包含字母、数字、`_`、`-`"@,
            )
            &&& is_identifier(id) && symbol.len() == 0 ==> r == refused::<StrategyLegModel>(
                label + ".symbol"@ + " 不能为空"@,
            )
            &&& is_identifier(id) && symbol.len() > 0 && !is_symbol(symbol) ==> r == refused::<
                StrategyLegModel,
            >(label + ".symbol"@ + " 只能包含字母、数字、`_`、`-`、`.`"@)
            &&& fits && missing ==> r == refused::<StrategyLegModel>(
                label + ".account_id `"@ + id + "` 不存在，保存策略前请先创建账户"@,
            )
            &&& fits && found && accounts[k].exchange != leg.exchange ==> r == refused::<
                StrategyLegModel,
            >(label + ".exchange 与 account `"@ + id + "` 的 exchange 不匹配"@)
            &&& fits && found && accounts[k].exchange == leg.exchange ==> r is Ok
                && r->Ok_0.exchange == leg.exchange && r->Ok_0.symbol == uppercased(symbol)
                && r->Ok_0.account_id == id
        }),
{
    let id = trimmed(leg.account_id);
    fields_are_refused_by_name(leg.account_id, label + ".account_id"@);
    fields_are_refused_by_name(leg.symbol, label + ".symbol"@);
    lemma_account_of(accounts, id);
    if (forall|j: int| 0 <= j < accounts.len() ==> (#[trigger] accounts[j]).id != id) && exists|
        j: int,
    | #[trigger]
        is_account_of(accounts, id, j) {
        let j = choose|j: int| #[trigger] is_account_of(accounts, id, j);
        assert(accounts[j].id == id);
    }
}

/// What is said of levels: that there are none, or what is wrong with the first that is wrong, which is
/// at `at`: its spread, its notional, or that its spread is not above the one before.
pub proof fn levels_are_refused(levels: Seq<SpreadLevel>, label: Seq<char>) -> (at: int)
    ensures
        levels.len() == 0 ==> levels_fault(levels, label) == Some(
            AppErrorModel::Validation(label + " 不能为空"@),
        ),
        levels.len() > 0 && levels_fault(levels, label) is Some ==> {
            let level = levels[at];
            let rises = at == 0 || !level.spread_pct.le(levels[at - 1].spread_pct);
            let spread_fits = level.spread_pct.finite() && zero().lt(level.spread_pct);
            let notional_fits = level.notional_usd.finite() && zero().lt(level.notional_usd);
            &&& 0 <= at < levels.len()
            &&& forall|i: int|
                0 <= i < at ==> (#[trigger] levels[i]).spread_pct.finite() && zero().lt(
                    levels[i].spread_pct,
                ) && levels[i].notional_usd.finite() && zero().lt(levels[i].notional_usd) && (i == 0
                    || !levels[i].spread_pct.le(levels[i - 1].spread_pct))
            &&& levels_fault(levels, label) == Some(
                AppErrorModel::Validation(
                    if !spread_fits {
                        label + "["@ + numeral(at as nat)
                            + "].spread_pct 必须是大于 0 的有限数值"@
                    } else if !notional_fits {
                        label + "["@ + numeral(at as nat)
                            + "].notional_usd 必须是大于 0 的有限数值"@
                    } else {
                        label + " 必须按 spread_pct 严格递增"@
                    },
                ),
            )
            &&& !spread_fits || !notional_fits || !rises
        },
{
    lemma_first_fault(levels, label, levels.len())
}

proof fn lemma_first_fault(levels: Seq<SpreadLevel>, label: Seq<char>, n: nat) -> (at: int)
    requires
        n <= levels.len(),
    ensures
        first_level_fault(levels, label, n) is Some ==> 0 <= at < n && first_level_fault(
            levels,
            label,
            n,
        ) == level_fault(levels, label, at) && level_fault(levels, label, at) is Some,
        forall|i: int|
            0 <= i < (if first_level_fault(levels, label, n) is Some {
                at
            } else {
                n as int
            }) ==> (#[trigger] levels[i]).spread_pct.finite() && zero().lt(levels[i].spread_pct)
                && levels[i].notional_usd.finite() && zero().lt(levels[i].notional_usd) && (i == 0
                || !levels[i].spread_pct.le(levels[i - 1].spread_pct)),
    decreases n,
{
    if n == 0 {
        0
    } else {
        let at = lemma_first_fault(levels, label, (n - 1) as nat);
        if first_level_fault(levels, label, (n - 1) as nat) is Some {
            at
        } else {
            n - 1
        }
    }
}

/// What is said of the account of a strategy that is to be enabled: that it is not there, or that it is
/// not enabled.
pub proof fn accounts_in_use_are_refused(
    account_id: Seq<char>,
    accounts: Seq<AccountRecordModel>,
    strategy_id: Seq<char>,
    k: int,
)
    ensures
        (forall|j: int| 0 <= j < accounts.len() ==> (#[trigger] accounts[j]).id != account_id)
            ==> account_fault(account_id, accounts, strategy_id) == Some(
            AppErrorModel::Validation(
                "strategy `"@ + strategy_id + "` 引用了不存在的 account_id `"@ + account_id
                    + "`"@,
            ),
        ),
        is_account_of(accounts, account_id, k) && !accounts[k].enabled ==> account_fault(
            account_id,
            accounts,
            strategy_id,
        ) == Some(
            AppErrorModel::Validation(
                "strategy `"@ + strategy_id + "` 引用的 account `"@ + account_id
                    + "` 当前未启用"@,
            ),
        ),
        is_account_of(accounts, account_id, k) && accounts[k].enabled ==> account_fault(
            account_id,
            accounts,
            strategy_id,
        ) is None,
{
    lemma_account_of(accounts, account_id);
    if (forall|j: int| 0 <= j < accounts.len() ==> (#[trigger] accounts[j]).id != account_id)
        && exists|j: int| #[trigger] is_account_of(accounts, account_id, j) {
        let j = choose|j: int| #[trigger] is_account_of(accounts, account_id, j);
        assert(accounts[j].id == account_id);
    }
}

/// Of a strategy the first broken rule is said, in this order: id, name, long leg, short leg, different
/// exchanges, the accounts of the long and of the short leg where it is to be enabled, the levels for
/// opening and for closing, the largest notional, the number of orders, and the time of a query.
pub proof fn the_first_broken_rule_is_said(
    request: StrategyConfigModel,
    accounts: Seq<AccountRecordModel>,
)
    ensures
        ({
            let r = checked_strategy(request, accounts);
            let id = identifier(request.id, "strategy id"@);
            let name = name_of(request.name, "strategy name"@);
            let long = leg_of(request.long_leg, "long_leg"@, accounts);
            let short = leg_of(request.short_leg, "short_leg"@, accounts);
            let legs = id is Ok && name is Ok && long is Ok && short is Ok;
            let crosses = legs && long->Ok_0.exchange != short->Ok_0.exchange;
            let long_fault = account_fault(long->Ok_0.account_id, accounts, id->Ok_0);
            let short_fault = account_fault(short->Ok_0.account_id, accounts, id->Ok_0);
            let staffed = crosses && (request.enabled ==> long_fault is None && short_fault is None);
            let opens = levels_fault(request.open_levels, "open_levels"@);
            let closes = levels_fault(request.close_levels, "close_levels"@);
            let levelled = staffed && opens is None && closes is None;
            &&& id is Err ==> r == Err::<StrategyConfigModel, AppErrorModel>(id->Err_0)
            &&& id is Ok && name is Err ==> r == Err::<StrategyConfigModel, AppErrorModel>(
                name->Err_0,
            )
            &&& id is Ok && name is Ok && long is Err ==> r == Err::<
                StrategyConfigModel,
                AppErrorModel,
            >(long->Err_0)
            &&& id is Ok && name is Ok && long is Ok && short is Err ==> r == Err::<
                StrategyConfigModel,
                AppErrorModel,
            >(short->Err_0)
            &&& legs && !crosses ==> r == refused::<StrategyConfigModel>(
                "V1 先按跨交易所套利约束，long_leg.exchange 与 short_leg.exchange 不能相同"@,
            )
            &&& crosses && request.enabled && long_fault is Some ==> r == Err::<
                StrategyConfigModel,
                AppErrorModel,
            >(long_fault->0)
            &&& crosses && request.enabled && long_fault is None && short_fault is Some ==> r
                == Err::<StrategyConfigModel, AppErrorModel>(short_fault->0)
            &&& staffed && opens is Some ==> r == Err::<StrategyConfigModel, AppErrorModel>(
                opens->0,
            )
            &&& staffed && opens is None && closes is Some ==> r == Err::<
                StrategyConfigModel,
                AppErrorModel,
            >(closes->0)
            &&& levelled && request.max_total_notional.le(zero()) ==> r == refused::<
                StrategyConfigModel,
            >("max_total_notional 必须大于 0"@)
            &&& levelled && !request.max_total_notional.le(zero()) && request.max_open_orders == 0
                ==> r == refused::<StrategyConfigModel>("max_open_orders 必须大于 0"@)
            &&& levelled && !request.max_total_notional.le(zero()) && request.max_open_orders > 0
                && request.stale_order_query_ms == 0 ==> r == refused::<StrategyConfigModel>(
                "stale_order_query_ms 必须大于 0"@,
            )
        }),
{
}

/// Of an account the first broken rule is said, in this order: id, name, key, secret.
pub proof fn the_first_broken_rule_of_an_account_is_said(request: AccountUpsertRequestModel)
    ensures
        ({
            let r = checked_account(request);
            let id = identifier(request.id, "account id"@);
            let name = name_of(request.name, "account name"@);
            let key = secret_of(request.api_key, "api_key"@);
            let secret = secret_of(request.api_secret, "api_secret"@);
            &&& id is Err ==> r == Err::<ValidatedAccountInputModel, AppErrorModel>(id->Err_0)
            &&& id is Ok && name is Err ==> r == Err::<ValidatedAccountInputModel, AppErrorModel>(
                name->Err_0,
            )
            &&& id is Ok && name is Ok && key is Err ==> r == Err::<
                ValidatedAccountInputModel,
                AppErrorModel,
            >(key->Err_0)
            &&& id is Ok && name is Ok && key is Ok && secret is Err ==> r == Err::<
                ValidatedAccountInputModel,
                AppErrorModel,
            >(secret->Err_0)
        }),
{
}

} // verus!
