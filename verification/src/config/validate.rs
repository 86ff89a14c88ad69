//! The rules that strategies and accounts have to keep.

use vstd::prelude::*;
use vstd::utf8::encode_utf8;

use crate::config::crypto::{is_maskable, mask_api_key, maskable, masked};
use crate::config::ids::{AccountId, StrategyId};
use crate::config::model::{
    AccountRecord, AccountRecordModel, AccountUpsertRequest, AccountUpsertRequestModel,
    AccountValidationStatus, SpreadLevel, StrategyConfigModel, StrategyLeg, StrategyLegModel,
    StrategyRecord, StrategyRecordModel, StrategyUpsertRequest, ValidatedAccountInput,
    ValidatedAccountInputModel, ValidatedStrategy,
};
use crate::error::{outcome, AppError, AppErrorModel, AppResult};
use crate::num::zero;
use crate::text::{
    ascii_alphanumeric, decimal, is_ascii_alphanumeric, numeral, to_ascii_uppercase, trim, trimmed,
    uppercased,
};

verus! {

/// A broken rule, told by a text behind the name of a field.
pub open spec fn broken(field: Seq<char>, rule: Seq<char>) -> AppErrorModel {
    AppErrorModel::Validation(field + rule)
}

/// The characters of identifiers.
pub open spec fn identifier_char(c: char) -> bool {
    ascii_alphanumeric(c) || c == '_' || c == '-'
}

/// The characters of symbols.
pub open spec fn symbol_char(c: char) -> bool {
    ascii_alphanumeric(c) || c == '_' || c == '-' || c == '.'
}

/// An identifier without the white space around it, if it has only characters of identifiers and at
/// least one.
pub open spec fn identifier(value: Seq<char>, field: Seq<char>) -> Result<Seq<char>, AppErrorModel> {
    let text = trimmed(value);
    if text.len() == 0 {
        Err(broken(field, " 不能为空"@))
    } else if exists|i: int| 0 <= i < text.len() && !identifier_char(#[trigger] text[i]) {
        Err(broken(field, " 只能包含字母、数字、`_`、`-`"@))
    } else {
        Ok(text)
    }
}

/// A name without the white space around it, if there is anything else.
pub open spec fn name_of(value: Seq<char>, field: Seq<char>) -> Result<Seq<char>, AppErrorModel> {
    let text = trimmed(value);
    if text.len() == 0 {
        Err(broken(field, " 不能为空"@))
    } else {
        Ok(text)
    }
}

/// A secret without the white space around it, if it has at least four bytes.
pub open spec fn secret_of(value: Seq<char>, field: Seq<char>) -> Result<Seq<char>, AppErrorModel> {
    let text = trimmed(value);
    if encode_utf8(text).len() < 4 {
        Err(broken(field, " 至少需要 4 个字符"@))
    } else {
        Ok(text)
    }
}

/// A symbol in upper case and without the white space around it, if it has only characters of
/// symbols and at least one.
pub open spec fn symbol_of(value: Seq<char>, field: Seq<char>) -> Result<Seq<char>, AppErrorModel> {
    let text = uppercased(trimmed(value));
    if text.len() == 0 {
        Err(broken(field, " 不能为空"@))
    } else if exists|i: int| 0 <= i < text.len() && !symbol_char(#[trigger] text[i]) {
        Err(broken(field, " 只能包含字母、数字、`_`、`-`、`.`"@))
    } else {
        Ok(text)
    }
}

/// The account with an id; of several the last.
pub open spec fn account_with(accounts: Seq<AccountRecordModel>, id: Seq<char>) -> Option<
    AccountRecordModel,
>
    decreases accounts.len(),
{
    if accounts.len() == 0 {
        None
    } else if accounts.last().id == id {
        Some(accounts.last())
    } else {
        account_with(accounts.drop_last(), id)
    }
}

/// A leg with its identifier and symbol brought into shape, if there is an account for it on its
/// exchange.
pub open spec fn leg_of(
    leg: StrategyLegModel,
    label: Seq<char>,
    accounts: Seq<AccountRecordModel>,
) -> Result<StrategyLegModel, AppErrorModel> {
    match identifier(leg.account_id, label + ".account_id"@) {
        Err(why) => Err(why),
        Ok(account_id) => match symbol_of(leg.symbol, label + ".symbol"@) {
            Err(why) => Err(why),
            Ok(symbol) => match account_with(accounts, account_id) {
                None => Err(
                    AppErrorModel::Validation(
                        label + ".account_id `"@ + account_id
                            + "` 不存在，保存策略前请先创建账户"@,
                    ),
                ),
                Some(account) => if account.exchange != leg.exchange {
                    Err(
                        AppErrorModel::Validation(
                            label + ".exchange 与 account `"@ + account_id
                                + "` 的 exchange 不匹配"@,
                        ),
                    )
                } else {
                    Ok(StrategyLegModel { exchange: leg.exchange, symbol, account_id })
                },
            },
        },
    }
}

/// What is wrong with the account of a strategy that is enabled, if anything.
pub open spec fn account_fault(
    account_id: Seq<char>,
    accounts: Seq<AccountRecordModel>,
    strategy_id: Seq<char>,
) -> Option<AppErrorModel> {
    match account_with(accounts, account_id) {
        None => Some(
            AppErrorModel::Validation(
                "strategy `"@ + strategy_id + "` 引用了不存在的 account_id `"@ + account_id
                    + "`"@,
            ),
        ),
        Some(account) => if !account.enabled {
            Some(
                AppErrorModel::Validation(
                    "strategy `"@ + strategy_id + "` 引用的 account `"@ + account_id
                        + "` 当前未启用"@,
                ),
            )
        } else {
            None
        },
    }
}

/// What is wrong with a level, if anything: its spread and its notional have to be finite and above
/// zero, and its spread above that of the level before it.
pub open spec fn level_fault(
    levels: Seq<SpreadLevel>,
    label: Seq<char>,
    i: int,
) -> Option<AppErrorModel> {
    let level = levels[i];
    if !level.spread_pct.finite() || level.spread_pct.le(zero()) {
        Some(
            AppErrorModel::Validation(
                label + "["@ + numeral(i as nat) + "].spread_pct 必须是大于 0 的有限数值"@,
            ),
        )
    } else if !level.notional_usd.finite() || level.notional_usd.le(zero()) {
        Some(
            AppErrorModel::Validation(
                label + "["@ + numeral(i as nat) + "].notional_usd 必须是大于 0 的有限数值"@,
            ),
        )
    } else if i > 0 && level.spread_pct.le(levels[i - 1].spread_pct) {
        Some(AppErrorModel::Validation(label + " 必须按 spread_pct 严格递增"@))
    } else {
        None
    }
}

/// What is wrong with the first levels, if anything.
pub open spec fn first_level_fault(
    levels: Seq<SpreadLevel>,
    label: Seq<char>,
    n: nat,
) -> Option<AppErrorModel>
    decreases n,
{
    if n == 0 {
        None
    } else if first_level_fault(levels, label, (n - 1) as nat) is Some {
        first_level_fault(levels, label, (n - 1) as nat)
    } else {
        level_fault(levels, label, n - 1)
    }
}

/// What is wrong with levels, if anything: there has to be one, and the first that is wrong tells.
pub open spec fn levels_fault(levels: Seq<SpreadLevel>, label: Seq<char>) -> Option<AppErrorModel> {
    if levels.len() == 0 {
        Some(broken(label, " 不能为空"@))
    } else {
        first_level_fault(levels, label, levels.len())
    }
}

/// What is wrong with a strategy whose legs are in order, if anything.
pub open spec fn settings_fault(
    request: StrategyConfigModel,
    id: Seq<char>,
    long_leg: StrategyLegModel,
    short_leg: StrategyLegModel,
    accounts: Seq<AccountRecordModel>,
) -> Option<AppErrorModel> {
    if long_leg.exchange == short_leg.exchange {
        Some(
            AppErrorModel::Validation(
                "V1 先按跨交易所套利约束，long_leg.exchange 与 short_leg.exchange 不能相同"@,
            ),
        )
    } else if request.enabled && account_fault(long_leg.account_id, accounts, id) is Some {
        account_fault(long_leg.account_id, accounts, id)
    } else if request.enabled && account_fault(short_leg.account_id, accounts, id) is Some {
        account_fault(short_leg.account_id, accounts, id)
    } else if levels_fault(request.open_levels, "open_levels"@) is Some {
        levels_fault(request.open_levels, "open_levels"@)
    } else if levels_fault(request.close_levels, "close_levels"@) is Some {
        levels_fault(request.close_levels, "close_levels"@)
    } else if request.max_total_notional.le(zero()) {
        Some(AppErrorModel::Validation("max_total_notional 必须大于 0"@))
    } else if request.max_open_orders == 0 {
        Some(AppErrorModel::Validation("max_open_orders 必须大于 0"@))
    } else if request.stale_order_query_ms == 0 {
        Some(AppErrorModel::Validation("stale_order_query_ms 必须大于 0"@))
    } else {
        None
    }
}

/// A strategy brought into shape, or the first rule that it breaks.
pub open spec fn checked_strategy(
    request: StrategyConfigModel,
    accounts: Seq<AccountRecordModel>,
) -> Result<StrategyConfigModel, AppErrorModel> {
    match identifier(request.id, "strategy id"@) {
        Err(why) => Err(why),
        Ok(id) => match name_of(request.name, "strategy name"@) {
            Err(why) => Err(why),
            Ok(name) => match leg_of(request.long_leg, "long_leg"@, accounts) {
                Err(why) => Err(why),
                Ok(long_leg) => match leg_of(request.short_leg, "short_leg"@, accounts) {
                    Err(why) => Err(why),
                    Ok(short_leg) => match settings_fault(
                        request,
                        id,
                        long_leg,
                        short_leg,
                        accounts,
                    ) {
                        Some(why) => Err(why),
                        None => Ok(StrategyConfigModel { id, name, long_leg, short_leg, ..request }),
                    },
                },
            },
        },
    }
}

/// The first strategy that breaks a rule, by what it breaks.
pub open spec fn strategies_fault(
    strategies: Seq<StrategyRecordModel>,
    accounts: Seq<AccountRecordModel>,
) -> Option<AppErrorModel>
    decreases strategies.len(),
{
    if strategies.len() == 0 {
        None
    } else if strategies_fault(strategies.drop_last(), accounts) is Some {
        strategies_fault(strategies.drop_last(), accounts)
    } else {
        match checked_strategy(strategies.last().config, accounts) {
            Ok(_) => None,
            Err(why) => Some(why),
        }
    }
}

/// An account brought into shape, or the first rule that it breaks.
pub open spec fn checked_account(request: AccountUpsertRequestModel) -> Result<
    ValidatedAccountInputModel,
    AppErrorModel,
> {
    match identifier(request.id, "account id"@) {
        Err(why) => Err(why),
        Ok(id) => match name_of(request.name, "account name"@) {
            Err(why) => Err(why),
            Ok(name) => match secret_of(request.api_key, "api_key"@) {
                Err(why) => Err(why),
                Ok(api_key) => match secret_of(request.api_secret, "api_secret"@) {
                    Err(why) => Err(why),
                    Ok(api_secret) => Ok(
                        ValidatedAccountInputModel {
                            id,
                            name,
                            exchange: request.exchange,
                            enabled: request.enabled,
                            api_key,
                            api_secret,
                            passphrase: match request.passphrase {
                                Some(value) => if trimmed(value).len() == 0 {
                                    None
                                } else {
                                    Some(trimmed(value))
                                },
                                None => None,
                            },
                            masked_api_key: masked(api_key),
                            validation_status: AccountValidationStatus::DryRunOk,
                        },
                    ),
                },
            },
        },
    }
}

/// Whether the key of an account that keeps the rules can be masked.
pub open spec fn account_maskable(request: AccountUpsertRequestModel) -> bool {
    checked_account(request) is Ok ==> maskable(trimmed(request.api_key))
}

fn rule_error(field: &str, rule: &str) -> (r: AppError)
    ensures
        r@ == broken(field@, rule@),
{
    let mut message = field.to_owned();
    message.append(rule);
    AppError::Validation(message)
}

fn validate_identifier(value: &str, field: &str) -> (r: AppResult<String>)
    ensures
        outcome(r) == identifier(value@, field@),
{
    let text = trim(value);
    if text.as_str().is_empty() {
        return Err(rule_error(field, " 不能为空"));
    }
    for c in it: text.as_str().chars()
        invariant
            it.seq() == text@,
            text@ == trimmed(value@),
            text@.len() > 0,
            forall|i: int| 0 <= i < it.index() ==> identifier_char(#[trigger] text@[i]),
    {
        assert(c == text@[it.index()]);
        if !(is_ascii_alphanumeric(c) || c == '_' || c == '-') {
            assert(!identifier_char(text@[it.index()]));
            return Err(rule_error(field, " 只能包含字母、数字、`_`、`-`"));
        }
    }
    Ok(text)
}

fn validate_name(value: &str, field: &str) -> (r: AppResult<String>)
    ensures
        outcome(r) == name_of(value@, field@),
{
    let text = trim(value);
    if text.as_str().is_empty() {
        return Err(rule_error(field, " 不能为空"));
    }
    Ok(text)
}

fn validate_secret_field(value: &str, field: &str) -> (r: AppResult<String>)
    ensures
        outcome(r) == secret_of(value@, field@),
{
    let text = trim(value);
    if text.as_str().as_bytes().len() < 4 {
        return Err(rule_error(field, " 至少需要 4 个字符"));
    }
    Ok(text)
}

/// Holds a symbol to the rules and brings it into upper case.
pub fn validate_symbol(value: &str, field: &str) -> (r: AppResult<String>)
    ensures
        outcome(r) == symbol_of(value@, field@),
{
    let trimmed_value = trim(value);
    let text = to_ascii_uppercase(trimmed_value.as_str());
    if text.as_str().is_empty() {
        return Err(rule_error(field, " 不能为空"));
    }
    for c in it: text.as_str().chars()
        invariant
            it.seq() == text@,
            text@ == uppercased(trimmed(value@)),
            text@.len() > 0,
            forall|i: int| 0 <= i < it.index() ==> symbol_char(#[trigger] text@[i]),
    {
        assert(c == text@[it.index()]);
        if !(is_ascii_alphanumeric(c) || c == '_' || c == '-' || c == '.') {
            assert(!symbol_char(text@[it.index()]));
            return Err(rule_error(field, " 只能包含字母、数字、`_`、`-`、`.`"));
        }
    }
    Ok(text)
}

fn find_account<'a>(accounts: &'a [AccountRecord], id: &AccountId) -> (r: Option<&'a AccountRecord>)
    ensures
        match r {
            Some(account) => account_with(accounts.deep_view(), id@) == Some(account@),
            None => account_with(accounts.deep_view(), id@) is None,
        },
{
    let ghost all = accounts.deep_view();
    let mut i: usize = accounts.len();
    assert(all.take(all.len() as int) =~= all);
    while i > 0
        invariant
            i <= accounts.len(),
            all == accounts.deep_view(),
            account_with(all, id@) == account_with(all.take(i as int), id@),
        decreases i,
    {
        assert(all.take(i as int).last() == accounts[i - 1]@);
        assert(all.take(i as int).drop_last() =~= all.take(i - 1));
        if accounts[i - 1].id.same(id) {
            return Some(&accounts[i - 1]);
        }
        i -= 1;
    }
    None
}

fn validate_leg(leg: &StrategyLeg, label: &str, accounts: &[AccountRecord]) -> (r: AppResult<
    StrategyLeg,
>)
    ensures
        outcome(r) == leg_of(leg@, label@, accounts.deep_view()),
{
    let mut account_field = label.to_owned();
    account_field.append(".account_id");
    let account_id = match validate_identifier(leg.account_id.as_str(), account_field.as_str()) {
        Ok(id) => AccountId::new(id),
        Err(why) => return Err(why),
    };
    let mut symbol_field = label.to_owned();
    symbol_field.append(".symbol");
    let symbol = match validate_symbol(leg.symbol.as_str(), symbol_field.as_str()) {
        Ok(symbol) => symbol,
        Err(why) => return Err(why),
    };
    let account = match find_account(accounts, &account_id) {
        Some(account) => account,
        None => {
            let mut message = label.to_owned();
            message.append(".account_id `");
            message.append(account_id.as_str());
            message.append("` 不存在，保存策略前请先创建账户");
            return Err(AppError::Validation(message));
        },
    };
    if account.exchange != leg.exchange {
        let mut message = label.to_owned();
        message.append(".exchange 与 account `");
        message.append(account_id.as_str());
        message.append("` 的 exchange 不匹配");
        return Err(AppError::Validation(message));
    }
    Ok(StrategyLeg { exchange: leg.exchange, symbol, account_id })
}

fn ensure_account_enabled(
    account_id: &AccountId,
    accounts: &[AccountRecord],
    strategy_id: &StrategyId,
) -> (r: AppResult<()>)
    ensures
        match account_fault(account_id@, accounts.deep_view(), strategy_id@) {
            Some(why) => r is Err && r->Err_0@ == why,
            None => r is Ok,
        },
{
    let account = match find_account(accounts, account_id) {
        Some(account) => account,
        None => {
            let mut message = "strategy `".to_owned();
            message.append(strategy_id.as_str());
            message.append("` 引用了不存在的 account_id `");
            message.append(account_id.as_str());
            message.append("`");
            return Err(AppError::Validation(message));
        },
    };
    if !account.enabled {
        let mut message = "strategy `".to_owned();
        message.append(strategy_id.as_str());
        message.append("` 引用的 account `");
        message.append(account_id.as_str());
        message.append("` 当前未启用");
        return Err(AppError::Validation(message));
    }
    Ok(())
}

fn level_error(label: &str, index: usize, rule: &str) -> (r: AppError)
    ensures
        r@ == AppErrorModel::Validation(label@ + "["@ + numeral(index as nat) + rule@),
{
    let mut message = label.to_owned();
    message.append("[");
    message.append(decimal(index as u128).as_str());
    message.append(rule);
    AppError::Validation(message)
}

fn validate_levels(levels: &Vec<SpreadLevel>, label: &str) -> (r: AppResult<Vec<SpreadLevel>>)
    ensures
        match levels_fault(levels@, label@) {
            Some(why) => r is Err && r->Err_0@ == why,
            None => r is Ok && r->Ok_0@ == levels@,
        },
{
    if levels.len() == 0 {
        return Err(rule_error(label, " 不能为空"));
    }
    let mut normalized: Vec<SpreadLevel> = Vec::new();
    let mut i: usize = 0;
    while i < levels.len()
        invariant
            i <= levels.len(),
            levels.len() > 0,
            normalized@ == levels@.take(i as int),
            first_level_fault(levels@, label@, i as nat) is None,
        decreases levels.len() - i,
    {
        let level = levels[i];
        proof {
            lemma_fault_stays(levels@, label@, (i + 1) as nat, levels@.len());
        }
        if !level.spread_pct.is_finite() || level.spread_pct.at_most(zero()) {
            return Err(level_error(label, i, "].spread_pct 必须是大于 0 的有限数值"));
        }
        if !level.notional_usd.is_finite() || level.notional_usd.at_most(zero()) {
            return Err(level_error(label, i, "].notional_usd 必须是大于 0 的有限数值"));
        }
        if i > 0 {
            if level.spread_pct.at_most(levels[i - 1].spread_pct) {
                return Err(rule_error(label, " 必须按 spread_pct 严格递增"));
            }
        }
        normalized.push(level);
        assert(levels@.take(i + 1) =~= levels@.take(i as int).push(level));
        i += 1;
    }
    assert(levels@.take(levels@.len() as int) =~= levels@);
    Ok(normalized)
}

proof fn lemma_fault_stays(levels: Seq<SpreadLevel>, label: Seq<char>, n: nat, m: nat)
    requires
        n <= m,
    ensures
        first_level_fault(levels, label, n) is Some ==> first_level_fault(levels, label, m)
            == first_level_fault(levels, label, n),
    decreases m,
{
    if n < m {
        lemma_fault_stays(levels, label, n, (m - 1) as nat);
    }
}

/// Holds a strategy to the rules and brings it into shape.
pub fn validate_strategy_request(
    request: &StrategyUpsertRequest,
    accounts: &[AccountRecord],
) -> (r: AppResult<ValidatedStrategy>)
    ensures
        outcome(r) == checked_strategy(request@, accounts.deep_view()),
{
    let id = match validate_identifier(request.id.as_str(), "strategy id") {
        Ok(id) => StrategyId::new(id),
        Err(why) => return Err(why),
    };
    let name = match validate_name(request.name.as_str(), "strategy name") {
        Ok(name) => name,
        Err(why) => return Err(why),
    };
    let long_leg = match validate_leg(&request.long_leg, "long_leg", accounts) {
        Ok(leg) => leg,
        Err(why) => return Err(why),
    };
    let short_leg = match validate_leg(&request.short_leg, "short_leg", accounts) {
        Ok(leg) => leg,
        Err(why) => return Err(why),
    };
    if long_leg.exchange == short_leg.exchange {
        return Err(
            AppError::Validation(
                "V1 先按跨交易所套利约束，long_leg.exchange 与 short_leg.exchange 不能相同".to_owned(),
            ),
        );
    }
    if request.enabled {
        if let Err(why) = ensure_account_enabled(&long_leg.account_id, accounts, &id) {
            return Err(why);
        }
        if let Err(why) = ensure_account_enabled(&short_leg.account_id, accounts, &id) {
            return Err(why);
        }
    }
    let open_levels = match validate_levels(&request.open_levels, "open_levels") {
        Ok(levels) => levels,
        Err(why) => return Err(why),
    };
    let close_levels = match validate_levels(&request.close_levels, "close_levels") {
        Ok(levels) => levels,
        Err(why) => return Err(why),
    };
    if request.max_total_notional.at_most(zero()) {
        return Err(AppError::Validation("max_total_notional 必须大于 0".to_owned()));
    }
    if request.max_open_orders == 0 {
        return Err(AppError::Validation("max_open_orders 必须大于 0".to_owned()));
    }
    if request.stale_order_query_ms == 0 {
        return Err(AppError::Validation("stale_order_query_ms 必须大于 0".to_owned()));
    }
    Ok(
        ValidatedStrategy {
            id,
            name,
            enabled: request.enabled,
            long_leg,
            short_leg,
            open_levels,
            close_levels,
            max_total_notional: request.max_total_notional,
            max_open_orders: request.max_open_orders,
            stale_order_query_ms: request.stale_order_query_ms,
        },
    )
}

/// Holds stored strategies to the rules.
pub fn validate_existing_strategies(
    strategies: &[StrategyRecord],
    accounts: &[AccountRecord],
) -> (r: AppResult<()>)
    ensures
        match strategies_fault(strategies.deep_view(), accounts.deep_view()) {
            Some(why) => r is Err && r->Err_0@ == why,
            None => r is Ok,
        },
{
    let ghost all = strategies.deep_view();
    let mut i: usize = 0;
    while i < strategies.len()
        invariant
            i <= strategies.len(),
            all == strategies.deep_view(),
            strategies_fault(all.take(i as int), accounts.deep_view()) is None,
        decreases strategies.len() - i,
    {
        assert(all.take(i + 1).drop_last() =~= all.take(i as int));
        assert(all.take(i + 1).last() == strategies[i as int]@);
        let request = strategies[i].request();
        if let Err(why) = validate_strategy_request(&request, accounts) {
            proof {
                lemma_strategies_fault(all, accounts.deep_view(), i + 1);
            }
            return Err(why);
        }
        i += 1;
    }
    assert(all.take(all.len() as int) =~= all);
    Ok(())
}

proof fn lemma_strategies_fault(
    strategies: Seq<StrategyRecordModel>,
    accounts: Seq<AccountRecordModel>,
    n: int,
)
    requires
        0 <= n <= strategies.len(),
        strategies_fault(strategies.take(n), accounts) is Some,
    ensures
        strategies_fault(strategies, accounts) == strategies_fault(strategies.take(n), accounts),
    decreases strategies.len() - n,
{
    if n < strategies.len() {
        assert(strategies.take(n + 1).drop_last() =~= strategies.take(n));
        lemma_strategies_fault(strategies, accounts, n + 1);
    } else {
        assert(strategies.take(n) =~= strategies);
    }
}

/// Whether the key of an account that keeps the rules can be masked.
pub fn is_account_maskable(request: &AccountUpsertRequest) -> (r: bool)
    ensures
        r == account_maskable(request@),
{
    let api_key = trim(request.api_key.as_str());
    let kept = validate_identifier(request.id.as_str(), "account id").is_ok() && validate_name(
        request.name.as_str(),
        "account name",
    ).is_ok() && validate_secret_field(request.api_key.as_str(), "api_key").is_ok()
        && validate_secret_field(request.api_secret.as_str(), "api_secret").is_ok();
    !kept || is_maskable(api_key.as_str())
}

/// Holds an account to the rules and brings it into shape.
pub fn validate_account_request(request: &AccountUpsertRequest) -> (r: AppResult<
    ValidatedAccountInput,
>)
    requires
        account_maskable(request@),
    ensures
        outcome(r) == checked_account(request@),
{
    let id = match validate_identifier(request.id.as_str(), "account id") {
        Ok(id) => AccountId::new(id),
        Err(why) => return Err(why),
    };
    let name = match validate_name(request.name.as_str(), "account name") {
        Ok(name) => name,
        Err(why) => return Err(why),
    };
    let api_key = match validate_secret_field(request.api_key.as_str(), "api_key") {
        Ok(api_key) => api_key,
        Err(why) => return Err(why),
    };
    let api_secret = match validate_secret_field(request.api_secret.as_str(), "api_secret") {
        Ok(api_secret) => api_secret,
        Err(why) => return Err(why),
    };
    let passphrase = match &request.passphrase {
        Some(value) => {
            let value = trim(value.as_str());
            if value.as_str().is_empty() {
                None
            } else {
                Some(value)
            }
        },
        None => None,
    };
    let masked_api_key = mask_api_key(api_key.as_str());
    Ok(
        ValidatedAccountInput {
            id,
            name,
            exchange: request.exchange,
            enabled: request.enabled,
            api_key,
            api_secret,
            passphrase,
            masked_api_key,
            validation_status: AccountValidationStatus::DryRunOk,
        },
    )
}

} // verus!
