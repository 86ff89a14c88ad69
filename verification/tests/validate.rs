use perp_arb::config::ids::{AccountId, StrategyId};
use perp_arb::config::model::{
    AccountRecord, AccountUpsertRequest, AccountValidationStatus, EncryptedAccountSecrets,
    EncryptedValue, Exchange, SpreadLevel, StrategyLeg, StrategyUpsertRequest,
};
use perp_arb::config::validate::{
    is_account_maskable, validate_account_request, validate_existing_strategies,
    validate_strategy_request, validate_symbol,
};
use perp_arb::error::AppError;
use perp_arb::num::Binary64;

fn number(value: f64) -> Binary64 {
    Binary64 { bits: value.to_bits() }
}

fn sealed() -> EncryptedValue {
    EncryptedValue {
        algorithm: "a".to_owned(),
        nonce_b64: "n".to_owned(),
        ciphertext_b64: "c".to_owned(),
    }
}

fn account(id: &str, exchange: Exchange, enabled: bool) -> AccountRecord {
    AccountRecord {
        id: AccountId::new(id.to_owned()),
        name: id.to_owned(),
        exchange,
        enabled,
        masked_api_key: "***".to_owned(),
        validation_status: AccountValidationStatus::DryRunOk,
        credentials: EncryptedAccountSecrets {
            api_key: sealed(),
            api_secret: sealed(),
            passphrase: None,
        },
        created_at_ms: 1,
        updated_at_ms: 1,
    }
}

fn accounts() -> Vec<AccountRecord> {
    vec![
        account("bn", Exchange::BinanceUsdM, true),
        account("by", Exchange::BybitLinear, true),
        account("off", Exchange::BybitLinear, false),
    ]
}

fn leg(exchange: Exchange, symbol: &str, account: &str) -> StrategyLeg {
    StrategyLeg {
        exchange,
        symbol: symbol.to_owned(),
        account_id: AccountId::new(account.to_owned()),
    }
}

fn level(spread_pct: f64, notional_usd: f64) -> SpreadLevel {
    SpreadLevel { spread_pct: number(spread_pct), notional_usd: number(notional_usd) }
}

fn request() -> StrategyUpsertRequest {
    StrategyUpsertRequest {
        id: StrategyId::new(" s_1-A ".to_owned()),
        name: "  a name ".to_owned(),
        enabled: true,
        long_leg: leg(Exchange::BinanceUsdM, " btcusdt ", " bn "),
        short_leg: leg(Exchange::BybitLinear, "BtcUsdt.P", "by"),
        open_levels: vec![level(0.1, 100.0), level(0.2, 200.0)],
        close_levels: vec![level(0.05, 100.0)],
        max_total_notional: number(1000.0),
        max_open_orders: 4,
        stale_order_query_ms: 5000,
    }
}

fn refusal(request: StrategyUpsertRequest) -> String {
    match validate_strategy_request(&request, &accounts()) {
        Err(AppError::Validation(message)) => message,
        Err(_) => panic!("another kind of error"),
        Ok(_) => panic!("accepted"),
    }
}

fn changed(change: impl Fn(&mut StrategyUpsertRequest)) -> StrategyUpsertRequest {
    let mut changed = request();
    change(&mut changed);
    changed
}

#[test]
fn a_strategy_is_normalised() {
    let checked = validate_strategy_request(&request(), &accounts()).unwrap();
    assert_eq!(checked.id.as_str(), "s_1-A");
    assert_eq!(checked.name, "a name");
    assert_eq!(checked.long_leg.symbol, "BTCUSDT");
    assert_eq!(checked.long_leg.account_id.as_str(), "bn");
    assert_eq!(checked.short_leg.symbol, "BTCUSDT.P");
    assert_eq!(checked.open_levels, vec![level(0.1, 100.0), level(0.2, 200.0)]);
    assert_eq!(checked.close_levels, vec![level(0.05, 100.0)]);
    assert_eq!(checked.max_total_notional, number(1000.0));
    assert_eq!(checked.max_open_orders, 4);
    assert_eq!(checked.stale_order_query_ms, 5000);
}

#[test]
fn checking_again_changes_nothing() {
    let checked = validate_strategy_request(&request(), &accounts()).unwrap();
    let record = checked.into_record(3, 4);
    assert_eq!(record.created_at_ms, 3);
    assert_eq!(record.updated_at_ms, 4);
    let again = validate_strategy_request(&record.request(), &accounts()).unwrap();
    assert_eq!(again.id.as_str(), "s_1-A");
    assert_eq!(again.name, "a name");
    assert_eq!(again.long_leg.symbol, "BTCUSDT");
    assert!(validate_existing_strategies(&[record], &accounts()).is_ok());
}

#[test]
fn names_and_ids_are_checked() {
    assert_eq!(
        refusal(changed(|r| r.id = StrategyId::new("  ".to_owned()))),
        "strategy id 不能为空"
    );
    assert_eq!(
        refusal(changed(|r| r.id = StrategyId::new("a b".to_owned()))),
        "strategy id 只能包含字母、数字、`_`、`-`"
    );
    assert_eq!(refusal(changed(|r| r.name = " ".to_owned())), "strategy name 不能为空");
}

#[test]
fn legs_are_checked() {
    assert_eq!(
        refusal(changed(|r| r.long_leg = leg(Exchange::BinanceUsdM, "BTC", "é"))),
        "long_leg.account_id 只能包含字母、数字、`_`、`-`"
    );
    assert_eq!(
        refusal(changed(|r| r.long_leg = leg(Exchange::BinanceUsdM, " ", "bn"))),
        "long_leg.symbol 不能为空"
    );
    assert_eq!(
        refusal(changed(|r| r.short_leg = leg(Exchange::BybitLinear, "A/B", "by"))),
        "short_leg.symbol 只能包含字母、数字、`_`、`-`、`.`"
    );
    assert_eq!(
        refusal(changed(|r| r.short_leg = leg(Exchange::BybitLinear, "BTC", "none"))),
        "short_leg.account_id `none` 不存在，保存策略前请先创建账户"
    );
    assert_eq!(
        refusal(changed(|r| r.short_leg = leg(Exchange::BybitLinear, "BTC", "bn"))),
        "short_leg.exchange 与 account `bn` 的 exchange 不匹配"
    );
    assert_eq!(
        refusal(changed(|r| r.short_leg = leg(Exchange::BinanceUsdM, "BTC", "bn"))),
        "V1 先按跨交易所套利约束，long_leg.exchange 与 short_leg.exchange 不能相同"
    );
}

#[test]
fn an_enabled_strategy_needs_enabled_accounts() {
    let with_disabled = |r: &mut StrategyUpsertRequest| {
        r.short_leg = leg(Exchange::BybitLinear, "BTC", "off");
    };
    assert_eq!(
        refusal(changed(with_disabled)),
        "strategy `s_1-A` 引用的 account `off` 当前未启用"
    );
    let mut disabled = changed(with_disabled);
    disabled.enabled = false;
    assert!(validate_strategy_request(&disabled, &accounts()).is_ok());
}

#[test]
fn levels_are_checked() {
    assert_eq!(refusal(changed(|r| r.open_levels = vec![])), "open_levels 不能为空");
    assert_eq!(refusal(changed(|r| r.close_levels = vec![])), "close_levels 不能为空");
    for bad in [0.0, -1.0, f64::NAN, f64::INFINITY] {
        assert_eq!(
            refusal(changed(|r| r.open_levels = vec![level(0.1, 1.0), level(bad, 1.0)])),
            "open_levels[1].spread_pct 必须是大于 0 的有限数值"
        );
        assert_eq!(
            refusal(changed(|r| r.close_levels = vec![level(0.1, bad)])),
            "close_levels[0].notional_usd 必须是大于 0 的有限数值"
        );
    }
    assert_eq!(
        refusal(changed(|r| r.open_levels = vec![level(0.1, 1.0), level(0.1, 2.0)])),
        "open_levels 必须按 spread_pct 严格递增"
    );
}

#[test]
fn limits_are_checked() {
    assert_eq!(
        refusal(changed(|r| r.max_total_notional = number(0.0))),
        "max_total_notional 必须大于 0"
    );
    assert_eq!(refusal(changed(|r| r.max_open_orders = 0)), "max_open_orders 必须大于 0");
    assert_eq!(
        refusal(changed(|r| r.stale_order_query_ms = 0)),
        "stale_order_query_ms 必须大于 0"
    );
    // What is not a number is not at most zero either.
    let odd = changed(|r| r.max_total_notional = number(f64::NAN));
    assert!(validate_strategy_request(&odd, &accounts()).is_ok());
}

#[test]
fn of_two_accounts_of_one_id_the_last_counts() {
    let mut all = accounts();
    all.push(account("bn", Exchange::BybitLinear, true));
    match validate_strategy_request(&request(), &all) {
        Err(AppError::Validation(message)) => {
            assert_eq!(message, "long_leg.exchange 与 account `bn` 的 exchange 不匹配")
        }
        _ => panic!("not refused"),
    }
}

#[test]
fn stored_strategies_are_checked_in_turn() {
    let good = validate_strategy_request(&request(), &accounts()).unwrap().into_record(1, 1);
    let mut bad = validate_strategy_request(&request(), &accounts()).unwrap().into_record(1, 1);
    bad.max_open_orders = 0;
    match validate_existing_strategies(&[good, bad], &accounts()) {
        Err(AppError::Validation(message)) => {
            assert_eq!(message, "max_open_orders 必须大于 0")
        }
        _ => panic!("not refused"),
    }
    assert!(validate_existing_strategies(&[], &[]).is_ok());
}

fn account_request() -> AccountUpsertRequest {
    AccountUpsertRequest {
        id: AccountId::new(" acc ".to_owned()),
        name: " main ".to_owned(),
        exchange: Exchange::BybitLinear,
        enabled: true,
        api_key: "  key-12345 ".to_owned(),
        api_secret: " secret ".to_owned(),
        passphrase: Some("  ".to_owned()),
    }
}

fn account_refusal(request: AccountUpsertRequest) -> String {
    match validate_account_request(&request) {
        Err(AppError::Validation(message)) => message,
        _ => panic!("not refused"),
    }
}

#[test]
fn an_account_is_normalised() {
    let checked = validate_account_request(&account_request()).unwrap();
    assert_eq!(checked.id.as_str(), "acc");
    assert_eq!(checked.name, "main");
    assert_eq!(checked.api_key, "key-12345");
    assert_eq!(checked.api_secret, "secret");
    assert_eq!(checked.passphrase, None);
    assert_eq!(checked.masked_api_key, "key***45");
    assert_eq!(checked.validation_status, AccountValidationStatus::DryRunOk);
    let mut with_passphrase = account_request();
    with_passphrase.passphrase = Some(" p ".to_owned());
    assert_eq!(
        validate_account_request(&with_passphrase).unwrap().passphrase,
        Some("p".to_owned())
    );
}

#[test]
fn accounts_are_checked() {
    let mut bad = account_request();
    bad.id = AccountId::new("".to_owned());
    assert_eq!(account_refusal(bad), "account id 不能为空");
    let mut bad = account_request();
    bad.name = "\n".to_owned();
    assert_eq!(account_refusal(bad), "account name 不能为空");
    let mut bad = account_request();
    bad.api_key = " abc ".to_owned();
    assert_eq!(account_refusal(bad), "api_key 至少需要 4 个字符");
    let mut bad = account_request();
    bad.api_secret = "abc".to_owned();
    assert_eq!(account_refusal(bad), "api_secret 至少需要 4 个字符");
    // The length is that of the bytes.
    let mut short = account_request();
    short.api_secret = "汉字".to_owned();
    assert!(validate_account_request(&short).is_ok());
}

#[test]
fn keys_that_cannot_be_masked_are_told() {
    assert!(is_account_maskable(&account_request()));
    let mut odd = account_request();
    odd.api_key = "ab汉字cd".to_owned();
    assert!(!is_account_maskable(&odd));
    // Nothing is masked where the request is refused before.
    odd.name = "".to_owned();
    assert!(is_account_maskable(&odd));
}

#[test]
fn symbols_are_brought_into_capitals() {
    for (value, symbol) in [(" btcusdt ", "BTCUSDT"), ("A_b-c.9", "A_B-C.9"), ("X", "X")] {
        assert_eq!(validate_symbol(value, "symbol").unwrap(), symbol);
        assert_eq!(validate_symbol(symbol, "symbol").unwrap(), symbol);
    }
    for value in ["", "  ", "BTC USDT", "BTC/USDT", "\u{df}"] {
        match validate_symbol(value, "symbol") {
            Err(AppError::Validation(message)) => assert!(message.starts_with("symbol ")),
            _ => panic!("accepted"),
        }
    }
}
