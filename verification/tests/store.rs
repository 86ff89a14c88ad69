use perp_arb::config::crypto::CryptoContext;
use perp_arb::config::ids::{AccountId, StrategyId};
use perp_arb::config::model::{
    AccountUpsertRequest, Exchange, PersistedStore, SpreadLevel, StrategyLeg,
    StrategyUpsertRequest,
};
use perp_arb::config::persist::FileStore;
use perp_arb::config::validate::validate_existing_strategies;
use perp_arb::error::AppError;
use perp_arb::num::Binary64;

fn number(value: f64) -> Binary64 {
    Binary64 { bits: value.to_bits() }
}

fn account(id: &str, exchange: Exchange) -> AccountUpsertRequest {
    AccountUpsertRequest {
        id: AccountId::new(id.to_owned()),
        name: format!("account {id}"),
        exchange,
        enabled: true,
        api_key: format!("key-of-{id}"),
        api_secret: format!("secret-of-{id}"),
        passphrase: Some(format!("phrase-of-{id}")),
    }
}

fn leg(exchange: Exchange, account: &str) -> StrategyLeg {
    StrategyLeg {
        exchange,
        symbol: "BTCUSDT".to_owned(),
        account_id: AccountId::new(account.to_owned()),
    }
}

fn strategy(id: &str, enabled: bool) -> StrategyUpsertRequest {
    let level = SpreadLevel { spread_pct: number(1.0), notional_usd: number(100.0) };
    StrategyUpsertRequest {
        id: StrategyId::new(id.to_owned()),
        name: format!("strategy {id}"),
        enabled,
        long_leg: leg(Exchange::BinanceUsdM, "bn"),
        short_leg: leg(Exchange::BybitLinear, "by"),
        open_levels: vec![level],
        close_levels: vec![level],
        max_total_notional: number(1000.0),
        max_open_orders: 4,
        stale_order_query_ms: 1000,
    }
}

fn store() -> FileStore {
    let crypto = CryptoContext::from_value("KEY", Some("a secret"));
    FileStore::open(PersistedStore::default(), crypto)
}

fn with_accounts() -> FileStore {
    let mut store = store();
    for (id, exchange) in [("by", Exchange::BybitLinear), ("bn", Exchange::BinanceUsdM)] {
        let update = store.upsert_account(account(id, exchange), 10).unwrap().unwrap();
        store.commit(update.next);
    }
    store
}

#[test]
fn a_new_store_is_empty() {
    let store = store();
    assert!(store.is_crypto_configured());
    assert_eq!(store.persisted().schema_version, 1);
    assert_eq!(store.persisted().revision, 0);
    assert!(store.list_strategies().is_empty());
    assert!(store.list_accounts().is_empty());
    let catalog = store.try_runtime_catalog().unwrap().unwrap();
    assert_eq!(catalog.store_revision, 0);
    assert!(catalog.enabled_strategies.is_empty());
    assert!(store.runtime_plan_without_credentials().shards.is_empty());
}

#[test]
fn saved_accounts_are_listed_in_order_and_masked() {
    let store = with_accounts();
    let views = store.list_accounts();
    assert_eq!(views.len(), 2);
    assert_eq!(views[0].id.as_str(), "bn");
    assert_eq!(views[1].id.as_str(), "by");
    assert_eq!(views[0].masked_api_key, "key***bn");
    assert_eq!(views[0].created_at_ms, 10);
    assert_eq!(store.persisted().revision, 2);
    assert_eq!(store.persisted().accounts[0].id.as_str(), "bn");
    assert_ne!(store.persisted().accounts[0].credentials.api_key.ciphertext_b64, "key-of-bn");
}

#[test]
fn saved_secrets_are_loaded_as_they_were_entered() {
    let mut store = with_accounts();
    let update = store.try_upsert_strategy(strategy("s", true), 20).unwrap().unwrap();
    let loaded = &update.runtime_catalog.referenced_accounts;
    assert_eq!(loaded.len(), 2);
    assert_eq!(loaded[0].id.as_str(), "bn");
    assert_eq!(loaded[0].name, "account bn");
    assert_eq!(loaded[0].credentials.api_key, "key-of-bn");
    assert_eq!(loaded[0].credentials.api_secret, "secret-of-bn");
    assert_eq!(loaded[0].credentials.passphrase, Some("phrase-of-bn".to_owned()));
    assert_eq!(loaded[1].credentials.api_key, "key-of-by");
    store.commit(update.next);
    let catalog = store.runtime_catalog().unwrap();
    assert_eq!(catalog.store_revision, 3);
    assert_eq!(catalog.referenced_accounts[1].credentials.api_secret, "secret-of-by");
}

#[test]
fn only_what_is_enabled_is_loaded() {
    let mut store = with_accounts();
    let update = store.upsert_strategy(strategy("s", false), 20).unwrap();
    assert!(update.runtime_catalog.enabled_strategies.is_empty());
    assert!(update.runtime_catalog.referenced_accounts.is_empty());
    store.commit(update.next);
    let id = StrategyId::new("s".to_owned());
    let update = store.try_set_strategy_enabled(&id, true, 30).unwrap().unwrap();
    assert!(update.entity.enabled);
    assert_eq!(update.entity.created_at_ms, 20);
    assert_eq!(update.entity.updated_at_ms, 30);
    assert_eq!(update.runtime_catalog.enabled_strategies.len(), 1);
    assert_eq!(update.runtime_catalog.referenced_accounts.len(), 2);
    assert_eq!(update.next.revision, 4);
    store.commit(update.next);
    let update = store.set_strategy_enabled(&id, false, 40).unwrap();
    assert!(update.runtime_catalog.enabled_strategies.is_empty());
}

#[test]
fn saving_keeps_order_and_creation_times() {
    let mut store = with_accounts();
    for (id, now) in [("b", 20), ("a", 21), ("c", 22)] {
        let update = store.try_upsert_strategy(strategy(id, true), now).unwrap().unwrap();
        store.commit(update.next);
    }
    let mut again = strategy(" b ", true);
    again.name = "renamed".to_owned();
    let update = store.try_upsert_strategy(again, 50).unwrap().unwrap();
    assert_eq!(update.entity.created_at_ms, 20);
    assert_eq!(update.entity.updated_at_ms, 50);
    store.commit(update.next);
    let listed = store.list_strategies();
    let ids: Vec<&str> = listed.iter().map(|record| record.id.as_str()).collect();
    assert_eq!(ids, ["a", "b", "c"]);
    assert_eq!(listed[1].name, "renamed");
    assert_eq!(listed[0].updated_at_ms, 21);
    assert_eq!(store.persisted().revision, 6);
    let plan = store.runtime_plan_without_credentials();
    assert_eq!(plan.total_enabled_strategies, 3);
}

#[test]
fn an_account_keeps_its_creation_time() {
    let store = with_accounts();
    let update =
        store.upsert_account(account("bn", Exchange::BinanceUsdM), 90).unwrap().unwrap();
    assert_eq!(update.entity.created_at_ms, 10);
    assert_eq!(update.entity.updated_at_ms, 90);
    assert_eq!(update.next.accounts.len(), 2);
}

#[test]
fn unknown_strategies_are_not_switched() {
    let store = with_accounts();
    let id = StrategyId::new("none".to_owned());
    match store.try_set_strategy_enabled(&id, true, 1).unwrap() {
        Err(AppError::NotFound(message)) => assert_eq!(message, "strategy `none` 不存在"),
        _ => panic!("found"),
    }
}

#[test]
fn refused_requests_give_no_next_store() {
    let mut store = with_accounts();
    let mut bad = strategy("s", true);
    bad.max_open_orders = 0;
    assert!(matches!(store.try_upsert_strategy(bad, 1).unwrap(), Err(AppError::Validation(_))));
    assert_eq!(store.persisted().revision, 2);
    // An account that an enabled strategy trades with stays enabled.
    let update = store.try_upsert_strategy(strategy("s", true), 20).unwrap().unwrap();
    store.commit(update.next);
    let mut disabled = account("bn", Exchange::BinanceUsdM);
    disabled.enabled = false;
    match store.upsert_account(disabled, 30).unwrap() {
        Err(AppError::Validation(message)) => {
            assert_eq!(message, "strategy `s` 引用的 account `bn` 当前未启用")
        }
        _ => panic!("not refused"),
    }
}

#[test]
fn accounts_need_a_key() {
    let store = FileStore::open(
        PersistedStore::default(),
        CryptoContext::from_value("KEY", None),
    );
    assert!(!store.is_crypto_configured());
    match store.upsert_account(account("bn", Exchange::BinanceUsdM), 1).unwrap() {
        Err(AppError::Crypto(message)) => {
            assert_eq!(message, "set KEY before creating or loading exchange credentials")
        }
        _ => panic!("saved"),
    }
}

#[test]
fn loading_needs_the_key_that_sealed() {
    let mut store = with_accounts();
    let update = store.try_upsert_strategy(strategy("s", true), 20).unwrap().unwrap();
    store.commit(update.next);
    let persisted = store.persisted().clone();
    let other = FileStore::open(persisted, CryptoContext::from_value("KEY", Some("another")));
    match other.try_runtime_catalog().unwrap() {
        Err(AppError::Crypto(message)) => assert_eq!(message, "decrypt failed: Error"),
        _ => panic!("loaded"),
    }
}

#[test]
fn what_cannot_be_counted_or_opened_is_told() {
    let mut persisted = PersistedStore::default();
    persisted.revision = u64::MAX;
    let crypto = CryptoContext::from_value("KEY", Some("a secret"));
    let store = FileStore::open(persisted, crypto);
    assert!(store.upsert_account(account("bn", Exchange::BinanceUsdM), 1).is_none());

    let mut persisted = with_accounts().persisted().clone();
    persisted.accounts[0].credentials.api_key.nonce_b64 = "AAAA".to_owned();
    let crypto = CryptoContext::from_value("KEY", Some("a secret"));
    let store = FileStore::open(persisted, crypto);
    assert!(store.try_upsert_strategy(strategy("s", true), 1).is_none());
    assert!(store.try_runtime_catalog().unwrap().is_ok());
}

#[test]
fn stored_strategies_keep_the_rules() {
    let mut store = with_accounts();
    for id in ["b", " a "] {
        let update = store.try_upsert_strategy(strategy(id, true), 20).unwrap().unwrap();
        store.commit(update.next);
    }
    let id = StrategyId::new("b".to_owned());
    let update = store.try_set_strategy_enabled(&id, false, 30).unwrap().unwrap();
    store.commit(update.next);
    let update =
        store.upsert_account(account("bn", Exchange::BinanceUsdM), 40).unwrap().unwrap();
    store.commit(update.next);
    let persisted = store.persisted();
    assert!(validate_existing_strategies(&persisted.strategies, &persisted.accounts).is_ok());
    let ids: Vec<&str> = persisted.strategies.iter().map(|record| record.id.as_str()).collect();
    assert_eq!(ids, ["a", "b"]);
    assert!(!persisted.strategies[1].enabled);
}
