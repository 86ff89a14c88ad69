//! The configuration's data.

use vstd::prelude::*;

use crate::config::ids::{AccountId, ClientOrderId, ConnectionId, ShardId, StrategyId};
use crate::num::Binary64;

verus! {

/// An exchange that the program trades on.
#[derive(Clone, Copy, Debug, PartialEq, Eq, Hash, PartialOrd, Ord, Structural)]
pub enum Exchange {
    BinanceUsdM,
    BybitLinear,
}

impl DeepView for Exchange {
    type V = Exchange;

    open spec fn deep_view(&self) -> Exchange {
        *self
    }
}

impl Exchange {
    /// How the exchange delivers depth, and how many symbols one connection may carry.
    pub open spec fn capabilities_model(self) -> ExchangeCapabilities {
        match self {
            Exchange::BinanceUsdM => ExchangeCapabilities {
                depth_mode: DepthMode::SnapshotThenIncremental,
                max_symbols_per_connection: 64,
            },
            Exchange::BybitLinear => ExchangeCapabilities {
                depth_mode: DepthMode::SnapshotThenIncremental,
                max_symbols_per_connection: 32,
            },
        }
    }

    /// The exchange's name in texts.
    pub open spec fn label_model(self) -> Seq<char> {
        match self {
            Exchange::BinanceUsdM => "binance_usd_m"@,
            Exchange::BybitLinear => "bybit_linear"@,
        }
    }

    /// The exchange's place in the order of exchanges.
    pub open spec fn place(self) -> int {
        match self {
            Exchange::BinanceUsdM => 0,
            Exchange::BybitLinear => 1,
        }
    }

    pub fn capabilities(&self) -> (r: ExchangeCapabilities)
        ensures
            r == self.capabilities_model(),
    {
        match self {
            Exchange::BinanceUsdM => ExchangeCapabilities {
                depth_mode: DepthMode::SnapshotThenIncremental,
                max_symbols_per_connection: 64,
            },
            Exchange::BybitLinear => ExchangeCapabilities {
                depth_mode: DepthMode::SnapshotThenIncremental,
                max_symbols_per_connection: 32,
            },
        }
    }

    pub fn label(&self) -> (r: &'static str)
        ensures
            r@ == self.label_model(),
    {
        match self {
            Exchange::BinanceUsdM => "binance_usd_m",
            Exchange::BybitLinear => "bybit_linear",
        }
    }
}

/// How a venue delivers depth.
#[derive(Clone, Copy, Debug, PartialEq, Eq, Structural)]
pub enum DepthMode {
    SnapshotThenIncremental,
    FullSnapshotOnly,
}

impl DepthMode {
    /// The mode's name in texts.
    pub open spec fn label_model(self) -> Seq<char> {
        match self {
            DepthMode::SnapshotThenIncremental => "snapshot_then_incremental"@,
            DepthMode::FullSnapshotOnly => "full_snapshot_only"@,
        }
    }

    pub fn label(&self) -> (r: &'static str)
        ensures
            r@ == self.label_model(),
    {
        match self {
            DepthMode::SnapshotThenIncremental => "snapshot_then_incremental",
            DepthMode::FullSnapshotOnly => "full_snapshot_only",
        }
    }
}

/// What an exchange offers to market data clients.
#[derive(Clone, Copy, Debug)]
pub struct ExchangeCapabilities {
    pub depth_mode: DepthMode,
    pub max_symbols_per_connection: usize,
}

/// A market: a symbol on an exchange.
#[derive(Debug, PartialEq, Eq, Hash, PartialOrd, Ord)]
pub struct MarketKey {
    pub exchange: Exchange,
    pub symbol: String,
}

/// What a [`MarketKey`] holds.
#[verifier::ext_equal]
pub struct MarketKeyModel {
    pub exchange: Exchange,
    pub symbol: Seq<char>,
}

impl View for MarketKey {
    type V = MarketKeyModel;

    open spec fn view(&self) -> MarketKeyModel {
        MarketKeyModel {
            exchange: self.exchange,
            symbol: self.symbol@,
        }
    }
}

impl DeepView for MarketKey {
    type V = MarketKeyModel;

    open spec fn deep_view(&self) -> MarketKeyModel {
        self@
    }
}

impl Clone for MarketKey {
    fn clone(&self) -> (r: Self)
        ensures
            r == *self,
    {
        MarketKey {
            exchange: self.exchange,
            symbol: self.symbol.clone(),
        }
    }
}

impl MarketKeyModel {
    /// The market's name in texts.
    pub open spec fn label(self) -> Seq<char> {
        self.exchange.label_model() + ":"@ + self.symbol
    }
}

impl MarketKey {
    pub fn new(exchange: Exchange, symbol: String) -> (r: Self)
        ensures
            r@ == (MarketKeyModel { exchange, symbol: symbol@ }),
    {
        MarketKey { exchange, symbol }
    }

    /// Whether both are the same market.
    pub fn same(&self, other: &Self) -> (r: bool)
        ensures
            r == (self@ == other@),
    {
        self.exchange == other.exchange && self.symbol == other.symbol
    }

    /// The market's name, `exchange:symbol`.
    pub fn label(&self) -> (r: String)
        ensures
            r@ == self@.label(),
    {
        let mut out = self.exchange.label().to_owned();
        out.append(":");
        out.append(self.symbol.as_str());
        out
    }
}

/// A step of a strategy: at a spread of `spread_pct`, hold `notional_usd` more.
#[derive(Clone, Copy, Debug, PartialEq, Eq, Structural)]
pub struct SpreadLevel {
    pub spread_pct: Binary64,
    pub notional_usd: Binary64,
}

/// One side of a strategy: a market and the account that trades it.
#[derive(Debug)]
pub struct StrategyLeg {
    pub exchange: Exchange,
    pub symbol: String,
    pub account_id: AccountId,
}

/// What a [`StrategyLeg`] holds.
#[verifier::ext_equal]
pub struct StrategyLegModel {
    pub exchange: Exchange,
    pub symbol: Seq<char>,
    pub account_id: Seq<char>,
}

impl View for StrategyLeg {
    type V = StrategyLegModel;

    open spec fn view(&self) -> StrategyLegModel {
        StrategyLegModel {
            exchange: self.exchange,
            symbol: self.symbol@,
            account_id: self.account_id@,
        }
    }
}

impl DeepView for StrategyLeg {
    type V = StrategyLegModel;

    open spec fn deep_view(&self) -> StrategyLegModel {
        self@
    }
}

impl Clone for StrategyLeg {
    fn clone(&self) -> (r: Self)
        ensures
            r == *self,
    {
        StrategyLeg {
            exchange: self.exchange,
            symbol: self.symbol.clone(),
            account_id: self.account_id.clone(),
        }
    }
}

impl StrategyLegModel {
    /// The market that the leg trades.
    pub open spec fn market(self) -> MarketKeyModel {
        MarketKeyModel { exchange: self.exchange, symbol: self.symbol }
    }
}

impl StrategyLeg {
    /// The market that the leg trades.
    pub fn market(&self) -> (r: MarketKey)
        ensures
            r@ == self@.market(),
    {
        MarketKey::new(self.exchange, self.symbol.clone())
    }
}

/// A request to create or replace a strategy.
#[derive(Debug)]
pub struct StrategyUpsertRequest {
    pub id: StrategyId,
    pub name: String,
    pub enabled: bool,
    pub long_leg: StrategyLeg,
    pub short_leg: StrategyLeg,
    pub open_levels: Vec<SpreadLevel>,
    pub close_levels: Vec<SpreadLevel>,
    pub max_total_notional: Binary64,
    pub max_open_orders: u32,
    pub stale_order_query_ms: u64,
}

/// The settings of a strategy.
#[verifier::ext_equal]
pub struct StrategyConfigModel {
    pub id: Seq<char>,
    pub name: Seq<char>,
    pub enabled: bool,
    pub long_leg: StrategyLegModel,
    pub short_leg: StrategyLegModel,
    pub open_levels: Seq<SpreadLevel>,
    pub close_levels: Seq<SpreadLevel>,
    pub max_total_notional: Binary64,
    pub max_open_orders: u32,
    pub stale_order_query_ms: u64,
}

impl View for StrategyUpsertRequest {
    type V = StrategyConfigModel;

    open spec fn view(&self) -> StrategyConfigModel {
        StrategyConfigModel {
            id: self.id@,
            name: self.name@,
            enabled: self.enabled,
            long_leg: self.long_leg@,
            short_leg: self.short_leg@,
            open_levels: self.open_levels@,
            close_levels: self.close_levels@,
            max_total_notional: self.max_total_notional,
            max_open_orders: self.max_open_orders,
            stale_order_query_ms: self.stale_order_query_ms,
        }
    }
}

impl DeepView for StrategyUpsertRequest {
    type V = StrategyConfigModel;

    open spec fn deep_view(&self) -> StrategyConfigModel {
        self@
    }
}

impl Clone for StrategyUpsertRequest {
    fn clone(&self) -> (r: Self)
        ensures
            r@ == self@,
    {
        let id = self.id.clone();
        let name = self.name.clone();
        let long_leg = self.long_leg.clone();
        let short_leg = self.short_leg.clone();
        let open_levels = self.open_levels.clone();
        let close_levels = self.close_levels.clone();
        assert(open_levels@ =~= self.open_levels@);
        assert(close_levels@ =~= self.close_levels@);
        StrategyUpsertRequest {
            id,
            name,
            enabled: self.enabled,
            long_leg,
            short_leg,
            open_levels,
            close_levels,
            max_total_notional: self.max_total_notional,
            max_open_orders: self.max_open_orders,
            stale_order_query_ms: self.stale_order_query_ms,
        }
    }
}

/// The settings of a strategy that keep the rules.
#[derive(Debug)]
pub struct ValidatedStrategy {
    pub id: StrategyId,
    pub name: String,
    pub enabled: bool,
    pub long_leg: StrategyLeg,
    pub short_leg: StrategyLeg,
    pub open_levels: Vec<SpreadLevel>,
    pub close_levels: Vec<SpreadLevel>,
    pub max_total_notional: Binary64,
    pub max_open_orders: u32,
    pub stale_order_query_ms: u64,
}

impl View for ValidatedStrategy {
    type V = StrategyConfigModel;

    open spec fn view(&self) -> StrategyConfigModel {
        StrategyConfigModel {
            id: self.id@,
            name: self.name@,
            enabled: self.enabled,
            long_leg: self.long_leg@,
            short_leg: self.short_leg@,
            open_levels: self.open_levels@,
            close_levels: self.close_levels@,
            max_total_notional: self.max_total_notional,
            max_open_orders: self.max_open_orders,
            stale_order_query_ms: self.stale_order_query_ms,
        }
    }
}

impl DeepView for ValidatedStrategy {
    type V = StrategyConfigModel;

    open spec fn deep_view(&self) -> StrategyConfigModel {
        self@
    }
}

impl Clone for ValidatedStrategy {
    fn clone(&self) -> (r: Self)
        ensures
            r@ == self@,
    {
        let id = self.id.clone();
        let name = self.name.clone();
        let long_leg = self.long_leg.clone();
        let short_leg = self.short_leg.clone();
        let open_levels = self.open_levels.clone();
        let close_levels = self.close_levels.clone();
        assert(open_levels@ =~= self.open_levels@);
        assert(close_levels@ =~= self.close_levels@);
        ValidatedStrategy {
            id,
            name,
            enabled: self.enabled,
            long_leg,
            short_leg,
            open_levels,
            close_levels,
            max_total_notional: self.max_total_notional,
            max_open_orders: self.max_open_orders,
            stale_order_query_ms: self.stale_order_query_ms,
        }
    }
}

/// A stored strategy.
#[derive(Debug)]
pub struct StrategyRecord {
    pub id: StrategyId,
    pub name: String,
    pub enabled: bool,
    pub long_leg: StrategyLeg,
    pub short_leg: StrategyLeg,
    pub open_levels: Vec<SpreadLevel>,
    pub close_levels: Vec<SpreadLevel>,
    pub max_total_notional: Binary64,
    pub max_open_orders: u32,
    pub stale_order_query_ms: u64,
    pub created_at_ms: u64,
    pub updated_at_ms: u64,
}

/// What a [`StrategyRecord`] holds.
#[verifier::ext_equal]
pub struct StrategyRecordModel {
    pub config: StrategyConfigModel,
    pub created_at_ms: u64,
    pub updated_at_ms: u64,
}

impl View for StrategyRecord {
    type V = StrategyRecordModel;

    open spec fn view(&self) -> StrategyRecordModel {
        StrategyRecordModel {
            config: StrategyConfigModel {
                id: self.id@,
                name: self.name@,
                enabled: self.enabled,
                long_leg: self.long_leg@,
                short_leg: self.short_leg@,
                open_levels: self.open_levels@,
                close_levels: self.close_levels@,
                max_total_notional: self.max_total_notional,
                max_open_orders: self.max_open_orders,
                stale_order_query_ms: self.stale_order_query_ms,
            },
            created_at_ms: self.created_at_ms,
            updated_at_ms: self.updated_at_ms,
        }
    }
}

impl DeepView for StrategyRecord {
    type V = StrategyRecordModel;

    open spec fn deep_view(&self) -> StrategyRecordModel {
        self@
    }
}

impl Clone for StrategyRecord {
    fn clone(&self) -> (r: Self)
        ensures
            r@ == self@,
    {
        self.request().into_validated().into_record(self.created_at_ms, self.updated_at_ms)
    }
}

impl StrategyConfigModel {
    /// The two markets that the strategy trades, the long one first.
    pub open spec fn markets(self) -> Seq<MarketKeyModel> {
        seq![self.long_leg.market(), self.short_leg.market()]
    }
}

impl StrategyUpsertRequest {
    /// The same settings, taken to keep the rules.
    pub(crate) fn into_validated(self) -> (r: ValidatedStrategy)
        ensures
            r@ == self@,
    {
        ValidatedStrategy {
            id: self.id,
            name: self.name,
            enabled: self.enabled,
            long_leg: self.long_leg,
            short_leg: self.short_leg,
            open_levels: self.open_levels,
            close_levels: self.close_levels,
            max_total_notional: self.max_total_notional,
            max_open_orders: self.max_open_orders,
            stale_order_query_ms: self.stale_order_query_ms,
        }
    }
}

impl StrategyRecord {
    /// The two markets that the strategy trades, the long one first.
    pub fn market_keys(&self) -> (r: Vec<MarketKey>)
        ensures
            r.deep_view() == self@.config.markets(),
    {
        let mut out: Vec<MarketKey> = Vec::new();
        out.push(self.long_leg.market());
        out.push(self.short_leg.market());
        assert(out.deep_view() =~= self@.config.markets());
        out
    }

    /// A request that asks for the strategy as it is.
    pub fn request(&self) -> (r: StrategyUpsertRequest)
        ensures
            r@ == self@.config,
    {
        let open_levels = self.open_levels.clone();
        let close_levels = self.close_levels.clone();
        assert(open_levels@ =~= self.open_levels@);
        assert(close_levels@ =~= self.close_levels@);
        StrategyUpsertRequest {
            id: self.id.clone(),
            name: self.name.clone(),
            enabled: self.enabled,
            long_leg: self.long_leg.clone(),
            short_leg: self.short_leg.clone(),
            open_levels,
            close_levels,
            max_total_notional: self.max_total_notional,
            max_open_orders: self.max_open_orders,
            stale_order_query_ms: self.stale_order_query_ms,
        }
    }
}

impl ValidatedStrategy {
    pub fn into_record(self, created_at_ms: u64, updated_at_ms: u64) -> (r: StrategyRecord)
        ensures
            r@ == (StrategyRecordModel { config: self@, created_at_ms, updated_at_ms }),
    {
        StrategyRecord {
            id: self.id,
            name: self.name,
            enabled: self.enabled,
            long_leg: self.long_leg,
            short_leg: self.short_leg,
            open_levels: self.open_levels,
            close_levels: self.close_levels,
            max_total_notional: self.max_total_notional,
            max_open_orders: self.max_open_orders,
            stale_order_query_ms: self.stale_order_query_ms,
            created_at_ms,
            updated_at_ms,
        }
    }
}

/// How far an account's credentials have been checked.
#[derive(Clone, Copy, Debug, PartialEq, Eq, Structural)]
pub enum AccountValidationStatus {
    Pending,
    DryRunOk,
}

/// A request to create or replace an account.
#[derive(Debug)]
pub struct AccountUpsertRequest {
    pub id: AccountId,
    pub name: String,
    pub exchange: Exchange,
    pub enabled: bool,
    pub api_key: String,
    pub api_secret: String,
    pub passphrase: Option<String>,
}

/// What a [`AccountUpsertRequest`] holds.
#[verifier::ext_equal]
pub struct AccountUpsertRequestModel {
    pub id: Seq<char>,
    pub name: Seq<char>,
    pub exchange: Exchange,
    pub enabled: bool,
    pub api_key: Seq<char>,
    pub api_secret: Seq<char>,
    pub passphrase: Option<Seq<char>>,
}

impl View for AccountUpsertRequest {
    type V = AccountUpsertRequestModel;

    open spec fn view(&self) -> AccountUpsertRequestModel {
        AccountUpsertRequestModel {
            id: self.id@,
            name: self.name@,
            exchange: self.exchange,
            enabled: self.enabled,
            api_key: self.api_key@,
            api_secret: self.api_secret@,
            passphrase: self.passphrase.deep_view(),
        }
    }
}

impl DeepView for AccountUpsertRequest {
    type V = AccountUpsertRequestModel;

    open spec fn deep_view(&self) -> AccountUpsertRequestModel {
        self@
    }
}

impl Clone for AccountUpsertRequest {
    fn clone(&self) -> (r: Self)
        ensures
            r == *self,
    {
        AccountUpsertRequest {
            id: self.id.clone(),
            name: self.name.clone(),
            exchange: self.exchange,
            enabled: self.enabled,
            api_key: self.api_key.clone(),
            api_secret: self.api_secret.clone(),
            passphrase: self.passphrase.clone(),
        }
    }
}

/// A secret as it is stored.
#[derive(Debug)]
pub struct EncryptedValue {
    pub algorithm: String,
    pub nonce_b64: String,
    pub ciphertext_b64: String,
}

/// What a [`EncryptedValue`] holds.
#[verifier::ext_equal]
pub struct EncryptedValueModel {
    pub algorithm: Seq<char>,
    pub nonce_b64: Seq<char>,
    pub ciphertext_b64: Seq<char>,
}

impl View for EncryptedValue {
    type V = EncryptedValueModel;

    open spec fn view(&self) -> EncryptedValueModel {
        EncryptedValueModel {
            algorithm: self.algorithm@,
            nonce_b64: self.nonce_b64@,
            ciphertext_b64: self.ciphertext_b64@,
        }
    }
}

impl DeepView for EncryptedValue {
    type V = EncryptedValueModel;

    open spec fn deep_view(&self) -> EncryptedValueModel {
        self@
    }
}

impl Clone for EncryptedValue {
    fn clone(&self) -> (r: Self)
        ensures
            r == *self,
    {
        EncryptedValue {
            algorithm: self.algorithm.clone(),
            nonce_b64: self.nonce_b64.clone(),
            ciphertext_b64: self.ciphertext_b64.clone(),
        }
    }
}

/// The credentials of an account as they are stored.
#[derive(Debug)]
pub struct EncryptedAccountSecrets {
    pub api_key: EncryptedValue,
    pub api_secret: EncryptedValue,
    pub passphrase: Option<EncryptedValue>,
}

/// What a [`EncryptedAccountSecrets`] holds.
#[verifier::ext_equal]
pub struct EncryptedAccountSecretsModel {
    pub api_key: EncryptedValueModel,
    pub api_secret: EncryptedValueModel,
    pub passphrase: Option<EncryptedValueModel>,
}

impl View for EncryptedAccountSecrets {
    type V = EncryptedAccountSecretsModel;

    open spec fn view(&self) -> EncryptedAccountSecretsModel {
        EncryptedAccountSecretsModel {
            api_key: self.api_key@,
            api_secret: self.api_secret@,
            passphrase: self.passphrase.deep_view(),
        }
    }
}

impl DeepView for EncryptedAccountSecrets {
    type V = EncryptedAccountSecretsModel;

    open spec fn deep_view(&self) -> EncryptedAccountSecretsModel {
        self@
    }
}

impl Clone for EncryptedAccountSecrets {
    fn clone(&self) -> (r: Self)
        ensures
            r == *self,
    {
        EncryptedAccountSecrets {
            api_key: self.api_key.clone(),
            api_secret: self.api_secret.clone(),
            passphrase: self.passphrase.clone(),
        }
    }
}

/// A stored account.
#[derive(Debug)]
pub struct AccountRecord {
    pub id: AccountId,
    pub name: String,
    pub exchange: Exchange,
    pub enabled: bool,
    pub masked_api_key: String,
    pub validation_status: AccountValidationStatus,
    pub credentials: EncryptedAccountSecrets,
    pub created_at_ms: u64,
    pub updated_at_ms: u64,
}

/// What a [`AccountRecord`] holds.
#[verifier::ext_equal]
pub struct AccountRecordModel {
    pub id: Seq<char>,
    pub name: Seq<char>,
    pub exchange: Exchange,
    pub enabled: bool,
    pub masked_api_key: Seq<char>,
    pub validation_status: AccountValidationStatus,
    pub credentials: EncryptedAccountSecretsModel,
    pub created_at_ms: u64,
    pub updated_at_ms: u64,
}

impl View for AccountRecord {
    type V = AccountRecordModel;

    open spec fn view(&self) -> AccountRecordModel {
        AccountRecordModel {
            id: self.id@,
            name: self.name@,
            exchange: self.exchange,
            enabled: self.enabled,
            masked_api_key: self.masked_api_key@,
            validation_status: self.validation_status,
            credentials: self.credentials@,
            created_at_ms: self.created_at_ms,
            updated_at_ms: self.updated_at_ms,
        }
    }
}

impl DeepView for AccountRecord {
    type V = AccountRecordModel;

    open spec fn deep_view(&self) -> AccountRecordModel {
        self@
    }
}

impl Clone for AccountRecord {
    fn clone(&self) -> (r: Self)
        ensures
            r == *self,
    {
        AccountRecord {
            id: self.id.clone(),
            name: self.name.clone(),
            exchange: self.exchange,
            enabled: self.enabled,
            masked_api_key: self.masked_api_key.clone(),
            validation_status: self.validation_status,
            credentials: self.credentials.clone(),
            created_at_ms: self.created_at_ms,
            updated_at_ms: self.updated_at_ms,
        }
    }
}

/// An account request that keeps the rules.
#[derive(Debug)]
pub struct ValidatedAccountInput {
    pub id: AccountId,
    pub name: String,
    pub exchange: Exchange,
    pub enabled: bool,
    pub api_key: String,
    pub api_secret: String,
    pub passphrase: Option<String>,
    pub masked_api_key: String,
    pub validation_status: AccountValidationStatus,
}

/// What a [`ValidatedAccountInput`] holds.
#[verifier::ext_equal]
pub struct ValidatedAccountInputModel {
    pub id: Seq<char>,
    pub name: Seq<char>,
    pub exchange: Exchange,
    pub enabled: bool,
    pub api_key: Seq<char>,
    pub api_secret: Seq<char>,
    pub passphrase: Option<Seq<char>>,
    pub masked_api_key: Seq<char>,
    pub validation_status: AccountValidationStatus,
}

impl View for ValidatedAccountInput {
    type V = ValidatedAccountInputModel;

    open spec fn view(&self) -> ValidatedAccountInputModel {
        ValidatedAccountInputModel {
            id: self.id@,
            name: self.name@,
            exchange: self.exchange,
            enabled: self.enabled,
            api_key: self.api_key@,
            api_secret: self.api_secret@,
            passphrase: self.passphrase.deep_view(),
            masked_api_key: self.masked_api_key@,
            validation_status: self.validation_status,
        }
    }
}

impl DeepView for ValidatedAccountInput {
    type V = ValidatedAccountInputModel;

    open spec fn deep_view(&self) -> ValidatedAccountInputModel {
        self@
    }
}

impl Clone for ValidatedAccountInput {
    fn clone(&self) -> (r: Self)
        ensures
            r == *self,
    {
        ValidatedAccountInput {
            id: self.id.clone(),
            name: self.name.clone(),
            exchange: self.exchange,
            enabled: self.enabled,
            api_key: self.api_key.clone(),
            api_secret: self.api_secret.clone(),
            passphrase: self.passphrase.clone(),
            masked_api_key: self.masked_api_key.clone(),
            validation_status: self.validation_status,
        }
    }
}

/// What is shown of an account: everything but its credentials.
#[derive(Debug)]
pub struct AccountView {
    pub id: AccountId,
    pub name: String,
    pub exchange: Exchange,
    pub enabled: bool,
    pub masked_api_key: String,
    pub validation_status: AccountValidationStatus,
    pub created_at_ms: u64,
    pub updated_at_ms: u64,
}

/// What a [`AccountView`] holds.
#[verifier::ext_equal]
pub struct AccountViewModel {
    pub id: Seq<char>,
    pub name: Seq<char>,
    pub exchange: Exchange,
    pub enabled: bool,
    pub masked_api_key: Seq<char>,
    pub validation_status: AccountValidationStatus,
    pub created_at_ms: u64,
    pub updated_at_ms: u64,
}

impl View for AccountView {
    type V = AccountViewModel;

    open spec fn view(&self) -> AccountViewModel {
        AccountViewModel {
            id: self.id@,
            name: self.name@,
            exchange: self.exchange,
            enabled: self.enabled,
            masked_api_key: self.masked_api_key@,
            validation_status: self.validation_status,
            created_at_ms: self.created_at_ms,
            updated_at_ms: self.updated_at_ms,
        }
    }
}

impl DeepView for AccountView {
    type V = AccountViewModel;

    open spec fn deep_view(&self) -> AccountViewModel {
        self@
    }
}

impl Clone for AccountView {
    fn clone(&self) -> (r: Self)
        ensures
            r == *self,
    {
        AccountView {
            id: self.id.clone(),
            name: self.name.clone(),
            exchange: self.exchange,
            enabled: self.enabled,
            masked_api_key: self.masked_api_key.clone(),
            validation_status: self.validation_status,
            created_at_ms: self.created_at_ms,
            updated_at_ms: self.updated_at_ms,
        }
    }
}

impl AccountRecordModel {
    /// The record of a checked request with its encrypted credentials.
    pub open spec fn recorded(
        input: ValidatedAccountInputModel,
        credentials: EncryptedAccountSecretsModel,
        created_at_ms: u64,
        updated_at_ms: u64,
    ) -> Self {
        AccountRecordModel {
            id: input.id,
            name: input.name,
            exchange: input.exchange,
            enabled: input.enabled,
            masked_api_key: input.masked_api_key,
            validation_status: input.validation_status,
            credentials,
            created_at_ms,
            updated_at_ms,
        }
    }

    /// What is shown of the account.
    pub open spec fn shown(self) -> AccountViewModel {
        AccountViewModel {
            id: self.id,
            name: self.name,
            exchange: self.exchange,
            enabled: self.enabled,
            masked_api_key: self.masked_api_key,
            validation_status: self.validation_status,
            created_at_ms: self.created_at_ms,
            updated_at_ms: self.updated_at_ms,
        }
    }
}

impl AccountRecord {
    pub fn from_validated(
        input: ValidatedAccountInput,
        credentials: EncryptedAccountSecrets,
        created_at_ms: u64,
        updated_at_ms: u64,
    ) -> (r: Self)
        ensures
            r@ == AccountRecordModel::recorded(
                input@,
                credentials@,
                created_at_ms,
                updated_at_ms,
            ),
    {
        AccountRecord {
            id: input.id,
            name: input.name,
            exchange: input.exchange,
            enabled: input.enabled,
            masked_api_key: input.masked_api_key,
            validation_status: input.validation_status,
            credentials,
            created_at_ms,
            updated_at_ms,
        }
    }
}

impl AccountView {
    pub fn from_record(record: &AccountRecord) -> (r: Self)
        ensures
            r@ == record@.shown(),
    {
        AccountView {
            id: record.id.clone(),
            name: record.name.clone(),
            exchange: record.exchange,
            enabled: record.enabled,
            masked_api_key: record.masked_api_key.clone(),
            validation_status: record.validation_status,
            created_at_ms: record.created_at_ms,
            updated_at_ms: record.updated_at_ms,
        }
    }
}

/// The credentials of an account in the clear.
#[derive(Debug)]
pub struct AccountCredentials {
    pub api_key: String,
    pub api_secret: String,
    pub passphrase: Option<String>,
}

/// What a [`AccountCredentials`] holds.
#[verifier::ext_equal]
pub struct AccountCredentialsModel {
    pub api_key: Seq<char>,
    pub api_secret: Seq<char>,
    pub passphrase: Option<Seq<char>>,
}

impl View for AccountCredentials {
    type V = AccountCredentialsModel;

    open spec fn view(&self) -> AccountCredentialsModel {
        AccountCredentialsModel {
            api_key: self.api_key@,
            api_secret: self.api_secret@,
            passphrase: self.passphrase.deep_view(),
        }
    }
}

impl DeepView for AccountCredentials {
    type V = AccountCredentialsModel;

    open spec fn deep_view(&self) -> AccountCredentialsModel {
        self@
    }
}

impl Clone for AccountCredentials {
    fn clone(&self) -> (r: Self)
        ensures
            r == *self,
    {
        AccountCredentials {
            api_key: self.api_key.clone(),
            api_secret: self.api_secret.clone(),
            passphrase: self.passphrase.clone(),
        }
    }
}

/// An account that a running strategy trades with.
#[derive(Debug)]
pub struct RuntimeAccount {
    pub id: AccountId,
    pub name: String,
    pub exchange: Exchange,
    pub credentials: AccountCredentials,
}

/// What a [`RuntimeAccount`] holds.
#[verifier::ext_equal]
pub struct RuntimeAccountModel {
    pub id: Seq<char>,
    pub name: Seq<char>,
    pub exchange: Exchange,
    pub credentials: AccountCredentialsModel,
}

impl View for RuntimeAccount {
    type V = RuntimeAccountModel;

    open spec fn view(&self) -> RuntimeAccountModel {
        RuntimeAccountModel {
            id: self.id@,
            name: self.name@,
            exchange: self.exchange,
            credentials: self.credentials@,
        }
    }
}

impl DeepView for RuntimeAccount {
    type V = RuntimeAccountModel;

    open spec fn deep_view(&self) -> RuntimeAccountModel {
        self@
    }
}

impl Clone for RuntimeAccount {
    fn clone(&self) -> (r: Self)
        ensures
            r == *self,
    {
        RuntimeAccount {
            id: self.id.clone(),
            name: self.name.clone(),
            exchange: self.exchange,
            credentials: self.credentials.clone(),
        }
    }
}

/// What the runtime is loaded from.
#[derive(Debug)]
pub struct RuntimeCatalog {
    pub store_revision: u64,
    pub enabled_strategies: Vec<StrategyRecord>,
    pub referenced_accounts: Vec<RuntimeAccount>,
}

/// What a [`RuntimeCatalog`] holds.
#[verifier::ext_equal]
pub struct RuntimeCatalogModel {
    pub store_revision: u64,
    pub enabled_strategies: Seq<StrategyRecordModel>,
    pub referenced_accounts: Seq<RuntimeAccountModel>,
}

impl View for RuntimeCatalog {
    type V = RuntimeCatalogModel;

    open spec fn view(&self) -> RuntimeCatalogModel {
        RuntimeCatalogModel {
            store_revision: self.store_revision,
            enabled_strategies: self.enabled_strategies.deep_view(),
            referenced_accounts: self.referenced_accounts.deep_view(),
        }
    }
}

impl DeepView for RuntimeCatalog {
    type V = RuntimeCatalogModel;

    open spec fn deep_view(&self) -> RuntimeCatalogModel {
        self@
    }
}

impl Clone for RuntimeCatalog {
    fn clone(&self) -> (r: Self)
        ensures
            r@ == self@,
    {
        let enabled_strategies = self.enabled_strategies.clone();
        let referenced_accounts = self.referenced_accounts.clone();
        assert(enabled_strategies.deep_view() =~= self.enabled_strategies.deep_view());
        assert(referenced_accounts.deep_view() =~= self.referenced_accounts.deep_view());
        RuntimeCatalog {
            store_revision: self.store_revision,
            enabled_strategies,
            referenced_accounts,
        }
    }
}

/// The stored configuration.
#[derive(Debug)]
pub struct PersistedStore {
    pub schema_version: u32,
    pub revision: u64,
    pub strategies: Vec<StrategyRecord>,
    pub accounts: Vec<AccountRecord>,
}

/// What a [`PersistedStore`] holds.
#[verifier::ext_equal]
pub struct PersistedStoreModel {
    pub schema_version: u32,
    pub revision: u64,
    pub strategies: Seq<StrategyRecordModel>,
    pub accounts: Seq<AccountRecordModel>,
}

impl View for PersistedStore {
    type V = PersistedStoreModel;

    open spec fn view(&self) -> PersistedStoreModel {
        PersistedStoreModel {
            schema_version: self.schema_version,
            revision: self.revision,
            strategies: self.strategies.deep_view(),
            accounts: self.accounts.deep_view(),
        }
    }
}

impl DeepView for PersistedStore {
    type V = PersistedStoreModel;

    open spec fn deep_view(&self) -> PersistedStoreModel {
        self@
    }
}

impl Clone for PersistedStore {
    fn clone(&self) -> (r: Self)
        ensures
            r@ == self@,
    {
        let strategies = self.strategies.clone();
        let accounts = self.accounts.clone();
        assert(strategies.deep_view() =~= self.strategies.deep_view());
        assert(accounts.deep_view() =~= self.accounts.deep_view());
        PersistedStore {
            schema_version: self.schema_version,
            revision: self.revision,
            strategies,
            accounts,
        }
    }
}

impl Default for PersistedStore {
    fn default() -> (r: Self)
        ensures
            r@ == (PersistedStoreModel {
                schema_version: 1,
                revision: 0,
                strategies: Seq::empty(),
                accounts: Seq::empty(),
            }),
    {
        let r = PersistedStore {
            schema_version: 1,
            revision: 0,
            strategies: Vec::new(),
            accounts: Vec::new(),
        };
        assert(r@.strategies =~= Seq::empty());
        assert(r@.accounts =~= Seq::empty());
        r
    }
}

/// A position as it is shown.
#[derive(Debug)]
pub struct PositionView {
    pub strategy_id: StrategyId,
    pub exchange: Exchange,
    pub symbol: String,
    pub net_qty: Binary64,
    pub notional_usd: Binary64,
}

/// What a [`PositionView`] holds.
#[verifier::ext_equal]
pub struct PositionViewModel {
    pub strategy_id: Seq<char>,
    pub exchange: Exchange,
    pub symbol: Seq<char>,
    pub net_qty: Binary64,
    pub notional_usd: Binary64,
}

impl View for PositionView {
    type V = PositionViewModel;

    open spec fn view(&self) -> PositionViewModel {
        PositionViewModel {
            strategy_id: self.strategy_id@,
            exchange: self.exchange,
            symbol: self.symbol@,
            net_qty: self.net_qty,
            notional_usd: self.notional_usd,
        }
    }
}

impl DeepView for PositionView {
    type V = PositionViewModel;

    open spec fn deep_view(&self) -> PositionViewModel {
        self@
    }
}

impl Clone for PositionView {
    fn clone(&self) -> (r: Self)
        ensures
            r == *self,
    {
        PositionView {
            strategy_id: self.strategy_id.clone(),
            exchange: self.exchange,
            symbol: self.symbol.clone(),
            net_qty: self.net_qty,
            notional_usd: self.notional_usd,
        }
    }
}

/// A balance as it is shown.
#[derive(Debug)]
pub struct BalanceView {
    pub account_id: AccountId,
    pub exchange: Exchange,
    pub asset: String,
    pub total: Binary64,
    pub free: Binary64,
}

/// What a [`BalanceView`] holds.
#[verifier::ext_equal]
pub struct BalanceViewModel {
    pub account_id: Seq<char>,
    pub exchange: Exchange,
    pub asset: Seq<char>,
    pub total: Binary64,
    pub free: Binary64,
}

impl View for BalanceView {
    type V = BalanceViewModel;

    open spec fn view(&self) -> BalanceViewModel {
        BalanceViewModel {
            account_id: self.account_id@,
            exchange: self.exchange,
            asset: self.asset@,
            total: self.total,
            free: self.free,
        }
    }
}

impl DeepView for BalanceView {
    type V = BalanceViewModel;

    open spec fn deep_view(&self) -> BalanceViewModel {
        self@
    }
}

impl Clone for BalanceView {
    fn clone(&self) -> (r: Self)
        ensures
            r == *self,
    {
        BalanceView {
            account_id: self.account_id.clone(),
            exchange: self.exchange,
            asset: self.asset.clone(),
            total: self.total,
            free: self.free,
        }
    }
}

/// An open order as it is shown.
#[derive(Debug)]
pub struct ActiveOrderView {
    pub strategy_id: StrategyId,
    pub exchange: Exchange,
    pub symbol: String,
    pub client_order_id: ClientOrderId,
    pub status: String,
    pub qty: Binary64,
}

/// What a [`ActiveOrderView`] holds.
#[verifier::ext_equal]
pub struct ActiveOrderViewModel {
    pub strategy_id: Seq<char>,
    pub exchange: Exchange,
    pub symbol: Seq<char>,
    pub client_order_id: Seq<char>,
    pub status: Seq<char>,
    pub qty: Binary64,
}

impl View for ActiveOrderView {
    type V = ActiveOrderViewModel;

    open spec fn view(&self) -> ActiveOrderViewModel {
        ActiveOrderViewModel {
            strategy_id: self.strategy_id@,
            exchange: self.exchange,
            symbol: self.symbol@,
            client_order_id: self.client_order_id@,
            status: self.status@,
            qty: self.qty,
        }
    }
}

impl DeepView for ActiveOrderView {
    type V = ActiveOrderViewModel;

    open spec fn deep_view(&self) -> ActiveOrderViewModel {
        self@
    }
}

impl Clone for ActiveOrderView {
    fn clone(&self) -> (r: Self)
        ensures
            r == *self,
    {
        ActiveOrderView {
            strategy_id: self.strategy_id.clone(),
            exchange: self.exchange,
            symbol: self.symbol.clone(),
            client_order_id: self.client_order_id.clone(),
            status: self.status.clone(),
            qty: self.qty,
        }
    }
}

/// A request to switch a strategy on or off.
#[derive(Clone, Copy, Debug)]
pub struct StrategyToggleRequest {
    pub enabled: bool,
}

/// Where a strategy runs, and what feeds it.
#[derive(Debug)]
pub struct StrategyPlacementView {
    pub strategy_id: StrategyId,
    pub shard_id: ShardId,
    pub connection_ids: Vec<ConnectionId>,
    pub markets: Vec<MarketKey>,
}

/// What a [`StrategyPlacementView`] holds.
#[verifier::ext_equal]
pub struct StrategyPlacementViewModel {
    pub strategy_id: Seq<char>,
    pub shard_id: Seq<char>,
    pub connection_ids: Seq<Seq<char>>,
    pub markets: Seq<MarketKeyModel>,
}

impl View for StrategyPlacementView {
    type V = StrategyPlacementViewModel;

    open spec fn view(&self) -> StrategyPlacementViewModel {
        StrategyPlacementViewModel {
            strategy_id: self.strategy_id@,
            shard_id: self.shard_id@,
            connection_ids: self.connection_ids.deep_view(),
            markets: self.markets.deep_view(),
        }
    }
}

impl DeepView for StrategyPlacementView {
    type V = StrategyPlacementViewModel;

    open spec fn deep_view(&self) -> StrategyPlacementViewModel {
        self@
    }
}

impl Clone for StrategyPlacementView {
    fn clone(&self) -> (r: Self)
        ensures
            r@ == self@,
    {
        let strategy_id = self.strategy_id.clone();
        let shard_id = self.shard_id.clone();
        let connection_ids = self.connection_ids.clone();
        let markets = self.markets.clone();
        assert(connection_ids.deep_view() =~= self.connection_ids.deep_view());
        assert(markets.deep_view() =~= self.markets.deep_view());
        StrategyPlacementView {
            strategy_id,
            shard_id,
            connection_ids,
            markets,
        }
    }
}

/// A moment of the system clock.
#[verifier::external_type_specification]
#[verifier::external_body]
pub struct ExSystemTime(std::time::SystemTime);

/// The error of a moment that lies before another.
#[verifier::external_type_specification]
#[verifier::external_body]
pub struct ExSystemTimeError(std::time::SystemTimeError);

/// `SystemTime::now` reads the system clock; nothing is claimed of the moment it gives.
pub assume_specification[ std::time::SystemTime::now ]() -> (r: std::time::SystemTime)
;

/// `Duration::as_millis` counts whole milliseconds; a duration is opaque here, so nothing is
/// claimed of the count.
pub assume_specification[ std::time::Duration::as_millis ](d: &std::time::Duration) -> (r: u128)
;

/// `SystemTime::duration_since` applied to the Unix epoch; nothing is claimed of its result, which
/// rests on the clock.
#[verifier::external_body]
fn since_epoch(moment: &std::time::SystemTime) -> (r: Result<
    std::time::Duration,
    std::time::SystemTimeError,
>) {
    moment.duration_since(std::time::UNIX_EPOCH)
}

/// Milliseconds since the Unix epoch as they are recorded: the lower 64 bits, and 0 where the clock
/// stands before the epoch.
pub fn millis_or_zero(since_epoch: Option<u128>) -> (r: u64)
    ensures
        r == (match since_epoch {
            Some(millis) => #[verifier::truncate]
            (millis as u64),
            None => 0,
        }),
        since_epoch is Some && since_epoch->0 <= u64::MAX ==> r == since_epoch->0,
{
    match since_epoch {
        Some(millis) => #[verifier::truncate]
        (millis as u64),
        None => 0,
    }
}

/// The time in milliseconds since the Unix epoch, as [`millis_or_zero`] records it. What it returns
/// rests on the clock alone, so no clause says anything of it.
pub fn now_ms() -> (r: u64) {
    let since: Option<u128> = match since_epoch(&std::time::SystemTime::now()) {
        Ok(elapsed) => Some(elapsed.as_millis()),
        Err(_) => None,
    };
    millis_or_zero(since)
}

/// What the exchanges offer: both a snapshot first and changes behind it, Binance 64 symbols on one
/// connection and Bybit 32. Binance stands before Bybit.
pub proof fn exchanges_offer_depth()
    ensures
        Exchange::BinanceUsdM.capabilities_model().depth_mode is SnapshotThenIncremental,
        Exchange::BybitLinear.capabilities_model().depth_mode is SnapshotThenIncremental,
        Exchange::BinanceUsdM.capabilities_model().max_symbols_per_connection == 64,
        Exchange::BybitLinear.capabilities_model().max_symbols_per_connection == 32,
        Exchange::BinanceUsdM.place() < Exchange::BybitLinear.place(),
{
}

/// The names of exchanges, of kinds of depth and of markets in texts.
pub proof fn names_are_given(symbol: Seq<char>)
    ensures
        Exchange::BinanceUsdM.label_model() == "binance_usd_m"@,
        Exchange::BybitLinear.label_model() == "bybit_linear"@,
        DepthMode::SnapshotThenIncremental.label_model() == "snapshot_then_incremental"@,
        DepthMode::FullSnapshotOnly.label_model() == "full_snapshot_only"@,
        (MarketKeyModel { exchange: Exchange::BinanceUsdM, symbol }).label() == "binance_usd_m"@
            + ":"@ + symbol,
        (MarketKeyModel { exchange: Exchange::BybitLinear, symbol }).label() == "bybit_linear"@
            + ":"@ + symbol,
{
}

/// A strategy trades the market of its long leg and that of its short leg, in this order.
pub proof fn legs_are_markets(config: StrategyConfigModel)
    ensures
        config.long_leg.market().exchange == config.long_leg.exchange,
        config.long_leg.market().symbol == config.long_leg.symbol,
        config.short_leg.market().exchange == config.short_leg.exchange,
        config.short_leg.market().symbol == config.short_leg.symbol,
        config.markets().len() == 2,
        config.markets()[0] == config.long_leg.market(),
        config.markets()[1] == config.short_leg.market(),
{
}

} // verus!
