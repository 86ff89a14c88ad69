//! The stored configuration and how requests change it.
//!
//! A request is answered with the next store. The caller writes it to its file and then commits it,
//! so that what is in memory is never ahead of the file.

use vstd::prelude::*;

use crate::config::crypto::{seals, CryptoContext, CryptoModel};
use crate::config::ids::{AccountId, StrategyId};
use crate::config::model::{
    AccountCredentials, AccountCredentialsModel, AccountRecord, AccountRecordModel,
    AccountUpsertRequest, AccountUpsertRequestModel, AccountView, AccountViewModel,
    EncryptedAccountSecrets, EncryptedAccountSecretsModel, EncryptedValueModel, PersistedStore,
    PersistedStoreModel, RuntimeAccount, RuntimeAccountModel, RuntimeCatalog, RuntimeCatalogModel,
    StrategyConfigModel, StrategyRecord, StrategyRecordModel, StrategyUpsertRequest,
    ValidatedAccountInput, ValidatedAccountInputModel,
};
use crate::config::planner::{build_runtime_plan, plan_model, RuntimePlan};
use crate::config::validate::{
    account_maskable, checked_account, checked_strategy, strategies_fault, validate_account_request,
    validate_existing_strategies, validate_strategy_request,
};
use crate::error::{outcome, AppError, AppErrorModel, AppResult};
use crate::order::{stable_sort, stably_sorted};
use crate::text::{text_less, text_lt};

verus! {

/// The answer to a request: what was changed, what is to be run from now on, and the next store.
#[derive(Debug)]
pub struct StoreUpdate<T> {
    pub entity: T,
    pub runtime_catalog: RuntimeCatalog,
    pub next: PersistedStore,
}

/// What a [`StoreUpdate`] holds.
#[verifier::ext_equal]
pub struct StoreUpdateModel<V> {
    pub entity: V,
    pub runtime_catalog: RuntimeCatalogModel,
    pub next: PersistedStoreModel,
}

impl<T: DeepView> DeepView for StoreUpdate<T> {
    type V = StoreUpdateModel<T::V>;

    open spec fn deep_view(&self) -> StoreUpdateModel<T::V> {
        StoreUpdateModel {
            entity: self.entity.deep_view(),
            runtime_catalog: self.runtime_catalog@,
            next: self.next@,
        }
    }
}

/// Strategies by their ids.
pub open spec fn by_strategy_id() -> spec_fn(StrategyRecordModel, StrategyRecordModel) -> bool {
    |a: StrategyRecordModel, b: StrategyRecordModel| text_lt(a.config.id, b.config.id)
}

/// Accounts by their ids.
pub open spec fn by_account_id() -> spec_fn(AccountRecordModel, AccountRecordModel) -> bool {
    |a: AccountRecordModel, b: AccountRecordModel| text_lt(a.id, b.id)
}

/// Views of accounts by their ids.
pub open spec fn by_view_id() -> spec_fn(AccountViewModel, AccountViewModel) -> bool {
    |a: AccountViewModel, b: AccountViewModel| text_lt(a.id, b.id)
}

/// The strategies that are enabled.
pub open spec fn enabled_of(strategies: Seq<StrategyRecordModel>) -> Seq<StrategyRecordModel>
    decreases strategies.len(),
{
    if strategies.len() == 0 {
        strategies
    } else if strategies.last().config.enabled {
        enabled_of(strategies.drop_last()).push(strategies.last())
    } else {
        enabled_of(strategies.drop_last())
    }
}

/// Whether one of the strategies trades with the account.
pub open spec fn references(strategies: Seq<StrategyRecordModel>, account_id: Seq<char>) -> bool {
    exists|i: int|
        0 <= i < strategies.len() && ((#[trigger] strategies[i]).config.long_leg.account_id
            == account_id || strategies[i].config.short_leg.account_id == account_id)
}

/// An account's secrets opened.
pub open spec fn opened_secrets(
    crypto: CryptoModel,
    secrets: EncryptedAccountSecretsModel,
) -> Result<AccountCredentialsModel, AppErrorModel> {
    match crypto.decrypted(secrets.api_key) {
        Err(why) => Err(why),
        Ok(api_key) => match crypto.decrypted(secrets.api_secret) {
            Err(why) => Err(why),
            Ok(api_secret) => match secrets.passphrase {
                None => Ok(AccountCredentialsModel { api_key, api_secret, passphrase: None }),
                Some(value) => match crypto.decrypted(value) {
                    Err(why) => Err(why),
                    Ok(passphrase) => Ok(
                        AccountCredentialsModel {
                            api_key,
                            api_secret,
                            passphrase: Some(passphrase),
                        },
                    ),
                },
            },
        },
    }
}

/// Whether the stored nonces of an account's secrets, as far as they are looked at, have twelve bytes.
pub open spec fn secrets_fit(crypto: CryptoModel, secrets: EncryptedAccountSecretsModel) -> bool {
    &&& crypto.nonce_fits(secrets.api_key)
    &&& crypto.decrypted(secrets.api_key) is Ok ==> crypto.nonce_fits(secrets.api_secret)
    &&& crypto.decrypted(secrets.api_key) is Ok && crypto.decrypted(secrets.api_secret) is Ok
        && secrets.passphrase is Some ==> crypto.nonce_fits(secrets.passphrase->0)
}

/// The accounts that strategies trade with, their secrets opened; the first that cannot be opened
/// tells why.
pub open spec fn opened_accounts(
    crypto: CryptoModel,
    accounts: Seq<AccountRecordModel>,
    strategies: Seq<StrategyRecordModel>,
) -> Result<Seq<RuntimeAccountModel>, AppErrorModel>
    decreases accounts.len(),
{
    if accounts.len() == 0 {
        Ok(Seq::empty())
    } else {
        let account = accounts.last();
        match opened_accounts(crypto, accounts.drop_last(), strategies) {
            Err(why) => Err(why),
            Ok(before) => if !references(strategies, account.id) {
                Ok(before)
            } else {
                match opened_secrets(crypto, account.credentials) {
                    Err(why) => Err(why),
                    Ok(credentials) => Ok(
                        before.push(
                            RuntimeAccountModel {
                                id: account.id,
                                name: account.name,
                                exchange: account.exchange,
                                credentials,
                            },
                        ),
                    ),
                }
            },
        }
    }
}

/// Whether the stored nonces of the accounts that strategies trade with, as far as they are looked
/// at, have twelve bytes.
pub open spec fn accounts_fit(
    crypto: CryptoModel,
    accounts: Seq<AccountRecordModel>,
    strategies: Seq<StrategyRecordModel>,
) -> bool
    decreases accounts.len(),
{
    accounts.len() == 0 || {
        &&& accounts_fit(crypto, accounts.drop_last(), strategies)
        &&& opened_accounts(crypto, accounts.drop_last(), strategies) is Ok && references(
            strategies,
            accounts.last().id,
        ) ==> secrets_fit(crypto, accounts.last().credentials)
    }
}

/// What is to be run for a store: its enabled strategies and the accounts they trade with.
pub open spec fn catalog_of(crypto: CryptoModel, store: PersistedStoreModel) -> Result<
    RuntimeCatalogModel,
    AppErrorModel,
> {
    let enabled_strategies = enabled_of(store.strategies);
    match opened_accounts(crypto, store.accounts, enabled_strategies) {
        Err(why) => Err(why),
        Ok(referenced_accounts) => Ok(
            RuntimeCatalogModel {
                store_revision: store.revision,
                enabled_strategies,
                referenced_accounts,
            },
        ),
    }
}

/// Whether what is to be run for a store can be worked out.
pub open spec fn loadable(crypto: CryptoModel, store: PersistedStoreModel) -> bool {
    accounts_fit(crypto, store.accounts, enabled_of(store.strategies))
}

/// The place of the first strategy with an id.
pub open spec fn strategy_place(strategies: Seq<StrategyRecordModel>, id: Seq<char>) -> Option<int>
    decreases strategies.len(),
{
    if strategies.len() == 0 {
        None
    } else if strategies[0].config.id == id {
        Some(0)
    } else {
        match strategy_place(strategies.drop_first(), id) {
            Some(at) => Some(at + 1),
            None => None,
        }
    }
}

/// The place of the first account with an id.
pub open spec fn account_place(accounts: Seq<AccountRecordModel>, id: Seq<char>) -> Option<int>
    decreases accounts.len(),
{
    if accounts.len() == 0 {
        None
    } else if accounts[0].id == id {
        Some(0)
    } else {
        match account_place(accounts.drop_first(), id) {
            Some(at) => Some(at + 1),
            None => None,
        }
    }
}

/// The record of a strategy that has been checked.
pub open spec fn strategy_record(
    store: PersistedStoreModel,
    config: StrategyConfigModel,
    now: u64,
) -> StrategyRecordModel {
    StrategyRecordModel {
        config,
        created_at_ms: match strategy_place(store.strategies, config.id) {
            Some(at) => store.strategies[at].created_at_ms,
            None => now,
        },
        updated_at_ms: now,
    }
}

/// A store with a strategy's record in place of the one with its id, or added; the strategies are in
/// order of their ids.
pub open spec fn with_strategy(
    store: PersistedStoreModel,
    record: StrategyRecordModel,
) -> PersistedStoreModel {
    let strategies = match strategy_place(store.strategies, record.config.id) {
        Some(at) => store.strategies.update(at, record),
        None => store.strategies.push(record),
    };
    PersistedStoreModel {
        strategies: stably_sorted(strategies, by_strategy_id()),
        revision: (store.revision + 1) as u64,
        ..store
    }
}

/// What a request to save a strategy changes, or why it is refused.
pub open spec fn strategy_saved(
    store: PersistedStoreModel,
    request: StrategyConfigModel,
    now: u64,
) -> Result<(StrategyRecordModel, PersistedStoreModel), AppErrorModel> {
    match checked_strategy(request, store.accounts) {
        Err(why) => Err(why),
        Ok(config) => {
            let record = strategy_record(store, config, now);
            Ok((record, with_strategy(store, record)))
        },
    }
}

/// What a request to switch a strategy on or off changes, or why it is refused.
pub open spec fn strategy_switched(
    store: PersistedStoreModel,
    strategy_id: Seq<char>,
    enabled: bool,
    now: u64,
) -> Result<(StrategyRecordModel, PersistedStoreModel), AppErrorModel> {
    match strategy_place(store.strategies, strategy_id) {
        None => Err(AppErrorModel::NotFound("strategy `"@ + strategy_id + "` 不存在"@)),
        Some(at) => {
            let current = store.strategies[at];
            match checked_strategy(
                StrategyConfigModel { enabled, ..current.config },
                store.accounts,
            ) {
                Err(why) => Err(why),
                Ok(config) => {
                    let record = StrategyRecordModel {
                        config,
                        created_at_ms: current.created_at_ms,
                        updated_at_ms: now,
                    };
                    Ok(
                        (
                            record,
                            PersistedStoreModel {
                                strategies: store.strategies.update(at, record),
                                revision: (store.revision + 1) as u64,
                                ..store
                            },
                        ),
                    )
                },
            }
        },
    }
}

/// The record of an account that has been checked.
pub open spec fn account_record(
    store: PersistedStoreModel,
    input: ValidatedAccountInputModel,
    credentials: EncryptedAccountSecretsModel,
    now: u64,
) -> AccountRecordModel {
    AccountRecordModel::recorded(
        input,
        credentials,
        match account_place(store.accounts, input.id) {
            Some(at) => store.accounts[at].created_at_ms,
            None => now,
        },
        now,
    )
}

/// The accounts of a store with an account's record in place of the one with its id, or added.
pub open spec fn with_account(
    store: PersistedStoreModel,
    record: AccountRecordModel,
) -> Seq<AccountRecordModel> {
    match account_place(store.accounts, record.id) {
        Some(at) => store.accounts.update(at, record),
        None => store.accounts.push(record),
    }
}

/// What saving an account with sealed secrets changes, or why it is refused: every stored strategy
/// has to keep the rules with it.
pub open spec fn account_saved(
    store: PersistedStoreModel,
    input: ValidatedAccountInputModel,
    credentials: EncryptedAccountSecretsModel,
    now: u64,
) -> Result<(AccountRecordModel, PersistedStoreModel), AppErrorModel> {
    let record = account_record(store, input, credentials, now);
    let accounts = with_account(store, record);
    match strategies_fault(store.strategies, accounts) {
        Some(why) => Err(why),
        None => Ok(
            (
                record,
                PersistedStoreModel {
                    accounts: stably_sorted(accounts, by_account_id()),
                    revision: (store.revision + 1) as u64,
                    ..store
                },
            ),
        ),
    }
}

/// A change with what is to be run after it.
pub open spec fn with_catalog<V>(
    crypto: CryptoModel,
    changed: Result<(V, PersistedStoreModel), AppErrorModel>,
) -> Result<StoreUpdateModel<V>, AppErrorModel> {
    match changed {
        Err(why) => Err(why),
        Ok((entity, next)) => match catalog_of(crypto, next) {
            Err(why) => Err(why),
            Ok(runtime_catalog) => Ok(StoreUpdateModel { entity, runtime_catalog, next }),
        },
    }
}

/// Whether a change can be carried out: the store's revision can be counted on, and what is to be run
/// can be worked out.
pub open spec fn feasible<V>(
    crypto: CryptoModel,
    store: PersistedStoreModel,
    changed: Result<(V, PersistedStoreModel), AppErrorModel>,
) -> bool {
    changed matches Ok((_, next)) ==> store.revision < u64::MAX && loadable(crypto, next)
}

/// Whether credentials are the secrets of an account, sealed.
pub open spec fn secrets_sealed(
    crypto: CryptoModel,
    input: ValidatedAccountInputModel,
    credentials: EncryptedAccountSecretsModel,
) -> bool {
    &&& seals(crypto, input.api_key, credentials.api_key)
    &&& seals(crypto, input.api_secret, credentials.api_secret)
    &&& credentials.passphrase is Some <==> input.passphrase is Some
    &&& input.passphrase is Some ==> seals(
        crypto,
        input.passphrase->0,
        credentials.passphrase->0,
    )
}

/// Why an account's secrets cannot be sealed, if they cannot, whatever the nonces.
pub open spec fn seal_fault(crypto: CryptoModel, input: ValidatedAccountInputModel) -> Option<
    AppErrorModel,
> {
    let nonce = Seq::new(12, |i: int| 0u8);
    match crypto.encrypted(input.api_key, nonce) {
        Err(why) => Some(why),
        Ok(_) => match crypto.encrypted(input.api_secret, nonce) {
            Err(why) => Some(why),
            Ok(_) => match input.passphrase {
                None => None,
                Some(passphrase) => match crypto.encrypted(passphrase, nonce) {
                    Err(why) => Some(why),
                    Ok(_) => None,
                },
            },
        },
    }
}

/// An account as it is shown.
pub open spec fn shown_account(
    changed: Result<(AccountRecordModel, PersistedStoreModel), AppErrorModel>,
) -> Result<(AccountViewModel, PersistedStoreModel), AppErrorModel> {
    match changed {
        Err(why) => Err(why),
        Ok((record, next)) => Ok((record.shown(), next)),
    }
}

/// What a [`FileStore`] holds.
#[verifier::ext_equal]
pub struct FileStoreModel {
    pub crypto: CryptoModel,
    pub store: PersistedStoreModel,
}

/// The stored configuration, with the key to its secrets. The caller reads and writes its file.
#[derive(Debug)]
pub struct FileStore {
    crypto: CryptoContext,
    inner: PersistedStore,
}

impl View for FileStore {
    type V = FileStoreModel;

    closed spec fn view(&self) -> FileStoreModel {
        FileStoreModel { crypto: self.crypto@, store: self.inner@ }
    }
}

fn strategy_before(a: &StrategyRecord, b: &StrategyRecord) -> (r: bool)
    ensures
        r == text_lt(a@.config.id, b@.config.id),
{
    text_less(a.id.as_str(), b.id.as_str())
}

fn account_before(a: &AccountRecord, b: &AccountRecord) -> (r: bool)
    ensures
        r == text_lt(a@.id, b@.id),
{
    text_less(a.id.as_str(), b.id.as_str())
}

fn view_before(a: &AccountView, b: &AccountView) -> (r: bool)
    ensures
        r == text_lt(a@.id, b@.id),
{
    text_less(a.id.as_str(), b.id.as_str())
}

fn find_strategy(strategies: &Vec<StrategyRecord>, id: &StrategyId) -> (r: Option<usize>)
    ensures
        match r {
            Some(at) => strategy_place(strategies.deep_view(), id@) == Some(at as int) && at
                < strategies.len(),
            None => strategy_place(strategies.deep_view(), id@) is None,
        },
{
    let ghost all = strategies.deep_view();
    let mut i: usize = 0;
    assert(all.skip(0) =~= all);
    while i < strategies.len()
        invariant
            i <= strategies.len(),
            all == strategies.deep_view(),
            strategy_place(all, id@) == (match strategy_place(all.skip(i as int), id@) {
                Some(at) => Some(at + i),
                None => None,
            }),
        decreases strategies.len() - i,
    {
        assert(all.skip(i as int)[0] == strategies[i as int]@);
        assert(all.skip(i as int).drop_first() =~= all.skip(i + 1));
        if strategies[i].id.same(id) {
            return Some(i);
        }
        i += 1;
    }
    None
}

fn find_account_place(accounts: &Vec<AccountRecord>, id: &AccountId) -> (r: Option<usize>)
    ensures
        match r {
            Some(at) => account_place(accounts.deep_view(), id@) == Some(at as int) && at
                < accounts.len(),
            None => account_place(accounts.deep_view(), id@) is None,
        },
{
    let ghost all = accounts.deep_view();
    let mut i: usize = 0;
    assert(all.skip(0) =~= all);
    while i < accounts.len()
        invariant
            i <= accounts.len(),
            all == accounts.deep_view(),
            account_place(all, id@) == (match account_place(all.skip(i as int), id@) {
                Some(at) => Some(at + i),
                None => None,
            }),
        decreases accounts.len() - i,
    {
        assert(all.skip(i as int)[0] == accounts[i as int]@);
        assert(all.skip(i as int).drop_first() =~= all.skip(i + 1));
        if accounts[i].id.same(id) {
            return Some(i);
        }
        i += 1;
    }
    None
}

fn enabled_strategies(strategies: &Vec<StrategyRecord>) -> (r: Vec<StrategyRecord>)
    ensures
        r.deep_view() == enabled_of(strategies.deep_view()),
        r.len() <= strategies.len(),
{
    let ghost all = strategies.deep_view();
    let mut out: Vec<StrategyRecord> = Vec::new();
    let mut i: usize = 0;
    assert(out.deep_view() =~= enabled_of(all.take(0)));
    while i < strategies.len()
        invariant
            i <= strategies.len(),
            out.len() <= i,
            all == strategies.deep_view(),
            out.deep_view() == enabled_of(all.take(i as int)),
        decreases strategies.len() - i,
    {
        let ghost before = out.deep_view();
        assert(all.take(i + 1).drop_last() =~= all.take(i as int));
        assert(all.take(i + 1).last() == strategies[i as int]@);
        if strategies[i].enabled {
            out.push(strategies[i].clone());
            assert(out.deep_view() =~= before.push(all[i as int]));
        }
        i += 1;
    }
    assert(all.take(all.len() as int) =~= all);
    out
}

fn is_referenced(strategies: &Vec<StrategyRecord>, id: &AccountId) -> (r: bool)
    ensures
        r == references(strategies.deep_view(), id@),
{
    let ghost all = strategies.deep_view();
    let mut i: usize = 0;
    while i < strategies.len()
        invariant
            i <= strategies.len(),
            all == strategies.deep_view(),
            forall|j: int|
                0 <= j < i ==> (#[trigger] all[j]).config.long_leg.account_id != id@
                    && all[j].config.short_leg.account_id != id@,
        decreases strategies.len() - i,
    {
        assert(all[i as int] == strategies[i as int]@);
        if strategies[i].long_leg.account_id.same(id) || strategies[i].short_leg.account_id.same(id) {
            return true;
        }
        i += 1;
    }
    false
}

fn open_secrets(crypto: &CryptoContext, secrets: &EncryptedAccountSecrets) -> (r: AppResult<
    AccountCredentials,
>)
    requires
        secrets_fit(crypto@, secrets@),
    ensures
        outcome(r) == opened_secrets(crypto@, secrets@),
{
    let api_key = match crypto.decrypt_string(&secrets.api_key) {
        Ok(text) => text,
        Err(why) => return Err(why),
    };
    let api_secret = match crypto.decrypt_string(&secrets.api_secret) {
        Ok(text) => text,
        Err(why) => return Err(why),
    };
    let passphrase = match &secrets.passphrase {
        None => None,
        Some(value) => match crypto.decrypt_string(value) {
            Ok(text) => Some(text),
            Err(why) => return Err(why),
        },
    };
    Ok(AccountCredentials { api_key, api_secret, passphrase })
}

fn do_secrets_fit(crypto: &CryptoContext, secrets: &EncryptedAccountSecrets) -> (r: bool)
    ensures
        r == secrets_fit(crypto@, secrets@),
{
    if !crypto.nonce_fits(&secrets.api_key) {
        return false;
    }
    if crypto.decrypt_string(&secrets.api_key).is_err() {
        return true;
    }
    if !crypto.nonce_fits(&secrets.api_secret) {
        return false;
    }
    if crypto.decrypt_string(&secrets.api_secret).is_err() {
        return true;
    }
    match &secrets.passphrase {
        Some(value) => crypto.nonce_fits(value),
        None => true,
    }
}

impl FileStore {
    /// The store with what was read from its file, or the default where there was nothing.
    pub fn open(inner: PersistedStore, crypto: CryptoContext) -> (r: Self)
        ensures
            r@.crypto == crypto@,
            r@.store == inner@,
    {
        FileStore { crypto, inner }
    }

    pub fn is_crypto_configured(&self) -> (r: bool)
        ensures
            r == self@.crypto.key is Some,
    {
        self.crypto.is_configured()
    }

    /// The strategies in order of their ids.
    pub fn list_strategies(&self) -> (r: Vec<StrategyRecord>)
        ensures
            r.deep_view() == stably_sorted(self@.store.strategies, by_strategy_id()),
    {
        let strategies = self.inner.strategies.clone();
        assert(strategies.deep_view() =~= self.inner.strategies.deep_view());
        stable_sort(strategies, strategy_before, Ghost(by_strategy_id()))
    }

    /// The accounts as they are shown, in order of their ids.
    pub fn list_accounts(&self) -> (r: Vec<AccountView>)
        ensures
            r.deep_view() == stably_sorted(
                self@.store.accounts.map_values(|account: AccountRecordModel| account.shown()),
                by_view_id(),
            ),
    {
        let mut views: Vec<AccountView> = Vec::new();
        let mut i: usize = 0;
        while i < self.inner.accounts.len()
            invariant
                i <= self.inner.accounts.len(),
                views.len() == i,
                forall|j: int|
                    0 <= j < i ==> (#[trigger] views.deep_view()[j])
                        == self.inner.accounts.deep_view()[j].shown(),
            decreases self.inner.accounts.len() - i,
        {
            let ghost before = views.deep_view();
            let view = AccountView::from_record(&self.inner.accounts[i]);
            let ghost vv = view@;
            views.push(view);
            assert(views.deep_view() =~= before.push(vv));
            i += 1;
        }
        assert(views.deep_view() =~= self@.store.accounts.map_values(
            |account: AccountRecordModel| account.shown(),
        ));
        stable_sort(views, view_before, Ghost(by_view_id()))
    }

    fn save_strategy(&self, request: &StrategyUpsertRequest, now: u64) -> (r: AppResult<
        (StrategyRecord, PersistedStore),
    >)
        requires
            checked_strategy(request@, self@.store.accounts) is Ok ==> self@.store.revision
                < u64::MAX,
        ensures
            outcome(r) == strategy_saved(self@.store, request@, now),
    {
        let mut next = self.inner.clone();
        let validated = match validate_strategy_request(request, next.accounts.as_slice()) {
            Ok(validated) => validated,
            Err(why) => return Err(why),
        };
        let ghost all = next.strategies.deep_view();
        let found = find_strategy(&next.strategies, &validated.id);
        let record = match found {
            Some(at) => {
                assert(all[at as int] == next.strategies[at as int]@);
                let created_at_ms: u64 = next.strategies[at].created_at_ms;
                let record = validated.into_record(created_at_ms, now);
                next.strategies[at] = record.clone();
                assert(next.strategies.deep_view() =~= all.update(at as int, record@));
                record
            },
            None => {
                let record = validated.into_record(now, now);
                next.strategies.push(record.clone());
                assert(next.strategies.deep_view() =~= all.push(record@));
                record
            },
        };
        next.strategies = stable_sort(next.strategies, strategy_before, Ghost(by_strategy_id()));
        next.revision = next.revision + 1;
        Ok((record, next))
    }

    /// Whether a request to save a strategy can be carried out.
    fn can_upsert_strategy(&self, request: &StrategyUpsertRequest, now: u64) -> (r: bool)
        ensures
            r == feasible(
                self@.crypto,
                self@.store,
                strategy_saved(self@.store, request@, now),
            ),
    {
        if self.inner.revision == u64::MAX {
            return validate_strategy_request(request, self.inner.accounts.as_slice()).is_err();
        }
        match self.save_strategy(request, now) {
            Ok((_, next)) => self.can_load(&next),
            Err(_) => true,
        }
    }

    /// Answers a request to save a strategy, at time `now`.
    pub fn upsert_strategy(&self, request: StrategyUpsertRequest, now: u64) -> (r: AppResult<
        StoreUpdate<StrategyRecord>,
    >)
        requires
            feasible(self@.crypto, self@.store, strategy_saved(self@.store, request@, now)),
        ensures
            outcome(r) == with_catalog(
                self@.crypto,
                strategy_saved(self@.store, request@, now),
            ),
    {
        let (entity, next) = match self.save_strategy(&request, now) {
            Ok(saved) => saved,
            Err(why) => return Err(why),
        };
        match self.runtime_catalog_from_store(&next) {
            Ok(runtime_catalog) => Ok(StoreUpdate { entity, runtime_catalog, next }),
            Err(why) => Err(why),
        }
    }

    fn switch_strategy(&self, strategy_id: &StrategyId, enabled: bool, now: u64) -> (r: AppResult<
        (StrategyRecord, PersistedStore),
    >)
        requires
            strategy_switched(self@.store, strategy_id@, enabled, now) is Ok
                ==> self@.store.revision < u64::MAX,
        ensures
            outcome(r) == strategy_switched(self@.store, strategy_id@, enabled, now),
    {
        let mut next = self.inner.clone();
        let ghost all = next.strategies.deep_view();
        let at: usize = match find_strategy(&next.strategies, strategy_id) {
            Some(at) => at,
            None => {
                let mut message = "strategy `".to_owned();
                message.append(strategy_id.as_str());
                message.append("` 不存在");
                return Err(AppError::NotFound(message));
            },
        };
        assert(all[at as int] == next.strategies[at as int]@);
        let created_at_ms: u64 = next.strategies[at].created_at_ms;
        let mut request = next.strategies[at].request();
        request.enabled = enabled;
        assert(request@ == (StrategyConfigModel { enabled, ..all[at as int].config }));
        let validated = match validate_strategy_request(&request, next.accounts.as_slice()) {
            Ok(validated) => validated,
            Err(why) => return Err(why),
        };
        let record = validated.into_record(created_at_ms, now);
        next.strategies[at] = record.clone();
        assert(next.strategies.deep_view() =~= all.update(at as int, record@));
        next.revision = next.revision + 1;
        Ok((record, next))
    }

    /// Whether a request to switch a strategy on or off can be carried out.
    fn can_set_strategy_enabled(&self, strategy_id: &StrategyId, enabled: bool, now: u64) -> (r:
        bool)
        ensures
            r == feasible(
                self@.crypto,
                self@.store,
                strategy_switched(self@.store, strategy_id@, enabled, now),
            ),
    {
        if self.inner.revision == u64::MAX {
            let at: usize = match find_strategy(&self.inner.strategies, strategy_id) {
                Some(at) => at,
                None => return true,
            };
            let ghost all = self.inner.strategies.deep_view();
            assert(all[at as int] == self.inner.strategies[at as int]@);
            let mut request = self.inner.strategies[at].request();
            request.enabled = enabled;
            assert(request@ == (StrategyConfigModel { enabled, ..all[at as int].config }));
            return validate_strategy_request(&request, self.inner.accounts.as_slice()).is_err();
        }
        match self.switch_strategy(strategy_id, enabled, now) {
            Ok((_, next)) => self.can_load(&next),
            Err(_) => true,
        }
    }

    /// Answers a request to save a strategy, at time `now`; nothing where it cannot be carried out.
    pub fn try_upsert_strategy(&self, request: StrategyUpsertRequest, now: u64) -> (r: Option<
        AppResult<StoreUpdate<StrategyRecord>>,
    >)
        ensures
            match r {
                Some(answer) => outcome(answer) == with_catalog(
                    self@.crypto,
                    strategy_saved(self@.store, request@, now),
                ),
                None => true,
            },
            r is Some <==> feasible(
                self@.crypto,
                self@.store,
                strategy_saved(self@.store, request@, now),
            ),
    {
        if self.can_upsert_strategy(&request, now) {
            Some(self.upsert_strategy(request, now))
        } else {
            None
        }
    }

    /// Answers a request to switch a strategy on or off, at time `now`; nothing where it cannot be
    /// carried out.
    pub fn try_set_strategy_enabled(
        &self,
        strategy_id: &StrategyId,
        enabled: bool,
        now: u64,
    ) -> (r: Option<AppResult<StoreUpdate<StrategyRecord>>>)
        ensures
            match r {
                Some(answer) => outcome(answer) == with_catalog(
                    self@.crypto,
                    strategy_switched(self@.store, strategy_id@, enabled, now),
                ),
                None => true,
            },
            r is Some <==> feasible(
                self@.crypto,
                self@.store,
                strategy_switched(self@.store, strategy_id@, enabled, now),
            ),
    {
        if self.can_set_strategy_enabled(strategy_id, enabled, now) {
            Some(self.set_strategy_enabled(strategy_id, enabled, now))
        } else {
            None
        }
    }

    /// Answers a request to switch a strategy on or off, at time `now`.
    pub fn set_strategy_enabled(&self, strategy_id: &StrategyId, enabled: bool, now: u64) -> (r:
        AppResult<StoreUpdate<StrategyRecord>>)
        requires
            feasible(
                self@.crypto,
                self@.store,
                strategy_switched(self@.store, strategy_id@, enabled, now),
            ),
        ensures
            outcome(r) == with_catalog(
                self@.crypto,
                strategy_switched(self@.store, strategy_id@, enabled, now),
            ),
    {
        let (entity, next) = match self.switch_strategy(strategy_id, enabled, now) {
            Ok(switched) => switched,
            Err(why) => return Err(why),
        };
        match self.runtime_catalog_from_store(&next) {
            Ok(runtime_catalog) => Ok(StoreUpdate { entity, runtime_catalog, next }),
            Err(why) => Err(why),
        }
    }

    /// Seals the secrets of an account.
    pub fn seal_secrets(&self, input: &ValidatedAccountInput) -> (r: AppResult<
        EncryptedAccountSecrets,
    >)
        ensures
            match outcome(r) {
                Ok(credentials) => seal_fault(self@.crypto, input@) is None && secrets_sealed(
                    self@.crypto,
                    input@,
                    credentials,
                ),
                Err(why) => seal_fault(self@.crypto, input@) == Some(why),
            },
    {
        let ghost nonce = Seq::new(12, |i: int| 0u8);
        let api_key = match self.crypto.encrypt_string(input.api_key.as_str()) {
            Ok(value) => value,
            Err(why) => {
                assert(self@.crypto.encrypted(input@.api_key, nonce) is Err);
                return Err(why);
            },
        };
        proof {
            lemma_sealing_does_not_rest_on_the_nonce(
                self@.crypto,
                input@.api_key,
                api_key@,
                nonce,
            );
        }
        let api_secret = match self.crypto.encrypt_string(input.api_secret.as_str()) {
            Ok(value) => value,
            Err(why) => {
                assert(self@.crypto.encrypted(input@.api_secret, nonce) is Err);
                return Err(why);
            },
        };
        proof {
            lemma_sealing_does_not_rest_on_the_nonce(
                self@.crypto,
                input@.api_secret,
                api_secret@,
                nonce,
            );
        }
        let passphrase = match &input.passphrase {
            None => None,
            Some(text) => match self.crypto.encrypt_string(text.as_str()) {
                Ok(value) => {
                    proof {
                        lemma_sealing_does_not_rest_on_the_nonce(
                            self@.crypto,
                            text@,
                            value@,
                            nonce,
                        );
                    }
                    Some(value)
                },
                Err(why) => {
                    assert(self@.crypto.encrypted(text@, nonce) is Err);
                    return Err(why);
                },
            },
        };
        Ok(EncryptedAccountSecrets { api_key, api_secret, passphrase })
    }

    fn record_account(
        &self,
        input: ValidatedAccountInput,
        credentials: EncryptedAccountSecrets,
        now: u64,
    ) -> (r: AppResult<(AccountRecord, PersistedStore)>)
        requires
            account_saved(self@.store, input@, credentials@, now) is Ok ==> self@.store.revision
                < u64::MAX,
        ensures
            outcome(r) == account_saved(self@.store, input@, credentials@, now),
    {
        let mut next = self.inner.clone();
        let ghost all = next.accounts.deep_view();
        let found = find_account_place(&next.accounts, &input.id);
        let record = match found {
            Some(at) => {
                assert(all[at as int] == next.accounts[at as int]@);
                let created_at_ms: u64 = next.accounts[at].created_at_ms;
                let record = AccountRecord::from_validated(input, credentials, created_at_ms, now);
                next.accounts[at] = record.clone();
                assert(next.accounts.deep_view() =~= all.update(at as int, record@));
                record
            },
            None => {
                let record = AccountRecord::from_validated(input, credentials, now, now);
                next.accounts.push(record.clone());
                assert(next.accounts.deep_view() =~= all.push(record@));
                record
            },
        };
        if let Err(why) = validate_existing_strategies(
            next.strategies.as_slice(),
            next.accounts.as_slice(),
        ) {
            return Err(why);
        }
        next.accounts = stable_sort(next.accounts, account_before, Ghost(by_account_id()));
        next.revision = next.revision + 1;
        Ok((record, next))
    }

    /// Whether saving an account with sealed secrets can be carried out.
    fn can_save_account(
        &self,
        input: &ValidatedAccountInput,
        credentials: &EncryptedAccountSecrets,
        now: u64,
    ) -> (r: bool)
        ensures
            r == feasible(
                self@.crypto,
                self@.store,
                account_saved(self@.store, input@, credentials@, now),
            ),
    {
        if self.inner.revision == u64::MAX {
            let mut first = self.inner.clone();
            first.revision = 0;
            let probe = FileStore { crypto: self.crypto.clone(), inner: first };
            return probe.record_account(input.clone(), credentials.clone(), now).is_err();
        }
        match self.record_account(input.clone(), credentials.clone(), now) {
            Ok((_, next)) => self.can_load(&next),
            Err(_) => true,
        }
    }

    /// Saves an account with sealed secrets, at time `now`.
    pub fn save_account(
        &self,
        input: ValidatedAccountInput,
        credentials: EncryptedAccountSecrets,
        now: u64,
    ) -> (r: AppResult<StoreUpdate<AccountView>>)
        requires
            feasible(
                self@.crypto,
                self@.store,
                account_saved(self@.store, input@, credentials@, now),
            ),
        ensures
            outcome(r) == with_catalog(
                self@.crypto,
                shown_account(account_saved(self@.store, input@, credentials@, now)),
            ),
    {
        let (record, next) = match self.record_account(input, credentials, now) {
            Ok(saved) => saved,
            Err(why) => return Err(why),
        };
        match self.runtime_catalog_from_store(&next) {
            Ok(runtime_catalog) => Ok(
                StoreUpdate { entity: AccountView::from_record(&record), runtime_catalog, next },
            ),
            Err(why) => Err(why),
        }
    }

    /// Answers a request to save an account, at time `now`; nothing where it cannot be carried out.
    /// Its secrets are sealed with nonces of chance.
    pub fn upsert_account(&self, request: AccountUpsertRequest, now: u64) -> (r: Option<
        AppResult<StoreUpdate<AccountView>>,
    >)
        requires
            account_maskable(request@),
        ensures
            match r {
                Some(answer) => account_answer(self@, request@, now, outcome(answer)),
                None => account_infeasible(self@, request@, now),
            },
    {
        let input = match validate_account_request(&request) {
            Ok(input) => input,
            Err(why) => return Some(Err(why)),
        };
        let credentials = match self.seal_secrets(&input) {
            Ok(credentials) => credentials,
            Err(why) => return Some(Err(why)),
        };
        assert(secrets_sealed(self@.crypto, input@, credentials@));
        if self.can_save_account(&input, &credentials, now) {
            Some(self.save_account(input, credentials, now))
        } else {
            None
        }
    }

    /// What is to be run.
    pub fn runtime_catalog(&self) -> (r: AppResult<RuntimeCatalog>)
        requires
            loadable(self@.crypto, self@.store),
        ensures
            outcome(r) == catalog_of(self@.crypto, self@.store),
    {
        self.runtime_catalog_from_store(&self.inner)
    }

    /// What is to be run; nothing where it cannot be worked out.
    pub fn try_runtime_catalog(&self) -> (r: Option<AppResult<RuntimeCatalog>>)
        ensures
            match r {
                Some(answer) => outcome(answer) == catalog_of(self@.crypto, self@.store),
                None => true,
            },
            r is Some <==> loadable(self@.crypto, self@.store),
    {
        if self.can_load(&self.inner) {
            Some(self.runtime_catalog())
        } else {
            None
        }
    }

    /// The plan for the enabled strategies; nothing is said of the time that it carries.
    pub fn runtime_plan_without_credentials(&self) -> (r: RuntimePlan)
        requires
            self@.store.strategies.len() < usize::MAX,
        ensures
            r@ == plan_model(enabled_of(self@.store.strategies), r.generated_at_ms),
    {
        let enabled = enabled_strategies(&self.inner.strategies);
        assert(self@.store.strategies.len() == self.inner.strategies.len());
        build_runtime_plan(enabled.as_slice())
    }

    fn runtime_catalog_from_store(&self, store: &PersistedStore) -> (r: AppResult<RuntimeCatalog>)
        requires
            loadable(self@.crypto, store@),
        ensures
            outcome(r) == catalog_of(self@.crypto, store@),
    {
        let enabled = enabled_strategies(&store.strategies);
        let ghost strategies = enabled.deep_view();
        let ghost all = store.accounts.deep_view();
        let mut referenced_accounts: Vec<RuntimeAccount> = Vec::new();
        let mut i: usize = 0;
        assert(referenced_accounts.deep_view() =~= Seq::empty());
        while i < store.accounts.len()
            invariant
                i <= store.accounts.len(),
                all == store.accounts.deep_view(),
                strategies == enabled.deep_view(),
                strategies == enabled_of(store@.strategies),
                accounts_fit(self@.crypto, all, strategies),
                opened_accounts(self@.crypto, all.take(i as int), strategies) == Ok::<
                    Seq<RuntimeAccountModel>,
                    AppErrorModel,
                >(referenced_accounts.deep_view()),
            decreases store.accounts.len() - i,
        {
            let account = &store.accounts[i];
            let ghost before = referenced_accounts.deep_view();
            proof {
                assert(all.take(i + 1).drop_last() =~= all.take(i as int));
                assert(all.take(i + 1).last() == account@);
                lemma_accounts_fit(self@.crypto, all, strategies, i + 1);
            }
            if is_referenced(&enabled, &account.id) {
                let credentials = match open_secrets(&self.crypto, &account.credentials) {
                    Ok(credentials) => credentials,
                    Err(why) => {
                        proof {
                            lemma_opened_fault(self@.crypto, all, strategies, i + 1);
                        }
                        return Err(why);
                    },
                };
                let opened = RuntimeAccount {
                    id: account.id.clone(),
                    name: account.name.clone(),
                    exchange: account.exchange,
                    credentials,
                };
                let ghost ov = opened@;
                referenced_accounts.push(opened);
                assert(referenced_accounts.deep_view() =~= before.push(ov));
            }
            i += 1;
        }
        assert(all.take(all.len() as int) =~= all);
        Ok(
            RuntimeCatalog {
                store_revision: store.revision,
                enabled_strategies: enabled,
                referenced_accounts,
            },
        )
    }

    fn can_load(&self, store: &PersistedStore) -> (r: bool)
        ensures
            r == loadable(self@.crypto, store@),
    {
        let enabled = enabled_strategies(&store.strategies);
        let ghost strategies = enabled.deep_view();
        let ghost all = store.accounts.deep_view();
        let mut i: usize = 0;
        assert(opened_accounts(self@.crypto, all.take(0), strategies) is Ok);
        while i < store.accounts.len()
            invariant
                i <= store.accounts.len(),
                all == store.accounts.deep_view(),
                strategies == enabled.deep_view(),
                strategies == enabled_of(store@.strategies),
                accounts_fit(self@.crypto, all.take(i as int), strategies),
                opened_accounts(self@.crypto, all.take(i as int), strategies) is Ok,
            decreases store.accounts.len() - i,
        {
            let account = &store.accounts[i];
            proof {
                assert(all.take(i + 1).drop_last() =~= all.take(i as int));
                assert(all.take(i + 1).last() == account@);
            }
            if is_referenced(&enabled, &account.id) {
                if !do_secrets_fit(&self.crypto, &account.credentials) {
                    proof {
                        assert(!accounts_fit(self@.crypto, all.take(i + 1), strategies));
                        if accounts_fit(self@.crypto, all, strategies) {
                            lemma_accounts_fit(self@.crypto, all, strategies, i + 1);
                        }
                    }
                    return false;
                }
                if open_secrets(&self.crypto, &account.credentials).is_err() {
                    proof {
                        lemma_fit_after_fault(self@.crypto, all, strategies, i + 1);
                    }
                    return true;
                }
            }
            i += 1;
        }
        assert(all.take(all.len() as int) =~= all);
        true
    }

    /// Puts a store that has been written to its file in place of the one in memory.
    pub fn commit(&mut self, next: PersistedStore)
        ensures
            final(self)@ == (FileStoreModel { store: next@, ..old(self)@ }),
    {
        self.inner = next;
    }

    /// The store in memory.
    pub fn persisted(&self) -> (r: &PersistedStore)
        ensures
            r@ == self@.store,
    {
        &self.inner
    }
}

/// What a request to save an account is answered with: what it breaks, why its secrets cannot be
/// sealed, or what saving it with some sealing of its secrets gives.
pub open spec fn account_answer(
    store: FileStoreModel,
    request: AccountUpsertRequestModel,
    now: u64,
    answer: Result<StoreUpdateModel<AccountViewModel>, AppErrorModel>,
) -> bool {
    match checked_account(request) {
        Err(why) => answer == Err::<StoreUpdateModel<AccountViewModel>, AppErrorModel>(why),
        Ok(input) => match seal_fault(store.crypto, input) {
            Some(why) => answer == Err::<StoreUpdateModel<AccountViewModel>, AppErrorModel>(why),
            None => exists|credentials: EncryptedAccountSecretsModel| #[trigger]
                secrets_sealed(store.crypto, input, credentials) && answer == with_catalog(
                    store.crypto,
                    shown_account(account_saved(store.store, input, credentials, now)),
                ),
        },
    }
}

/// Whether some sealing of a requested account's secrets cannot be saved.
pub open spec fn account_infeasible(
    store: FileStoreModel,
    request: AccountUpsertRequestModel,
    now: u64,
) -> bool {
    checked_account(request) matches Ok(input) && exists|
        credentials: EncryptedAccountSecretsModel,
    | #[trigger]
        secrets_sealed(store.crypto, input, credentials) && !feasible(
            store.crypto,
            store.store,
            account_saved(store.store, input, credentials, now),
        )
}

proof fn lemma_sealing_does_not_rest_on_the_nonce(
    crypto: CryptoModel,
    plain: Seq<char>,
    value: EncryptedValueModel,
    nonce: Seq<u8>,
)
    requires
        seals(crypto, plain, value),
    ensures
        crypto.encrypted(plain, nonce) is Ok,
{
}

proof fn lemma_accounts_fit(
    crypto: CryptoModel,
    accounts: Seq<AccountRecordModel>,
    strategies: Seq<StrategyRecordModel>,
    n: int,
)
    requires
        0 <= n <= accounts.len(),
        accounts_fit(crypto, accounts, strategies),
    ensures
        accounts_fit(crypto, accounts.take(n), strategies),
    decreases accounts.len(),
{
    if n == accounts.len() {
        assert(accounts.take(n) =~= accounts);
    } else {
        lemma_accounts_fit(crypto, accounts.drop_last(), strategies, n);
        assert(accounts.drop_last().take(n) =~= accounts.take(n));
    }
}

proof fn lemma_opened_fault(
    crypto: CryptoModel,
    accounts: Seq<AccountRecordModel>,
    strategies: Seq<StrategyRecordModel>,
    n: int,
)
    requires
        0 <= n <= accounts.len(),
        opened_accounts(crypto, accounts.take(n), strategies) is Err,
    ensures
        opened_accounts(crypto, accounts, strategies) == opened_accounts(
            crypto,
            accounts.take(n),
            strategies,
        ),
    decreases accounts.len(),
{
    if n == accounts.len() {
        assert(accounts.take(n) =~= accounts);
    } else {
        assert(accounts.drop_last().take(n) =~= accounts.take(n));
        lemma_opened_fault(crypto, accounts.drop_last(), strategies, n);
    }
}

proof fn lemma_fit_after_fault(
    crypto: CryptoModel,
    accounts: Seq<AccountRecordModel>,
    strategies: Seq<StrategyRecordModel>,
    n: int,
)
    requires
        0 <= n <= accounts.len(),
        accounts_fit(crypto, accounts.take(n), strategies),
        opened_accounts(crypto, accounts.take(n), strategies) is Err,
    ensures
        accounts_fit(crypto, accounts, strategies),
    decreases accounts.len(),
{
    if n == accounts.len() {
        assert(accounts.take(n) =~= accounts);
    } else {
        assert(accounts.drop_last().take(n) =~= accounts.take(n));
        lemma_fit_after_fault(crypto, accounts.drop_last(), strategies, n);
        lemma_opened_fault(crypto, accounts.drop_last(), strategies, n);
    }
}

} // verus!
