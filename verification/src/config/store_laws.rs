//! What holds of the stored configuration from request to request.

use vstd::prelude::*;

use crate::config::crypto::{decryption_undoes_encryption, seals, CryptoModel};
use crate::config::model::{
    AccountCredentialsModel, AccountRecordModel, AccountUpsertRequestModel, AccountViewModel,
    EncryptedAccountSecretsModel, EncryptedValueModel, PersistedStoreModel, RuntimeAccountModel,
    RuntimeCatalogModel, StrategyConfigModel, StrategyRecordModel, ValidatedAccountInputModel,
};
use crate::config::persist::{
    account_answer, account_place, account_record, account_saved, by_account_id, by_strategy_id,
    catalog_of, enabled_of, opened_accounts, opened_secrets, references, seal_fault, secrets_fit,
    secrets_sealed, shown_account, strategy_place, strategy_saved, strategy_switched, with_account,
    with_catalog, FileStoreModel, StoreUpdateModel,
};
use crate::config::validate::{account_with, checked_account, checked_strategy, strategies_fault};
use crate::config::validate_laws::{
    accounts_are_checked, checking_twice_changes_nothing, leg_is_shaped,
    stored_strategies_are_checked, strategies_are_checked, strategy_is_fine,
};
use crate::error::AppErrorModel;
use crate::order::{
    in_order, lemma_sorted_contains, lemma_sorted_length, lemma_sorted_unchanged, orders, pairwise,
    sorting_keeps_pairs, sorting_sorts, stably_sorted,
};
use crate::text::{text_order, text_order_transitive, trimmed};

verus! {

/// Whether no two strategies have the same id.
pub open spec fn strategy_ids_differ(strategies: Seq<StrategyRecordModel>) -> bool {
    pairwise(
        strategies,
        |a: StrategyRecordModel, b: StrategyRecordModel| a.config.id != b.config.id,
    )
}

/// Whether no two accounts have the same id.
pub open spec fn account_ids_differ(accounts: Seq<AccountRecordModel>) -> bool {
    pairwise(accounts, |a: AccountRecordModel, b: AccountRecordModel| a.id != b.id)
}

proof fn lemma_strategy_place(strategies: Seq<StrategyRecordModel>, id: Seq<char>)
    ensures
        match strategy_place(strategies, id) {
            Some(at) => 0 <= at < strategies.len() && strategies[at].config.id == id,
            None => forall|i: int|
                0 <= i < strategies.len() ==> (#[trigger] strategies[i]).config.id != id,
        },
    decreases strategies.len(),
{
    if strategies.len() > 0 {
        let rest = strategies.drop_first();
        lemma_strategy_place(rest, id);
        if strategies[0].config.id != id && strategy_place(rest, id) is None {
            assert forall|i: int| 0 <= i < strategies.len() implies (
            #[trigger] strategies[i]).config.id != id by {
                if i > 0 {
                    assert(rest[i - 1] == strategies[i]);
                }
            }
        }
    }
}

proof fn lemma_account_place(accounts: Seq<AccountRecordModel>, id: Seq<char>)
    ensures
        match account_place(accounts, id) {
            Some(at) => 0 <= at < accounts.len() && accounts[at].id == id,
            None => forall|i: int| 0 <= i < accounts.len() ==> (#[trigger] accounts[i]).id != id,
        },
    decreases accounts.len(),
{
    if accounts.len() > 0 {
        let rest = accounts.drop_first();
        lemma_account_place(rest, id);
        if accounts[0].id != id && account_place(rest, id) is None {
            assert forall|i: int| 0 <= i < accounts.len() implies (#[trigger] accounts[i]).id
                != id by {
                if i > 0 {
                    assert(rest[i - 1] == accounts[i]);
                }
            }
        }
    }
}

proof fn lemma_strategy_order()
    ensures
        orders(by_strategy_id()),
{
    let less = by_strategy_id();
    assert forall|a: StrategyRecordModel, b: StrategyRecordModel| #[trigger]
        less(a, b) implies !less(b, a) by {
        text_order(a.config.id, b.config.id);
    }
    assert forall|a: StrategyRecordModel, b: StrategyRecordModel, c: StrategyRecordModel|
        !(#[trigger] less(b, a)) && !(#[trigger] less(c, b)) implies !less(c, a) by {
        text_order(a.config.id, b.config.id);
        text_order(b.config.id, c.config.id);
        text_order(a.config.id, c.config.id);
        if less(c, a) {
            if a.config.id != b.config.id {
                text_order_transitive(c.config.id, a.config.id, b.config.id);
            }
        }
    }
}

proof fn lemma_account_order()
    ensures
        orders(by_account_id()),
{
    let less = by_account_id();
    assert forall|a: AccountRecordModel, b: AccountRecordModel| #[trigger]
        less(a, b) implies !less(b, a) by {
        text_order(a.id, b.id);
    }
    assert forall|a: AccountRecordModel, b: AccountRecordModel, c: AccountRecordModel|
        !(#[trigger] less(b, a)) && !(#[trigger] less(c, b)) implies !less(c, a) by {
        text_order(a.id, b.id);
        text_order(b.id, c.id);
        text_order(a.id, c.id);
        if less(c, a) {
            if a.id != b.id {
                text_order_transitive(c.id, a.id, b.id);
            }
        }
    }
}

/// A saved strategy is in the next store, and every strategy of another id is still there as it was.
pub proof fn saved_strategies_are_found(
    store: PersistedStoreModel,
    request: StrategyConfigModel,
    now: u64,
    other: StrategyRecordModel,
)
    requires
        strategy_saved(store, request, now) is Ok,
    ensures
        ({
            let (record, next) = strategy_saved(store, request, now)->Ok_0;
            &&& next.strategies.contains(record)
            &&& next.accounts == store.accounts
            &&& other.config.id != record.config.id ==> (next.strategies.contains(other)
                <==> store.strategies.contains(other))
        }),
{
    let (record, next) = strategy_saved(store, request, now)->Ok_0;
    let all = store.strategies;
    lemma_strategy_place(all, record.config.id);
    let place = strategy_place(all, record.config.id);
    let changed = match place {
        Some(at) => all.update(at, record),
        None => all.push(record),
    };
    lemma_sorted_contains(changed, by_strategy_id(), record);
    lemma_sorted_contains(changed, by_strategy_id(), other);
    match place {
        Some(at) => {
            assert(changed[at] == record);
        },
        None => {
            assert(changed[all.len() as int] == record);
        },
    }
    if other.config.id != record.config.id {
        if all.contains(other) {
            let i = choose|i: int| 0 <= i < all.len() && all[i] == other;
            assert(changed[i] == other);
        }
        if changed.contains(other) {
            let i = choose|i: int| 0 <= i < changed.len() && changed[i] == other;
            assert(i < all.len());
            assert(all[i] == other);
        }
    }
}

/// Saving a strategy keeps ids different and leaves the strategies in order of their ids, the order in
/// which they are listed.
pub proof fn saving_keeps_strategies_in_order(
    store: PersistedStoreModel,
    request: StrategyConfigModel,
    now: u64,
)
    requires
        strategy_saved(store, request, now) is Ok,
        strategy_ids_differ(store.strategies),
    ensures
        ({
            let next = strategy_saved(store, request, now)->Ok_0.1;
            &&& strategy_ids_differ(next.strategies)
            &&& in_order(next.strategies, by_strategy_id())
            &&& stably_sorted(next.strategies, by_strategy_id()) == next.strategies
        }),
{
    let record = strategy_saved(store, request, now)->Ok_0.0;
    let all = store.strategies;
    let differ = |a: StrategyRecordModel, b: StrategyRecordModel| a.config.id != b.config.id;
    lemma_strategy_place(all, record.config.id);
    let changed = match strategy_place(all, record.config.id) {
        Some(at) => all.update(at, record),
        None => all.push(record),
    };
    assert(pairwise(changed, differ)) by {
        assert forall|i: int, j: int|
            0 <= i < changed.len() && 0 <= j < changed.len() && i != j implies differ(
            #[trigger] changed[i],
            #[trigger] changed[j],
        ) by {
            match strategy_place(all, record.config.id) {
                Some(at) => {
                    assert(differ(all[i], all[j]));
                    assert(all[at].config.id == record.config.id);
                },
                None => {
                    if i < all.len() && j < all.len() {
                        assert(differ(all[i], all[j]));
                    }
                },
            }
        }
    }
    sorting_keeps_pairs(changed, by_strategy_id(), differ);
    lemma_strategy_order();
    sorting_sorts(changed, by_strategy_id());
    lemma_sorted_unchanged(stably_sorted(changed, by_strategy_id()), by_strategy_id());
}

proof fn lemma_changed_ids_differ(store: PersistedStoreModel, record: AccountRecordModel)
    requires
        account_ids_differ(store.accounts),
    ensures
        account_ids_differ(with_account(store, record)),
{
    let all = store.accounts;
    let changed = with_account(store, record);
    let differ = |a: AccountRecordModel, b: AccountRecordModel| a.id != b.id;
    lemma_account_place(all, record.id);
    assert forall|i: int, j: int|
        0 <= i < changed.len() && 0 <= j < changed.len() && i != j implies differ(
        #[trigger] changed[i],
        #[trigger] changed[j],
    ) by {
        match account_place(all, record.id) {
            Some(at) => {
                assert(differ(all[i], all[j]));
                assert(all[at].id == record.id);
            },
            None => {
                if i < all.len() && j < all.len() {
                    assert(differ(all[i], all[j]));
                }
            },
        }
    }
}

/// Saving an account keeps ids different and leaves the accounts in order of their ids.
pub proof fn saving_keeps_accounts_in_order(
    store: PersistedStoreModel,
    input: ValidatedAccountInputModel,
    credentials: EncryptedAccountSecretsModel,
    now: u64,
)
    requires
        account_saved(store, input, credentials, now) is Ok,
        account_ids_differ(store.accounts),
    ensures
        ({
            let (record, next) = account_saved(store, input, credentials, now)->Ok_0;
            &&& next.accounts.contains(record)
            &&& next.strategies == store.strategies
            &&& account_ids_differ(next.accounts)
            &&& in_order(next.accounts, by_account_id())
        }),
{
    let record = account_saved(store, input, credentials, now)->Ok_0.0;
    let all = store.accounts;
    let changed = with_account(store, record);
    let differ = |a: AccountRecordModel, b: AccountRecordModel| a.id != b.id;
    lemma_account_place(all, record.id);
    lemma_changed_ids_differ(store, record);
    match account_place(all, record.id) {
        Some(at) => {
            assert(changed[at] == record);
        },
        None => {
            assert(changed[all.len() as int] == record);
        },
    }
    lemma_sorted_contains(changed, by_account_id(), record);
    sorting_keeps_pairs(changed, by_account_id(), differ);
    lemma_account_order();
    sorting_sorts(changed, by_account_id());
}

/// Every change counts the revision on by one. What is new gets the time of the change as its time of
/// creation, and what was there keeps its own.
pub proof fn changes_are_counted(
    store: PersistedStoreModel,
    request: StrategyConfigModel,
    strategy_id: Seq<char>,
    enabled: bool,
    input: ValidatedAccountInputModel,
    credentials: EncryptedAccountSecretsModel,
    now: u64,
)
    requires
        store.revision < u64::MAX,
    ensures
        strategy_saved(store, request, now) matches Ok((record, next)) ==> {
            &&& next.revision == store.revision + 1
            &&& record.updated_at_ms == now
            &&& record.created_at_ms == match strategy_place(store.strategies, record.config.id) {
                Some(at) => store.strategies[at].created_at_ms,
                None => now,
            }
        },
        strategy_switched(store, strategy_id, enabled, now) matches Ok((record, next)) ==> {
            &&& next.revision == store.revision + 1
            &&& next.accounts == store.accounts
            &&& next.strategies.len() == store.strategies.len()
            &&& record.config.enabled == enabled
            &&& record.updated_at_ms == now
            &&& strategy_place(store.strategies, strategy_id) matches Some(at)
            &&& record.created_at_ms == store.strategies[at].created_at_ms
        },
        account_saved(store, input, credentials, now) matches Ok((record, next)) ==> {
            &&& next.revision == store.revision + 1
            &&& record.updated_at_ms == now
            &&& record.created_at_ms == match account_place(store.accounts, record.id) {
                Some(at) => store.accounts[at].created_at_ms,
                None => now,
            }
        },
{
    lemma_strategy_place(store.strategies, strategy_id);
}

/// Whether a store is as its changes leave it: ids differ and are in order, and every strategy keeps
/// the rules as it is.
pub open spec fn sound(store: PersistedStoreModel) -> bool {
    &&& strategy_ids_differ(store.strategies)
    &&& account_ids_differ(store.accounts)
    &&& in_order(store.strategies, by_strategy_id())
    &&& in_order(store.accounts, by_account_id())
    &&& keep_the_rules(store.strategies, store.accounts)
}

/// Whether every strategy keeps the rules as it is.
pub open spec fn keep_the_rules(
    strategies: Seq<StrategyRecordModel>,
    accounts: Seq<AccountRecordModel>,
) -> bool {
    forall|i: int|
        0 <= i < strategies.len() ==> checked_strategy(
            (#[trigger] strategies[i]).config,
            accounts,
        ) == Ok::<StrategyConfigModel, AppErrorModel>(strategies[i].config)
}

proof fn lemma_sorted_keeps_rules(
    strategies: Seq<StrategyRecordModel>,
    accounts: Seq<AccountRecordModel>,
)
    requires
        keep_the_rules(strategies, accounts),
    ensures
        keep_the_rules(stably_sorted(strategies, by_strategy_id()), accounts),
{
    let sorted = stably_sorted(strategies, by_strategy_id());
    assert forall|i: int| 0 <= i < sorted.len() implies checked_strategy(
        (#[trigger] sorted[i]).config,
        accounts,
    ) == Ok::<StrategyConfigModel, AppErrorModel>(sorted[i].config) by {
        lemma_sorted_contains(strategies, by_strategy_id(), sorted[i]);
        assert(sorted.contains(sorted[i]));
        let k = choose|k: int| 0 <= k < strategies.len() && strategies[k] == sorted[i];
        assert(strategies[k] == sorted[i]);
    }
}

proof fn lemma_account_with(accounts: Seq<AccountRecordModel>, id: Seq<char>)
    ensures
        match account_with(accounts, id) {
            Some(account) => accounts.contains(account) && account.id == id,
            None => forall|i: int| 0 <= i < accounts.len() ==> (#[trigger] accounts[i]).id != id,
        },
    decreases accounts.len(),
{
    if accounts.len() > 0 {
        let front = accounts.drop_last();
        lemma_account_with(front, id);
        if accounts.last().id == id {
            assert(accounts[accounts.len() - 1] == accounts.last());
        } else {
            match account_with(front, id) {
                Some(account) => {
                    let k = choose|k: int| 0 <= k < front.len() && front[k] == account;
                    assert(accounts[k] == account);
                },
                None => {
                    assert forall|i: int| 0 <= i < accounts.len() implies (
                    #[trigger] accounts[i]).id != id by {
                        if i < front.len() {
                            assert(front[i] == accounts[i]);
                        }
                    }
                },
            }
        }
    }
}

proof fn lemma_sorted_account_with(accounts: Seq<AccountRecordModel>, id: Seq<char>)
    requires
        account_ids_differ(accounts),
    ensures
        account_with(stably_sorted(accounts, by_account_id()), id) == account_with(accounts, id),
{
    let differ = |a: AccountRecordModel, b: AccountRecordModel| a.id != b.id;
    let sorted = stably_sorted(accounts, by_account_id());
    lemma_account_with(accounts, id);
    lemma_account_with(sorted, id);
    match account_with(sorted, id) {
        Some(account) => {
            lemma_sorted_contains(accounts, by_account_id(), account);
            let k = choose|k: int| 0 <= k < accounts.len() && accounts[k] == account;
            assert(accounts[k].id == id);
            let found = account_with(accounts, id)->0;
            let l = choose|l: int| 0 <= l < accounts.len() && accounts[l] == found;
            if k != l {
                assert(differ(accounts[k], accounts[l]));
            }
        },
        None => {
            if account_with(accounts, id) is Some {
                let found = account_with(accounts, id)->0;
                lemma_sorted_contains(accounts, by_account_id(), found);
                let k = choose|k: int| 0 <= k < sorted.len() && sorted[k] == found;
                assert(sorted[k].id == id);
            }
        },
    }
}

proof fn lemma_no_strategy_fault(
    strategies: Seq<StrategyRecordModel>,
    accounts: Seq<AccountRecordModel>,
    i: int,
)
    requires
        strategies_fault(strategies, accounts) is None,
        0 <= i < strategies.len(),
    ensures
        checked_strategy(strategies[i].config, accounts) is Ok,
    decreases strategies.len(),
{
    if i < strategies.len() - 1 {
        lemma_no_strategy_fault(strategies.drop_last(), accounts, i);
    }
}

/// A new store is sound, and every change leads from a sound store to a sound one.
pub proof fn stores_stay_sound(
    store: PersistedStoreModel,
    request: StrategyConfigModel,
    strategy_id: Seq<char>,
    enabled: bool,
    input: ValidatedAccountInputModel,
    credentials: EncryptedAccountSecretsModel,
    now: u64,
)
    requires
        sound(store),
    ensures
        sound(
            PersistedStoreModel {
                schema_version: 1,
                revision: 0,
                strategies: Seq::empty(),
                accounts: Seq::empty(),
            },
        ),
        strategy_saved(store, request, now) matches Ok((_, next)) ==> sound(next),
        strategy_switched(store, strategy_id, enabled, now) matches Ok((_, next)) ==> sound(next),
        account_saved(store, input, credentials, now) matches Ok((_, next)) ==> sound(next),
{
    let strategies = store.strategies;
    let accounts = store.accounts;
    if strategy_saved(store, request, now) is Ok {
        saving_keeps_strategies_in_order(store, request, now);
        checking_twice_changes_nothing(request, accounts);
        let record = strategy_saved(store, request, now)->Ok_0.0;
        lemma_strategy_place(strategies, record.config.id);
        let changed = match strategy_place(strategies, record.config.id) {
            Some(at) => strategies.update(at, record),
            None => strategies.push(record),
        };
        assert(keep_the_rules(changed, accounts));
        lemma_sorted_keeps_rules(changed, accounts);
    }
    if strategy_switched(store, strategy_id, enabled, now) is Ok {
        lemma_strategy_place(strategies, strategy_id);
        let at = strategy_place(strategies, strategy_id)->0;
        let current = strategies[at];
        checking_twice_changes_nothing(
            StrategyConfigModel { enabled, ..current.config },
            accounts,
        );
        let (record, next) = strategy_switched(store, strategy_id, enabled, now)->Ok_0;
        assert(record.config.id == current.config.id);
        let differ = |a: StrategyRecordModel, b: StrategyRecordModel| a.config.id != b.config.id;
        let less = by_strategy_id();
        assert forall|i: int, j: int|
            0 <= i < next.strategies.len() && 0 <= j < next.strategies.len() && i
                != j implies differ(#[trigger] next.strategies[i], #[trigger] next.strategies[j]) by {
            assert(differ(strategies[i], strategies[j]));
        }
        assert forall|i: int, j: int| 0 <= i < j < next.strategies.len() implies !less(
            #[trigger] next.strategies[j],
            #[trigger] next.strategies[i],
        ) by {
            assert(!less(strategies[j], strategies[i]));
        }
    }
    if account_saved(store, input, credentials, now) is Ok {
        saving_keeps_accounts_in_order(store, input, credentials, now);
        let (record, next) = account_saved(store, input, credentials, now)->Ok_0;
        let changed = with_account(store, record);
        assert forall|i: int| 0 <= i < strategies.len() implies checked_strategy(
            (#[trigger] strategies[i]).config,
            next.accounts,
        ) == Ok::<StrategyConfigModel, AppErrorModel>(strategies[i].config) by {
            let config = strategies[i].config;
            lemma_no_strategy_fault(strategies, changed, i);
            lemma_changed_ids_differ(store, record);
            lemma_sorted_account_with(changed, trimmed(config.long_leg.account_id));
            lemma_sorted_account_with(changed, trimmed(config.short_leg.account_id));
            assert(checked_strategy(config, next.accounts) == checked_strategy(config, changed));
        }
    }
}

/// What is entered as an account's secrets is what opening its stored secrets gives.
pub proof fn saved_secrets_open(
    crypto: CryptoModel,
    input: ValidatedAccountInputModel,
    credentials: EncryptedAccountSecretsModel,
)
    requires
        secrets_sealed(crypto, input, credentials),
    ensures
        secrets_fit(crypto, credentials),
        opened_secrets(crypto, credentials) == Ok::<_, AppErrorModel>(
            AccountCredentialsModel {
                api_key: input.api_key,
                api_secret: input.api_secret,
                passphrase: input.passphrase,
            },
        ),
{
    decryption_undoes_encryption(crypto, input.api_key, credentials.api_key);
    decryption_undoes_encryption(crypto, input.api_secret, credentials.api_secret);
    if input.passphrase is Some {
        decryption_undoes_encryption(crypto, input.passphrase->0, credentials.passphrase->0);
    }
}

/// What is run are the enabled strategies, in the order of the store.
pub proof fn enabled_strategies_are_run(strategies: Seq<StrategyRecordModel>, record: StrategyRecordModel)
    ensures
        enabled_of(strategies).contains(record) <==> strategies.contains(record)
            && record.config.enabled,
    decreases strategies.len(),
{
    if strategies.len() > 0 {
        let front = strategies.drop_last();
        let last = strategies.last();
        enabled_strategies_are_run(front, record);
        let before = enabled_of(front);
        let after = enabled_of(strategies);
        assert(strategies[strategies.len() - 1] == last);
        if strategies.contains(record) {
            let i = choose|i: int| 0 <= i < strategies.len() && strategies[i] == record;
            if i < front.len() {
                assert(front[i] == record);
            }
        }
        if front.contains(record) {
            let i = choose|i: int| 0 <= i < front.len() && front[i] == record;
            assert(strategies[i] == record);
        }
        if before.contains(record) {
            let i = choose|i: int| 0 <= i < before.len() && before[i] == record;
            assert(after[i] == record);
        }
        if last.config.enabled {
            assert(after[before.len() as int] == last);
        }
        if after.contains(record) {
            let i = choose|i: int| 0 <= i < after.len() && after[i] == record;
            if i < before.len() {
                assert(before[i] == record);
            }
        }
    }
}

proof fn lemma_opened(
    crypto: CryptoModel,
    accounts: Seq<AccountRecordModel>,
    strategies: Seq<StrategyRecordModel>,
    account: AccountRecordModel,
)
    requires
        opened_accounts(crypto, accounts, strategies) is Ok,
        accounts.contains(account),
        references(strategies, account.id),
    ensures
        opened_secrets(crypto, account.credentials) is Ok,
        opened_accounts(crypto, accounts, strategies)->Ok_0.contains(
            RuntimeAccountModel {
                id: account.id,
                name: account.name,
                exchange: account.exchange,
                credentials: opened_secrets(crypto, account.credentials)->Ok_0,
            },
        ),
    decreases accounts.len(),
{
    let front = accounts.drop_last();
    let before = opened_accounts(crypto, front, strategies)->Ok_0;
    let after = opened_accounts(crypto, accounts, strategies)->Ok_0;
    let i = choose|i: int| 0 <= i < accounts.len() && accounts[i] == account;
    let opened = RuntimeAccountModel {
        id: account.id,
        name: account.name,
        exchange: account.exchange,
        credentials: opened_secrets(crypto, account.credentials)->Ok_0,
    };
    if i < front.len() {
        assert(front[i] == account);
        lemma_opened(crypto, front, strategies, account);
        let k = choose|k: int| 0 <= k < before.len() && before[k] == opened;
        assert(after[k] == opened);
    } else {
        assert(after[before.len() as int] == opened);
    }
}

/// The secrets that were entered for an account reach what is run: once an account has been saved,
/// and an enabled strategy trades with it, it is loaded with exactly these secrets.
pub proof fn saved_secrets_are_loaded(
    crypto: CryptoModel,
    store: PersistedStoreModel,
    input: ValidatedAccountInputModel,
    credentials: EncryptedAccountSecretsModel,
    now: u64,
)
    requires
        secrets_sealed(crypto, input, credentials),
        account_ids_differ(store.accounts),
        account_saved(store, input, credentials, now) is Ok,
        catalog_of(crypto, account_saved(store, input, credentials, now)->Ok_0.1) is Ok,
        references(enabled_of(store.strategies), input.id),
    ensures
        catalog_of(
            crypto,
            account_saved(store, input, credentials, now)->Ok_0.1,
        )->Ok_0.referenced_accounts.contains(
            RuntimeAccountModel {
                id: input.id,
                name: input.name,
                exchange: input.exchange,
                credentials: AccountCredentialsModel {
                    api_key: input.api_key,
                    api_secret: input.api_secret,
                    passphrase: input.passphrase,
                },
            },
        ),
{
    let (record, next) = account_saved(store, input, credentials, now)->Ok_0;
    saving_keeps_accounts_in_order(store, input, credentials, now);
    saved_secrets_open(crypto, input, credentials);
    lemma_opened(crypto, next.accounts, enabled_of(next.strategies), record);
}

proof fn lemma_first_strategy(strategies: Seq<StrategyRecordModel>, id: Seq<char>)
    ensures
        match strategy_place(strategies, id) {
            Some(at) => {
                &&& 0 <= at < strategies.len()
                &&& strategies[at].config.id == id
                &&& forall|i: int| 0 <= i < at ==> (#[trigger] strategies[i]).config.id != id
            },
            None => forall|i: int|
                0 <= i < strategies.len() ==> (#[trigger] strategies[i]).config.id != id,
        },
    decreases strategies.len(),
{
    lemma_strategy_place(strategies, id);
    if strategies.len() > 0 && strategies[0].config.id != id {
        let rest = strategies.drop_first();
        lemma_first_strategy(rest, id);
        if strategy_place(rest, id) is Some {
            let at = strategy_place(rest, id)->0;
            assert forall|i: int| 0 <= i < at + 1 implies (
            #[trigger] strategies[i]).config.id != id by {
                if i > 0 {
                    assert(rest[i - 1] == strategies[i]);
                }
            }
        }
    }
}

/// Switching a strategy of a sound store on or off changes nothing of it but `enabled` and the time of
/// its last change, and nothing else of the store but the revision. It is refused exactly if there is no
/// such strategy, or it would then break a rule.
pub proof fn switching_changes_nothing_else(
    store: PersistedStoreModel,
    strategy_id: Seq<char>,
    enabled: bool,
    now: u64,
    at: int,
)
    requires
        sound(store),
        store.revision < u64::MAX,
        0 <= at < store.strategies.len(),
    ensures
        store.strategies[at].config.id == strategy_id ==> {
            let before = store.strategies[at].config;
            let wanted = StrategyConfigModel {
                id: before.id,
                name: before.name,
                enabled,
                long_leg: before.long_leg,
                short_leg: before.short_leg,
                open_levels: before.open_levels,
                close_levels: before.close_levels,
                max_total_notional: before.max_total_notional,
                max_open_orders: before.max_open_orders,
                stale_order_query_ms: before.stale_order_query_ms,
            };
            &&& strategy_switched(store, strategy_id, enabled, now) is Ok <==> strategy_is_fine(
                wanted,
                store.accounts,
            )
            &&& strategy_switched(store, strategy_id, enabled, now) matches Ok((record, next)) ==> {
                &&& record.config == wanted
                &&& record.created_at_ms == store.strategies[at].created_at_ms
                &&& record.updated_at_ms == now
                &&& next.strategies == store.strategies.update(at, record)
                &&& next.accounts == store.accounts
                &&& next.schema_version == store.schema_version
                &&& next.revision == store.revision + 1
            }
            &&& strategy_switched(store, strategy_id, enabled, now) matches Err(why)
                ==> why is Validation
        },
{
    let strategies = store.strategies;
    if strategies[at].config.id == strategy_id {
        lemma_strategy_place(strategies, strategy_id);
        let place = strategy_place(strategies, strategy_id)->0;
        let differ = |a: StrategyRecordModel, b: StrategyRecordModel| a.config.id != b.config.id;
        if place != at {
            assert(differ(strategies[place], strategies[at]));
        }
        let before = strategies[at].config;
        let wanted = StrategyConfigModel { enabled, ..before };
        assert(checked_strategy(before, store.accounts) == Ok::<
            StrategyConfigModel,
            AppErrorModel,
        >(before));
        strategies_are_checked(before, store.accounts);
        strategies_are_checked(wanted, store.accounts);
    }
}

/// A strategy that is not stored cannot be switched on or off: it is said not to be there.
pub proof fn missing_strategies_are_not_switched(
    store: PersistedStoreModel,
    strategy_id: Seq<char>,
    enabled: bool,
    now: u64,
)
    requires
        forall|i: int|
            0 <= i < store.strategies.len() ==> (#[trigger] store.strategies[i]).config.id
                != strategy_id,
    ensures
        strategy_switched(store, strategy_id, enabled, now) matches Err(why) && why
            == AppErrorModel::NotFound("strategy `"@ + strategy_id + "` 不存在"@),
{
    lemma_strategy_place(store.strategies, strategy_id);
}

/// A request to save a strategy is carried out exactly if it keeps the rules. What is saved is what was
/// asked for, brought into shape; it takes the place of the strategy with its id and keeps the time of
/// its creation, or is added and gets the time of the request. Nothing else of the store changes but the
/// revision.
pub proof fn strategies_are_saved_as_asked(
    store: PersistedStoreModel,
    request: StrategyConfigModel,
    now: u64,
) -> (at: int)
    requires
        store.revision < u64::MAX,
    ensures
        strategy_saved(store, request, now) is Ok <==> strategy_is_fine(request, store.accounts),
        strategy_saved(store, request, now) matches Ok((record, next)) ==> {
            &&& record.config.id == trimmed(request.id)
            &&& record.config.name == trimmed(request.name)
            &&& record.config.enabled == request.enabled
            &&& leg_is_shaped(record.config.long_leg, request.long_leg)
            &&& leg_is_shaped(record.config.short_leg, request.short_leg)
            &&& record.config.open_levels == request.open_levels
            &&& record.config.close_levels == request.close_levels
            &&& record.config.max_total_notional == request.max_total_notional
            &&& record.config.max_open_orders == request.max_open_orders
            &&& record.config.stale_order_query_ms == request.stale_order_query_ms
            &&& record.updated_at_ms == now
            &&& next.accounts == store.accounts
            &&& next.schema_version == store.schema_version
            &&& next.revision == store.revision + 1
            &&& 0 <= at <= store.strategies.len()
            &&& forall|i: int|
                0 <= i < at ==> (#[trigger] store.strategies[i]).config.id != record.config.id
            &&& if at < store.strategies.len() {
                &&& store.strategies[at].config.id == record.config.id
                &&& record.created_at_ms == store.strategies[at].created_at_ms
                &&& next.strategies.to_multiset() == store.strategies.update(
                    at,
                    record,
                ).to_multiset()
            } else {
                &&& record.created_at_ms == now
                &&& next.strategies.to_multiset() == store.strategies.push(record).to_multiset()
            }
        },
        strategy_saved(store, request, now) matches Err(why) ==> why is Validation,
{
    strategies_are_checked(request, store.accounts);
    if strategy_saved(store, request, now) is Ok {
        let record = strategy_saved(store, request, now)->Ok_0.0;
        lemma_first_strategy(store.strategies, record.config.id);
        match strategy_place(store.strategies, record.config.id) {
            Some(at) => {
                lemma_sorted_length(store.strategies.update(at, record), by_strategy_id());
                at
            },
            None => {
                lemma_sorted_length(store.strategies.push(record), by_strategy_id());
                store.strategies.len() as int
            },
        }
    } else {
        0
    }
}

proof fn lemma_first_account(accounts: Seq<AccountRecordModel>, id: Seq<char>)
    ensures
        match account_place(accounts, id) {
            Some(at) => {
                &&& 0 <= at < accounts.len()
                &&& accounts[at].id == id
                &&& forall|i: int| 0 <= i < at ==> (#[trigger] accounts[i]).id != id
            },
            None => forall|i: int| 0 <= i < accounts.len() ==> (#[trigger] accounts[i]).id != id,
        },
    decreases accounts.len(),
{
    lemma_account_place(accounts, id);
    if accounts.len() > 0 && accounts[0].id != id {
        let rest = accounts.drop_first();
        lemma_first_account(rest, id);
        if account_place(rest, id) is Some {
            let at = account_place(rest, id)->0;
            assert forall|i: int| 0 <= i < at + 1 implies (#[trigger] accounts[i]).id != id by {
                if i > 0 {
                    assert(rest[i - 1] == accounts[i]);
                }
            }
        }
    }
}

/// An account is saved as it was entered, with its sealed secrets: it takes the place of the account
/// with its id and keeps the time of its creation, or is added and gets the time of the request. It is
/// refused exactly if a stored strategy would then break a rule. Nothing else of the store changes but
/// the revision.
pub proof fn accounts_are_saved_as_entered(
    store: PersistedStoreModel,
    input: ValidatedAccountInputModel,
    credentials: EncryptedAccountSecretsModel,
    now: u64,
) -> (at: int)
    requires
        store.revision < u64::MAX,
    ensures
        0 <= at <= store.accounts.len(),
        forall|i: int| 0 <= i < at ==> (#[trigger] store.accounts[i]).id != input.id,
        at < store.accounts.len() ==> store.accounts[at].id == input.id,
        ({
            let record = AccountRecordModel {
                id: input.id,
                name: input.name,
                exchange: input.exchange,
                enabled: input.enabled,
                masked_api_key: input.masked_api_key,
                validation_status: input.validation_status,
                credentials,
                created_at_ms: if at < store.accounts.len() {
                    store.accounts[at].created_at_ms
                } else {
                    now
                },
                updated_at_ms: now,
            };
            let accounts = if at < store.accounts.len() {
                store.accounts.update(at, record)
            } else {
                store.accounts.push(record)
            };
            &&& account_saved(store, input, credentials, now) is Ok <==> forall|i: int|
                0 <= i < store.strategies.len() ==> strategy_is_fine(
                    (#[trigger] store.strategies[i]).config,
                    accounts,
                )
            &&& account_saved(store, input, credentials, now) matches Ok((saved, next)) ==> {
                &&& saved == record
                &&& next.strategies == store.strategies
                &&& next.accounts.to_multiset() == accounts.to_multiset()
                &&& next.schema_version == store.schema_version
                &&& next.revision == store.revision + 1
            }
        }),
{
    lemma_first_account(store.accounts, input.id);
    let record = account_record(store, input, credentials, now);
    let accounts = with_account(store, record);
    lemma_sorted_length(accounts, by_account_id());
    let bad = stored_strategies_are_checked(store.strategies, accounts);
    if strategies_fault(store.strategies, accounts) is Some {
        strategies_are_checked(store.strategies[bad].config, accounts);
    }
    match account_place(store.accounts, input.id) {
        Some(at) => at,
        None => store.accounts.len() as int,
    }
}

/// Whether what is run with is an account, with its secrets opened.
pub open spec fn is_opened(
    crypto: CryptoModel,
    account: AccountRecordModel,
    opened: RuntimeAccountModel,
) -> bool {
    &&& opened.id == account.id
    &&& opened.name == account.name
    &&& opened.exchange == account.exchange
    &&& crypto.decrypted(account.credentials.api_key) == Ok::<Seq<char>, AppErrorModel>(
        opened.credentials.api_key,
    )
    &&& crypto.decrypted(account.credentials.api_secret) == Ok::<Seq<char>, AppErrorModel>(
        opened.credentials.api_secret,
    )
    &&& opened.credentials.passphrase is Some <==> account.credentials.passphrase is Some
    &&& account.credentials.passphrase is Some ==> crypto.decrypted(
        account.credentials.passphrase->0,
    ) == Ok::<Seq<char>, AppErrorModel>(opened.credentials.passphrase->0)
}

/// Whether an enabled strategy trades with an account.
pub open spec fn is_traded_with(strategies: Seq<StrategyRecordModel>, account: Seq<char>) -> bool {
    exists|i: int|
        0 <= i < strategies.len() && (#[trigger] strategies[i]).config.enabled && (
        strategies[i].config.long_leg.account_id == account
            || strategies[i].config.short_leg.account_id == account)
}

proof fn lemma_enabled_filter(strategies: Seq<StrategyRecordModel>)
    ensures
        enabled_of(strategies) == strategies.filter(|s: StrategyRecordModel| s.config.enabled),
    decreases strategies.len(),
{
    reveal(Seq::filter);
    if strategies.len() > 0 {
        lemma_enabled_filter(strategies.drop_last());
    }
}

proof fn lemma_traded_with(strategies: Seq<StrategyRecordModel>, account: Seq<char>)
    ensures
        references(enabled_of(strategies), account) <==> is_traded_with(strategies, account),
{
    let enabled = enabled_of(strategies);
    if references(enabled, account) {
        let i = choose|i: int|
            0 <= i < enabled.len() && ((#[trigger] enabled[i]).config.long_leg.account_id
                == account || enabled[i].config.short_leg.account_id == account);
        enabled_strategies_are_run(strategies, enabled[i]);
        assert(enabled.contains(enabled[i]));
        let k = choose|k: int| 0 <= k < strategies.len() && strategies[k] == enabled[i];
        assert(strategies[k].config.enabled);
    }
    if is_traded_with(strategies, account) {
        let i = choose|i: int|
            0 <= i < strategies.len() && (#[trigger] strategies[i]).config.enabled && (
            strategies[i].config.long_leg.account_id == account
                || strategies[i].config.short_leg.account_id == account);
        enabled_strategies_are_run(strategies, strategies[i]);
        assert(strategies.contains(strategies[i]));
        let k = choose|k: int| 0 <= k < enabled.len() && enabled[k] == strategies[i];
        assert(enabled[k].config.long_leg.account_id == account
            || enabled[k].config.short_leg.account_id == account);
    }
}

proof fn lemma_opened_list(
    crypto: CryptoModel,
    accounts: Seq<AccountRecordModel>,
    strategies: Seq<StrategyRecordModel>,
)
    ensures
        opened_accounts(crypto, accounts, enabled_of(strategies)) matches Ok(list) ==> {
            let wanted = accounts.filter(|a: AccountRecordModel| is_traded_with(strategies, a.id));
            &&& list.len() == wanted.len()
            &&& forall|i: int|
                0 <= i < list.len() ==> is_opened(crypto, wanted[i], #[trigger] list[i])
        },
    decreases accounts.len(),
{
    reveal(Seq::filter);
    if accounts.len() > 0 {
        let front = accounts.drop_last();
        let p = |a: AccountRecordModel| is_traded_with(strategies, a.id);
        lemma_opened_list(crypto, front, strategies);
        lemma_traded_with(strategies, accounts.last().id);
        if opened_accounts(crypto, accounts, enabled_of(strategies)) is Ok {
            let before = opened_accounts(crypto, front, enabled_of(strategies))->Ok_0;
            let list = opened_accounts(crypto, accounts, enabled_of(strategies))->Ok_0;
            let wanted = accounts.filter(p);
            assert forall|i: int| 0 <= i < list.len() implies is_opened(
                crypto,
                wanted[i],
                #[trigger] list[i],
            ) by {
                if i < before.len() {
                    assert(list[i] == before[i]);
                    assert(wanted[i] == front.filter(p)[i]);
                    assert(is_opened(crypto, front.filter(p)[i], before[i]));
                }
            }
        }
    }
}

/// What is run for a store: its revision, its enabled strategies in their order, and exactly the
/// accounts that one of these trades with, in their order, each with its own secrets opened.
pub proof fn catalogs_hold_what_is_run(crypto: CryptoModel, store: PersistedStoreModel)
    ensures
        catalog_of(crypto, store) matches Ok(catalog) ==> {
            let wanted = store.accounts.filter(
                |a: AccountRecordModel| is_traded_with(store.strategies, a.id),
            );
            &&& catalog.store_revision == store.revision
            &&& catalog.enabled_strategies == store.strategies.filter(
                |s: StrategyRecordModel| s.config.enabled,
            )
            &&& catalog.referenced_accounts.len() == wanted.len()
            &&& forall|i: int|
                0 <= i < wanted.len() ==> is_opened(
                    crypto,
                    wanted[i],
                    #[trigger] catalog.referenced_accounts[i],
                )
        },
{
    lemma_enabled_filter(store.strategies);
    lemma_opened_list(crypto, store.accounts, store.strategies);
}

/// Whether one of the secrets of an account cannot be opened, for a reason.
pub open spec fn stays_closed(
    crypto: CryptoModel,
    account: AccountRecordModel,
    why: AppErrorModel,
) -> bool {
    ||| crypto.decrypted(account.credentials.api_key) == Err::<Seq<char>, AppErrorModel>(why)
    ||| crypto.decrypted(account.credentials.api_secret) == Err::<Seq<char>, AppErrorModel>(why)
    ||| account.credentials.passphrase is Some && crypto.decrypted(
        account.credentials.passphrase->0,
    ) == Err::<Seq<char>, AppErrorModel>(why)
}

proof fn lemma_closed_account(
    crypto: CryptoModel,
    accounts: Seq<AccountRecordModel>,
    strategies: Seq<StrategyRecordModel>,
)
    ensures
        opened_accounts(crypto, accounts, enabled_of(strategies)) matches Err(why) ==> exists|i: int|
            0 <= i < accounts.len() && is_traded_with(strategies, (#[trigger] accounts[i]).id)
                && stays_closed(crypto, accounts[i], why),
    decreases accounts.len(),
{
    if accounts.len() > 0 {
        let front = accounts.drop_last();
        lemma_closed_account(crypto, front, strategies);
        lemma_traded_with(strategies, accounts.last().id);
        assert(accounts[accounts.len() - 1] == accounts.last());
        if opened_accounts(crypto, front, enabled_of(strategies)) is Err {
            let why = opened_accounts(crypto, front, enabled_of(strategies))->Err_0;
            let i = choose|i: int|
                0 <= i < front.len() && is_traded_with(strategies, (#[trigger] front[i]).id)
                    && stays_closed(crypto, front[i], why);
            assert(accounts[i] == front[i]);
        }
    }
}

/// What is run cannot be worked out only where a secret of an account that is traded with cannot be
/// opened, and that is the reason given.
pub proof fn catalogs_fail_with_their_accounts(crypto: CryptoModel, store: PersistedStoreModel)
    ensures
        catalog_of(crypto, store) matches Err(why) ==> exists|i: int|
            0 <= i < store.accounts.len() && is_traded_with(
                store.strategies,
                (#[trigger] store.accounts[i]).id,
            ) && stays_closed(crypto, store.accounts[i], why),
{
    lemma_closed_account(crypto, store.accounts, store.strategies);
}

/// A change is answered with what was changed, the next store, and what is run for that store; where
/// the change is refused or what is run cannot be worked out, with the reason.
pub proof fn answers_hold_what_is_next<V>(
    crypto: CryptoModel,
    changed: Result<(V, PersistedStoreModel), AppErrorModel>,
)
    ensures
        with_catalog(crypto, changed) matches Ok(update) ==> {
            &&& changed == Ok::<(V, PersistedStoreModel), AppErrorModel>(
                (update.entity, update.next),
            )
            &&& catalog_of(crypto, update.next) == Ok::<RuntimeCatalogModel, AppErrorModel>(
                update.runtime_catalog,
            )
        },
        with_catalog(crypto, changed) matches Err(why) ==> {
            ||| changed == Err::<(V, PersistedStoreModel), AppErrorModel>(why)
            ||| changed is Ok && catalog_of(crypto, changed->Ok_0.1) == Err::<
                RuntimeCatalogModel,
                AppErrorModel,
            >(why)
        },
        changed matches Ok((_, next)) && catalog_of(crypto, next) is Ok ==> with_catalog(
            crypto,
            changed,
        ) is Ok,
{
}

/// What is shown of an account that was saved is everything but its secrets, in the answer and in the
/// list of accounts.
pub proof fn accounts_are_shown_without_secrets(
    record: AccountRecordModel,
    next: PersistedStoreModel,
)
    ensures
        shown_account(Ok((record, next))) matches Ok((shown, after)) && after == next && shown
            == record.shown(),
        record.shown().id == record.id,
        record.shown().name == record.name,
        record.shown().exchange == record.exchange,
        record.shown().enabled == record.enabled,
        record.shown().masked_api_key == record.masked_api_key,
        record.shown().validation_status == record.validation_status,
        record.shown().created_at_ms == record.created_at_ms,
        record.shown().updated_at_ms == record.updated_at_ms,
{
}

/// A request for an account is answered with success only if it keeps the rules, and then with what was
/// asked for: id and name without the white space around them, the same exchange and switch, the
/// masked key, and a store in which the account's secrets are sealed under the store's key.
pub proof fn requested_accounts_are_saved(
    store: FileStoreModel,
    request: AccountUpsertRequestModel,
    now: u64,
    answer: StoreUpdateModel<AccountViewModel>,
)
    requires
        account_answer(store, request, now, Ok(answer)),
        store.store.revision < u64::MAX,
    ensures
        checked_account(request) is Ok,
        answer.entity.id == trimmed(request.id),
        answer.entity.name == trimmed(request.name),
        answer.entity.exchange == request.exchange,
        answer.entity.enabled == request.enabled,
        answer.entity.updated_at_ms == now,
        answer.next.strategies == store.store.strategies,
        answer.next.revision == store.store.revision + 1,
        exists|record: AccountRecordModel| #[trigger]
            answer.next.accounts.contains(record) && record.id == trimmed(request.id)
                && secrets_sealed(store.crypto, checked_account(request)->Ok_0, record.credentials),
        catalog_of(store.crypto, answer.next) == Ok::<RuntimeCatalogModel, AppErrorModel>(
            answer.runtime_catalog,
        ),
{
    accounts_are_checked(request);
    let input = checked_account(request)->Ok_0;
    let credentials = choose|credentials: EncryptedAccountSecretsModel| #[trigger]
        secrets_sealed(store.crypto, input, credentials) && Ok::<
            StoreUpdateModel<AccountViewModel>,
            AppErrorModel,
        >(answer) == with_catalog(
            store.crypto,
            shown_account(account_saved(store.store, input, credentials, now)),
        );
    let at = accounts_are_saved_as_entered(store.store, input, credentials, now);
    let (record, next) = account_saved(store.store, input, credentials, now)->Ok_0;
    let changed = with_account(store.store, record);
    lemma_account_place(store.store.accounts, record.id);
    match account_place(store.store.accounts, record.id) {
        Some(k) => {
            assert(changed[k] == record);
        },
        None => {
            assert(changed[store.store.accounts.len() as int] == record);
        },
    }
    lemma_sorted_contains(changed, by_account_id(), record);
    assert(answer.next.accounts.contains(record));
}

/// Secrets are sealed each by itself: the key as the key, the secret as the secret, and the passphrase
/// exactly if there is one. They cannot be where there is no key to seal with, or one of them is too
/// long, and then for the reason that sealing it gives.
pub proof fn secrets_are_sealed_in_turn(
    crypto: CryptoModel,
    input: ValidatedAccountInputModel,
    credentials: EncryptedAccountSecretsModel,
    nonce: Seq<u8>,
)
    ensures
        secrets_sealed(crypto, input, credentials) ==> {
            &&& seals(crypto, input.api_key, credentials.api_key)
            &&& seals(crypto, input.api_secret, credentials.api_secret)
            &&& credentials.passphrase is Some <==> input.passphrase is Some
            &&& input.passphrase is Some ==> seals(
                crypto,
                input.passphrase->0,
                credentials.passphrase->0,
            )
        },
        seal_fault(crypto, input) is None <==> {
            &&& crypto.encrypted(input.api_key, nonce) is Ok
            &&& crypto.encrypted(input.api_secret, nonce) is Ok
            &&& input.passphrase is Some ==> crypto.encrypted(input.passphrase->0, nonce) is Ok
        },
        seal_fault(crypto, input) matches Some(why) ==> {
            ||| crypto.encrypted(input.api_key, nonce) == Err::<
                EncryptedValueModel,
                AppErrorModel,
            >(why)
            ||| crypto.encrypted(input.api_secret, nonce) == Err::<
                EncryptedValueModel,
                AppErrorModel,
            >(why)
            ||| input.passphrase is Some && crypto.encrypted(input.passphrase->0, nonce) == Err::<
                EncryptedValueModel,
                AppErrorModel,
            >(why)
        },
{
}

/// Switching a strategy of any store on or off holds it to the rules again. It is then the first one with
/// its id as it was, but for `enabled`, the time of its last change, and what bringing it into shape
/// takes away; nothing else of the store changes but the revision.
pub proof fn switched_strategies_are_checked_again(
    store: PersistedStoreModel,
    strategy_id: Seq<char>,
    enabled: bool,
    now: u64,
    at: int,
)
    requires
        store.revision < u64::MAX,
        0 <= at < store.strategies.len(),
        store.strategies[at].config.id == strategy_id,
        forall|i: int| 0 <= i < at ==> (#[trigger] store.strategies[i]).config.id != strategy_id,
    ensures
        ({
            let before = store.strategies[at].config;
            let r = strategy_switched(store, strategy_id, enabled, now);
            let wanted = StrategyConfigModel {
                id: before.id,
                name: before.name,
                enabled,
                long_leg: before.long_leg,
                short_leg: before.short_leg,
                open_levels: before.open_levels,
                close_levels: before.close_levels,
                max_total_notional: before.max_total_notional,
                max_open_orders: before.max_open_orders,
                stale_order_query_ms: before.stale_order_query_ms,
            };
            &&& r is Ok <==> strategy_is_fine(wanted, store.accounts)
            &&& r is Err ==> checked_strategy(wanted, store.accounts) == Err::<
                StrategyConfigModel,
                AppErrorModel,
            >(r->Err_0)
            &&& r matches Ok((record, next)) ==> {
                let config = record.config;
                &&& config.id == trimmed(before.id)
                &&& config.name == trimmed(before.name)
                &&& config.enabled == enabled
                &&& leg_is_shaped(config.long_leg, before.long_leg)
                &&& leg_is_shaped(config.short_leg, before.short_leg)
                &&& config.open_levels == before.open_levels
                &&& config.close_levels == before.close_levels
                &&& config.max_total_notional == before.max_total_notional
                &&& config.max_open_orders == before.max_open_orders
                &&& config.stale_order_query_ms == before.stale_order_query_ms
                &&& record.created_at_ms == store.strategies[at].created_at_ms
                &&& record.updated_at_ms == now
                &&& next.strategies == store.strategies.update(at, record)
                &&& next.accounts == store.accounts
                &&& next.schema_version == store.schema_version
                &&& next.revision == store.revision + 1
            }
        }),
{
    let before = store.strategies[at].config;
    lemma_first_strategy(store.strategies, strategy_id);
    let place = strategy_place(store.strategies, strategy_id)->0;
    if place < at {
        assert(store.strategies[place].config.id != strategy_id);
    } else if at < place {
        assert(store.strategies[at].config.id != strategy_id);
    }
    strategies_are_checked(StrategyConfigModel { enabled, ..before }, store.accounts);
}

} // verus!
