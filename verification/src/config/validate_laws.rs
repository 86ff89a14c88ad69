//! What holds of strategies that keep the rules.

use vstd::prelude::*;
use vstd::utf8::{encode_utf8, encode_utf8_decode_utf8, is_ascii_chars, is_ascii_chars_encode_utf8};

use crate::config::crypto::masked;
use crate::config::model::{
    AccountRecordModel, AccountUpsertRequestModel, SpreadLevel, StrategyConfigModel,
    StrategyLegModel, StrategyRecordModel,
};
use crate::config::validate::{
    account_with, checked_account, checked_strategy, first_level_fault, identifier,
    identifier_char, leg_of, level_fault, levels_fault, name_of, strategies_fault, symbol_char,
    symbol_of,
};
use crate::error::AppErrorModel;
use crate::num::zero;
use crate::text::{ascii_upper, trimmed, trimming_twice_changes_nothing, uppercased, white};

verus! {

proof fn lemma_identifier_again(value: Seq<char>, field: Seq<char>)
    requires
        identifier(value, field) is Ok,
    ensures
        identifier(identifier(value, field)->Ok_0, field) == identifier(value, field),
{
    trimming_twice_changes_nothing(value);
}

proof fn lemma_name_again(value: Seq<char>, field: Seq<char>)
    requires
        name_of(value, field) is Ok,
    ensures
        name_of(name_of(value, field)->Ok_0, field) == name_of(value, field),
{
    trimming_twice_changes_nothing(value);
}

proof fn lemma_symbol_again(value: Seq<char>, field: Seq<char>)
    requires
        symbol_of(value, field) is Ok,
    ensures
        symbol_of(symbol_of(value, field)->Ok_0, field) == symbol_of(value, field),
{
    let text = uppercased(trimmed(value));
    assert forall|i: int| 0 <= i < text.len() implies symbol_char(#[trigger] text[i]) by {}
    assert(!white(text[0])) by {
        assert(symbol_char(text[0]));
    }
    assert(!white(text.last())) by {
        assert(symbol_char(text[text.len() - 1]));
    }
    assert(trimmed(text) == text);
    assert(uppercased(text) =~= text);
}

/// A symbol is accepted exactly if something is left of it without the white space around it, and only
/// ASCII letters, digits, `_`, `-` and `.`. It is then given in upper case, so that no lower-case
/// letter is left, and is accepted again as it is; what is not accepted breaks a rule.
pub proof fn symbols_are_checked(value: Seq<char>, field: Seq<char>)
    ensures
        symbol_of(value, field) is Ok <==> trimmed(value).len() > 0 && forall|i: int|
            0 <= i < trimmed(value).len() ==> symbol_char(#[trigger] trimmed(value)[i]),
        symbol_of(value, field) matches Ok(symbol) ==> {
            &&& symbol == uppercased(trimmed(value))
            &&& forall|i: int| 0 <= i < symbol.len() ==> !('a' <= #[trigger] symbol[i] <= 'z')
            &&& symbol_of(symbol, field) == Ok::<Seq<char>, AppErrorModel>(symbol)
        },
        symbol_of(value, field) matches Err(why) ==> why is Validation,
{
    let text = trimmed(value);
    let upper = uppercased(text);
    assert(upper.len() == text.len());
    assert forall|i: int| 0 <= i < text.len() implies symbol_char(#[trigger] upper[i])
        == symbol_char(text[i]) by {
        assert(upper[i] == ascii_upper(text[i]));
    }
    if symbol_of(value, field) is Ok {
        lemma_symbol_again(value, field);
        assert forall|i: int| 0 <= i < text.len() implies symbol_char(#[trigger] text[i]) by {
            assert(symbol_char(upper[i]));
        }
    } else if text.len() > 0 {
        let i = choose|i: int| 0 <= i < upper.len() && !symbol_char(#[trigger] upper[i]);
        assert(!symbol_char(text[i]));
    }
}

proof fn lemma_leg_again(
    leg: StrategyLegModel,
    label: Seq<char>,
    accounts: Seq<AccountRecordModel>,
)
    requires
        leg_of(leg, label, accounts) is Ok,
    ensures
        leg_of(leg_of(leg, label, accounts)->Ok_0, label, accounts) == leg_of(leg, label, accounts),
{
    lemma_identifier_again(leg.account_id, label + ".account_id"@);
    lemma_symbol_again(leg.symbol, label + ".symbol"@);
}

/// A strategy that has been brought into shape keeps the rules as it is.
pub proof fn checking_twice_changes_nothing(
    request: StrategyConfigModel,
    accounts: Seq<AccountRecordModel>,
)
    requires
        checked_strategy(request, accounts) is Ok,
    ensures
        checked_strategy(checked_strategy(request, accounts)->Ok_0, accounts) == checked_strategy(
            request,
            accounts,
        ),
{
    lemma_identifier_again(request.id, "strategy id"@);
    lemma_name_again(request.name, "strategy name"@);
    lemma_leg_again(request.long_leg, "long_leg"@, accounts);
    lemma_leg_again(request.short_leg, "short_leg"@, accounts);
}

/// The legs of a strategy that keeps the rules are on different exchanges, each on that of its
/// account; if the strategy is enabled, so are both accounts.
pub proof fn checked_legs_have_accounts(
    request: StrategyConfigModel,
    accounts: Seq<AccountRecordModel>,
)
    requires
        checked_strategy(request, accounts) is Ok,
    ensures
        ({
            let strategy = checked_strategy(request, accounts)->Ok_0;
            let long = account_with(accounts, strategy.long_leg.account_id);
            let short = account_with(accounts, strategy.short_leg.account_id);
            &&& strategy.long_leg.exchange != strategy.short_leg.exchange
            &&& long is Some && long->0.exchange == strategy.long_leg.exchange
            &&& short is Some && short->0.exchange == strategy.short_leg.exchange
            &&& strategy.enabled ==> long->0.enabled && short->0.enabled
        }),
{
}

proof fn lemma_no_fault(levels: Seq<SpreadLevel>, label: Seq<char>, n: nat, i: int)
    requires
        first_level_fault(levels, label, n) is None,
        0 <= i < n,
    ensures
        level_fault(levels, label, i) is None,
    decreases n,
{
    if i < n - 1 {
        lemma_no_fault(levels, label, (n - 1) as nat, i);
    }
}

/// The levels of a strategy that keeps the rules are finite and above zero, and their spreads ascend.
pub proof fn checked_levels_ascend(levels: Seq<SpreadLevel>, label: Seq<char>, i: int, j: int)
    requires
        levels_fault(levels, label) is None,
        0 <= i <= j < levels.len(),
    ensures
        levels[i].spread_pct.finite() && levels[i].spread_pct.positive(),
        levels[i].notional_usd.finite() && levels[i].notional_usd.positive(),
        i < j ==> levels[i].spread_pct.lt(levels[j].spread_pct),
    decreases j - i,
{
    lemma_no_fault(levels, label, levels.len(), i);
    lemma_no_fault(levels, label, levels.len(), j);
    if i < j - 1 {
        checked_levels_ascend(levels, label, i, j - 1);
        lemma_no_fault(levels, label, levels.len(), j - 1);
    }
}

/// Whether a text is an identifier: letters, digits, `_` and `-`, and at least one of them.
pub open spec fn is_identifier(text: Seq<char>) -> bool {
    &&& text.len() > 0
    &&& forall|i: int| 0 <= i < text.len() ==> is_identifier_char(#[trigger] text[i])
}

/// Whether a character is an ASCII letter, a digit, `_` or `-`.
pub open spec fn is_identifier_char(c: char) -> bool {
    'a' <= c <= 'z' || 'A' <= c <= 'Z' || '0' <= c <= '9' || c == '_' || c == '-'
}

/// Whether a text is a symbol: letters, digits, `_`, `-` and `.`, and at least one of them.
pub open spec fn is_symbol(text: Seq<char>) -> bool {
    &&& text.len() > 0
    &&& forall|i: int| 0 <= i < text.len() ==> is_identifier_char(#[trigger] text[i]) || text[i] == '.'
}

/// Whether the account at `k` is the one with an id: it has the id, and none behind it has.
pub open spec fn is_account_of(accounts: Seq<AccountRecordModel>, id: Seq<char>, k: int) -> bool {
    &&& 0 <= k < accounts.len()
    &&& accounts[k].id == id
    &&& forall|j: int| k < j < accounts.len() ==> (#[trigger] accounts[j]).id != id
}

pub(crate) proof fn lemma_account_of(accounts: Seq<AccountRecordModel>, id: Seq<char>)
    ensures
        account_with(accounts, id) is Some <==> exists|k: int| #[trigger]
            is_account_of(accounts, id, k),
        forall|k: int| #[trigger]
            is_account_of(accounts, id, k) ==> account_with(accounts, id) == Some(accounts[k]),
    decreases accounts.len(),
{
    if accounts.len() > 0 {
        let front = accounts.drop_last();
        let last = accounts.len() - 1;
        lemma_account_of(front, id);
        assert(accounts[last] == accounts.last());
        if accounts.last().id == id {
            assert(is_account_of(accounts, id, last));
        }
        assert forall|k: int| #[trigger] is_account_of(accounts, id, k) implies account_with(
            accounts,
            id,
        ) == Some(accounts[k]) by {
            if accounts.last().id == id {
                assert(k == last);
            } else {
                assert forall|j: int| k < j < front.len() implies (#[trigger] front[j]).id != id by {
                    assert(front[j] == accounts[j]);
                }
                assert(is_account_of(front, id, k));
            }
        }
        if accounts.last().id != id && account_with(front, id) is Some {
            let k = choose|k: int| #[trigger] is_account_of(front, id, k);
            assert forall|j: int| k < j < accounts.len() implies (
            #[trigger] accounts[j]).id != id by {
                if j < front.len() {
                    assert(front[j] == accounts[j]);
                }
            }
            assert(is_account_of(accounts, id, k));
        }
    }
}

/// Whether a leg keeps the rules: its account and its symbol have the characters that they may have,
/// and the account is there, on the leg's exchange, and enabled if it has to be.
pub open spec fn leg_is_fine(
    leg: StrategyLegModel,
    accounts: Seq<AccountRecordModel>,
    enabled: bool,
) -> bool {
    &&& is_identifier(trimmed(leg.account_id))
    &&& is_symbol(trimmed(leg.symbol))
    &&& exists|k: int| #[trigger]
        is_account_of(accounts, trimmed(leg.account_id), k) && accounts[k].exchange == leg.exchange
            && (enabled ==> accounts[k].enabled)
}

/// Whether levels keep the rules: there is one, spreads and notionals are finite and above zero, and
/// each spread is above the one before it.
pub open spec fn levels_are_fine(levels: Seq<SpreadLevel>) -> bool {
    &&& levels.len() > 0
    &&& forall|i: int|
        0 <= i < levels.len() ==> (#[trigger] levels[i]).spread_pct.finite() && zero().lt(
            levels[i].spread_pct,
        ) && levels[i].notional_usd.finite() && zero().lt(levels[i].notional_usd)
    &&& forall|i: int, j: int|
        0 <= i < j < levels.len() ==> (#[trigger] levels[i]).spread_pct.lt(
            (#[trigger] levels[j]).spread_pct,
        )
}

proof fn lemma_fine_levels(levels: Seq<SpreadLevel>, label: Seq<char>, n: nat)
    requires
        levels_are_fine(levels),
        n <= levels.len(),
    ensures
        first_level_fault(levels, label, n) is None,
    decreases n,
{
    if n > 0 {
        lemma_fine_levels(levels, label, (n - 1) as nat);
        assert(levels[n - 1].spread_pct.finite());
        if n > 1 {
            assert(levels[n - 2].spread_pct.lt(levels[n - 1].spread_pct));
        }
    }
}

proof fn lemma_levels(levels: Seq<SpreadLevel>, label: Seq<char>)
    ensures
        levels_fault(levels, label) is None <==> levels_are_fine(levels),
{
    if levels_are_fine(levels) {
        lemma_fine_levels(levels, label, levels.len());
    }
    if levels_fault(levels, label) is None {
        assert forall|i: int| 0 <= i < levels.len() implies (
        #[trigger] levels[i]).spread_pct.finite() && zero().lt(levels[i].spread_pct)
            && levels[i].notional_usd.finite() && zero().lt(levels[i].notional_usd) by {
            checked_levels_ascend(levels, label, i, i);
        }
        assert forall|i: int, j: int| 0 <= i < j < levels.len() implies (
        #[trigger] levels[i]).spread_pct.lt((#[trigger] levels[j]).spread_pct) by {
            checked_levels_ascend(levels, label, i, j);
        }
    }
}

pub(crate) proof fn lemma_identifier(value: Seq<char>, field: Seq<char>)
    ensures
        identifier(value, field) is Ok <==> is_identifier(trimmed(value)),
        identifier(value, field) matches Ok(text) ==> text == trimmed(value),
        identifier(value, field) matches Err(why) ==> why is Validation,
{
    let text = trimmed(value);
    if is_identifier(text) {
        assert forall|i: int| 0 <= i < text.len() implies identifier_char(#[trigger] text[i]) by {
            assert(is_identifier_char(text[i]));
        }
    } else if identifier(value, field) is Ok {
        assert forall|i: int| 0 <= i < text.len() implies is_identifier_char(
            #[trigger] text[i],
        ) by {
            assert(identifier_char(text[i]));
        }
    }
}

pub(crate) proof fn lemma_symbol(value: Seq<char>, field: Seq<char>)
    ensures
        symbol_of(value, field) is Ok <==> is_symbol(trimmed(value)),
        symbol_of(value, field) matches Ok(text) ==> text == uppercased(trimmed(value)),
        symbol_of(value, field) matches Err(why) ==> why is Validation,
{
    symbols_are_checked(value, field);
    let text = trimmed(value);
    if is_symbol(text) {
        assert forall|i: int| 0 <= i < text.len() implies symbol_char(#[trigger] text[i]) by {
            assert(is_identifier_char(text[i]) || text[i] == '.');
        }
    } else if symbol_of(value, field) is Ok {
        assert forall|i: int| 0 <= i < text.len() implies is_identifier_char(#[trigger] text[i])
            || text[i] == '.' by {
            assert(symbol_char(text[i]));
        }
    }
}

/// Whether a request for a strategy keeps the rules: its id and its name are there, its legs keep the
/// rules and are on different exchanges, so do its levels, and its limits are above zero.
pub open spec fn strategy_is_fine(
    request: StrategyConfigModel,
    accounts: Seq<AccountRecordModel>,
) -> bool {
    &&& is_identifier(trimmed(request.id))
    &&& trimmed(request.name).len() > 0
    &&& leg_is_fine(request.long_leg, accounts, request.enabled)
    &&& leg_is_fine(request.short_leg, accounts, request.enabled)
    &&& request.long_leg.exchange != request.short_leg.exchange
    &&& levels_are_fine(request.open_levels)
    &&& levels_are_fine(request.close_levels)
    &&& !request.max_total_notional.le(zero())
    &&& request.max_open_orders > 0
    &&& request.stale_order_query_ms > 0
}

/// Whether a leg is another one brought into shape.
pub open spec fn leg_is_shaped(leg: StrategyLegModel, from: StrategyLegModel) -> bool {
    &&& leg.exchange == from.exchange
    &&& leg.symbol == uppercased(trimmed(from.symbol))
    &&& leg.account_id == trimmed(from.account_id)
}

/// A strategy is accepted exactly if it keeps all the rules. It is then what was asked for, but for the
/// white space around id, name, symbols and accounts, and for symbols, which are in capitals. What is
/// refused breaks a rule.
pub proof fn strategies_are_checked(
    request: StrategyConfigModel,
    accounts: Seq<AccountRecordModel>,
)
    ensures
        checked_strategy(request, accounts) is Ok <==> strategy_is_fine(request, accounts),
        checked_strategy(request, accounts) matches Ok(strategy) ==> {
            &&& strategy.id == trimmed(request.id)
            &&& strategy.name == trimmed(request.name)
            &&& strategy.enabled == request.enabled
            &&& leg_is_shaped(strategy.long_leg, request.long_leg)
            &&& leg_is_shaped(strategy.short_leg, request.short_leg)
            &&& strategy.open_levels == request.open_levels
            &&& strategy.close_levels == request.close_levels
            &&& strategy.max_total_notional == request.max_total_notional
            &&& strategy.max_open_orders == request.max_open_orders
            &&& strategy.stale_order_query_ms == request.stale_order_query_ms
        },
        checked_strategy(request, accounts) matches Err(why) ==> why is Validation,
{
    lemma_identifier(request.id, "strategy id"@);
    lemma_identifier(request.long_leg.account_id, "long_leg"@ + ".account_id"@);
    lemma_identifier(request.short_leg.account_id, "short_leg"@ + ".account_id"@);
    lemma_symbol(request.long_leg.symbol, "long_leg"@ + ".symbol"@);
    lemma_symbol(request.short_leg.symbol, "short_leg"@ + ".symbol"@);
    lemma_account_of(accounts, trimmed(request.long_leg.account_id));
    lemma_account_of(accounts, trimmed(request.short_leg.account_id));
    lemma_levels(request.open_levels, "open_levels"@);
    lemma_levels(request.close_levels, "close_levels"@);
    lemma_levels_told(request.open_levels, "open_levels"@, request.open_levels.len());
    lemma_levels_told(request.close_levels, "close_levels"@, request.close_levels.len());
}

proof fn lemma_levels_told(levels: Seq<SpreadLevel>, label: Seq<char>, n: nat)
    ensures
        first_level_fault(levels, label, n) matches Some(why) ==> why is Validation,
    decreases n,
{
    if n > 0 {
        lemma_levels_told(levels, label, (n - 1) as nat);
    }
}

/// Stored strategies are accepted exactly if each of them keeps the rules, and otherwise the first that
/// does not tells what it breaks.
pub proof fn stored_strategies_are_checked(
    strategies: Seq<StrategyRecordModel>,
    accounts: Seq<AccountRecordModel>,
) -> (at: int)
    ensures
        match strategies_fault(strategies, accounts) {
            None => forall|i: int|
                0 <= i < strategies.len() ==> strategy_is_fine(
                    (#[trigger] strategies[i]).config,
                    accounts,
                ),
            Some(why) => {
                &&& 0 <= at < strategies.len()
                &&& checked_strategy(strategies[at].config, accounts) == Err::<
                    StrategyConfigModel,
                    AppErrorModel,
                >(why)
                &&& forall|i: int|
                    0 <= i < at ==> strategy_is_fine((#[trigger] strategies[i]).config, accounts)
            },
        },
    decreases strategies.len(),
{
    if strategies.len() == 0 {
        0
    } else {
        let front = strategies.drop_last();
        let last = strategies.len() - 1;
        let at = stored_strategies_are_checked(front, accounts);
        strategies_are_checked(strategies[last].config, accounts);
        assert(strategies[last] == strategies.last());
        if strategies_fault(front, accounts) is Some {
            assert(strategies[at] == front[at]);
            assert forall|i: int| 0 <= i < at implies strategy_is_fine(
                (#[trigger] strategies[i]).config,
                accounts,
            ) by {
                assert(strategies[i] == front[i]);
            }
            at
        } else {
            assert forall|i: int| 0 <= i < last implies strategy_is_fine(
                (#[trigger] strategies[i]).config,
                accounts,
            ) by {
                assert(strategies[i] == front[i]);
            }
            last
        }
    }
}

/// An account is accepted exactly if its id has the characters that it may have, its name is there, and
/// its key and its secret have at least four bytes without the white space around them. It is then what
/// was asked for without that white space; a blank passphrase is none. What is refused breaks a rule.
pub proof fn accounts_are_checked(request: AccountUpsertRequestModel)
    ensures
        checked_account(request) is Ok <==> {
            &&& is_identifier(trimmed(request.id))
            &&& trimmed(request.name).len() > 0
            &&& encode_utf8(trimmed(request.api_key)).len() >= 4
            &&& encode_utf8(trimmed(request.api_secret)).len() >= 4
        },
        checked_account(request) matches Ok(account) ==> {
            &&& account.id == trimmed(request.id)
            &&& account.name == trimmed(request.name)
            &&& account.exchange == request.exchange
            &&& account.enabled == request.enabled
            &&& account.api_key == trimmed(request.api_key)
            &&& account.api_secret == trimmed(request.api_secret)
            &&& account.passphrase is Some <==> request.passphrase is Some && trimmed(
                request.passphrase->0,
            ).len() > 0
            &&& account.passphrase is Some ==> account.passphrase->0 == trimmed(
                request.passphrase->0,
            )
            &&& account.masked_api_key == masked(trimmed(request.api_key))
            &&& account.validation_status is DryRunOk
        },
        checked_account(request) matches Err(why) ==> why is Validation,
{
    lemma_identifier(request.id, "account id"@);
}

/// A key is shown by its first three and its last two characters around three asterisks, and by the
/// asterisks alone where it has at most six; so it is for keys of ASCII characters.
pub proof fn keys_are_masked(key: Seq<char>)
    requires
        is_ascii_chars(key),
    ensures
        key.len() <= 6 ==> masked(key) == seq!['*', '*', '*'],
        key.len() > 6 ==> masked(key) == key.take(3) + seq!['*', '*', '*'] + key.skip(
            key.len() - 2,
        ),
{
    reveal_strlit("***");
    assert("***"@ =~= seq!['*', '*', '*']);
    let bytes = encode_utf8(key);
    is_ascii_chars_encode_utf8(key);
    if key.len() > 6 {
        let head = key.take(3);
        let tail = key.skip(key.len() - 2);
        assert(is_ascii_chars(head)) by {
            assert forall|i: int| 0 <= i < head.len() implies (
            #[trigger] head[i] as u32) < 128 by {
                assert(head[i] == key[i]);
            }
        }
        assert(is_ascii_chars(tail)) by {
            assert forall|i: int| 0 <= i < tail.len() implies (
            #[trigger] tail[i] as u32) < 128 by {
                assert(tail[i] == key[i + key.len() - 2]);
            }
        }
        is_ascii_chars_encode_utf8(head);
        is_ascii_chars_encode_utf8(tail);
        assert(bytes.take(3) =~= encode_utf8(head));
        assert(bytes.skip(bytes.len() - 2) =~= encode_utf8(tail));
        encode_utf8_decode_utf8(head);
        encode_utf8_decode_utf8(tail);
    }
}

} // verus!
