//! Market data of Bybit: which messages are passed on, and what is sent.

use vstd::prelude::*;

use crate::engine::book::{BookApplyResult, BookModel, DepthModel, RawDepthMessage};
use crate::gateway::market_ws::{MarketWsRuntime, MarketWsRuntimeModel};
use crate::json::{json_object_text, to_json_text};
use crate::text::{decimal, numeral};

verus! {

/// What is asked of Bybit for each symbol: its book to a depth of 1000.
pub open spec fn topic_of(symbol: Seq<char>) -> Seq<char> {
    "orderbook.1000."@ + symbol
}

/// The message that subscribes symbols. The text is that of a JSON object, so there is always one.
pub fn subscription_message(symbols: &Vec<String>) -> (r: Result<String, String>)
    ensures
        r matches Ok(text) && text@ == json_object_text(
            seq![("op"@, "subscribe"@)],
            seq![("args"@, symbols.deep_view().map_values(|symbol: Seq<char>| topic_of(symbol)))],
        ),
{
    let mut args: Vec<String> = Vec::new();
    let mut i: usize = 0;
    while i < symbols.len()
        invariant
            i <= symbols.len(),
            args.len() == i,
            forall|j: int|
                0 <= j < i ==> (#[trigger] args.deep_view()[j]) == topic_of(symbols.deep_view()[j]),
        decreases symbols.len() - i,
    {
        let ghost before = args.deep_view();
        let mut topic = "orderbook.1000.".to_owned();
        topic.append(symbols[i].as_str());
        let ghost tv = topic@;
        args.push(topic);
        assert(args.deep_view() =~= before.push(tv));
        i += 1;
    }
    assert(args.deep_view() =~= symbols.deep_view().map_values(
        |symbol: Seq<char>| topic_of(symbol),
    ));
    let mut texts: Vec<(String, String)> = Vec::new();
    texts.push(("op".to_owned(), "subscribe".to_owned()));
    assert(texts.deep_view() =~= seq![("op"@, "subscribe"@)]);
    let mut lists: Vec<(String, Vec<String>)> = Vec::new();
    let ghost av = args.deep_view();
    lists.push(("args".to_owned(), args));
    assert(lists.deep_view() =~= seq![("args"@, av)]);
    match to_json_text(texts, lists) {
        Ok(text) => Ok(text),
        Err(error) => {
            let mut why = "subscribe encode failed: ".to_owned();
            why.append(error.to_string().as_str());
            Err(why)
        },
    }
}

/// The message that keeps a connection alive.
pub fn ping_message() -> (r: String)
    ensures
        r@ == "{\"op\":\"ping\"}"@,
{
    "{\"op\":\"ping\"}".to_owned()
}

/// What has been passed on of a symbol.
#[derive(Clone, Copy, Debug, PartialEq, Eq, Structural)]
pub struct SymbolState {
    pub has_snapshot: bool,
    pub last_sequence: Option<u64>,
}

impl Default for SymbolState {
    fn default() -> (r: Self)
        ensures
            r == SymbolState::fresh(),
    {
        SymbolState { has_snapshot: false, last_sequence: None }
    }
}

/// What becomes of a message.
pub enum Acceptance {
    /// It is passed on.
    Passed,
    /// It is not passed on.
    Held,
    /// Changes before it are missing.
    Gap,
}

impl SymbolState {
    /// The state before any message.
    pub open spec fn fresh() -> SymbolState {
        SymbolState { has_snapshot: false, last_sequence: None }
    }

    /// What becomes of a message: snapshots are passed on; changes too, once a snapshot has been, if
    /// they carry no number or the next one. Older ones are held; a later one shows a gap.
    pub open spec fn acceptance(self, message: DepthModel) -> Acceptance {
        match message {
            DepthModel::Snapshot { .. } => Acceptance::Passed,
            DepthModel::Delta { sequence, .. } => if !self.has_snapshot {
                Acceptance::Held
            } else {
                match (sequence, self.last_sequence) {
                    (Some(current), Some(last)) => if current <= last {
                        Acceptance::Held
                    } else if current > last + 1 {
                        Acceptance::Gap
                    } else {
                        Acceptance::Passed
                    },
                    _ => Acceptance::Passed,
                }
            },
        }
    }

    /// The state after a message.
    pub open spec fn after(self, message: DepthModel) -> SymbolState {
        match message {
            DepthModel::Snapshot { sequence, .. } => SymbolState {
                has_snapshot: true,
                last_sequence: sequence,
            },
            DepthModel::Delta { sequence, .. } => if self.acceptance(message) is Passed
                && sequence is Some {
                SymbolState { last_sequence: sequence, ..self }
            } else {
                self
            },
        }
    }

    /// What is said of a gap before a message.
    pub open spec fn gap_words(self, message: DepthModel) -> Seq<char> {
        "symbol="@ + message.market().symbol + " sequence gap detected last="@ + numeral(
            self.last_sequence->0 as nat,
        ) + " current="@ + numeral(message->Delta_sequence->0 as nat)
    }

    /// Takes a message and says whether it is passed on; an error where changes are missing.
    pub fn accept(&mut self, message: &RawDepthMessage) -> (r: Result<bool, String>)
        ensures
            *final(self) == old(self).after(message@),
            match old(self).acceptance(message@) {
                Acceptance::Passed => r == Ok::<bool, String>(true),
                Acceptance::Held => r == Ok::<bool, String>(false),
                Acceptance::Gap => r matches Err(why) && why@ == old(self).gap_words(message@),
            },
    {
        match message {
            RawDepthMessage::Snapshot { sequence, .. } => {
                self.has_snapshot = true;
                self.last_sequence = *sequence;
                Ok(true)
            },
            RawDepthMessage::Delta { market, sequence, .. } => {
                if !self.has_snapshot {
                    return Ok(false);
                }
                let current: u64 = match *sequence {
                    Some(current) => current,
                    None => return Ok(true),
                };
                if let Some(last) = self.last_sequence {
                    if current <= last {
                        return Ok(false);
                    }
                    if current > last + 1 {
                        let mut why = "symbol=".to_owned();
                        why.append(market.symbol.as_str());
                        why.append(" sequence gap detected last=");
                        why.append(decimal(last as u128).as_str());
                        why.append(" current=");
                        why.append(decimal(current as u128).as_str());
                        return Err(why);
                    }
                }
                self.last_sequence = Some(current);
                Ok(true)
            },
        }
    }
}

/// What a [`BybitDepthSynchronizer`] holds.
#[verifier::ext_equal]
pub struct BybitSyncModel {
    pub runtime: MarketWsRuntimeModel,
    pub states: Seq<SymbolState>,
}

/// The symbols of a connection and what has been passed on of each.
#[derive(Debug)]
pub struct BybitDepthSynchronizer {
    pub runtime: MarketWsRuntime,
    /// One state for each subscribed symbol.
    pub states: Vec<SymbolState>,
}

impl View for BybitDepthSynchronizer {
    type V = BybitSyncModel;

    open spec fn view(&self) -> BybitSyncModel {
        BybitSyncModel { runtime: self.runtime@, states: self.states@ }
    }
}

/// The place of the first text that is `text`.
pub open spec fn first_place(texts: Seq<Seq<char>>, text: Seq<char>) -> Option<int>
    decreases texts.len(),
{
    if texts.len() == 0 {
        None
    } else if texts[0] == text {
        Some(0)
    } else {
        match first_place(texts.drop_first(), text) {
            Some(at) => Some(at + 1),
            None => None,
        }
    }
}

/// The place of the first text that is `text`.
pub(crate) fn find_text(texts: &Vec<String>, text: &String) -> (r: Option<usize>)
    ensures
        match r {
            Some(at) => first_place(texts.deep_view(), text@) == Some(at as int) && at
                < texts.len() && texts.deep_view()[at as int] == text@,
            None => first_place(texts.deep_view(), text@) is None,
        },
{
    let ghost all = texts.deep_view();
    let mut i: usize = 0;
    assert(all.skip(0) =~= all);
    while i < texts.len()
        invariant
            i <= texts.len(),
            all == texts.deep_view(),
            first_place(all, text@) == (match first_place(all.skip(i as int), text@) {
                Some(at) => Some(at + i),
                None => None,
            }),
        decreases texts.len() - i,
    {
        assert(all.skip(i as int)[0] == texts[i as int]@);
        assert(all.skip(i as int).drop_first() =~= all.skip(i + 1));
        if texts[i] == *text {
            return Some(i);
        }
        i += 1;
    }
    None
}

impl BybitSyncModel {
    /// Whether every subscribed symbol has a state.
    pub open spec fn ok(self) -> bool {
        self.states.len() == self.runtime.subscribed_symbols.len()
    }

    /// The state that a message is for.
    pub open spec fn place(self, message: DepthModel) -> Option<int> {
        first_place(self.runtime.subscribed_symbols, message.market().symbol)
    }
}

impl BybitDepthSynchronizer {
    pub fn new(runtime: &MarketWsRuntime) -> (r: Self)
        ensures
            r@.runtime == runtime@,
            r@.states == Seq::new(
                runtime@.subscribed_symbols.len(),
                |i: int| SymbolState::fresh(),
            ),
            r@.ok(),
    {
        let mut states: Vec<SymbolState> = Vec::new();
        while states.len() < runtime.subscribed_symbols.len()
            invariant
                states.len() <= runtime.subscribed_symbols.len(),
                forall|j: int| 0 <= j < states.len() ==> #[trigger] states@[j] == SymbolState::fresh(),
            decreases runtime.subscribed_symbols.len() - states.len(),
        {
            states.push(SymbolState::default());
        }
        assert(states@ =~= Seq::new(
            runtime@.subscribed_symbols.len(),
            |i: int| SymbolState::fresh(),
        ));
        BybitDepthSynchronizer { runtime: runtime.clone(), states }
    }

    /// Takes the message of a payload, if it says anything, and says whether the payload is passed
    /// on; an error where changes are missing. Payloads of other symbols are not passed on.
    pub fn handle_payload(&mut self, message: Option<&RawDepthMessage>) -> (r: Result<bool, String>)
        requires
            old(self)@.ok(),
        ensures
            final(self)@.ok(),
            final(self)@.runtime == old(self)@.runtime,
            match message {
                None => r == Ok::<bool, String>(false) && final(self)@ == old(self)@,
                Some(message) => match old(self)@.place(message@) {
                    None => r == Ok::<bool, String>(false) && final(self)@ == old(self)@,
                    Some(at) => {
                        let state = old(self)@.states[at];
                        &&& final(self)@.states == old(self)@.states.update(
                            at,
                            state.after(message@),
                        )
                        &&& match state.acceptance(message@) {
                            Acceptance::Passed => r == Ok::<bool, String>(true),
                            Acceptance::Held => r == Ok::<bool, String>(false),
                            Acceptance::Gap => r matches Err(why) && why@ == state.gap_words(
                                message@,
                            ),
                        }
                    },
                },
            },
    {
        let message = match message {
            Some(message) => message,
            None => return Ok(false),
        };
        let found = find_text(&self.runtime.subscribed_symbols, &message.market().symbol);
        let at: usize = match found {
            Some(at) => at,
            None => return Ok(false),
        };
        let mut state = self.states[at];
        let r = state.accept(message);
        self.states[at] = state;
        assert(self@.states =~= old(self)@.states.update(at as int, state));
        r
    }
}

/// A book that has had every message that was passed on applies the next one that is: the state of
/// the symbol and the book have seen the same.
pub proof fn passed_messages_are_applied(
    state: SymbolState,
    book: BookModel,
    message: DepthModel,
)
    requires
        state.has_snapshot == book.has_snapshot,
        state.last_sequence == book.last_sequence,
        state.acceptance(message) is Passed,
        message is Delta ==> message->Delta_first_sequence == message->Delta_sequence
            && message->Delta_previous_sequence is None,
    ensures
        book.verdict(message) == BookApplyResult::Applied,
        state.after(message).has_snapshot == book.after(message).has_snapshot,
        state.after(message).last_sequence == book.after(message).last_sequence,
{
}

/// Between two changes with numbers that are passed on, none is missing.
pub proof fn passed_numbers_follow(state: SymbolState, message: DepthModel)
    requires
        message is Delta,
        message->Delta_sequence is Some,
        state.last_sequence is Some,
        state.acceptance(message) is Passed,
    ensures
        message->Delta_sequence->0 == state.last_sequence->0 + 1,
{
}

/// What is asked for a symbol is its book of a thousand levels.
pub proof fn topics_name_their_symbol(symbol: Seq<char>)
    ensures
        topic_of(symbol) == "orderbook.1000."@ + symbol,
{
}

/// What is said of a gap names the symbol, the last number before it and the number behind it.
pub proof fn gaps_are_described(
    last: u64,
    current: u64,
    message: DepthModel,
    symbol: Seq<char>,
)
    requires
        message matches DepthModel::Delta { market, sequence, .. } && market.symbol == symbol
            && sequence == Some(current),
    ensures
        (SymbolState { has_snapshot: true, last_sequence: Some(last) }).gap_words(message)
            == "symbol="@ + symbol + " sequence gap detected last="@ + numeral(last as nat)
            + " current="@ + numeral(current as nat),
{
}

} // verus!
