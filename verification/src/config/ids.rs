//! Identifiers.

use vstd::prelude::*;

verus! {

/// Names a strategy.
#[derive(Debug, PartialEq, Eq, Hash, PartialOrd, Ord)]
pub struct StrategyId {
    value: String,
}

impl View for StrategyId {
    type V = Seq<char>;

    closed spec fn view(&self) -> Seq<char> {
        self.value@
    }
}

impl DeepView for StrategyId {
    type V = Seq<char>;

    open spec fn deep_view(&self) -> Seq<char> {
        self@
    }
}

impl Clone for StrategyId {
    fn clone(&self) -> (r: Self)
        ensures
            r == *self,
    {
        StrategyId { value: self.value.clone() }
    }
}

impl StrategyId {
    pub fn new(value: String) -> (r: Self)
        ensures
            r@ == value@,
    {
        StrategyId { value }
    }

    pub fn as_str(&self) -> (r: &str)
        ensures
            r@ == self@,
    {
        self.value.as_str()
    }

    /// Whether both are the same identifier.
    pub fn same(&self, other: &Self) -> (r: bool)
        ensures
            r == (self@ == other@),
    {
        self.value == other.value
    }
}

/// Names an exchange account.
#[derive(Debug, PartialEq, Eq, Hash, PartialOrd, Ord)]
pub struct AccountId {
    value: String,
}

impl View for AccountId {
    type V = Seq<char>;

    closed spec fn view(&self) -> Seq<char> {
        self.value@
    }
}

impl DeepView for AccountId {
    type V = Seq<char>;

    open spec fn deep_view(&self) -> Seq<char> {
        self@
    }
}

impl Clone for AccountId {
    fn clone(&self) -> (r: Self)
        ensures
            r == *self,
    {
        AccountId { value: self.value.clone() }
    }
}

impl AccountId {
    pub fn new(value: String) -> (r: Self)
        ensures
            r@ == value@,
    {
        AccountId { value }
    }

    pub fn as_str(&self) -> (r: &str)
        ensures
            r@ == self@,
    {
        self.value.as_str()
    }

    /// Whether both are the same identifier.
    pub fn same(&self, other: &Self) -> (r: bool)
        ensures
            r == (self@ == other@),
    {
        self.value == other.value
    }
}

/// Names a shard of the runtime.
#[derive(Debug, PartialEq, Eq, Hash, PartialOrd, Ord)]
pub struct ShardId {
    value: String,
}

impl View for ShardId {
    type V = Seq<char>;

    closed spec fn view(&self) -> Seq<char> {
        self.value@
    }
}

impl DeepView for ShardId {
    type V = Seq<char>;

    open spec fn deep_view(&self) -> Seq<char> {
        self@
    }
}

impl Clone for ShardId {
    fn clone(&self) -> (r: Self)
        ensures
            r == *self,
    {
        ShardId { value: self.value.clone() }
    }
}

impl ShardId {
    pub fn new(value: String) -> (r: Self)
        ensures
            r@ == value@,
    {
        ShardId { value }
    }

    pub fn as_str(&self) -> (r: &str)
        ensures
            r@ == self@,
    {
        self.value.as_str()
    }

    /// Whether both are the same identifier.
    pub fn same(&self, other: &Self) -> (r: bool)
        ensures
            r == (self@ == other@),
    {
        self.value == other.value
    }
}

/// Names a market data connection.
#[derive(Debug, PartialEq, Eq, Hash, PartialOrd, Ord)]
pub struct ConnectionId {
    value: String,
}

impl View for ConnectionId {
    type V = Seq<char>;

    closed spec fn view(&self) -> Seq<char> {
        self.value@
    }
}

impl DeepView for ConnectionId {
    type V = Seq<char>;

    open spec fn deep_view(&self) -> Seq<char> {
        self@
    }
}

impl Clone for ConnectionId {
    fn clone(&self) -> (r: Self)
        ensures
            r == *self,
    {
        ConnectionId { value: self.value.clone() }
    }
}

impl ConnectionId {
    pub fn new(value: String) -> (r: Self)
        ensures
            r@ == value@,
    {
        ConnectionId { value }
    }

    pub fn as_str(&self) -> (r: &str)
        ensures
            r@ == self@,
    {
        self.value.as_str()
    }

    /// Whether both are the same identifier.
    pub fn same(&self, other: &Self) -> (r: bool)
        ensures
            r == (self@ == other@),
    {
        self.value == other.value
    }
}

/// Names an order towards an exchange.
#[derive(Debug, PartialEq, Eq, Hash, PartialOrd, Ord)]
pub struct ClientOrderId {
    value: String,
}

impl View for ClientOrderId {
    type V = Seq<char>;

    closed spec fn view(&self) -> Seq<char> {
        self.value@
    }
}

impl DeepView for ClientOrderId {
    type V = Seq<char>;

    open spec fn deep_view(&self) -> Seq<char> {
        self@
    }
}

impl Clone for ClientOrderId {
    fn clone(&self) -> (r: Self)
        ensures
            r == *self,
    {
        ClientOrderId { value: self.value.clone() }
    }
}

impl ClientOrderId {
    pub fn new(value: String) -> (r: Self)
        ensures
            r@ == value@,
    {
        ClientOrderId { value }
    }

    pub fn as_str(&self) -> (r: &str)
        ensures
            r@ == self@,
    {
        self.value.as_str()
    }

    /// Whether both are the same identifier.
    pub fn same(&self, other: &Self) -> (r: bool)
        ensures
            r == (self@ == other@),
    {
        self.value == other.value
    }
}

} // verus!
