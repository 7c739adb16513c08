use vstd::prelude::*;
use crate::types::{sat_add, sat_sub, Credits, NetworkAddress, Reputation, Timestamp, CREDITS_INITIAL_BALANCE};

verus! {

/// What a node knows of a peer.
#[derive(Debug, Clone)]
pub struct NodeInfo {
    pub addresses: Vec<NetworkAddress>,
    pub last_seen: Timestamp,
    pub reputation: Reputation,
    pub latency_ms: Option<u32>,
    pub accepts_relay: bool,
    pub bandwidth_capacity: Option<u64>,
    pub protocol_version: u32,
}

impl NodeInfo {
    /// A fresh record with one address, seen at `now`.
    pub fn new_at(address: NetworkAddress, now: Timestamp) -> (r: NodeInfo)
        ensures
            r.addresses@ == seq![address],
            r.last_seen == now,
            r.reputation == Reputation(100),
            r.latency_ms is None,
            r.accepts_relay,
            r.bandwidth_capacity is None,
            r.protocol_version == 1,
    {
        let mut addresses: Vec<NetworkAddress> = Vec::new();
        addresses.push(address);
        NodeInfo {
            addresses,
            last_seen: now,
            reputation: Reputation::initial(),
            latency_ms: None,
            accepts_relay: true,
            bandwidth_capacity: None,
            protocol_version: 1,
        }
    }

    /// A fresh record with one address, seen now.
    pub fn new(address: NetworkAddress) -> (r: NodeInfo)
        ensures
            r.addresses@ == seq![address],
            r.reputation == Reputation(100),
            r.accepts_relay,
    {
        NodeInfo::new_at(address, Timestamp::now())
    }

    /// A fresh record with the given addresses, seen at `now`.
    pub fn with_addresses_at(addresses: Vec<NetworkAddress>, now: Timestamp) -> (r: NodeInfo)
        ensures
            r.addresses == addresses,
            r.last_seen == now,
            r.reputation == Reputation(100),
            r.accepts_relay,
            r.protocol_version == 1,
    {
        NodeInfo {
            addresses,
            last_seen: now,
            reputation: Reputation::initial(),
            latency_ms: None,
            accepts_relay: true,
            bandwidth_capacity: None,
            protocol_version: 1,
        }
    }

    /// A fresh record with the given addresses, seen now.
    pub fn with_addresses(addresses: Vec<NetworkAddress>) -> (r: NodeInfo)
        ensures
            r.addresses == addresses,
            r.reputation == Reputation(100),
    {
        NodeInfo::with_addresses_at(addresses, Timestamp::now())
    }

    /// The record is older than `max_age_secs` at `now`.
    pub fn is_stale_at(&self, max_age_secs: u64, now: Timestamp) -> (r: bool)
        ensures
            r == (sat_sub(now.0 as int, self.last_seen.0 as int) > max_age_secs),
    {
        self.last_seen.elapsed_at(now) > max_age_secs
    }

    /// The record is older than `max_age_secs` by the system clock.
    pub fn is_stale(&self, max_age_secs: u64) -> bool {
        self.is_stale_at(max_age_secs, Timestamp::now())
    }
}

/// Balance and totals of a node's account.
#[derive(Debug, Clone)]
pub struct AccountInfo {
    pub balance: Credits,
    pub total_earned: Credits,
    pub total_spent: Credits,
    pub total_relayed: u64,
    pub total_sent: u64,
    pub created_at: Timestamp,
    pub last_transaction: Timestamp,
}

impl AccountInfo {
    /// A new account holding the initial balance, nothing earned or spent.
    pub fn new() -> (r: AccountInfo)
        ensures
            r.balance.0 == CREDITS_INITIAL_BALANCE,
            r.total_earned.0 == 0,
            r.total_spent.0 == 0,
            r.total_relayed == 0,
            r.total_sent == 0,
    {
        let now = Timestamp::now();
        AccountInfo {
            balance: Credits::initial_balance(),
            total_earned: Credits::zero(),
            total_spent: Credits::zero(),
            total_relayed: 0,
            total_sent: 0,
            created_at: now,
            last_transaction: now,
        }
    }

    pub fn can_spend(&self, amount: Credits) -> (r: bool)
        ensures
            r == (self.balance.0 >= amount.0),
    {
        self.balance.0 >= amount.0
    }

    /// Takes `amount` from the balance; fails, unchanged, where it is short.
    pub fn spend(&mut self, amount: Credits) -> (r: Result<(), String>)
        ensures
            amount.0 <= old(self).balance.0 ==> r is Ok
                && final(self).balance.0 == old(self).balance.0 - amount.0
                && final(self).total_spent.0 == sat_add(old(self).total_spent.0 as int, amount.0 as int)
                && final(self).total_earned == old(self).total_earned,
            amount.0 > old(self).balance.0 ==> r is Err && *final(self) == *old(self),
    {
        if !self.can_spend(amount) {
            return Err("Insufficient balance".to_string());
        }
        self.balance = self.balance.saturating_sub(amount);
        self.total_spent = self.total_spent.saturating_add(amount);
        self.last_transaction = Timestamp::now();
        Ok(())
    }

    /// Adds `amount` to the balance and to the earnings, saturating.
    pub fn earn(&mut self, amount: Credits)
        ensures
            final(self).balance.0 == sat_add(old(self).balance.0 as int, amount.0 as int),
            final(self).total_earned.0 == sat_add(old(self).total_earned.0 as int, amount.0 as int),
            final(self).total_spent == old(self).total_spent,
    {
        self.balance = self.balance.saturating_add(amount);
        self.total_earned = self.total_earned.saturating_add(amount);
        self.last_transaction = Timestamp::now();
    }

    /// Earnings less spending.
    pub fn net_contribution(&self) -> (r: i128)
        ensures
            r == self.total_earned.0 - self.total_spent.0,
    {
        self.total_earned.0 as i128 - self.total_spent.0 as i128
    }
}

impl Default for AccountInfo {
    fn default() -> (r: AccountInfo)
        ensures
            r.balance.0 == CREDITS_INITIAL_BALANCE,
            r.total_earned.0 == 0,
            r.total_spent.0 == 0,
    {
        AccountInfo::new()
    }
}

} // verus!
