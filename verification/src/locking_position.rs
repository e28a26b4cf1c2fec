//! A bond of mpDAO for an unbond period, and its three states:
//! locked, unlocking (the period is running) and unlocked.
use vstd::prelude::*;
use crate::utils::days_to_millis;

verus! {

/// mpDAO bonded for `locking_period` days. While `unlocking_started_at` is
/// `None` the position is locked and its voting power counts.
#[derive(Debug, Clone, Copy, PartialEq, Eq, Structural)]
pub struct LockingPosition {
    pub amount: u128,
    pub locking_period: u16,
    pub voting_power: u128,
    pub unlocking_started_at: Option<u64>,
}

/// A locking position as the views report it.
#[derive(Debug, Clone, Copy, PartialEq, Eq, Structural)]
pub struct LockingPositionJSON {
    pub index: Option<u64>,
    pub amount: u128,
    pub locking_period: u16,
    pub voting_power: u128,
    pub unlocking_started_at: Option<u64>,
    pub is_unlocked: bool,
    pub is_unlocking: bool,
    pub is_locked: bool,
}

/// The position is locked: no unlocking was started.
pub open spec fn pos_locked(p: LockingPosition) -> bool {
    p.unlocking_started_at is None
}

/// The unlocking was started and its end (start plus the period) is not past `now`.
pub open spec fn pos_unlocking(p: LockingPosition, now: u64) -> bool {
    match p.unlocking_started_at {
        Some(date) => now <= date + p.locking_period * 86_400_000,
        None => false,
    }
}

/// The unlocking was started and its end is past `now`.
pub open spec fn pos_unlocked(p: LockingPosition, now: u64) -> bool {
    match p.unlocking_started_at {
        Some(date) => now > date + p.locking_period * 86_400_000,
        None => false,
    }
}

impl LockingPosition {
    /// The unbond period in milliseconds.
    pub fn locking_period_millis(&self) -> (r: u64)
        ensures
            r == self.locking_period * 86_400_000,
    {
        days_to_millis(self.locking_period)
    }

    /// A position with the given fields.
    pub fn new(
        amount: u128,
        locking_period: u16,
        voting_power: u128,
        unlocking_started_at: Option<u64>,
    ) -> (r: Self)
        ensures
            r == (LockingPosition { amount, locking_period, voting_power, unlocking_started_at }),
    {
        LockingPosition { amount, locking_period, voting_power, unlocking_started_at }
    }

    /// Whether no unlocking was started.
    pub fn is_locked(&self) -> (r: bool)
        ensures
            r == pos_locked(*self),
    {
        self.unlocking_started_at.is_none()
    }

    /// Whether the position is in its unbond period at `now` (milliseconds).
    pub fn is_unlocking(&self, now: u64) -> (r: bool)
        ensures
            r == pos_unlocking(*self, now),
    {
        match self.unlocking_started_at {
            Some(date) => (now as u128) <= (date as u128) + (self.locking_period_millis() as u128),
            None => false,
        }
    }

    /// Whether the unbond period is over at `now` (milliseconds).
    pub fn is_unlocked(&self, now: u64) -> (r: bool)
        ensures
            r == pos_unlocked(*self, now),
    {
        match self.unlocking_started_at {
            Some(date) => (now as u128) > (date as u128) + (self.locking_period_millis() as u128),
            None => false,
        }
    }

    /// The position as the views report it at `now`.
    pub fn to_json(&self, index: Option<u64>, now: u64) -> (r: LockingPositionJSON)
        ensures
            r.index == index,
            r.amount == self.amount,
            r.locking_period == self.locking_period,
            r.voting_power == self.voting_power,
            r.unlocking_started_at == self.unlocking_started_at,
            r.is_unlocked == pos_unlocked(*self, now),
            r.is_unlocking == pos_unlocking(*self, now),
            r.is_locked == pos_locked(*self),
    {
        LockingPositionJSON {
            index,
            amount: self.amount,
            locking_period: self.locking_period,
            voting_power: self.voting_power,
            unlocking_started_at: self.unlocking_started_at,
            is_unlocked: self.is_unlocked(now),
            is_unlocking: self.is_unlocking(now),
            is_locked: self.is_locked(),
        }
    }
}

} // verus!
