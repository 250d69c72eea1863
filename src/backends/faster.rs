//! The decisions that drive the embedded asynchronous engine: one strictly
//! increasing serial number per operation, periodic maintenance, and the merge
//! function the engine applies to stored bytes.
use crate::codec::{Decode, Encode};
use crate::primitives::merged;
use crate::Rmw;
use vstd::prelude::*;

verus! {

/// Every this many serial numbers the engine's epoch is refreshed.
pub const REFRESH_INTERVAL: u64 = 16;

/// Every this many serial numbers pending asynchronous completions are drained.
pub const COMPLETE_PENDING_INTERVAL: u64 = 1024;

/// Every this many serial numbers a durable checkpoint is taken.
pub const CHECKPOINT_INTERVAL: u64 = 1048576;

/// The maintenance to run after an operation.
#[derive(Clone, Copy, Debug, PartialEq, Eq, Structural)]
pub struct Maintenance {
    pub refresh: bool,
    pub complete_pending: bool,
    pub checkpoint: bool,
}

pub open spec fn maintenance_spec(serial: u64) -> Maintenance {
    Maintenance {
        refresh: serial % REFRESH_INTERVAL == 0,
        complete_pending: serial % COMPLETE_PENDING_INTERVAL == 0,
        checkpoint: serial % CHECKPOINT_INTERVAL == 0,
    }
}

/// The maintenance due after the operation numbered `serial`.
pub fn maintenance_for(serial: u64) -> (m: Maintenance)
    ensures
        m == maintenance_spec(serial),
{
    Maintenance {
        refresh: serial % REFRESH_INTERVAL == 0,
        complete_pending: serial % COMPLETE_PENDING_INTERVAL == 0,
        checkpoint: serial % CHECKPOINT_INTERVAL == 0,
    }
}

/// What one operation against the engine is given: its serial number and
/// the maintenance to run once it has been issued.
#[derive(Clone, Copy, Debug, PartialEq, Eq, Structural)]
pub struct Ticket {
    pub serial: u64,
    pub maintenance: Maintenance,
}

/// A session with the engine: the source of its serial numbers.
pub struct Session {
    next: u64,
}

impl Session {
    /// The serial number the next operation receives.
    pub closed spec fn next(&self) -> u64 {
        self.next
    }

    /// A fresh session; its first operation is numbered 1.
    pub fn new() -> (r: Session)
        ensures
            r.next() == 1,
    {
        Session { next: 1 }
    }

    /// Numbers the next operation. Once every serial number has been used
    /// the session is exhausted and hands out none.
    pub fn next_operation(&mut self) -> (t: Option<Ticket>)
        ensures
            old(self).next() < u64::MAX ==> t == Some(
                Ticket { serial: old(self).next(), maintenance: maintenance_spec(old(self).next()) },
            ) && final(self).next() == old(self).next() + 1,
            old(self).next() == u64::MAX ==> t is None && final(self).next() == old(self).next(),
    {
        if self.next == u64::MAX {
            return None;
        }
        let serial = self.next;
        self.next = self.next + 1;
        Some(Ticket { serial, maintenance: maintenance_for(serial) })
    }
}

/// The merge the engine applies to a stored record: decode both sides, merge,
/// encode. Bytes that do not decode give no result.
pub fn rmw_logic<V: Decode + Rmw>(stored: &[u8], modification: &[u8]) -> (r: Option<Vec<u8>>)
    ensures
        match (V::decoding(stored@), V::decoding(modification@)) {
            (Some(v), Some(m)) => r matches Some(bytes) && bytes@ == merged(Some(v), m).encoding(),
            _ => r is None,
        },
{
    match (V::decode(stored), V::decode(modification)) {
        (Some(v), Some(m)) => {
            let result = v.rmw(m);
            Some(result.encode())
        },
        _ => None,
    }
}

} // verus!
