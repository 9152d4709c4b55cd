//! Transaction identities and the order in which history is replayed.

use vstd::prelude::*;

verus! {

/// The complete identity of a transaction.
///
/// Identities are assigned by the caller. They are ordered by their network time, then by the
/// nonce which tells apart the transactions of one instant, then by the trace of the request
/// (a hash, taken as one big-endian number).
#[derive(Clone, Copy, Debug, PartialEq, Eq, Structural, Hash)]
pub struct TxnId {
    pub time: u64,
    pub nonce: u16,
    pub trace_high: u128,
    pub trace_low: u128,
}

impl TxnId {
    /// Whether this transaction comes before the `other` in replay order.
    pub open spec fn before(self, other: TxnId) -> bool {
        ||| self.time < other.time
        ||| self.time == other.time && self.nonce < other.nonce
        ||| self.time == other.time && self.nonce == other.nonce && self.trace_high
            < other.trace_high
        ||| self.time == other.time && self.nonce == other.nonce && self.trace_high
            == other.trace_high && self.trace_low < other.trace_low
    }

    /// Whether this transaction comes before the `other` in replay order.
    pub fn precedes(&self, other: &TxnId) -> (res: bool)
        ensures
            res == self.before(*other),
    {
        if self.time != other.time {
            self.time < other.time
        } else if self.nonce != other.nonce {
            self.nonce < other.nonce
        } else if self.trace_high != other.trace_high {
            self.trace_high < other.trace_high
        } else {
            self.trace_low < other.trace_low
        }
    }
}

/// Whether a transaction lies at or before a finalized cutoff.
pub open spec fn covered(cutoff: Option<TxnId>, id: TxnId) -> bool {
    cutoff matches Some(c) && !c.before(id)
}

/// Whether a transaction lies at or before a finalized cutoff.
pub fn is_covered(cutoff: Option<TxnId>, id: &TxnId) -> (res: bool)
    ensures
        res == covered(cutoff, *id),
{
    match cutoff {
        Some(c) => !c.precedes(id),
        None => false,
    }
}

/// Replay order is a strict total order on complete identities.
pub proof fn law_replay_order_is_total(a: TxnId, b: TxnId, c: TxnId)
    ensures
        !a.before(a),
        a.before(b) && b.before(c) ==> a.before(c),
        a == b || a.before(b) || b.before(a),
        !(a.before(b) && b.before(a)),
{
}

} // verus!
