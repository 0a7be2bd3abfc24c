//! Ids of raft log entries, and how far a log has been applied.
use vstd::prelude::*;

verus! {

/// The id of a raft log entry: the leader that proposed it, by its term and node id,
/// and the index of the entry in the log.
#[derive(Debug, Clone, Copy, PartialEq, Eq, Structural)]
pub struct LogId {
    pub term: u64,
    pub node_id: u64,
    pub index: u64,
}

impl LogId {
    /// Log ids are ordered by term, then by node id, then by index.
    pub open spec fn le(self, other: LogId) -> bool {
        if self.term != other.term {
            self.term < other.term
        } else if self.node_id != other.node_id {
            self.node_id < other.node_id
        } else {
            self.index <= other.index
        }
    }
}

/// `>=` of `openraft::LogId`. Trusted: it compares the terms first, then the node ids
/// of the leaders, then the indexes.
#[verifier::external_body]
fn log_id_ge(a: &LogId, b: &LogId) -> (ge: bool)
    ensures
        ge == b.le(*a),
{
    let a = openraft::LogId::new(openraft::CommittedLeaderId::new(a.term, a.node_id), a.index);
    let b = openraft::LogId::new(openraft::CommittedLeaderId::new(b.term, b.node_id), b.index);
    a >= b
}

/// Whether a log that was applied up to `a` is not ahead of one that was applied up to
/// `b`. A log of which nothing was applied is behind every other.
pub open spec fn applied_le(a: Option<LogId>, b: Option<LogId>) -> bool {
    match (a, b) {
        (None, _) => true,
        (Some(_), None) => false,
        (Some(a), Some(b)) => a.le(b),
    }
}

/// Whether a log that was applied up to `a` is at least as far as one that was applied
/// up to `b`.
pub fn applied_ge(a: &Option<LogId>, b: &Option<LogId>) -> (ge: bool)
    ensures
        ge == applied_le(*b, *a),
        b is None ==> ge,
        a is None && b is Some ==> !ge,
{
    match (a, b) {
        (_, None) => true,
        (None, Some(_)) => false,
        (Some(a), Some(b)) => log_id_ge(a, b),
    }
}

/// How far logs are applied is a total order.
pub proof fn law_applied_is_a_total_order(a: Option<LogId>, b: Option<LogId>, c: Option<LogId>)
    ensures
        applied_le(a, a),
        applied_le(a, b) || applied_le(b, a),
        applied_le(a, b) && applied_le(b, a) ==> a == b,
        applied_le(a, b) && applied_le(b, c) ==> applied_le(a, c),
{
}

/// A later term goes before everything else, then a larger node id, then a larger index.
/// An id is not ahead of itself, and a log of which something was applied is ahead of one
/// of which nothing was.
pub proof fn law_log_ids_are_ordered_by_term_node_and_index(a: LogId, b: LogId)
    ensures
        a.term < b.term ==> a.le(b) && !b.le(a),
        a.term == b.term && a.node_id < b.node_id ==> a.le(b) && !b.le(a),
        a.term == b.term && a.node_id == b.node_id ==> (a.le(b) <==> a.index <= b.index),
        applied_le(Some(a), Some(b)) == a.le(b),
        applied_le(None, Some(a)),
        applied_le(None, None),
        !applied_le(Some(a), None),
{
}

} // verus!
