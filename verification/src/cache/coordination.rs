use vstd::prelude::*;

use crate::cache::layer_model::lemma_delete_pattern;
use crate::cache::layers::{wildcard_matches, StoredView};
use crate::cache::{l1_invalidate, MultiLayerCache, TiersView};
use crate::clock::{now_nanos, MAX_INSTANT_NS};

verus! {

/// A request, broadcast to the other nodes, to drop the first-tier values
/// whose keys match `pattern`; `timestamp` is when it was made
/// (nanoseconds since the Unix epoch).
#[derive(Debug, Clone)]
pub struct InvalidationMessage {
    pub pattern: String,
    pub node_id: String,
    pub timestamp: i128,
}

/// What a listener did with one payload from the invalidation channel.
#[derive(Debug, Clone, Copy, PartialEq, Eq, Structural)]
pub enum ListenerStep {
    /// The payload was not a message; it is skipped.
    Malformed,
    /// The message came from this node; it is skipped.
    OwnMessage,
    /// The message came from a peer; the first tier dropped its pattern.
    Applied,
}

/// The text of a message's sender and pattern.
pub open spec fn message_view(m: InvalidationMessage) -> (Seq<char>, Seq<char>) {
    (m.node_id@, m.pattern@)
}

/// What node `node_id` does with a payload (the sender and pattern of a
/// message, or nothing when it was not one): it drops the pattern from its
/// first tier unless the message is its own or no message at all.
pub open spec fn handle_payload(
    node_id: Seq<char>,
    v: TiersView,
    payload: Option<(Seq<char>, Seq<char>)>,
) -> (TiersView, ListenerStep) {
    match payload {
        None => (v, ListenerStep::Malformed),
        Some((sender, pattern)) => if sender == node_id {
            (v, ListenerStep::OwnMessage)
        } else {
            (l1_invalidate(v, pattern), ListenerStep::Applied)
        },
    }
}

/// The optional message of a payload, as text.
pub open spec fn payload_view(payload: Option<InvalidationMessage>) -> Option<(Seq<char>, Seq<char>)> {
    match payload {
        None => None,
        Some(m) => Some(message_view(m)),
    }
}

/// A node never acts on its own invalidation; a peer drops every
/// first-tier value whose key the pattern matches, keeps the others, and
/// leaves its second and third tiers as they were.
pub proof fn lemma_invalidation_reaches_peers_only(
    sender: Seq<char>,
    receiver: Seq<char>,
    v: TiersView,
    pattern: Seq<char>,
)
    requires
        sender != receiver,
    ensures
        handle_payload(sender, v, Some((sender, pattern))).0 == v,
        handle_payload(receiver, v, Some((sender, pattern))).0.l2 == v.l2,
        handle_payload(receiver, v, Some((sender, pattern))).0.l3 == v.l3,
        forall|i: int|
            0 <= i < handle_payload(receiver, v, Some((sender, pattern))).0.l1.len()
                ==> !wildcard_matches(
                pattern,
                #[trigger] handle_payload(receiver, v, Some((sender, pattern))).0.l1[i].key,
            ),
        forall|x: StoredView|
            v.l1.contains(x) && !wildcard_matches(pattern, x.key) ==> #[trigger] handle_payload(
                receiver,
                v,
                Some((sender, pattern)),
            ).0.l1.contains(x),
{
    lemma_delete_pattern(v.l1, pattern);
}

/// The part of a cache node that takes part in invalidation: its identity.
pub struct CacheCoordinator {
    pub node_id: String,
}

impl CacheCoordinator {
    /// A coordinator for the node `node_id`.
    pub fn new(node_id: String) -> (r: Self)
        ensures
            r.node_id == node_id,
    {
        CacheCoordinator { node_id }
    }

    /// The message this node broadcasts to invalidate `pattern`, stamped
    /// with `timestamp`.
    pub fn invalidation_message(&self, pattern: &str, timestamp: i128) -> (m: InvalidationMessage)
        ensures
            m.pattern@ == pattern@,
            m.node_id@ == self.node_id@,
            m.timestamp == timestamp,
    {
        InvalidationMessage {
            pattern: pattern.to_owned(),
            node_id: self.node_id.clone(),
            timestamp,
        }
    }

    /// The message this node broadcasts to invalidate `pattern`, stamped
    /// with the wall clock.
    pub fn coordinate_invalidation(&self, pattern: &str) -> (m: InvalidationMessage)
        ensures
            m.pattern@ == pattern@,
            m.node_id@ == self.node_id@,
            0 <= m.timestamp <= MAX_INSTANT_NS,
    {
        let now = now_nanos();
        self.invalidation_message(pattern, now)
    }

    /// Handles one payload from the invalidation channel (`None` when it
    /// was not a message): a peer's message drops its pattern from the
    /// first tier; this node's own messages and malformed payloads are
    /// skipped.
    pub fn handle_invalidation(
        &self,
        cache: &mut MultiLayerCache,
        payload: Option<InvalidationMessage>,
    ) -> (step: ListenerStep)
        ensures
            final(cache).config() == old(cache).config(),
            (final(cache)@, step) == handle_payload(self.node_id@, old(cache)@, payload_view(payload)),
    {
        match payload {
            None => ListenerStep::Malformed,
            Some(msg) => {
                if msg.node_id == self.node_id {
                    ListenerStep::OwnMessage
                } else {
                    cache.invalidate_l1_pattern(msg.pattern.as_str());
                    ListenerStep::Applied
                }
            },
        }
    }
}

} // verus!
