use vstd::prelude::*;

verus! {

/// Mesh-maintenance interval, in seconds, unless another is chosen.
pub const DEFAULT_HEARTBEAT_SECS: u64 = 10;

/// The policy of the gossip channel: one topic and a mesh-maintenance
/// interval. Validation is always strict: unsigned or badly signed messages
/// are dropped before delivery.
pub struct GossipPolicy {
    pub topic: String,
    pub heartbeat_secs: u64,
}

impl GossipPolicy {
    /// The policy for a topic, with the default interval.
    pub fn new(topic: String) -> (r: GossipPolicy)
        ensures
            r.topic@ == topic@,
            r.heartbeat_secs == DEFAULT_HEARTBEAT_SECS,
    {
        GossipPolicy { topic, heartbeat_secs: DEFAULT_HEARTBEAT_SECS }
    }

    /// The same policy with another mesh-maintenance interval.
    pub fn with_heartbeat(self, secs: u64) -> (r: GossipPolicy)
        ensures
            r.topic@ == self.topic@,
            r.heartbeat_secs == secs,
    {
        GossipPolicy { heartbeat_secs: secs, ..self }
    }
}

} // verus!
