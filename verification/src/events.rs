//! Domain event payloads.

use vstd::prelude::*;

verus! {

/// The payload announcing that a channel was deactivated: the
/// channel's id and the moment of deactivation, both as text.
pub struct ChannelDeactivatedEvent {
    pub channel_id: String,
    pub timestamp: String,
}

} // verus!
