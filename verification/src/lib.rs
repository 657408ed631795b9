//! A small channel-management core: a validated channel entity, an
//! in-memory store with create/read/update/delete operations, and a
//! registry that maps event names to handlers.

pub mod channel;
pub mod events;
pub mod messaging;
pub mod store;
