//! The IM server's own state and the decisions it takes on each request:
//! connections, uid bindings, rooms, acknowledgements, and message delivery.
pub mod state;
pub mod delivery;
pub mod inbound;
pub mod policy;
