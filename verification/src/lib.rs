//! Session entitlements and account search for the builder administration
//! gateway.
//!
//! The crate has two halves. The privilege half turns the teams a user
//! belongs to into a set of feature flags, by way of a store that grants one
//! flag value to each team. The search half checks an (entity, attribute,
//! value) request against the registered entity kinds, turns it into a typed
//! query and maps whatever the routing layer answers into a reply.
//!
//! Nothing here performs I/O. Requests arrive as plain values, work for the
//! routing layer is handed back as a value, and the grant store is reached
//! through the [`store::GrantStore`] contract.

pub mod dispatch;
pub mod flags;
pub mod handlers;
pub mod json;
pub mod privilege;
pub mod store;
pub mod text;
