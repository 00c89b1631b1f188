//! Relay pool reconciliation and notification routing for a Nostr client.
//!
//! The library keeps the user's desired relays, contacts and received events
//! in ordered stores, diffs the desired relays against the live connections,
//! decides every connect retry, derives subscription filters from the contact
//! list and routes inbound notifications into the event store. Everything
//! that touches the network or durable storage stays with the caller, which
//! performs the actions that these functions hand back.
pub mod contact;
pub mod event;
pub mod load_store;
pub mod nostr;
pub mod ordered;
pub mod reconcile;
pub mod relay;
pub mod router;
pub mod subscription;
pub mod util;
pub mod worker;
