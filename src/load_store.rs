//! The keys under which the stores are kept in durable storage.
use vstd::prelude::*;
use crate::contact::UserContact;
use crate::relay::Relay;

verus! {

/// A store that is kept in durable storage under a fixed key.
pub trait LoadStoreKey: Sized {
    fn load_store_key() -> (r: &'static str)
        ensures
            r@.len() > 0,
    ;
}

impl LoadStoreKey for Relay {
    fn load_store_key() -> (r: &'static str) {
        proof {
            reveal_strlit("relay");
        }
        "relay"
    }
}

impl LoadStoreKey for UserContact {
    fn load_store_key() -> (r: &'static str) {
        proof {
            reveal_strlit("user-contacts");
        }
        "user-contacts"
    }
}

} // verus!
