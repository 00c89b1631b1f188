//! What the library takes from the Nostr protocol crate.
use vstd::prelude::*;

verus! {

/// Relies on `nostr_sdk::nostr::SubscriptionId::generate`: a random id, of which
/// nothing is promised.
#[verifier::external_body]
pub(crate) fn generate_subscription_id() -> (r: String) {
    nostr_sdk::nostr::SubscriptionId::generate().to_string()
}

} // verus!
