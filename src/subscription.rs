//! The subscription store, and the filters and contact list that the
//! contact store gives the relays.
use vstd::prelude::*;
use indexmap::IndexMap;
use crate::contact::{UserContact, UserContactInfo};
use crate::ordered::{
    index_of_str, lemma_index_of_str, str_inserted, str_swap_removed, subscription_entries,
    subscription_map_insert, subscription_map_len, subscription_map_new,
    subscription_map_swap_remove, unique_str_keys,
};

verus! {

/// A subscription filter, as much of it as this client sets: the keys that
/// an event must mention, the keys that may have written it, and the
/// earliest creation time.
pub struct SubscriptionFilter {
    pub pubkeys: Option<Vec<String>>,
    pub authors: Option<Vec<String>>,
    pub since: Option<u64>,
}

/// Whether some entry of `s` has key content `k` and value `v`.
pub open spec fn holds_pair<V>(s: Seq<(String, V)>, k: Seq<char>, v: V) -> bool {
    exists|i: int| 0 <= i < s.len() && s[i].0@ == k && s[i].1 == v
}

/// Whether some entry of `s` has key content `k`.
pub open spec fn holds_key<V>(s: Seq<(String, V)>, k: Seq<char>) -> bool {
    exists|i: int| 0 <= i < s.len() && s[i].0@ == k
}

proof fn lemma_insert_pairs<V>(s: Seq<(String, V)>, k: String, v: V)
    requires
        unique_str_keys(s),
    ensures
        unique_str_keys(str_inserted(s, k, v)),
        forall|a: Seq<char>, b: V|
            #[trigger] holds_pair(str_inserted(s, k, v), a, b) <==> ((holds_pair(s, a, b) && a
                != k@) || (a == k@ && b == v)),
{
    lemma_index_of_str(s, k@);
    let t = str_inserted(s, k, v);
    match index_of_str(s, k@) {
        Some(i) => {
            assert(0 <= i < s.len() && s[i].0@ == k@);
            assert forall|x: int, y: int| 0 <= x < y < t.len() implies t[x].0@ != t[y].0@ by {
                assert(t[x].0 == s[x].0);
                assert(t[y].0 == s[y].0);
            }
            assert forall|a: Seq<char>, b: V|
                holds_pair(t, a, b) <==> ((holds_pair(s, a, b) && a != k@) || (a == k@ && b
                    == v)) by {
                if holds_pair(t, a, b) {
                    let x = choose|x: int| 0 <= x < t.len() && t[x].0@ == a && t[x].1 == b;
                    if x != i {
                        assert(s[x] == t[x]);
                    }
                }
                if holds_pair(s, a, b) && a != k@ {
                    let x = choose|x: int| 0 <= x < s.len() && s[x].0@ == a && s[x].1 == b;
                    assert(t[x] == s[x]);
                }
                if a == k@ && b == v {
                    assert(t[i].0@ == a && t[i].1 == b);
                }
            }
        },
        None => {
            assert forall|x: int, y: int| 0 <= x < y < t.len() implies t[x].0@ != t[y].0@ by {
                assert(t[x] == s[x]);
            }
            assert forall|a: Seq<char>, b: V|
                holds_pair(t, a, b) <==> ((holds_pair(s, a, b) && a != k@) || (a == k@ && b
                    == v)) by {
                if holds_pair(t, a, b) {
                    let x = choose|x: int| 0 <= x < t.len() && t[x].0@ == a && t[x].1 == b;
                    if x < s.len() {
                        assert(s[x] == t[x]);
                    }
                }
                if holds_pair(s, a, b) && a != k@ {
                    let x = choose|x: int| 0 <= x < s.len() && s[x].0@ == a && s[x].1 == b;
                    assert(t[x] == s[x]);
                }
                if a == k@ && b == v {
                    assert(t[s.len() as int].0@ == a && t[s.len() as int].1 == b);
                }
            }
        },
    }
}

proof fn lemma_remove_pairs<V>(s: Seq<(String, V)>, k: Seq<char>)
    requires
        unique_str_keys(s),
    ensures
        unique_str_keys(str_swap_removed(s, k)),
        forall|a: Seq<char>, b: V|
            #[trigger] holds_pair(str_swap_removed(s, k), a, b) <==> (holds_pair(s, a, b) && a
                != k),
{
    lemma_index_of_str(s, k);
    let t = str_swap_removed(s, k);
    match index_of_str(s, k) {
        Some(i) => {
            assert(0 <= i < s.len() && s[i].0@ == k);
            let n = s.len() - 1;
            assert forall|x: int, y: int| 0 <= x < y < t.len() implies t[x].0@ != t[y].0@ by {
                let ox = if x == i { n } else { x };
                let oy = if y == i { n } else { y };
                assert(t[x] == s[ox]);
                assert(t[y] == s[oy]);
            }
            assert forall|a: Seq<char>, b: V|
                holds_pair(t, a, b) <==> (holds_pair(s, a, b) && a != k) by {
                if holds_pair(t, a, b) {
                    let x = choose|x: int| 0 <= x < t.len() && t[x].0@ == a && t[x].1 == b;
                    let ox = if x == i { n } else { x };
                    assert(t[x] == s[ox]);
                }
                if holds_pair(s, a, b) && a != k {
                    let x = choose|x: int| 0 <= x < s.len() && s[x].0@ == a && s[x].1 == b;
                    if x == n {
                        if i < n {
                            assert(t[i] == s[x]);
                        }
                    } else {
                        assert(t[x] == s[x]);
                    }
                }
            }
        },
        None => {},
    }
}

pub enum SubscriptionMessage {
    Remove(String),
    Add(Vec<SubscriptionFilter>),
    Update(String, Vec<SubscriptionFilter>),
}

/// The subscriptions, each id with its filters.
pub struct Subscription {
    subs: IndexMap<String, Vec<SubscriptionFilter>>,
}

impl Subscription {
    pub closed spec fn entries(&self) -> Seq<(String, Vec<SubscriptionFilter>)> {
        subscription_entries(self.subs)
    }

    /// Whether subscription `id` has filters `fs`.
    pub open spec fn has(&self, id: Seq<char>, fs: Vec<SubscriptionFilter>) -> bool {
        holds_pair(self.entries(), id, fs)
    }

    /// Whether subscription `id` exists.
    pub open spec fn has_id(&self, id: Seq<char>) -> bool {
        holds_key(self.entries(), id)
    }

    pub open spec fn wf(&self) -> bool {
        unique_str_keys(self.entries())
    }

    pub fn new() -> (r: Subscription)
        ensures
            r.wf(),
            forall|id: Seq<char>| !r.has_id(id),
    {
        Subscription { subs: subscription_map_new() }
    }

    pub fn len(&self) -> (r: usize)
        ensures
            r == self.entries().len(),
    {
        subscription_map_len(&self.subs)
    }

    /// Whether a subscription with id `id` exists.
    pub fn contains_id(&self, id: &String) -> (r: bool)
        requires
            self.wf(),
        ensures
            r == self.has_id(id@),
    {
        let n = subscription_map_len(&self.subs);
        let mut i: usize = 0;
        while i < n
            invariant
                n == self.entries().len(),
                i <= n,
                forall|j: int| 0 <= j < i ==> self.entries()[j].0@ != id@,
            decreases n - i,
        {
            if *crate::ordered::subscription_map_key_at(&self.subs, i) == *id {
                return true;
            }
            i = i + 1;
        }
        false
    }

    /// Sets the filters of subscription `id`, creating it if it is new.
    pub fn update(self, id: String, filters: Vec<SubscriptionFilter>) -> (r: Subscription)
        requires
            self.wf(),
        ensures
            r.wf(),
            forall|a: Seq<char>, b: Vec<SubscriptionFilter>|
                r.has(a, b) <==> ((self.has(a, b) && a != id@) || (a == id@ && b == filters)),
    {
        let ghost s = self.entries();
        let ghost key = id;
        let ghost fs = filters;
        let mut r = self;
        subscription_map_insert(&mut r.subs, id, filters);
        proof {
            lemma_insert_pairs(s, key, fs);
        }
        r
    }

    /// Removes subscription `id`, if it exists.
    pub fn remove(self, id: &String) -> (r: Subscription)
        requires
            self.wf(),
        ensures
            r.wf(),
            forall|a: Seq<char>, b: Vec<SubscriptionFilter>|
                r.has(a, b) <==> (self.has(a, b) && a != id@),
    {
        let ghost s = self.entries();
        let mut r = self;
        subscription_map_swap_remove(&mut r.subs, id);
        proof {
            lemma_remove_pairs(s, id@);
        }
        r
    }

    /// Adds a subscription under `id` when no subscription has that id;
    /// otherwise returns the store unchanged and `false`.
    pub fn add_with_id(self, id: String, filters: Vec<SubscriptionFilter>) -> (r: (
        Subscription,
        bool,
    ))
        requires
            self.wf(),
        ensures
            r.0.wf(),
            r.1 == !self.has_id(id@),
            r.1 ==> forall|a: Seq<char>, b: Vec<SubscriptionFilter>|
                r.0.has(a, b) <==> (self.has(a, b) || (a == id@ && b == filters)),
            !r.1 ==> r.0 == self,
    {
        if self.contains_id(&id) {
            (self, false)
        } else {
            let ghost old_self = self;
            let ghost key = id;
            let r = self.update(id, filters);
            assert forall|a: Seq<char>, b: Vec<SubscriptionFilter>|
                r.has(a, b) <==> (old_self.has(a, b) || (a == key@ && b == filters)) by {
                if old_self.has(a, b) {
                    assert(old_self.has_id(a));
                }
            }
            (r, true)
        }
    }

    /// Applies `msg` and returns the new store. An added subscription takes
    /// a freshly generated id; in the unlikely case that the id is taken
    /// already, nothing is added.
    pub fn reduce(self, msg: SubscriptionMessage) -> (r: Subscription)
        requires
            self.wf(),
        ensures
            r.wf(),
            msg matches SubscriptionMessage::Remove(id) ==> forall|
                a: Seq<char>,
                b: Vec<SubscriptionFilter>,
            | r.has(a, b) <==> (self.has(a, b) && a != id@),
            msg matches SubscriptionMessage::Update(id, fs) ==> forall|
                a: Seq<char>,
                b: Vec<SubscriptionFilter>,
            | r.has(a, b) <==> ((self.has(a, b) && a != id@) || (a == id@ && b == fs)),
            msg matches SubscriptionMessage::Add(fs) ==> r == self || exists|id: Seq<char>|
                !self.has_id(id) && forall|a: Seq<char>, b: Vec<SubscriptionFilter>|
                    r.has(a, b) <==> (self.has(a, b) || (a == id && b == fs)),
    {
        match msg {
            SubscriptionMessage::Remove(id) => self.remove(&id),
            SubscriptionMessage::Update(id, filters) => self.update(id, filters),
            SubscriptionMessage::Add(filters) => {
                let id = crate::nostr::generate_subscription_id();
                let ghost key = id@;
                let (r, added) = self.add_with_id(id, filters);
                proof {
                    if added {
                        assert(!self.has_id(key));
                    }
                }
                r
            },
        }
    }
}

/// One entry of the contact list that the client publishes.
pub struct ContactEntry {
    pub pk: String,
    pub relay_url: Option<String>,
    pub alias: Option<String>,
}

/// The published form of a stored contact.
pub open spec fn entry_of(c: UserContactInfo) -> ContactEntry {
    ContactEntry { pk: c.pubkey->Some_0, relay_url: c.relay, alias: c.nickname }
}

/// The stored contacts' public keys, in the store's order.
pub open spec fn contact_keys(contacts: &UserContact) -> Seq<String> {
    contacts.entries().map_values(|p: (String, UserContactInfo)| p.1.pubkey->Some_0)
}

/// The filters that ask for events from now on that mention `me`, and,
/// when there are contacts, for those that a contact wrote.
pub open spec fn contact_filters_of(me: String, contacts: &UserContact, now: u64) -> Seq<(
    Option<Seq<String>>,
    Option<Seq<String>>,
    Option<u64>,
)> {
    let mentions = (Some(seq![me]), None::<Seq<String>>, Some(now));
    if contacts.entries().len() == 0 {
        seq![mentions]
    } else {
        seq![mentions, (None::<Seq<String>>, Some(contact_keys(contacts)), Some(now))]
    }
}

/// The parts of a filter that `contact_filters_of` speaks of.
pub open spec fn filter_view(f: SubscriptionFilter) -> (
    Option<Seq<String>>,
    Option<Seq<String>>,
    Option<u64>,
) {
    (
        match f.pubkeys {
            Some(v) => Some(v@),
            None => None,
        },
        match f.authors {
            Some(v) => Some(v@),
            None => None,
        },
        f.since,
    )
}

/// The contacts' public keys, in order.
pub fn contact_pubkeys(contacts: &UserContact) -> (r: Vec<String>)
    requires
        contacts.wf(),
    ensures
        r@ == contact_keys(contacts),
{
    let n = contacts.len();
    let mut r: Vec<String> = Vec::new();
    let mut i: usize = 0;
    while i < n
        invariant
            n == contacts.entries().len(),
            contacts.wf(),
            i <= n,
            r@ == contact_keys(contacts).take(i as int),
        decreases n - i,
    {
        let c = contacts.get(i);
        assert(contacts.entries()[i as int].1.pubkey is Some);
        let pk = match &c.pubkey {
            Some(k) => k.clone(),
            None => String::new(),
        };
        r.push(pk);
        assert(r@ =~= contact_keys(contacts).take(i + 1));
        i = i + 1;
    }
    assert(r@ =~= contact_keys(contacts));
    r
}

/// The filters to subscribe with for the user `me` at time `now`.
pub fn contact_filters(me: &String, contacts: &UserContact, now: u64) -> (r: Vec<
    SubscriptionFilter,
>)
    requires
        contacts.wf(),
    ensures
        r@.map_values(|f: SubscriptionFilter| filter_view(f)) == contact_filters_of(
            *me,
            contacts,
            now,
        ),
{
    let mut r: Vec<SubscriptionFilter> = Vec::new();
    let mut mentions: Vec<String> = Vec::new();
    mentions.push(me.clone());
    r.push(SubscriptionFilter { pubkeys: Some(mentions), authors: None, since: Some(now) });
    if contacts.len() > 0 {
        let authors = contact_pubkeys(contacts);
        r.push(SubscriptionFilter { pubkeys: None, authors: Some(authors), since: Some(now) });
    }
    assert(r@.map_values(|f: SubscriptionFilter| filter_view(f)) =~= contact_filters_of(
        *me,
        contacts,
        now,
    ));
    r
}

/// The contact list to publish: one entry per stored contact, in order.
pub fn contact_list(contacts: &UserContact) -> (r: Vec<ContactEntry>)
    requires
        contacts.wf(),
    ensures
        r@ == contacts.entries().map_values(|p: (String, UserContactInfo)| entry_of(p.1)),
{
    let n = contacts.len();
    let mut r: Vec<ContactEntry> = Vec::new();
    let mut i: usize = 0;
    while i < n
        invariant
            n == contacts.entries().len(),
            contacts.wf(),
            i <= n,
            r@ == contacts.entries().map_values(|p: (String, UserContactInfo)| entry_of(p.1)).take(
                i as int,
            ),
        decreases n - i,
    {
        let c = contacts.get(i);
        assert(contacts.entries()[i as int].1.pubkey is Some);
        let pk = match &c.pubkey {
            Some(k) => k.clone(),
            None => String::new(),
        };
        let e = ContactEntry {
            pk,
            relay_url: crate::relay::copy_uri(&c.relay),
            alias: crate::relay::copy_uri(&c.nickname),
        };
        r.push(e);
        assert(r@ =~= contacts.entries().map_values(
            |p: (String, UserContactInfo)| entry_of(p.1),
        ).take(i + 1));
        i = i + 1;
    }
    assert(r@ =~= contacts.entries().map_values(|p: (String, UserContactInfo)| entry_of(p.1)));
    r
}

} // verus!
