//! The contact store: the user's contacts, keyed by public key, and the
//! contacts most recently opened, newest first.
use vstd::prelude::*;
use indexmap::IndexMap;
use crate::ordered::{
    contact_entries, contact_map_at, contact_map_insert, contact_map_len, contact_map_new,
    contact_map_swap_remove, holds_value, keyed_by, lemma_insert_key, lemma_swap_remove_key,
    str_inserted, str_swap_removed, unique_str_keys,
};
use crate::relay::{bump_revision, next_revision};

verus! {

/// Most keys the recency list holds.
pub const MAX_RECENTS: usize = 10;

/// A contact. A record without a public key is a draft of the user
/// interface and is never stored.
pub struct UserContactInfo {
    pub pubkey: Option<String>,
    pub avatar_url: Option<String>,
    pub relay: Option<String>,
    pub nickname: Option<String>,
}

impl UserContactInfo {
    pub fn empty() -> (r: UserContactInfo)
        ensures
            r.pubkey is None && r.avatar_url is None && r.relay is None && r.nickname is None,
    {
        UserContactInfo { pubkey: None, avatar_url: None, relay: None, nickname: None }
    }
}

/// The content of a contact's public key, by which the store keys it.
pub open spec fn contact_key() -> spec_fn(UserContactInfo) -> Seq<char> {
    |c: UserContactInfo| c.pubkey->Some_0@
}

pub enum UserContactAction {
    Remove(String),
    RemoveBatch(Vec<String>),
    Recent(String),
    Add(UserContactInfo),
    Update(UserContactInfo),
}

/// The recency list after opening `pk`: `pk` first, the oldest key dropped
/// when the list was full.
pub open spec fn pushed_recent(recent: Seq<String>, pk: String) -> Seq<String> {
    if recent.len() >= MAX_RECENTS {
        seq![pk] + recent.take(MAX_RECENTS - 1)
    } else {
        seq![pk] + recent
    }
}

pub struct UserContact {
    data: IndexMap<String, UserContactInfo>,
    recent: Vec<String>,
    count: u64,
}

impl UserContact {
    pub closed spec fn entries(&self) -> Seq<(String, UserContactInfo)> {
        contact_entries(self.data)
    }

    pub closed spec fn recents(&self) -> Seq<String> {
        self.recent@
    }

    pub closed spec fn revision(&self) -> u64 {
        self.count
    }

    pub open spec fn has(&self, c: UserContactInfo) -> bool {
        holds_value(self.entries(), c)
    }

    /// The stored contacts.
    pub open spec fn contacts(&self) -> Set<UserContactInfo> {
        Set::new(|c: UserContactInfo| self.has(c))
    }

    /// Each contact is keyed by its public key, once, and the recency list
    /// is within its bound.
    pub open spec fn wf(&self) -> bool {
        &&& unique_str_keys(self.entries())
        &&& keyed_by(self.entries(), contact_key())
        &&& forall|i: int| 0 <= i < self.entries().len() ==> (#[trigger] self.entries()[i]).1.pubkey is Some
        &&& self.recents().len() <= MAX_RECENTS
    }

    /// The contacts after `action`; see `reduce`.
    pub open spec fn reduced_contacts(&self, action: UserContactAction) -> Set<UserContactInfo> {
        match action {
            UserContactAction::Remove(k) => self.contacts().filter(
                |c: UserContactInfo| c.pubkey->Some_0@ != k@,
            ),
            UserContactAction::RemoveBatch(ks) => self.contacts().filter(
                |c: UserContactInfo|
                    forall|j: int| 0 <= j < ks@.len() ==> c.pubkey->Some_0@ != (#[trigger] ks@[j])@,
            ),
            UserContactAction::Recent(_) => self.contacts(),
            UserContactAction::Add(info) => self.contacts().filter(
                |c: UserContactInfo| c.pubkey->Some_0@ != info.pubkey->Some_0@,
            ).insert(info),
            UserContactAction::Update(info) => self.contacts().filter(
                |c: UserContactInfo| c.pubkey->Some_0@ != info.pubkey->Some_0@,
            ).insert(info),
        }
    }

    /// The recency list after `action`; see `reduce`.
    pub open spec fn reduced_recents(&self, action: UserContactAction) -> Seq<String> {
        match action {
            UserContactAction::Recent(pk) => pushed_recent(self.recents(), pk),
            _ => self.recents(),
        }
    }

    /// An empty store.
    pub fn new() -> (r: UserContact)
        ensures
            r.wf(),
            r.contacts() == Set::<UserContactInfo>::empty(),
            r.recents() == Seq::<String>::empty(),
            r.revision() == 0,
    {
        let r = UserContact { data: contact_map_new(), recent: Vec::new(), count: 0 };
        assert(r.contacts() =~= Set::<UserContactInfo>::empty());
        r
    }

    pub fn len(&self) -> (r: usize)
        ensures
            r == self.entries().len(),
    {
        contact_map_len(&self.data)
    }

    /// The contact at position `i`.
    pub fn get(&self, i: usize) -> (r: &UserContactInfo)
        requires
            i < self.entries().len(),
        ensures
            *r == self.entries()[i as int].1,
    {
        contact_map_at(&self.data, i)
    }

    /// The recently opened keys, newest first.
    pub fn recent(&self) -> (r: &Vec<String>)
        ensures
            r@ == self.recents(),
    {
        &self.recent
    }

    pub fn count(&self) -> (r: u64)
        ensures
            r == self.revision(),
    {
        self.count
    }

    fn remove_key(&mut self, k: &String)
        requires
            old(self).wf(),
        ensures
            final(self).wf(),
            final(self).contacts() == old(self).contacts().filter(
                |c: UserContactInfo| c.pubkey->Some_0@ != k@,
            ),
            final(self).recent == old(self).recent,
            final(self).count == old(self).count,
    {
        let ghost s = self.entries();
        contact_map_swap_remove(&mut self.data, k);
        proof {
            lemma_swap_remove_key(s, k@, contact_key());
            let t = str_swap_removed(s, k@);
            assert forall|i: int| 0 <= i < t.len() implies (#[trigger] t[i]).1.pubkey is Some by {
                assert(holds_value(t, t[i].1));
                let a = choose|a: int| 0 <= a < s.len() && s[a].1 == t[i].1;
                assert(s[a].1.pubkey is Some);
            }
            assert forall|c: UserContactInfo| self.has(c) <==> (old(self).has(c)
                && c.pubkey->Some_0@ != k@) by {
                assert(contact_key()(c) == c.pubkey->Some_0@);
                assert(holds_value(t, c) <==> (holds_value(s, c) && contact_key()(c) != k@));
            }
            assert(self.contacts() =~= old(self).contacts().filter(
                |c: UserContactInfo| c.pubkey->Some_0@ != k@,
            ));
        }
    }

    fn upsert(&mut self, info: UserContactInfo)
        requires
            old(self).wf(),
            info.pubkey is Some,
        ensures
            final(self).wf(),
            final(self).contacts() == old(self).contacts().filter(
                |c: UserContactInfo| c.pubkey->Some_0@ != info.pubkey->Some_0@,
            ).insert(info),
            final(self).recent == old(self).recent,
            final(self).count == old(self).count,
    {
        let ghost s = self.entries();
        let ghost added = info;
        let key = match &info.pubkey {
            Some(k) => k.clone(),
            None => String::new(),
        };
        contact_map_insert(&mut self.data, key, info);
        proof {
            lemma_insert_key(s, key, added, contact_key());
            let t = str_inserted(s, key, added);
            assert forall|i: int| 0 <= i < t.len() implies (#[trigger] t[i]).1.pubkey is Some by {
                assert(holds_value(t, t[i].1));
                if t[i].1 != added {
                    let a = choose|a: int| 0 <= a < s.len() && s[a].1 == t[i].1;
                    assert(s[a].1.pubkey is Some);
                }
            }
            assert forall|c: UserContactInfo| self.has(c) <==> ((old(self).has(c)
                && c.pubkey->Some_0@ != key@) || c == added) by {
                assert(contact_key()(c) == c.pubkey->Some_0@);
                assert(holds_value(t, c) <==> ((holds_value(s, c) && contact_key()(c) != key@) || c
                    == added));
            }
            assert(self.contacts() =~= old(self).contacts().filter(
                |c: UserContactInfo| c.pubkey->Some_0@ != info.pubkey->Some_0@,
            ).insert(info));
        }
    }

    fn touch_recent(&mut self, pk: String)
        requires
            old(self).wf(),
        ensures
            final(self).wf(),
            final(self).recents() == pushed_recent(old(self).recents(), pk),
            final(self).data == old(self).data,
            final(self).count == old(self).count,
    {
        if self.recent.len() == MAX_RECENTS {
            self.recent.pop();
        }
        self.recent.insert(0, pk);
        assert(self.recent@ =~= pushed_recent(old(self).recents(), pk));
    }

    /// Applies `action` and returns the new snapshot. Adding or updating a
    /// contact replaces any contact with its key; removing a key that is
    /// not there changes no contact. Opening a contact puts its key first
    /// in the recency list and drops the oldest key of a full list. Every
    /// action moves the revision on.
    pub fn reduce(self, action: UserContactAction) -> (r: UserContact)
        requires
            self.wf(),
            action matches UserContactAction::Add(info) ==> info.pubkey is Some,
            action matches UserContactAction::Update(info) ==> info.pubkey is Some,
        ensures
            r.wf(),
            r.contacts() == self.reduced_contacts(action),
            r.recents() == self.reduced_recents(action),
            r.revision() == next_revision(self.revision()),
    {
        let ghost old_self = self;
        let mut s = self;
        match action {
            UserContactAction::Remove(k) => {
                s.remove_key(&k);
            },
            UserContactAction::RemoveBatch(ks) => {
                let mut j: usize = 0;
                while j < ks.len()
                    invariant
                        s.wf(),
                        j <= ks@.len(),
                        s.contacts() == old_self.contacts().filter(
                            |c: UserContactInfo|
                                forall|a: int| 0 <= a < j ==> c.pubkey->Some_0@ != (#[trigger] ks@[a])@,
                        ),
                        s.recent == old_self.recent,
                        s.count == old_self.count,
                    decreases ks@.len() - j,
                {
                    s.remove_key(&ks[j]);
                    proof {
                        assert(s.contacts() =~= old_self.contacts().filter(
                            |c: UserContactInfo|
                                forall|a: int| 0 <= a < j + 1 ==> c.pubkey->Some_0@ != (#[trigger] ks@[a])@,
                        ));
                    }
                    j = j + 1;
                }
            },
            UserContactAction::Recent(pk) => {
                s.touch_recent(pk);
            },
            UserContactAction::Add(info) => {
                s.upsert(info);
            },
            UserContactAction::Update(info) => {
                s.upsert(info);
            },
        }
        s.count = bump_revision(s.count);
        s
    }
}

/// Opening a contact never grows the recency list past its bound; on a
/// full list it drops exactly the oldest key.
pub proof fn lemma_recent_bounded(recent: Seq<String>, pk: String)
    requires
        recent.len() <= MAX_RECENTS,
    ensures
        pushed_recent(recent, pk).len() <= MAX_RECENTS,
        pushed_recent(recent, pk)[0] == pk,
        recent.len() == MAX_RECENTS ==> pushed_recent(recent, pk) == seq![pk] + recent.drop_last(),
        recent.len() < MAX_RECENTS ==> pushed_recent(recent, pk) == seq![pk] + recent,
{
    if recent.len() == MAX_RECENTS {
        assert(recent.take(MAX_RECENTS - 1) =~= recent.drop_last());
    }
}

} // verus!
