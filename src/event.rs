//! The event store: received and sent events, one per id, newest first,
//! each with a flag that says whether a relay has shown it.
use vstd::prelude::*;
use indexmap::IndexMap;
use crate::ordered::{
    lemma_index_of_str,
    event_entries, event_map_at, event_map_index_of, event_map_insert, event_map_len,
    event_map_new, event_map_sort_newest_first, event_map_swap_remove, holds_value, keyed_by,
    lemma_insert_key, lemma_permuted_str, lemma_swap_remove_key, unique_str_keys,
};
use crate::relay::{bump_revision, next_revision};

verus! {

/// A signed event as the store keeps it: what the store and the router
/// read, and the event's full JSON form for those who render or resend it.
pub struct Event {
    pub id: String,
    pub pubkey: String,
    pub created_at: u64,
    pub kind: u64,
    pub content: String,
    pub json: String,
}

impl Event {
    pub fn duplicate(&self) -> (r: Event)
        ensures
            r == *self,
    {
        Event {
            id: self.id.clone(),
            pubkey: self.pubkey.clone(),
            created_at: self.created_at,
            kind: self.kind,
            content: self.content.clone(),
            json: self.json.clone(),
        }
    }
}

/// The content of an event's id, by which the store keys it.
pub open spec fn event_key() -> spec_fn(UserEventMsg) -> Seq<char> {
    |m: UserEventMsg| m.event.id@
}

/// An event with its visibility flag.
pub struct UserEventMsg {
    pub event: Event,
    pub visible: bool,
}

pub enum UserEventAction {
    /// An event the user sent: not yet shown by any relay.
    Add(Event),
    /// An event a relay delivered: shown.
    AddVisible(Event),
    Remove(String),
    Visible(String, bool),
    Update(UserEventMsg),
}

/// The events, keyed by id, newest first, with a revision that every change
/// moves on.
pub struct UserEvent {
    events: IndexMap<String, UserEventMsg>,
    count: u64,
}

impl UserEvent {
    pub closed spec fn entries(&self) -> Seq<(String, UserEventMsg)> {
        event_entries(self.events)
    }

    pub closed spec fn revision(&self) -> u64 {
        self.count
    }

    /// Whether the store holds `m`.
    pub open spec fn has(&self, m: UserEventMsg) -> bool {
        holds_value(self.entries(), m)
    }

    /// The stored events with their flags.
    pub open spec fn messages(&self) -> Set<UserEventMsg> {
        Set::new(|m: UserEventMsg| self.has(m))
    }

    /// Whether an event with id `id` is stored.
    pub open spec fn has_id(&self, id: Seq<char>) -> bool {
        exists|m: UserEventMsg| self.has(m) && m.event.id@ == id
    }

    /// Newest first: creation times never rise along the order.
    pub open spec fn newest_first(&self) -> bool {
        forall|i: int, j: int|
            0 <= i < j < self.entries().len() ==> self.entries()[i].1.event.created_at
                >= self.entries()[j].1.event.created_at
    }

    /// Every entry is keyed by its event's id, once.
    pub open spec fn wf_unordered(&self) -> bool {
        &&& unique_str_keys(self.entries())
        &&& keyed_by(self.entries(), event_key())
    }

    pub open spec fn wf(&self) -> bool {
        &&& self.wf_unordered()
        &&& self.newest_first()
    }

    /// The events after `action`; see `reduce`.
    pub open spec fn reduced_messages(&self, action: UserEventAction) -> Set<UserEventMsg> {
        match action {
            UserEventAction::Add(e) => self.messages().filter(
                |m: UserEventMsg| m.event.id@ != e.id@,
            ).insert(UserEventMsg { event: e, visible: false }),
            UserEventAction::AddVisible(e) => self.messages().filter(
                |m: UserEventMsg| m.event.id@ != e.id@,
            ).insert(UserEventMsg { event: e, visible: true }),
            UserEventAction::Update(n) => self.messages().filter(
                |m: UserEventMsg| m.event.id@ != n.event.id@,
            ).insert(n),
            UserEventAction::Remove(id) => self.messages().filter(
                |m: UserEventMsg| m.event.id@ != id@,
            ),
            UserEventAction::Visible(id, v) => Set::new(
                |m: UserEventMsg|
                    if m.event.id@ == id@ {
                        m.visible == v && (self.has(UserEventMsg { event: m.event, visible: true })
                            || self.has(UserEventMsg { event: m.event, visible: false }))
                    } else {
                        self.has(m)
                    },
            ),
        }
    }

    /// Whether `action` changes nothing, revision included: a flag set on
    /// an id that is not stored.
    pub open spec fn is_noop(&self, action: UserEventAction) -> bool {
        action matches UserEventAction::Visible(id, _) && !self.has_id(id@)
    }

    pub fn new() -> (r: UserEvent)
        ensures
            r.wf(),
            r.messages() == Set::<UserEventMsg>::empty(),
            r.revision() == 0,
    {
        let r = UserEvent { events: event_map_new(), count: 0 };
        assert(r.messages() =~= Set::<UserEventMsg>::empty());
        r
    }

    pub fn len(&self) -> (r: usize)
        ensures
            r == self.entries().len(),
    {
        event_map_len(&self.events)
    }

    /// The event at position `i`, newest first.
    pub fn get(&self, i: usize) -> (r: &UserEventMsg)
        requires
            i < self.entries().len(),
        ensures
            *r == self.entries()[i as int].1,
    {
        event_map_at(&self.events, i)
    }

    pub fn count(&self) -> (r: u64)
        ensures
            r == self.revision(),
    {
        self.count
    }

    fn sort(&mut self)
        requires
            old(self).wf_unordered(),
        ensures
            final(self).wf(),
            final(self).messages() == old(self).messages(),
            final(self).count == old(self).count,
    {
        let ghost before = self.entries();
        event_map_sort_newest_first(&mut self.events);
        proof {
            let after = self.entries();
            lemma_permuted_str(before, after, event_key());
            assert(self.messages() =~= old(self).messages());
        }
    }

    /// Stores `m` under its id, in place of any event with that id.
    fn upsert(&mut self, m: UserEventMsg)
        requires
            old(self).wf_unordered(),
        ensures
            final(self).wf_unordered(),
            final(self).messages() == old(self).messages().filter(
                |x: UserEventMsg| x.event.id@ != m.event.id@,
            ).insert(m),
            final(self).count == old(self).count,
    {
        let ghost before = self.entries();
        let ghost added = m;
        let key = m.event.id.clone();
        event_map_insert(&mut self.events, key, m);
        proof {
            lemma_insert_key(before, added.event.id, added, event_key());
            assert(self.entries() == crate::ordered::str_inserted(before, added.event.id, added));
            assert forall|x: UserEventMsg| self.has(x) <==> ((old(self).has(x) && x.event.id@
                != added.event.id@) || x == added) by {
                assert(event_key()(x) == x.event.id@);
                assert(holds_value(crate::ordered::str_inserted(before, added.event.id, added), x)
                    <==> ((holds_value(before, x) && event_key()(x) != added.event.id@) || x
                    == added));
            }
            assert(self.messages() =~= old(self).messages().filter(
                |x: UserEventMsg| x.event.id@ != m.event.id@,
            ).insert(m));
        }
    }

    fn remove_id(&mut self, id: &String)
        requires
            old(self).wf_unordered(),
        ensures
            final(self).wf_unordered(),
            final(self).messages() == old(self).messages().filter(
                |x: UserEventMsg| x.event.id@ != id@,
            ),
            final(self).count == old(self).count,
    {
        let ghost s = self.entries();
        event_map_swap_remove(&mut self.events, id);
        proof {
            lemma_swap_remove_key(s, id@, event_key());
            assert forall|x: UserEventMsg| self.has(x) <==> (old(self).has(x) && x.event.id@
                != id@) by {
                assert(event_key()(x) == x.event.id@);
            }
            assert(self.messages() =~= old(self).messages().filter(
                |x: UserEventMsg| x.event.id@ != id@,
            ));
        }
    }
}

impl UserEvent {
    /// Applies `action` and returns the new snapshot, newest first. Adding
    /// or updating an event replaces any event with the same id; setting
    /// the flag of an id that is not stored changes nothing. Every other
    /// action moves the revision on.
    pub fn reduce(self, action: UserEventAction) -> (r: UserEvent)
        requires
            self.wf(),
        ensures
            r.wf(),
            r.messages() == self.reduced_messages(action),
            self.is_noop(action) ==> r.revision() == self.revision(),
            !self.is_noop(action) ==> r.revision() == next_revision(self.revision()),
    {
        let ghost old_self = self;
        let mut s = self;
        match action {
            UserEventAction::Add(event) => {
                s.upsert(UserEventMsg { event, visible: false });
            },
            UserEventAction::AddVisible(event) => {
                s.upsert(UserEventMsg { event, visible: true });
            },
            UserEventAction::Update(m) => {
                s.upsert(m);
            },
            UserEventAction::Remove(id) => {
                s.remove_id(&id);
            },
            UserEventAction::Visible(id, v) => {
                match event_map_index_of(&s.events, &id) {
                    Some(i) => {
                        let ghost before = s.entries();
                        proof {
                            lemma_index_of_str(before, id@);
                        }
                        let stored = event_map_at(&s.events, i);
                        let ghost om = *stored;
                        let event = stored.event.duplicate();
                        let nm = UserEventMsg { event, visible: v };
                        s.upsert(nm);
                        proof {
                            assert(before[i as int].0@ == id@);
                            assert(before[i as int].0@ == event_key()(before[i as int].1));
                            assert(om.event.id@ == id@);
                            assert(nm.event == om.event);
                            assert(old_self.has(om));
                            assert forall|m: UserEventMsg|
                                s.has(m) == old_self.reduced_messages(
                                    UserEventAction::Visible(id, v),
                                ).contains(m) by {
                                assert(s.messages().contains(m) == s.has(m));
                                assert(old_self.messages().contains(m) == old_self.has(m));
                                if m.event.id@ == id@ {
                                    let t = UserEventMsg { event: m.event, visible: true };
                                    let f = UserEventMsg { event: m.event, visible: false };
                                    if old_self.has(t) {
                                        let a = choose|a: int|
                                            0 <= a < before.len() && before[a].1 == t;
                                        assert(before[a].0@ == event_key()(before[a].1));
                                        assert(a == i);
                                    }
                                    if old_self.has(f) {
                                        let a = choose|a: int|
                                            0 <= a < before.len() && before[a].1 == f;
                                        assert(before[a].0@ == event_key()(before[a].1));
                                        assert(a == i);
                                    }
                                    if m == nm {
                                        if v {
                                            assert(t == om || f == om);
                                            assert(old_self.has(om));
                                        } else {
                                            assert(old_self.has(om));
                                        }
                                    }
                                }
                            }
                            assert(s.messages() =~= old_self.reduced_messages(
                                UserEventAction::Visible(id, v),
                            ));
                        }
                    },
                    None => {
                        proof {
                            let before = s.entries();
                            lemma_index_of_str(before, id@);
                            assert forall|m: UserEventMsg| s.has(m) implies m.event.id@ != id@ by {
                                let a = choose|a: int| 0 <= a < before.len() && before[a].1 == m;
                                assert(before[a].0@ == event_key()(before[a].1));
                            }
                            assert(s.messages() =~= old_self.reduced_messages(
                                UserEventAction::Visible(id, v),
                            ));
                        }
                        return s;
                    },
                }
            },
        }
        s.sort();
        s.count = bump_revision(s.count);
        s
    }
}

impl UserEvent {
    /// A well-formed store holds at most one event per id.
    pub proof fn lemma_one_per_id(&self, a: UserEventMsg, b: UserEventMsg)
        requires
            self.wf(),
            self.messages().contains(a),
            self.messages().contains(b),
            a.event.id@ == b.event.id@,
        ensures
            a == b,
    {
        let s = self.entries();
        let i = choose|i: int| 0 <= i < s.len() && s[i].1 == a;
        let j = choose|j: int| 0 <= j < s.len() && s[j].1 == b;
        assert(s[i].0@ == event_key()(s[i].1));
        assert(s[j].0@ == event_key()(s[j].1));
    }

    /// Setting the flag of an id that is not stored leaves the events as
    /// they are.
    pub proof fn lemma_visible_unknown(&self, id: String, v: bool)
        requires
            self.wf(),
            !self.has_id(id@),
        ensures
            self.reduced_messages(UserEventAction::Visible(id, v)) == self.messages(),
            self.is_noop(UserEventAction::Visible(id, v)),
    {
        assert(self.reduced_messages(UserEventAction::Visible(id, v)) =~= self.messages());
    }
}

} // verus!
