//! The desired-relay store: the relays the user wants connected.
use vstd::prelude::*;
use indexmap::IndexMap;
use crate::ordered::{
    index_of_usize, lemma_index_of_usize, lemma_sorted_unique, lemma_swap_remove_contents,
    lemma_update_contents, relay_entries, relay_map_at, relay_map_insert, relay_map_len,
    relay_map_new, relay_map_sort_desc, relay_map_swap_remove, strictly_desc, unique_usize_keys,
};

verus! {

/// Most relays the store holds.
pub const MAX_RELAY_SIZE: usize = 50;

/// The revision after `count`: one more, starting over at zero past the
/// largest `u64`.
pub open spec fn next_revision(count: u64) -> u64 {
    if count == u64::MAX {
        0
    } else {
        (count + 1) as u64
    }
}

pub fn bump_revision(count: u64) -> (r: u64)
    ensures
        r == next_revision(count),
{
    if count == u64::MAX {
        0
    } else {
        count + 1
    }
}

/// Hands out relay ids, each once, in increasing order.
pub struct RelayIds {
    next: usize,
}

impl RelayIds {
    pub closed spec fn next_id(&self) -> usize {
        self.next
    }

    pub fn new() -> (r: RelayIds)
        ensures
            r.next_id() == 0,
    {
        RelayIds { next: 0 }
    }

    /// Whether another id can still be handed out.
    pub fn has_next(&self) -> (r: bool)
        ensures
            r == (self.next_id() < usize::MAX),
    {
        self.next < usize::MAX
    }

    /// Hands out the next id.
    pub fn generate_id(&mut self) -> (r: usize)
        requires
            old(self).next_id() < usize::MAX,
        ensures
            r == old(self).next_id(),
            final(self).next_id() == old(self).next_id() + 1,
    {
        let id = self.next;
        self.next = self.next + 1;
        id
    }
}

/// A relay the user wants connected. A draft has no URI yet and is never
/// dialled.
pub struct RelayInfo {
    pub id: usize,
    pub uri: Option<String>,
}

pub fn copy_uri(u: &Option<String>) -> (r: Option<String>)
    ensures
        r == *u,
{
    match u {
        Some(s) => Some(s.clone()),
        None => None,
    }
}

impl RelayInfo {
    /// A relay with a fresh id.
    pub fn new2(ids: &mut RelayIds, uri: Option<String>) -> (r: RelayInfo)
        requires
            old(ids).next_id() < usize::MAX,
        ensures
            r == (RelayInfo { id: old(ids).next_id(), uri }),
            final(ids).next_id() == old(ids).next_id() + 1,
    {
        RelayInfo { id: ids.generate_id(), uri }
    }

    /// A draft relay with a fresh id and no URI.
    pub fn empty(ids: &mut RelayIds) -> (r: RelayInfo)
        requires
            old(ids).next_id() < usize::MAX,
        ensures
            r == (RelayInfo { id: old(ids).next_id(), uri: None }),
            final(ids).next_id() == old(ids).next_id() + 1,
    {
        RelayInfo { id: ids.generate_id(), uri: None }
    }

    pub fn duplicate(&self) -> (r: RelayInfo)
        ensures
            r == *self,
    {
        RelayInfo { id: self.id, uri: copy_uri(&self.uri) }
    }
}

/// A change to the desired relays.
pub enum RelayAction {
    Remove(usize),
    RemoveBatch(Vec<usize>),
    Add(String),
    Update(usize, String),
}

/// The desired relays, keyed by id and kept ordered by id from the largest
/// down, with a revision that every change moves on.
pub struct Relay {
    count: u64,
    ids: RelayIds,
    list: IndexMap<usize, RelayInfo>,
}

impl Relay {
    pub closed spec fn entries(&self) -> Seq<(usize, RelayInfo)> {
        relay_entries(self.list)
    }

    /// Whether the store holds `r`.
    pub open spec fn has(&self, r: RelayInfo) -> bool {
        self.entries().contains((r.id, r))
    }

    /// The relays in the store.
    pub open spec fn relays(&self) -> Set<RelayInfo> {
        Set::new(|r: RelayInfo| self.has(r))
    }

    /// The ids in the store.
    pub open spec fn ids(&self) -> Set<usize> {
        Set::new(|k: usize| exists|i: int| 0 <= i < self.entries().len() && self.entries()[i].0 == k)
    }

    pub closed spec fn revision(&self) -> u64 {
        self.count
    }

    pub closed spec fn next_id(&self) -> usize {
        self.ids.next_id()
    }

    /// Entries are keyed by their own id, every id was handed out by the
    /// store's allocator, and the cap holds.
    pub open spec fn wf_unordered(&self) -> bool {
        &&& unique_usize_keys(self.entries())
        &&& forall|i: int|
            0 <= i < self.entries().len() ==> #[trigger] self.entries()[i].0
                == self.entries()[i].1.id && self.entries()[i].0 < self.next_id()
        &&& self.entries().len() <= MAX_RELAY_SIZE
    }

    pub open spec fn wf(&self) -> bool {
        &&& self.wf_unordered()
        &&& strictly_desc(self.entries())
    }

    /// An empty store.
    pub fn new() -> (r: Relay)
        ensures
            r.wf(),
            r.relays() == Set::<RelayInfo>::empty(),
            r.entries().len() == 0,
            r.revision() == 0,
            r.next_id() == 0,
    {
        let r = Relay { count: 0, ids: RelayIds::new(), list: relay_map_new() };
        assert(r.relays() =~= Set::<RelayInfo>::empty());
        r
    }

    pub fn len(&self) -> (r: usize)
        ensures
            r == self.entries().len(),
    {
        relay_map_len(&self.list)
    }

    /// The relay at position `i` of the display order.
    pub fn get(&self, i: usize) -> (r: &RelayInfo)
        requires
            i < self.entries().len(),
        ensures
            *r == self.entries()[i as int].1,
    {
        relay_map_at(&self.list, i)
    }

    pub fn count(&self) -> (r: u64)
        ensures
            r == self.revision(),
    {
        self.count
    }

    /// Whether the store holds a relay with id `k`.
    pub fn contains_id(&self, k: usize) -> (r: bool)
        requires
            self.wf(),
        ensures
            r == self.ids().contains(k),
    {
        let n = relay_map_len(&self.list);
        let mut i: usize = 0;
        while i < n
            invariant
                self.wf(),
                n == self.entries().len(),
                i <= n,
                forall|j: int| 0 <= j < i ==> self.entries()[j].0 != k,
            decreases n - i,
        {
            if relay_map_at(&self.list, i).id == k {
                assert(self.entries()[i as int].0 == self.entries()[i as int].1.id);
                return true;
            }
            assert(self.entries()[i as int].0 == self.entries()[i as int].1.id);
            i = i + 1;
        }
        false
    }

    /// A draft relay, with an id that the store will never hand out again.
    /// `None` once the ids are used up.
    pub fn draft(&mut self) -> (r: Option<RelayInfo>)
        requires
            old(self).wf(),
        ensures
            final(self).wf(),
            final(self).relays() == old(self).relays(),
            final(self).revision() == old(self).revision(),
            old(self).next_id() < usize::MAX ==> r == Some(
                RelayInfo { id: old(self).next_id(), uri: None },
            ),
            old(self).next_id() == usize::MAX ==> r is None,
    {
        if self.ids.has_next() {
            Some(RelayInfo::empty(&mut self.ids))
        } else {
            None
        }
    }

    fn sort(&mut self)
        requires
            old(self).wf_unordered(),
        ensures
            final(self).wf(),
            final(self).relays() == old(self).relays(),
            final(self).ids() == old(self).ids(),
            final(self).count == old(self).count,
            final(self).ids == old(self).ids,
            final(self).entries().len() == old(self).entries().len(),
    {
        let ghost before = self.entries();
        relay_map_sort_desc(&mut self.list);
        proof {
            let after = self.entries();
            lemma_sorted_unique(before, after);
            assert forall|i: int| 0 <= i < after.len() implies #[trigger] after[i].0
                == after[i].1.id && after[i].0 < self.next_id() by {
                assert(after.contains(after[i]));
                let j = choose|j: int| 0 <= j < before.len() && before[j] == after[i];
            }
            assert(self.relays() =~= old(self).relays());
            assert forall|k: usize| self.ids().contains(k) <==> old(self).ids().contains(k) by {
                if self.ids().contains(k) {
                    let i = choose|i: int| 0 <= i < after.len() && after[i].0 == k;
                    assert(after.contains(after[i]));
                }
                if old(self).ids().contains(k) {
                    let i = choose|i: int| 0 <= i < before.len() && before[i].0 == k;
                    assert(before.contains(before[i]));
                }
            }
            assert(self.ids() =~= old(self).ids());
        }
    }

    fn remove_key(&mut self, k: usize)
        requires
            old(self).wf_unordered(),
        ensures
            final(self).wf_unordered(),
            final(self).relays() == old(self).relays().filter(|r: RelayInfo| r.id != k),
            final(self).ids() == old(self).ids().remove(k),
            final(self).count == old(self).count,
            final(self).ids == old(self).ids,
    {
        let ghost s = self.entries();
        relay_map_swap_remove(&mut self.list, k);
        proof {
            lemma_index_of_usize(s, k);
            let t = self.entries();
            match index_of_usize(s, k) {
                Some(i) => {
                    lemma_swap_remove_contents(s, i);
                    assert forall|a: int| 0 <= a < t.len() implies #[trigger] t[a].0 == t[a].1.id
                        && t[a].0 < self.next_id() by {
                        assert(t.contains(t[a]));
                        let b = choose|b: int| 0 <= b < s.len() && s[b] == t[a];
                    }
                    assert forall|x: usize| self.ids().contains(x) <==> old(self).ids().remove(
                        k,
                    ).contains(x) by {
                        if self.ids().contains(x) {
                            let a = choose|a: int| 0 <= a < t.len() && t[a].0 == x;
                            assert(t.contains(t[a]));
                        }
                        if old(self).ids().remove(k).contains(x) {
                            let a = choose|a: int| 0 <= a < s.len() && s[a].0 == x;
                            assert(s.contains(s[a]));
                            assert(t.contains(s[a]));
                        }
                    }
                },
                None => {
                    assert forall|x: RelayInfo| self.has(x) implies x.id != k by {
                        let a = choose|a: int| 0 <= a < t.len() && t[a] == (x.id, x);
                    }
                },
            }
            assert(self.relays() =~= old(self).relays().filter(|r: RelayInfo| r.id != k));
            assert(self.ids() =~= old(self).ids().remove(k));
        }
    }
}


impl Relay {
    /// The store after `action`; see `reduce`.
    pub open spec fn reduced_relays(&self, action: RelayAction) -> Set<RelayInfo> {
        match action {
            RelayAction::Add(uri) => if self.entries().len() == MAX_RELAY_SIZE || self.next_id()
                == usize::MAX {
                self.relays()
            } else {
                self.relays().insert(RelayInfo { id: self.next_id(), uri: Some(uri) })
            },
            RelayAction::Remove(k) => self.relays().filter(|r: RelayInfo| r.id != k),
            RelayAction::RemoveBatch(ks) => self.relays().filter(|r: RelayInfo| !ks@.contains(r.id)),
            RelayAction::Update(k, uri) => if self.ids().contains(k) {
                self.relays().filter(|r: RelayInfo| r.id != k).insert(
                    RelayInfo { id: k, uri: Some(uri) },
                )
            } else {
                self.relays()
            },
        }
    }

    /// Whether `action` leaves the store exactly as it was: an add at the
    /// cap, or once the ids are used up.
    pub open spec fn is_refused(&self, action: RelayAction) -> bool {
        action is Add && (self.entries().len() == MAX_RELAY_SIZE || self.next_id() == usize::MAX)
    }

    /// Applies `action` and returns the new snapshot. An add takes the next
    /// id; removing or updating an id that is not there changes no relay.
    /// Every action but a refused add moves the revision on.
    pub fn reduce(self, action: RelayAction) -> (r: Relay)
        requires
            self.wf(),
        ensures
            r.wf(),
            r.relays() == self.reduced_relays(action),
            self.is_refused(action) ==> r.revision() == self.revision() && r.next_id()
                == self.next_id(),
            !self.is_refused(action) ==> r.revision() == next_revision(self.revision()),
            !self.is_refused(action) && action is Add ==> r.next_id() == self.next_id() + 1
                && r.entries().len() == self.entries().len() + 1,
            !(action is Add) ==> r.next_id() == self.next_id(),
    {
        let ghost old_self = self;
        let mut s = self;
        match action {
            RelayAction::Add(uri) => {
                if relay_map_len(&s.list) == MAX_RELAY_SIZE || !s.ids.has_next() {
                    return s;
                }
                let ghost before = s.entries();
                let info = RelayInfo::new2(&mut s.ids, Some(uri));
                let id = info.id;
                let ghost added = info;
                relay_map_insert(&mut s.list, id, info);
                proof {
                    lemma_index_of_usize(before, id);
                    let t = s.entries();
                    assert(t == before.push((id, added)));
                    assert forall|x: (usize, RelayInfo)| t.contains(x) <==> (before.contains(x)
                        || x == (id, added)) by {
                        if t.contains(x) {
                            let a = choose|a: int| 0 <= a < t.len() && t[a] == x;
                            if a < before.len() {
                                assert(before[a] == x);
                            }
                        }
                        if before.contains(x) {
                            let a = choose|a: int| 0 <= a < before.len() && before[a] == x;
                            assert(t[a] == x);
                        }
                        if x == (id, added) {
                            assert(t[before.len() as int] == x);
                        }
                    }
                    assert forall|i: int| 0 <= i < t.len() implies #[trigger] t[i].0 == t[i].1.id
                        && t[i].0 < s.next_id() by {
                        if i < before.len() {
                            assert(before[i] == t[i]);
                        }
                    }
                    assert(s.relays() =~= old_self.relays().insert(added));
                }
                s.sort();
            },
            RelayAction::Remove(k) => {
                s.remove_key(k);
                s.sort();
            },
            RelayAction::RemoveBatch(ks) => {
                let mut j: usize = 0;
                while j < ks.len()
                    invariant
                        s.wf_unordered(),
                        j <= ks@.len(),
                        s.relays() == old_self.relays().filter(
                            |r: RelayInfo| !ks@.subrange(0, j as int).contains(r.id),
                        ),
                        s.count == old_self.count,
                        s.ids == old_self.ids,
                    decreases ks@.len() - j,
                {
                    let ghost mid = s.relays();
                    s.remove_key(ks[j]);
                    proof {
                        assert forall|r: RelayInfo|
                            !ks@.subrange(0, j + 1).contains(r.id) <==> (!ks@.subrange(
                                0,
                                j as int,
                            ).contains(r.id) && r.id != ks@[j as int]) by {
                            if ks@.subrange(0, j + 1).contains(r.id) {
                                let a = choose|a: int|
                                    0 <= a < j + 1 && #[trigger] ks@.subrange(0, j + 1)[a] == r.id;
                                if a < j {
                                    assert(ks@.subrange(0, j as int)[a] == r.id);
                                }
                            }
                            if ks@.subrange(0, j as int).contains(r.id) {
                                let a = choose|a: int|
                                    0 <= a < j && #[trigger] ks@.subrange(0, j as int)[a] == r.id;
                                assert(ks@.subrange(0, j + 1)[a] == r.id);
                            }
                            if r.id == ks@[j as int] {
                                assert(ks@.subrange(0, j + 1)[j as int] == r.id);
                            }
                        }
                        assert(s.relays() =~= old_self.relays().filter(
                            |r: RelayInfo| !ks@.subrange(0, j + 1).contains(r.id),
                        ));
                    }
                    j = j + 1;
                }
                assert(ks@.subrange(0, ks@.len() as int) =~= ks@);
                s.sort();
            },
            RelayAction::Update(k, uri) => {
                let present = s.contains_id(k);
                if present {
                    let ghost before = s.entries();
                    let info = RelayInfo { id: k, uri: Some(uri) };
                    let ghost updated = info;
                    relay_map_insert(&mut s.list, k, info);
                    proof {
                        lemma_index_of_usize(before, k);
                        assert(index_of_usize(before, k) is Some) by {
                            let a = choose|a: int| 0 <= a < before.len() && before[a].0 == k;
                        }
                        let i = index_of_usize(before, k)->Some_0;
                        assert(0 <= i < before.len() && before[i].0 == k);
                        lemma_update_contents(before, i, updated);
                        let t = s.entries();
                        assert(t == before.update(i, (before[i].0, updated)));
                        assert forall|x: RelayInfo| s.has(x) <==> ((old_self.has(x) && x.id != k)
                            || x == updated) by {
                            let p = (x.id, x);
                            assert(before.update(i, (before[i].0, updated)).contains(p) <==> ((
                            before.contains(p) && p.0 != before[i].0) || p == (before[i].0, updated)));
                        }
                        assert forall|a: int| 0 <= a < t.len() implies #[trigger] t[a].0
                            == t[a].1.id && t[a].0 < s.next_id() by {
                            if a != i {
                                assert(before[a] == t[a]);
                            }
                        }
                        assert(s.relays() =~= old_self.relays().filter(|r: RelayInfo| r.id != k).insert(
                            updated,
                        ));
                    }
                }
                s.sort();
            },
        }
        s.count = bump_revision(s.count);
        s
    }
}

impl Relay {
    /// The relays in display order.
    pub open spec fn relay_seq(&self) -> Seq<RelayInfo> {
        self.entries().map_values(|p: (usize, RelayInfo)| p.1)
    }

    /// In a well-formed store the ids are those of the relays, one relay
    /// per id, and the display order holds every relay once.
    pub proof fn lemma_ids_of_relays(&self)
        requires
            self.wf(),
        ensures
            forall|k: usize|
                self.ids().contains(k) <==> exists|r: RelayInfo| #[trigger]
                    self.relays().contains(r) && r.id == k,
            forall|a: RelayInfo, b: RelayInfo|
                self.relays().contains(a) && self.relays().contains(b) && a.id == b.id ==> a == b,
            forall|r: RelayInfo| self.relays().contains(r) <==> self.relay_seq().contains(r),
    {
        let s = self.entries();
        assert forall|k: usize|
            self.ids().contains(k) <==> exists|r: RelayInfo| #[trigger]
                self.relays().contains(r) && r.id == k by {
            if self.ids().contains(k) {
                let i = choose|i: int| 0 <= i < s.len() && s[i].0 == k;
                assert(s[i].0 == s[i].1.id);
                assert(s.contains((s[i].1.id, s[i].1)));
                assert(self.relays().contains(s[i].1));
            }
            if exists|r: RelayInfo| #[trigger] self.relays().contains(r) && r.id == k {
                let r = choose|r: RelayInfo| #[trigger] self.relays().contains(r) && r.id == k;
                let i = choose|i: int| 0 <= i < s.len() && s[i] == (r.id, r);
                assert(s[i].0 == k);
            }
        }
        assert forall|a: RelayInfo, b: RelayInfo|
            self.relays().contains(a) && self.relays().contains(b) && a.id == b.id implies a
                == b by {
            let i = choose|i: int| 0 <= i < s.len() && s[i] == (a.id, a);
            let j = choose|j: int| 0 <= j < s.len() && s[j] == (b.id, b);
            if i < j {
                assert(s[i].0 > s[j].0);
            } else if j < i {
                assert(s[j].0 > s[i].0);
            }
        }
        assert forall|r: RelayInfo| self.relays().contains(r) <==> self.relay_seq().contains(r) by {
            if self.relays().contains(r) {
                let i = choose|i: int| 0 <= i < s.len() && s[i] == (r.id, r);
                assert(self.relay_seq()[i] == r);
            }
            if self.relay_seq().contains(r) {
                let i = choose|i: int| 0 <= i < self.relay_seq().len() && self.relay_seq()[i] == r;
                assert(s[i].0 == s[i].1.id);
                assert(s[i] == (r.id, r));
            }
        }
    }
}

/// The URI of default relay `i`.
pub open spec fn default_relay_uri(i: usize) -> Seq<char> {
    if i == 0 {
        "wss://relay.damus.io"@
    } else if i == 1 {
        "wss://nostr.oxtr.dev"@
    } else if i == 2 {
        "wss://nostr.bitcoiner.social"@
    } else {
        "wss://nostr.openchain.fr"@
    }
}

impl Relay {
    /// An add on a full store is refused: the relays stay as they were,
    /// and so the store never holds more than the cap.
    pub proof fn lemma_add_at_cap(&self, uri: String)
        requires
            self.wf(),
            self.entries().len() == MAX_RELAY_SIZE,
        ensures
            self.is_refused(RelayAction::Add(uri)),
            self.reduced_relays(RelayAction::Add(uri)) == self.relays(),
            self.entries().len() <= MAX_RELAY_SIZE,
    {
    }

    fn add_default(self, uri: &str) -> (r: Relay)
        requires
            self.wf(),
            self.entries().len() < MAX_RELAY_SIZE,
            self.next_id() < usize::MAX,
        ensures
            r.wf(),
            exists|u: String|
                u@ == uri@ && r.relays() == self.relays().insert(
                    RelayInfo { id: self.next_id(), uri: Some(u) },
                ),
            r.next_id() == self.next_id() + 1,
            r.entries().len() == self.entries().len() + 1,
    {
        let u = uri.to_owned();
        let ghost g = u;
        let r = self.reduce(RelayAction::Add(u));
        assert(g@ == uri@);
        r
    }
}

impl Default for Relay {
    /// The four relays a new installation starts with, with ids 0 to 3,
    /// at revision 0.
    fn default() -> (r: Relay)
        ensures
            r.wf(),
            r.revision() == 0,
            r.next_id() == 4,
            forall|x: RelayInfo|
                r.relays().contains(x) ==> x.id < 4 && x.uri is Some && x.uri->Some_0@
                    == default_relay_uri(x.id),
            forall|i: usize| i < 4 ==> #[trigger] r.ids().contains(i),
    {
        let r0 = Relay::new();
        let r1 = r0.add_default("wss://relay.damus.io");
        let r2 = r1.add_default("wss://nostr.oxtr.dev");
        let r3 = r2.add_default("wss://nostr.bitcoiner.social");
        let r4 = r3.add_default("wss://nostr.openchain.fr");
        let mut r = r4;
        r.count = 0;
        proof {
            assert(r.relays() == r4.relays()) by {
                assert(r.relays() =~= r4.relays());
            }
            r.lemma_ids_of_relays();
            assert forall|i: usize| i < 4 implies #[trigger] r.ids().contains(i) by {
                let u0 = choose|u: String| u@ == "wss://relay.damus.io"@ && r1.relays() == r0.relays().insert(RelayInfo { id: 0, uri: Some(u) });
                let u1 = choose|u: String| u@ == "wss://nostr.oxtr.dev"@ && r2.relays() == r1.relays().insert(RelayInfo { id: 1, uri: Some(u) });
                let u2 = choose|u: String| u@ == "wss://nostr.bitcoiner.social"@ && r3.relays() == r2.relays().insert(RelayInfo { id: 2, uri: Some(u) });
                if i == 0 {
                    assert(r.relays().contains(RelayInfo { id: 0, uri: Some(u0) }));
                } else if i == 1 {
                    assert(r.relays().contains(RelayInfo { id: 1, uri: Some(u1) }));
                } else if i == 2 {
                    assert(r.relays().contains(RelayInfo { id: 2, uri: Some(u2) }));
                } else {
                    let u3 = choose|u: String| u@ == "wss://nostr.openchain.fr"@ && r4.relays() == r3.relays().insert(RelayInfo { id: 3, uri: Some(u) });
                    assert(r.relays().contains(RelayInfo { id: 3, uri: Some(u3) }));
                }
            }
        }
        r
    }
}

} // verus!
