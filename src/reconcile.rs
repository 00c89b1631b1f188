//! The reconciler: it keeps the live connections in step with the desired
//! relays, decides every connect retry, and rebuilds the transport when the
//! user's identity changes.
use vstd::prelude::*;
use std::collections::HashMap;
use vstd::std_specs::iter::IteratorSpec;
use crate::relay::{Relay, RelayInfo};

verus! {

broadcast use vstd::std_specs::hash::group_hash_axioms;

/// Most consecutive failed connects that are retried for one relay.
pub const MAX_RETRIES: i32 = 10;

/// What the reconciler knows of a relay it has dialled: the URI, how many
/// failed connects were retried, and the transport it was dialled on.
pub struct WsInfo {
    pub uri: String,
    pub retry: i32,
    pub transport: u64,
}

impl WsInfo {
    pub fn duplicate(&self) -> (r: WsInfo)
        ensures
            r == *self,
    {
        WsInfo { uri: self.uri.clone(), retry: self.retry, transport: self.transport }
    }
}

/// Whether desired relay `r` has to be dialled on transport `gen`: it has a
/// URI and is not live on that transport.
pub open spec fn needs_connect(r: RelayInfo, live: Map<usize, WsInfo>, gen: u64) -> bool {
    r.uri is Some && !(live.contains_key(r.id) && live[r.id].transport == gen)
}

pub open spec fn connect_pred(live: Map<usize, WsInfo>, gen: u64) -> spec_fn(RelayInfo) -> bool {
    |r: RelayInfo| needs_connect(r, live, gen)
}

/// Live ids that are no longer desired.
pub open spec fn stale_ids(desired: Set<usize>, live: Map<usize, WsInfo>) -> Set<usize> {
    live.dom().filter(|k: usize| !desired.contains(k))
}

/// Ids of desired relays that have to be dialled.
pub open spec fn fresh_ids(desired: Set<RelayInfo>, live: Map<usize, WsInfo>, gen: u64) -> Set<
    usize,
> {
    Set::new(|k: usize| exists|r: RelayInfo| #[trigger] desired.contains(r) && r.id == k && needs_connect(r, live, gen))
}

/// Ids that a diff pass leaves alone: desired relays that are live on the
/// transport, and drafts.
pub open spec fn unchanged_ids(desired: &Relay, live: Map<usize, WsInfo>, gen: u64) -> Set<usize> {
    desired.ids().filter(|k: usize| !fresh_ids(desired.relays(), live, gen).contains(k))
}

/// The ids of a list of live records.
pub open spec fn record_ids(s: Seq<(usize, WsInfo)>) -> Seq<usize> {
    s.map_values(|p: (usize, WsInfo)| p.0)
}

/// What one diff pass finds: the live records to drop, and the desired
/// relays to dial, in display order.
pub struct RelayDiff {
    pub to_remove: Vec<(usize, WsInfo)>,
    pub to_add: Vec<RelayInfo>,
}

/// Compares the desired relays with the live records of transport `gen`.
pub fn diff(desired: &Relay, live: &HashMap<usize, WsInfo>, gen: u64) -> (r: RelayDiff)
    requires
        desired.wf(),
    ensures
        record_ids(r.to_remove@).to_set() == stale_ids(desired.ids(), live@),
        record_ids(r.to_remove@).no_duplicates(),
        forall|i: int|
            0 <= i < r.to_remove@.len() ==> (#[trigger] r.to_remove@[i]).1 == live@[r.to_remove@[i].0],
        r.to_add@ == desired.relay_seq().filter(connect_pred(live@, gen)),
{
    let ghost all = vstd::std_specs::hash::spec_keys_iter(live).remaining().unref();
    let ghost d = desired.ids();
    let mut to_remove: Vec<(usize, WsInfo)> = Vec::new();
    for k in it: live.keys()
        invariant
            desired.wf(),
            d == desired.ids(),
            it.seq().unref() == all,
            it.index() <= all.len(),
            all.to_set() == live@.dom(),
            all.no_duplicates(),
            record_ids(to_remove@).no_duplicates(),
            forall|j: int|
                0 <= j < to_remove@.len() ==> all.take(it.index() as int).contains(
                    (#[trigger] to_remove@[j]).0,
                ) && !d.contains(to_remove@[j].0) && to_remove@[j].1 == live@[to_remove@[j].0],
            forall|j: int|
                0 <= j < it.index() && !d.contains(#[trigger] all[j]) ==> record_ids(
                    to_remove@,
                ).contains(all[j]),
    {
        let ghost idx = it.index();
        assert(all[idx as int] == *k);
        assert(live@.dom().contains(*k)) by {
            assert(all.contains(*k));
        }
        if !desired.contains_id(*k) {
            let info = live.get(k).unwrap().duplicate();
            let ghost before = to_remove@;
            to_remove.push((*k, info));
            proof {
                assert forall|j: int| 0 <= j < before.len() implies before[j].0 != *k by {
                    let a = choose|a: int| 0 <= a < idx && all.take(idx as int)[a] == before[j].0;
                    assert(all[a] == before[j].0);
                }
                assert(record_ids(to_remove@) == record_ids(before).push(*k));
                assert(record_ids(to_remove@)[before.len() as int] == *k);
                assert forall|j: int| 0 <= j < to_remove@.len() implies all.take(idx + 1).contains(
                    (#[trigger] to_remove@[j]).0,
                ) by {
                    if j < before.len() {
                        assert(to_remove@[j] == before[j]);
                        let a = choose|a: int| 0 <= a < idx && all.take(idx as int)[a] == before[j].0;
                        assert(all.take(idx + 1)[a] == before[j].0);
                    } else {
                        assert(all.take(idx + 1)[idx as int] == *k);
                    }
                }
                assert forall|j: int| 0 <= j < idx + 1 && !d.contains(#[trigger] all[j]) implies record_ids(
                    to_remove@,
                ).contains(all[j]) by {
                    if j < idx {
                        let a = choose|a: int| 0 <= a < before.len() && record_ids(before)[a] == all[j];
                        assert(record_ids(to_remove@)[a] == all[j]);
                    } else {
                        assert(record_ids(to_remove@)[before.len() as int] == all[j]);
                    }
                }
            }
        } else {
            proof {
                assert forall|j: int| 0 <= j < to_remove@.len() implies all.take(idx + 1).contains(
                    (#[trigger] to_remove@[j]).0,
                ) by {
                    let a = choose|a: int| 0 <= a < idx && all.take(idx as int)[a] == to_remove@[j].0;
                    assert(all.take(idx + 1)[a] == to_remove@[j].0);
                }
            }
        }
    }
    proof {
        let ids = record_ids(to_remove@);
        assert forall|k: usize| ids.to_set().contains(k) <==> stale_ids(d, live@).contains(k) by {
            if ids.contains(k) {
                let j = choose|j: int| 0 <= j < ids.len() && ids[j] == k;
                assert(to_remove@[j].0 == k);
                let a = choose|a: int| 0 <= a < all.len() && all.take(all.len() as int)[a] == k;
                assert(all.contains(k));
            }
            if stale_ids(d, live@).contains(k) {
                assert(all.to_set().contains(k));
                let j = choose|j: int| 0 <= j < all.len() && all[j] == k;
            }
        }
        assert(ids.to_set() =~= stale_ids(d, live@));
    }
    let n = desired.len();
    let mut to_add: Vec<RelayInfo> = Vec::new();
    let mut i: usize = 0;
    while i < n
        invariant
            desired.wf(),
            n == desired.relay_seq().len(),
            i <= n,
            to_add@ == desired.relay_seq().take(i as int).filter(connect_pred(live@, gen)),
        decreases n - i,
    {
        let r = desired.get(i);
        assert(desired.relay_seq().take(i + 1).drop_last() =~= desired.relay_seq().take(i as int));
        let want = match &r.uri {
            Some(_) => match live.get(&r.id) {
                Some(info) => info.transport != gen,
                None => true,
            },
            None => false,
        };
        proof {
            assert(desired.relay_seq()[i as int] == *r);
            assert(desired.relay_seq().take(i + 1).last() == *r);
            assert(want == needs_connect(*r, live@, gen));
            assert(connect_pred(live@, gen)(*r) == want);
            let t = desired.relay_seq().take(i + 1);
            let p = connect_pred(live@, gen);
            assert(t.len() > 0);
            reveal(Seq::filter);
            assert(t.filter(p) == (if p(t.last()) {
                t.drop_last().filter(p).push(t.last())
            } else {
                t.drop_last().filter(p)
            }));
        }
        if want {
            to_add.push(r.duplicate());
        }
        i = i + 1;
    }
    assert(desired.relay_seq().take(n as int) =~= desired.relay_seq());
    RelayDiff { to_remove, to_add }
}

/// The record a relay gets when it is dialled on transport `gen`.
pub open spec fn fresh_record(r: RelayInfo, gen: u64) -> WsInfo {
    WsInfo { uri: r.uri->Some_0, retry: 0, transport: gen }
}

/// How a connect attempt ended, as the transport classifies it.
pub enum ConnectOutcome {
    Connected,
    /// A failure of the relay pool, which may pass.
    Transient,
    /// Any other failure.
    Fatal,
}

/// What to do after a connect attempt.
pub enum RetryDecision {
    /// Dial `uri` for relay `id` again, now.
    Retry(String, usize),
    /// The relay connected: subscribe again, so that it gets the filters.
    Resubscribe,
    Stop,
}

/// The live records after a connect attempt of relay `id` on transport
/// `gen` ended with `outcome`, and the decision taken.
pub open spec fn retry_step(
    live: Map<usize, WsInfo>,
    id: usize,
    gen: u64,
    outcome: ConnectOutcome,
) -> (Map<usize, WsInfo>, RetryDecision) {
    if outcome is Transient && live.contains_key(id) && live[id].transport == gen && live[id].retry
        < MAX_RETRIES {
        let rec = live[id];
        (
            live.insert(id, WsInfo { uri: rec.uri, retry: (rec.retry + 1) as i32, transport: gen }),
            RetryDecision::Retry(rec.uri, id),
        )
    } else if outcome is Connected && live.contains_key(id) && live[id].transport == gen {
        (live, RetryDecision::Resubscribe)
    } else {
        (live, RetryDecision::Stop)
    }
}

/// What a change of identity asks of the caller.
pub struct IdentityStep {
    /// Disconnect the old transport, and drop it.
    pub teardown_old: bool,
    /// Build a transport bound to the new identity, then reconcile, publish
    /// the contact list and subscribe.
    pub build_new: bool,
}

/// The reconciler's state: the identity the current transport is bound to
/// (none before the first identity), a number that tells transports apart,
/// and the live record of each dialled relay.
pub struct AppClient {
    identity: Option<String>,
    transport: u64,
    cur_relays: HashMap<usize, WsInfo>,
}

impl AppClient {
    pub closed spec fn identity(&self) -> Option<String> {
        self.identity
    }

    pub closed spec fn transport(&self) -> u64 {
        self.transport
    }

    pub closed spec fn live(&self) -> Map<usize, WsInfo> {
        self.cur_relays@
    }

    /// Every retry count lies between zero and the bound.
    pub open spec fn wf(&self) -> bool {
        forall|k: usize| #[trigger]
            self.live().contains_key(k) ==> 0 <= self.live()[k].retry <= MAX_RETRIES
    }

    pub fn new() -> (r: AppClient)
        ensures
            r.wf(),
            r.identity() is None,
            r.transport() == 0,
            r.live() == Map::<usize, WsInfo>::empty(),
    {
        AppClient { identity: None, transport: 0, cur_relays: HashMap::new() }
    }

    /// Whether a transport exists.
    pub fn has_transport(&self) -> (r: bool)
        ensures
            r == self.identity() is Some,
    {
        self.identity.is_some()
    }

    /// The number of the current transport.
    pub fn transport_id(&self) -> (r: u64)
        ensures
            r == self.transport(),
    {
        self.transport
    }

    /// The live record of relay `id`.
    pub fn record(&self, id: usize) -> (r: Option<&WsInfo>)
        ensures
            r matches Some(v) ==> self.live().contains_key(id) && *v == self.live()[id],
            r is None ==> !self.live().contains_key(id),
    {
        self.cur_relays.get(&id)
    }

    /// The retry count of relay `id`, if it is live.
    pub fn retry_count(&self, id: usize) -> (r: Option<i32>)
        ensures
            r matches Some(n) ==> self.live().contains_key(id) && n == self.live()[id].retry,
            r is None ==> !self.live().contains_key(id),
    {
        match self.cur_relays.get(&id) {
            Some(info) => Some(info.retry),
            None => None,
        }
    }

    /// One diff pass: drops the records of relays that are no longer
    /// desired, and gives each desired relay that has to be dialled a fresh
    /// record on the current transport. Returns what was found, for the
    /// caller to disconnect and dial when a transport exists.
    pub fn connect(&mut self, desired: &Relay) -> (r: RelayDiff)
        requires
            old(self).wf(),
            desired.wf(),
        ensures
            final(self).wf(),
            final(self).identity() == old(self).identity(),
            final(self).transport() == old(self).transport(),
            record_ids(r.to_remove@).to_set() == stale_ids(desired.ids(), old(self).live()),
            record_ids(r.to_remove@).no_duplicates(),
            forall|i: int|
                0 <= i < r.to_remove@.len() ==> (#[trigger] r.to_remove@[i]).1 == old(
                    self,
                ).live()[r.to_remove@[i].0],
            r.to_add@ == desired.relay_seq().filter(
                connect_pred(old(self).live(), old(self).transport()),
            ),
            forall|k: usize| #[trigger]
                final(self).live().contains_key(k) <==> (old(self).live().contains_key(k)
                    && desired.ids().contains(k)) || fresh_ids(
                    desired.relays(),
                    old(self).live(),
                    old(self).transport(),
                ).contains(k),
            forall|x: RelayInfo|
                desired.relays().contains(x) && needs_connect(
                    x,
                    old(self).live(),
                    old(self).transport(),
                ) ==> #[trigger] final(self).live()[x.id] == fresh_record(x, old(self).transport()),
            forall|k: usize|
                old(self).live().contains_key(k) && desired.ids().contains(k) && !fresh_ids(
                    desired.relays(),
                    old(self).live(),
                    old(self).transport(),
                ).contains(k) ==> #[trigger] final(self).live()[k] == old(self).live()[k],
    {
        let ghost live0 = self.cur_relays@;
        assert(forall|k: usize| #[trigger] live0.contains_key(k) ==> 0 <= live0[k].retry <= MAX_RETRIES) by {
            assert(live0 == old(self).live());
        }
        let gen = self.transport;
        let ghost fresh = fresh_ids(desired.relays(), live0, gen);
        let d = diff(desired, &self.cur_relays, gen);
        proof {
            desired.lemma_ids_of_relays();
        }
        let mut j: usize = 0;
        while j < d.to_remove.len()
            invariant
                j <= d.to_remove@.len(),
                self.transport == gen,
                self.identity == old(self).identity,
                record_ids(d.to_remove@).to_set() == stale_ids(desired.ids(), live0),
                forall|k: usize| #[trigger]
                    self.cur_relays@.contains_key(k) <==> (live0.contains_key(k) && !record_ids(
                        d.to_remove@,
                    ).take(j as int).contains(k)),
                forall|k: usize| #[trigger]
                    self.cur_relays@.contains_key(k) ==> self.cur_relays@[k] == live0[k],
            decreases d.to_remove@.len() - j,
        {
            let k = d.to_remove[j].0;
            self.cur_relays.remove(&k);
            proof {
                let ids = record_ids(d.to_remove@);
                assert(ids[j as int] == k);
                assert forall|x: usize| ids.take(j + 1).contains(x) <==> (ids.take(j as int).contains(x)
                    || x == k) by {
                    if ids.take(j + 1).contains(x) {
                        let a = choose|a: int| 0 <= a < j + 1 && #[trigger] ids.take(j + 1)[a] == x;
                        if a < j {
                            assert(ids.take(j as int)[a] == x);
                        }
                    }
                    if ids.take(j as int).contains(x) {
                        let a = choose|a: int| 0 <= a < j && #[trigger] ids.take(j as int)[a] == x;
                        assert(ids.take(j + 1)[a] == x);
                    }
                    if x == k {
                        assert(ids.take(j + 1)[j as int] == x);
                    }
                }
            }
            j = j + 1;
        }
        proof {
            let ids = record_ids(d.to_remove@);
            assert(ids.take(ids.len() as int) =~= ids);
            assert forall|k: usize| #[trigger]
                self.cur_relays@.contains_key(k) <==> (live0.contains_key(k) && desired.ids().contains(k)) by {
                assert(ids.to_set().contains(k) == ids.contains(k));
            }
        }
        let mut i: usize = 0;
        while i < d.to_add.len()
            invariant
                i <= d.to_add@.len(),
                desired.wf(),
                self.transport == gen,
                self.identity == old(self).identity,
                forall|k: usize| #[trigger] live0.contains_key(k) ==> 0 <= live0[k].retry <= MAX_RETRIES,
                d.to_add@ == desired.relay_seq().filter(connect_pred(live0, gen)),
                forall|a: RelayInfo, b: RelayInfo|
                    desired.relays().contains(a) && desired.relays().contains(b) && a.id == b.id
                        ==> a == b,
                forall|x: RelayInfo| desired.relays().contains(x) <==> desired.relay_seq().contains(x),
                forall|k: usize| #[trigger]
                    self.cur_relays@.contains_key(k) <==> ((live0.contains_key(k) && desired.ids().contains(k))
                        || exists|a: int| 0 <= a < i && d.to_add@[a].id == k),
                forall|a: int| 0 <= a < i ==> #[trigger] self.cur_relays@[d.to_add@[a].id] == fresh_record(d.to_add@[a], gen),
                forall|k: usize|
                    !(exists|a: int| 0 <= a < i && d.to_add@[a].id == k) && self.cur_relays@.contains_key(k)
                        ==> #[trigger] self.cur_relays@[k] == live0[k],
            decreases d.to_add@.len() - i,
        {
            let info = &d.to_add[i];
            proof {
                desired.relay_seq().lemma_filter_pred(connect_pred(live0, gen), i as int);
                assert(d.to_add@.contains(*info));
                desired.relay_seq().lemma_filter_contains_rev(connect_pred(live0, gen), *info);
            }
            let uri = match &info.uri {
                Some(u) => u.clone(),
                None => String::new(),
            };
            self.cur_relays.insert(info.id, WsInfo { uri, retry: 0, transport: gen });
            proof {
                assert forall|a: int| 0 <= a < i + 1 implies #[trigger] self.cur_relays@[d.to_add@[a].id]
                    == fresh_record(d.to_add@[a], gen) by {
                    if a < i && d.to_add@[a].id == info.id {
                        assert(d.to_add@.contains(d.to_add@[a]));
                        desired.relay_seq().lemma_filter_contains_rev(connect_pred(live0, gen), d.to_add@[a]);
                        assert(d.to_add@[a] == *info);
                    }
                }
            }
            i = i + 1;
        }
        proof {
            let p = connect_pred(live0, gen);
            assert forall|k: usize| (exists|a: int| 0 <= a < d.to_add@.len() && d.to_add@[a].id == k)
                <==> fresh.contains(k) by {
                if exists|a: int| 0 <= a < d.to_add@.len() && d.to_add@[a].id == k {
                    let a = choose|a: int| 0 <= a < d.to_add@.len() && d.to_add@[a].id == k;
                    desired.relay_seq().lemma_filter_pred(p, a);
                    assert(d.to_add@.contains(d.to_add@[a]));
                    desired.relay_seq().lemma_filter_contains_rev(p, d.to_add@[a]);
                    assert(desired.relays().contains(d.to_add@[a]));
                }
                if fresh.contains(k) {
                    let x = choose|x: RelayInfo| #[trigger] desired.relays().contains(x) && x.id == k
                        && needs_connect(x, live0, gen);
                    assert(desired.relay_seq().contains(x));
                    let b = choose|b: int| 0 <= b < desired.relay_seq().len() && desired.relay_seq()[b] == x;
                    desired.relay_seq().lemma_filter_contains(p, b);
                    let a = choose|a: int| 0 <= a < d.to_add@.len() && d.to_add@[a] == x;
                }
            }
            assert forall|x: RelayInfo|
                desired.relays().contains(x) && needs_connect(x, live0, gen) implies #[trigger] self.cur_relays@[x.id]
                    == fresh_record(x, gen) by {
                assert(desired.relay_seq().contains(x));
                let b = choose|b: int| 0 <= b < desired.relay_seq().len() && desired.relay_seq()[b] == x;
                desired.relay_seq().lemma_filter_contains(p, b);
                let a = choose|a: int| 0 <= a < d.to_add@.len() && d.to_add@[a] == x;
            }
            assert forall|k: usize| #[trigger] self.cur_relays@.contains_key(k) implies 0
                <= self.cur_relays@[k].retry <= MAX_RETRIES by {
                if exists|a: int| 0 <= a < d.to_add@.len() && d.to_add@[a].id == k {
                    let a = choose|a: int| 0 <= a < d.to_add@.len() && d.to_add@[a].id == k;
                    assert(self.cur_relays@[d.to_add@[a].id] == fresh_record(d.to_add@[a], gen));
                } else {
                    assert(live0.contains_key(k));
                }
            }
        }
        d
    }

    /// Decides what follows a connect attempt of relay `id` on transport
    /// `gen`. A transient failure of a relay that is still live on that
    /// transport, with retries left, counts one more retry and dials again.
    /// A success there asks for the subscriptions to be sent again, and
    /// leaves the count as it is. Everything else stops: a fatal failure, a
    /// relay removed meanwhile, a transport replaced meanwhile, or the
    /// retries used up.
    pub fn on_connect_result(&mut self, id: usize, gen: u64, outcome: ConnectOutcome) -> (r: RetryDecision)
        requires
            old(self).wf(),
        ensures
            final(self).wf(),
            (final(self).live(), r) == retry_step(old(self).live(), id, gen, outcome),
            final(self).identity() == old(self).identity(),
            final(self).transport() == old(self).transport(),
    {
        if let ConnectOutcome::Transient = outcome {
            match self.cur_relays.get(&id) {
                Some(info) => {
                    if info.transport == gen && info.retry < MAX_RETRIES {
                        let next = WsInfo { uri: info.uri.clone(), retry: info.retry + 1, transport: gen };
                        let uri = info.uri.clone();
                        assert(old(self).live().contains_key(id) && *info == old(self).live()[id]);
                        self.cur_relays.insert(id, next);
                        proof {
                            assert forall|k: usize| #[trigger] self.live().contains_key(k) implies 0
                                <= self.live()[k].retry <= MAX_RETRIES by {
                                if k != id {
                                    assert(old(self).live().contains_key(k));
                                } else {
                                    assert(old(self).live().contains_key(id));
                                }
                            }
                        }
                        return RetryDecision::Retry(uri, id);
                    }
                },
                None => {},
            }
        }
        if let ConnectOutcome::Connected = outcome {
            if let Some(info) = self.cur_relays.get(&id) {
                if info.transport == gen {
                    return RetryDecision::Resubscribe;
                }
            }
        }
        RetryDecision::Stop
    }

    /// Takes identity `key`. The same identity keeps the transport;
    /// another one, or the first, asks for a new transport with a new
    /// number, and for the old transport to be torn down if there is one.
    /// The live records stay: the next diff pass dials every desired relay
    /// again, on the new transport.
    pub fn set_identity(&mut self, key: String) -> (r: IdentityStep)
        requires
            old(self).wf(),
        ensures
            final(self).wf(),
            final(self).live() == old(self).live(),
            old(self).identity() matches Some(k) && k@ == key@ ==> r == (IdentityStep {
                teardown_old: false,
                build_new: false,
            }) && final(self).identity() == old(self).identity() && final(self).transport()
                == old(self).transport(),
            !(old(self).identity() matches Some(k) && k@ == key@) ==> r == (IdentityStep {
                teardown_old: old(self).identity() is Some,
                build_new: true,
            }) && final(self).identity() == Some(key) && final(self).transport()
                == crate::relay::next_revision(old(self).transport()),
    {
        let same = match &self.identity {
            Some(k) => *k == key,
            None => false,
        };
        if same {
            return IdentityStep { teardown_old: false, build_new: false };
        }
        let teardown_old = self.identity.is_some();
        self.identity = Some(key);
        self.transport = crate::relay::bump_revision(self.transport);
        assert(self.live() == old(self).live());
        assert forall|k: usize| #[trigger] self.live().contains_key(k) implies 0
            <= self.live()[k].retry <= MAX_RETRIES by {
            assert(old(self).live().contains_key(k));
        }
        IdentityStep { teardown_old, build_new: true }
    }
}

/// A diff pass splits the ids of the desired relays and of the live
/// records into three disjoint parts: live ids to drop, desired ids to
/// dial, and ids left alone.
pub proof fn lemma_diff_partitions(desired: &Relay, live: Map<usize, WsInfo>, gen: u64)
    requires
        desired.wf(),
    ensures
        stale_ids(desired.ids(), live).disjoint(fresh_ids(desired.relays(), live, gen)),
        stale_ids(desired.ids(), live).disjoint(unchanged_ids(desired, live, gen)),
        fresh_ids(desired.relays(), live, gen).disjoint(unchanged_ids(desired, live, gen)),
        stale_ids(desired.ids(), live) + fresh_ids(desired.relays(), live, gen) + unchanged_ids(
            desired,
            live,
            gen,
        ) == desired.ids() + live.dom(),
        forall|r: RelayInfo|
            desired.relay_seq().filter(connect_pred(live, gen)).contains(r) <==> (
            desired.relays().contains(r) && fresh_ids(desired.relays(), live, gen).contains(r.id)),
{
    desired.lemma_ids_of_relays();
    let p = connect_pred(live, gen);
    assert forall|r: RelayInfo|
        desired.relay_seq().filter(p).contains(r) <==> (desired.relays().contains(r) && fresh_ids(
            desired.relays(),
            live,
            gen,
        ).contains(r.id)) by {
        if desired.relay_seq().filter(p).contains(r) {
            desired.relay_seq().lemma_filter_contains_rev(p, r);
            let i = choose|i: int|
                0 <= i < desired.relay_seq().filter(p).len() && desired.relay_seq().filter(p)[i] == r;
            desired.relay_seq().lemma_filter_pred(p, i);
        }
        if desired.relays().contains(r) && fresh_ids(desired.relays(), live, gen).contains(r.id) {
            let x = choose|x: RelayInfo| #[trigger] desired.relays().contains(x) && x.id == r.id
                && needs_connect(x, live, gen);
            assert(x == r);
            let b = choose|b: int| 0 <= b < desired.relay_seq().len() && desired.relay_seq()[b] == r;
            desired.relay_seq().lemma_filter_contains(p, b);
        }
    }
    let st = stale_ids(desired.ids(), live);
    let fr = fresh_ids(desired.relays(), live, gen);
    let un = unchanged_ids(desired, live, gen);
    assert forall|k: usize| fr.contains(k) implies desired.ids().contains(k) by {
        let r = choose|r: RelayInfo| #[trigger] desired.relays().contains(r) && r.id == k
            && needs_connect(r, live, gen);
    }
    assert(st + fr + un =~= desired.ids() + live.dom());
}

/// A connect attempt never lowers a retry count nor lifts one past the
/// bound, changes no other relay, and once a relay's count has reached the
/// bound no attempt for it follows.
pub proof fn lemma_retry_bounded(live: Map<usize, WsInfo>, id: usize, gen: u64, outcome: ConnectOutcome)
    requires
        forall|k: usize| #[trigger] live.contains_key(k) ==> 0 <= live[k].retry <= MAX_RETRIES,
    ensures
        ({
            let (after, decision) = retry_step(live, id, gen, outcome);
            &&& after.dom() == live.dom()
            &&& forall|k: usize| #[trigger]
                after.contains_key(k) ==> live[k].retry <= after[k].retry <= MAX_RETRIES
            &&& forall|k: usize| k != id ==> #[trigger] after[k] == live[k]
            &&& live.contains_key(id) && live[id].retry == MAX_RETRIES ==> !(decision is Retry)
            &&& decision matches RetryDecision::Retry(_, k) ==> k == id && after[id].retry == live[id].retry + 1
        }),
{
    let (after, decision) = retry_step(live, id, gen, outcome);
    if decision is Retry {
        assert(after.dom() =~= live.dom());
    }
}

} // verus!
