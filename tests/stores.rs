use dapp_relay::contact::{UserContact, UserContactAction, UserContactInfo, MAX_RECENTS};
use dapp_relay::event::{Event, UserEvent, UserEventAction, UserEventMsg};
use dapp_relay::load_store::LoadStoreKey;
use dapp_relay::relay::{Relay, RelayAction, RelayIds, RelayInfo, MAX_RELAY_SIZE};

fn ev(id: &str, created_at: u64) -> Event {
    Event {
        id: id.to_string(),
        pubkey: "a1".to_string(),
        created_at,
        kind: 1,
        content: format!("note {id}"),
        json: String::new(),
    }
}

fn relay_ids(r: &Relay) -> Vec<usize> {
    (0..r.len()).map(|i| r.get(i).id).collect()
}

fn event_ids(s: &UserEvent) -> Vec<String> {
    (0..s.len()).map(|i| s.get(i).event.id.clone()).collect()
}

fn contact(pk: &str, nick: &str) -> UserContactInfo {
    UserContactInfo {
        pubkey: Some(pk.to_string()),
        avatar_url: None,
        relay: Some("wss://r".to_string()),
        nickname: Some(nick.to_string()),
    }
}

#[test]
fn relay_add_assigns_ids_and_sorts_descending() {
    let r = Relay::new();
    let r = r.reduce(RelayAction::Add("wss://a".to_string()));
    let r = r.reduce(RelayAction::Add("wss://b".to_string()));
    let r = r.reduce(RelayAction::Add("wss://c".to_string()));
    assert_eq!(relay_ids(&r), vec![2, 1, 0]);
    assert_eq!(r.get(0).uri.as_deref(), Some("wss://c"));
    assert_eq!(r.get(2).uri.as_deref(), Some("wss://a"));
    assert_eq!(r.count(), 3);
}

#[test]
fn relay_remove_and_remove_batch() {
    let mut r = Relay::new();
    for u in ["wss://a", "wss://b", "wss://c", "wss://d"] {
        r = r.reduce(RelayAction::Add(u.to_string()));
    }
    let r = r.reduce(RelayAction::Remove(1));
    assert_eq!(relay_ids(&r), vec![3, 2, 0]);
    let r = r.reduce(RelayAction::Remove(7));
    assert_eq!(relay_ids(&r), vec![3, 2, 0]);
    assert_eq!(r.count(), 6);
    let r = r.reduce(RelayAction::RemoveBatch(vec![0, 3, 9]));
    assert_eq!(relay_ids(&r), vec![2]);
    assert!(r.contains_id(2));
    assert!(!r.contains_id(3));
}

#[test]
fn relay_update_replaces_uri_of_existing_id_only() {
    let r = Relay::new();
    let r = r.reduce(RelayAction::Add("wss://a".to_string()));
    let r = r.reduce(RelayAction::Update(0, "wss://z".to_string()));
    assert_eq!(r.len(), 1);
    assert_eq!(r.get(0).uri.as_deref(), Some("wss://z"));
    let r = r.reduce(RelayAction::Update(5, "wss://y".to_string()));
    assert_eq!(relay_ids(&r), vec![0]);
    assert_eq!(r.count(), 3);
}

#[test]
fn relay_fifty_first_add_is_refused() {
    let mut r = Relay::new();
    for i in 0..MAX_RELAY_SIZE {
        r = r.reduce(RelayAction::Add(format!("wss://r{i}")));
    }
    assert_eq!(r.len(), 50);
    let rev = r.count();
    let before = relay_ids(&r);
    let r = r.reduce(RelayAction::Add("wss://one-more".to_string()));
    assert_eq!(r.len(), 50);
    assert_eq!(r.count(), rev);
    assert_eq!(relay_ids(&r), before);
    let r = r.reduce(RelayAction::Remove(0));
    let r = r.reduce(RelayAction::Add("wss://again".to_string()));
    assert_eq!(r.len(), 50);
    assert_eq!(r.get(0).id, 50);
}

#[test]
fn relay_default_has_four_relays() {
    let r = Relay::default();
    assert_eq!(relay_ids(&r), vec![3, 2, 1, 0]);
    assert_eq!(r.get(3).uri.as_deref(), Some("wss://relay.damus.io"));
    assert_eq!(r.get(0).uri.as_deref(), Some("wss://nostr.openchain.fr"));
    assert_eq!(r.count(), 0);
    let r = r.reduce(RelayAction::Add("wss://e".to_string()));
    assert_eq!(r.get(0).id, 4);
}

#[test]
fn relay_drafts_take_fresh_ids() {
    let mut r = Relay::default();
    let d = r.draft().unwrap();
    assert_eq!(d.id, 4);
    assert!(d.uri.is_none());
    assert_eq!(r.len(), 4);
    let r = r.reduce(RelayAction::Add("wss://e".to_string()));
    assert_eq!(r.get(0).id, 5);
}

#[test]
fn relay_info_constructors_use_the_allocator() {
    let mut ids = RelayIds::new();
    let a = RelayInfo::new2(&mut ids, Some("wss://a".to_string()));
    let b = RelayInfo::empty(&mut ids);
    assert_eq!(a.id, 0);
    assert_eq!(a.uri.as_deref(), Some("wss://a"));
    assert_eq!(b.id, 1);
    assert!(b.uri.is_none());
    assert_eq!(ids.generate_id(), 2);
}

#[test]
fn store_keys() {
    assert_eq!(Relay::load_store_key(), "relay");
    assert_eq!(UserContact::load_store_key(), "user-contacts");
}

#[test]
fn events_sorted_newest_first() {
    let s = UserEvent::new();
    let s = s.reduce(UserEventAction::Add(ev("e1", 100)));
    let s = s.reduce(UserEventAction::AddVisible(ev("e2", 300)));
    let s = s.reduce(UserEventAction::Add(ev("e3", 200)));
    assert_eq!(event_ids(&s), vec!["e2", "e3", "e1"]);
    assert_eq!(s.count(), 3);
    assert!(s.get(0).visible);
    assert!(!s.get(1).visible);
}

#[test]
fn events_readd_keeps_one_entry() {
    let s = UserEvent::new();
    let s = s.reduce(UserEventAction::Add(ev("e1", 100)));
    let s = s.reduce(UserEventAction::Add(ev("e2", 50)));
    let mut e = ev("e1", 100);
    e.content = "edited".to_string();
    let s = s.reduce(UserEventAction::Add(e));
    assert_eq!(s.len(), 2);
    assert_eq!(event_ids(&s), vec!["e1", "e2"]);
    assert_eq!(s.get(0).event.content, "edited");
}

#[test]
fn events_add_then_add_visible_gives_one_visible_record() {
    let s = UserEvent::new();
    let s = s.reduce(UserEventAction::Add(ev("E1", 100)));
    assert!(!s.get(0).visible);
    let s = s.reduce(UserEventAction::AddVisible(ev("E1", 100)));
    assert_eq!(s.len(), 1);
    assert_eq!(s.get(0).event.id, "E1");
    assert!(s.get(0).visible);
}

#[test]
fn events_visible_sets_flag() {
    let s = UserEvent::new();
    let s = s.reduce(UserEventAction::Add(ev("e1", 100)));
    let s = s.reduce(UserEventAction::Visible("e1".to_string(), true));
    assert!(s.get(0).visible);
    assert_eq!(s.count(), 2);
    let s = s.reduce(UserEventAction::Visible("e1".to_string(), false));
    assert!(!s.get(0).visible);
    assert_eq!(s.get(0).event.content, "note e1");
}

#[test]
fn events_visible_unknown_id_is_noop() {
    let s = UserEvent::new();
    let s = s.reduce(UserEventAction::Add(ev("e1", 100)));
    let rev = s.count();
    let s = s.reduce(UserEventAction::Visible("nope".to_string(), true));
    assert_eq!(s.count(), rev);
    assert_eq!(s.len(), 1);
    assert!(!s.get(0).visible);
}

#[test]
fn events_remove_and_update() {
    let s = UserEvent::new();
    let s = s.reduce(UserEventAction::Add(ev("e1", 100)));
    let s = s.reduce(UserEventAction::Add(ev("e2", 200)));
    let s = s.reduce(UserEventAction::Update(UserEventMsg { event: ev("e1", 400), visible: true }));
    assert_eq!(event_ids(&s), vec!["e1", "e2"]);
    assert!(s.get(0).visible);
    let s = s.reduce(UserEventAction::Remove("e1".to_string()));
    assert_eq!(event_ids(&s), vec!["e2"]);
    let s = s.reduce(UserEventAction::Remove("e9".to_string()));
    assert_eq!(event_ids(&s), vec!["e2"]);
}

#[test]
fn events_equal_times_keep_their_order() {
    let s = UserEvent::new();
    let s = s.reduce(UserEventAction::Add(ev("a", 10)));
    let s = s.reduce(UserEventAction::Add(ev("b", 10)));
    let s = s.reduce(UserEventAction::Add(ev("c", 20)));
    assert_eq!(event_ids(&s), vec!["c", "a", "b"]);
}

#[test]
fn contacts_upsert_and_remove() {
    let c = UserContact::new();
    let c = c.reduce(UserContactAction::Add(contact("k1", "one")));
    let c = c.reduce(UserContactAction::Add(contact("k2", "two")));
    let c = c.reduce(UserContactAction::Update(contact("k1", "uno")));
    assert_eq!(c.len(), 2);
    assert_eq!(c.get(0).nickname.as_deref(), Some("uno"));
    let c = c.reduce(UserContactAction::Remove("k1".to_string()));
    assert_eq!(c.len(), 1);
    assert_eq!(c.get(0).pubkey.as_deref(), Some("k2"));
    let c = c.reduce(UserContactAction::Add(contact("k3", "three")));
    let c = c.reduce(UserContactAction::RemoveBatch(vec!["k2".to_string(), "k3".to_string()]));
    assert_eq!(c.len(), 0);
    assert_eq!(c.count(), 6);
}

#[test]
fn contacts_recent_evicts_oldest() {
    let mut c = UserContact::new();
    for i in 0..MAX_RECENTS {
        c = c.reduce(UserContactAction::Recent(format!("k{i}")));
    }
    assert_eq!(c.recent().len(), 10);
    assert_eq!(c.recent()[0], "k9");
    assert_eq!(c.recent()[9], "k0");
    let c = c.reduce(UserContactAction::Recent("k10".to_string()));
    assert_eq!(c.recent().len(), 10);
    assert_eq!(c.recent()[0], "k10");
    assert_eq!(c.recent()[9], "k1");
    assert!(!c.recent().iter().any(|k| k == "k0"));
}

#[test]
fn contact_info_empty_has_no_fields() {
    let e = UserContactInfo::empty();
    assert!(e.pubkey.is_none() && e.avatar_url.is_none() && e.relay.is_none() && e.nickname.is_none());
}
