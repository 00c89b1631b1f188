use dapp_relay::contact::{UserContact, UserContactAction, UserContactInfo};
use dapp_relay::event::{Event, UserEvent, UserEventAction};
use dapp_relay::reconcile::{diff, AppClient, ConnectOutcome, RetryDecision, WsInfo, MAX_RETRIES};
use dapp_relay::relay::{Relay, RelayAction};
use dapp_relay::router::{route, Notification};
use dapp_relay::subscription::{
    contact_filters, contact_list, Subscription, SubscriptionFilter, SubscriptionMessage,
};
use dapp_relay::util::{front_n_chars, DiffDayHourMinuteSecond};
use std::collections::HashMap;

fn ev(id: &str, created_at: u64, kind: u64) -> Event {
    Event {
        id: id.to_string(),
        pubkey: "a1".to_string(),
        created_at,
        kind,
        content: String::new(),
        json: String::new(),
    }
}

/// Desired relays whose only entry is relay 1 at `uri`.
fn only_relay_one(uri: &str) -> Relay {
    let r = Relay::new();
    let r = r.reduce(RelayAction::Add("wss://x".to_string()));
    let r = r.reduce(RelayAction::Add(uri.to_string()));
    r.reduce(RelayAction::Remove(0))
}

#[test]
fn diff_against_empty_live_adds_the_relay() {
    let desired = only_relay_one("wss://a");
    let live: HashMap<usize, WsInfo> = HashMap::new();
    let d = diff(&desired, &live, 0);
    assert!(d.to_remove.is_empty());
    assert_eq!(d.to_add.len(), 1);
    assert_eq!(d.to_add[0].id, 1);
    assert_eq!(d.to_add[0].uri.as_deref(), Some("wss://a"));
}

#[test]
fn diff_partitions_ids() {
    let mut desired = Relay::new();
    for u in ["wss://a", "wss://b", "wss://c"] {
        desired = desired.reduce(RelayAction::Add(u.to_string()));
    }
    let mut live: HashMap<usize, WsInfo> = HashMap::new();
    live.insert(0, WsInfo { uri: "wss://a".to_string(), retry: 2, transport: 7 });
    live.insert(1, WsInfo { uri: "wss://b".to_string(), retry: 0, transport: 6 });
    live.insert(9, WsInfo { uri: "wss://gone".to_string(), retry: 1, transport: 7 });
    let d = diff(&desired, &live, 7);
    let removed: Vec<usize> = d.to_remove.iter().map(|p| p.0).collect();
    let added: Vec<usize> = d.to_add.iter().map(|r| r.id).collect();
    assert_eq!(removed, vec![9]);
    assert_eq!(d.to_remove[0].1.uri, "wss://gone");
    assert_eq!(added, vec![2, 1]);
}

#[test]
fn connect_tracks_fresh_records_and_drops_stale_ones() {
    let mut c = AppClient::new();
    let desired = Relay::default();
    let d = c.connect(&desired);
    assert_eq!(d.to_add.len(), 4);
    assert_eq!(c.retry_count(3), Some(0));
    let d = c.connect(&desired);
    assert!(d.to_add.is_empty() && d.to_remove.is_empty());
    let desired = desired.reduce(RelayAction::Remove(2));
    let d = c.connect(&desired);
    assert_eq!(d.to_remove.len(), 1);
    assert_eq!(d.to_remove[0].0, 2);
    assert_eq!(c.retry_count(2), None);
}

#[test]
fn connect_skips_drafts() {
    let mut c = AppClient::new();
    let mut desired = Relay::new();
    let draft = desired.draft().unwrap();
    let d = c.connect(&desired);
    assert!(d.to_add.is_empty());
    assert_eq!(c.retry_count(draft.id), None);
}

#[test]
fn transient_failure_at_nine_counts_to_ten_then_stops() {
    let mut c = AppClient::new();
    c.set_identity("k1".to_string());
    let desired = only_relay_one("wss://a");
    c.connect(&desired);
    let gen = c.transport_id();
    for _ in 0..9 {
        let d = c.on_connect_result(1, gen, ConnectOutcome::Transient);
        assert!(matches!(d, RetryDecision::Retry(_, 1)));
    }
    assert_eq!(c.retry_count(1), Some(9));
    let d = c.on_connect_result(1, gen, ConnectOutcome::Transient);
    match d {
        RetryDecision::Retry(uri, id) => {
            assert_eq!(uri, "wss://a");
            assert_eq!(id, 1);
        }
        _ => panic!("expected a retry"),
    }
    assert_eq!(c.retry_count(1), Some(MAX_RETRIES));
    let d = c.on_connect_result(1, gen, ConnectOutcome::Transient);
    assert!(matches!(d, RetryDecision::Stop));
    assert_eq!(c.retry_count(1), Some(10));
}

#[test]
fn retry_stops_on_success_fatal_removal_and_old_transport() {
    let mut c = AppClient::new();
    c.set_identity("k1".to_string());
    let desired = only_relay_one("wss://a");
    c.connect(&desired);
    let gen = c.transport_id();
    assert!(matches!(c.on_connect_result(1, gen, ConnectOutcome::Transient), RetryDecision::Retry(_, 1)));
    assert!(matches!(c.on_connect_result(1, gen, ConnectOutcome::Connected), RetryDecision::Resubscribe));
    assert_eq!(c.retry_count(1), Some(1));
    assert!(matches!(c.on_connect_result(1, gen, ConnectOutcome::Fatal), RetryDecision::Stop));
    assert!(matches!(c.on_connect_result(1, gen + 1, ConnectOutcome::Transient), RetryDecision::Stop));
    assert!(matches!(c.on_connect_result(1, gen + 1, ConnectOutcome::Connected), RetryDecision::Stop));
    let emptied = desired.reduce(RelayAction::Remove(1));
    c.connect(&emptied);
    assert!(matches!(c.on_connect_result(1, gen, ConnectOutcome::Transient), RetryDecision::Stop));
    assert_eq!(c.retry_count(1), None);
}

#[test]
fn identity_change_rebuilds_transport_and_redials() {
    let mut c = AppClient::new();
    let step = c.set_identity("K1".to_string());
    assert!(!step.teardown_old && step.build_new);
    let desired = Relay::default();
    c.connect(&desired);
    let old = c.transport_id();
    assert!(matches!(c.on_connect_result(3, old, ConnectOutcome::Transient), RetryDecision::Retry(_, 3)));
    let step = c.set_identity("K2".to_string());
    assert!(step.teardown_old && step.build_new);
    assert!(c.has_transport());
    assert_ne!(c.transport_id(), old);
    assert_eq!(c.retry_count(3), Some(1));
    let d = c.connect(&desired);
    assert!(d.to_add.iter().any(|r| r.id == 3));
    assert_eq!(d.to_add.len(), 4);
    assert_eq!(c.retry_count(3), Some(0));
    assert_eq!(c.record(3).unwrap().transport, c.transport_id());
    assert!(matches!(c.on_connect_result(3, old, ConnectOutcome::Transient), RetryDecision::Stop));
    let same = c.set_identity("K2".to_string());
    assert!(!same.teardown_old && !same.build_new);
}

#[test]
fn router_applies_notifications() {
    let s = UserEvent::new();
    let s = s.reduce(UserEventAction::Add(ev("mine", 5, 1)));
    let (s, go) = route(s, Notification::Accepted { event_id: "mine".to_string(), status: true });
    assert!(go);
    assert!(s.get(0).visible);
    let (s, go) = route(s, Notification::Event(ev("n1", 9, 1)));
    assert!(go);
    assert_eq!(s.len(), 2);
    assert_eq!(s.get(0).event.id, "n1");
    assert!(s.get(0).visible);
    let (s, go) = route(s, Notification::Event(ev("meta", 10, 0)));
    assert!(go);
    assert_eq!(s.len(), 2);
    let (s, go) = route(s, Notification::Other);
    assert!(go);
    let (s, go) = route(s, Notification::Shutdown);
    assert!(!go);
    assert_eq!(s.len(), 2);
}

fn contacts() -> UserContact {
    let c = UserContact::new();
    let c = c.reduce(UserContactAction::Add(UserContactInfo {
        pubkey: Some("c1".to_string()),
        avatar_url: None,
        relay: Some("wss://r1".to_string()),
        nickname: Some("one".to_string()),
    }));
    c.reduce(UserContactAction::Add(UserContactInfo {
        pubkey: Some("c2".to_string()),
        avatar_url: None,
        relay: None,
        nickname: None,
    }))
}

#[test]
fn filters_mention_me_and_follow_contacts() {
    let f = contact_filters(&"me".to_string(), &contacts(), 1700);
    assert_eq!(f.len(), 2);
    assert_eq!(f[0].pubkeys, Some(vec!["me".to_string()]));
    assert!(f[0].authors.is_none());
    assert_eq!(f[0].since, Some(1700));
    assert!(f[1].pubkeys.is_none());
    assert_eq!(f[1].authors, Some(vec!["c1".to_string(), "c2".to_string()]));
    assert_eq!(f[1].since, Some(1700));
    let none = contact_filters(&"me".to_string(), &UserContact::new(), 5);
    assert_eq!(none.len(), 1);
}

#[test]
fn contact_list_mirrors_store() {
    let l = contact_list(&contacts());
    assert_eq!(l.len(), 2);
    assert_eq!(l[0].pk, "c1");
    assert_eq!(l[0].relay_url.as_deref(), Some("wss://r1"));
    assert_eq!(l[0].alias.as_deref(), Some("one"));
    assert_eq!(l[1].pk, "c2");
    assert!(l[1].relay_url.is_none());
}

fn filter() -> Vec<SubscriptionFilter> {
    vec![SubscriptionFilter { pubkeys: None, authors: None, since: Some(1) }]
}

#[test]
fn subscriptions_add_update_remove() {
    let s = Subscription::new();
    let s = s.reduce(SubscriptionMessage::Add(filter()));
    let s = s.reduce(SubscriptionMessage::Add(filter()));
    assert_eq!(s.len(), 2);
    let s = s.reduce(SubscriptionMessage::Update("mine".to_string(), filter()));
    assert_eq!(s.len(), 3);
    assert!(s.contains_id(&"mine".to_string()));
    let s = s.reduce(SubscriptionMessage::Remove("mine".to_string()));
    assert_eq!(s.len(), 2);
    assert!(!s.contains_id(&"mine".to_string()));
    let (s, fresh) = s.add_with_id("x".to_string(), filter());
    assert!(fresh);
    let (s, again) = s.add_with_id("x".to_string(), vec![]);
    assert!(!again);
    assert_eq!(s.len(), 3);
}

#[test]
fn front_chars() {
    assert_eq!(front_n_chars("hello", 3), "hel");
    assert_eq!(front_n_chars("hi", 5), "hi");
    assert_eq!(front_n_chars("日本語テキスト", 2), "日本");
    assert_eq!(front_n_chars("", 2), "");
}

#[test]
fn diff_hours() {
    assert!(DiffDayHourMinuteSecond::calc_diff_hours(100, 100).is_none());
    assert!(DiffDayHourMinuteSecond::calc_diff_hours(100, 200).is_none());
    let elapsed = 365 * 86400 + 2 * 30 * 86400 + 3 * 86400 + 4 * 3600 + 5 * 60 + 6;
    let d = DiffDayHourMinuteSecond::calc_diff_hours(1_000_000_000, 1_000_000_000 - elapsed).unwrap();
    assert_eq!((d.years, d.months, d.days, d.hours, d.minutes, d.seconds), (1, 2, 3, 4, 5, 6));
    let d = DiffDayHourMinuteSecond::calc_diff_hours(61, 0).unwrap();
    assert_eq!((d.years, d.minutes, d.seconds), (0, 1, 1));
}
