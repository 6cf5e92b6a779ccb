use babylon::error::Error;
use babylon::hub::Hub;
use babylon::types::{AgentKind, Handle};

const T0: i64 = 1_700_000_000_000;

fn h(s: &str) -> Handle {
    Handle::parse(s).unwrap()
}

fn seeded() -> Hub {
    let mut hub = Hub::new_in_memory();
    hub.mint_token(&h("code"), AgentKind::Agent, T0).unwrap();
    hub
}

#[test]
fn create_rejects_dm_prefix_and_dupes() {
    let mut hub = seeded();
    let by = h("code");
    hub.create_channel(&by, "deploy", "deploy talk", T0).unwrap();
    assert!(hub.create_channel(&by, "deploy", "x", T0).is_err());
    assert!(hub.create_channel(&by, "dm:x+y", "x", T0).is_err());
}

#[test]
fn create_checks_name_and_topic() {
    let mut hub = seeded();
    let by = h("code");
    assert!(matches!(hub.create_channel(&by, "Has Space", "t", T0), Err(Error::BadName(_))));
    assert!(matches!(hub.create_channel(&by, "ok", "", T0), Err(Error::TooLarge(_))));
    assert!(matches!(hub.create_channel(&by, "ok", &"t".repeat(1025), T0), Err(Error::TooLarge(_))));
    assert!(matches!(hub.create_channel(&by, "  Ops ", "t", T0), Ok(true)));
    assert!(matches!(hub.create_channel(&by, "ops", "t", T0), Err(Error::ChannelExists(x)) if x == "ops"));
}

#[test]
fn join_is_subscribe_from_now_then_leave_retains_cursor() {
    let mut hub = seeded();
    let by = h("code");
    hub.create_channel(&by, "deploy", "t", T0).unwrap();
    hub.post(&by, "deploy", "note", "m1", None, &[], None, T0).unwrap();
    let id2 = hub.post(&by, "deploy", "note", "m2", None, &[], None, T0).unwrap();
    let other = h("weather");
    hub.mint_token(&other, AgentKind::Agent, T0).unwrap();
    hub.join_channel(&other, "deploy").unwrap();
    let cu = hub.catch_up(&other, None, false, 50).unwrap();
    assert!(cu.messages.is_empty(), "join is from-now");
    let id3 = hub.post(&by, "deploy", "note", "m3", None, &[], None, T0).unwrap();
    let cu = hub.catch_up(&other, None, false, 50).unwrap();
    assert_eq!(cu.messages.iter().map(|m| m.id).collect::<Vec<_>>(), vec![id3]);
    assert!(id3 > id2);
    hub.ack(&other, "deploy", id3).unwrap();
    hub.leave_channel(&other, "deploy").unwrap();
    hub.join_channel(&other, "deploy").unwrap();
    let cu = hub.catch_up(&other, None, false, 50).unwrap();
    assert!(cu.messages.is_empty(), "rejoin retains cursor");
}

#[test]
fn rejoin_sees_what_arrived_while_away() {
    let mut hub = seeded();
    let by = h("code");
    let bob = h("bob");
    hub.mint_token(&bob, AgentKind::Agent, T0).unwrap();
    hub.create_channel(&by, "deploy", "t", T0).unwrap();
    hub.join_channel(&bob, "deploy").unwrap();
    hub.leave_channel(&bob, "deploy").unwrap();
    let id = hub.post(&by, "deploy", "note", "while away", None, &[], None, T0).unwrap();
    assert!(hub.catch_up(&bob, None, false, 50).unwrap().messages.is_empty());
    hub.join_channel(&bob, "deploy").unwrap();
    let cu = hub.catch_up(&bob, None, false, 50).unwrap();
    assert_eq!(cu.messages.iter().map(|m| m.id).collect::<Vec<_>>(), vec![id]);
}

#[test]
fn dm_channel_not_joinable_by_stranger() {
    let mut hub = Hub::new_in_memory();
    for n in ["alice", "bob", "carol"] {
        hub.mint_token(&h(n), AgentKind::Agent, T0).unwrap();
    }
    let (_, dm_channel) = hub.dm(&h("alice"), &h("bob"), "note", "hello bob", None, None, T0).unwrap();
    assert!(dm_channel.starts_with("dm:"));
    assert!(matches!(hub.join_channel(&h("carol"), &dm_channel), Err(Error::NotAMember(_))));
    assert!(hub.join_channel(&h("bob"), &dm_channel).is_ok());
}

#[test]
fn join_refuses_unknown_channel_and_leave_archive_tolerate_it() {
    let mut hub = seeded();
    let by = h("code");
    assert!(matches!(hub.join_channel(&by, "nope"), Err(Error::UnknownChannel(_))));
    assert!(hub.leave_channel(&by, "nope").is_ok(), "leaving an unknown channel changes nothing");
    assert!(hub.archive_channel(&by, "nope", T0).is_ok(), "archiving an unknown channel changes nothing");
    hub.create_channel(&by, "deploy", "t", T0).unwrap();
    assert!(hub.leave_channel(&by, "deploy").is_ok(), "leaving without a subscription is fine");
    hub.archive_channel(&by, "deploy", T0 + 9).unwrap();
    assert_eq!(hub.store.channels[0].archived_at, Some(T0 + 9));
}

#[test]
fn list_channels_by_name_with_subscription_and_unread() {
    let mut hub = seeded();
    let by = h("code");
    let bob = h("bob");
    hub.mint_token(&bob, AgentKind::Agent, T0).unwrap();
    hub.create_channel(&by, "zeta", "last", T0).unwrap();
    hub.create_channel(&by, "alpha", "first", T0).unwrap();
    hub.create_channel(&by, "old", "archived", T0).unwrap();
    hub.archive_channel(&by, "old", T0).unwrap();
    hub.join_channel(&bob, "zeta").unwrap();
    hub.post(&by, "zeta", "note", "m", None, &[], None, T0).unwrap();
    hub.post(&by, "zeta", "note", "m", None, &[], None, T0).unwrap();
    let list = hub.list_channels(&bob, false).unwrap();
    let rows: Vec<(String, bool, i64)> = list.iter().map(|c| (c.name.clone(), c.subscribed, c.unread)).collect();
    assert_eq!(rows, vec![("alpha".to_string(), false, 0), ("zeta".to_string(), true, 2)]);
    assert_eq!(list[0].topic, "first");
    assert_eq!(list[0].kind, "channel");
    let all = hub.list_channels(&bob, true).unwrap();
    assert_eq!(all.iter().map(|c| c.name.as_str()).collect::<Vec<_>>(), vec!["alpha", "old", "zeta"]);
}
