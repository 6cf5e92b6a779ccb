use babylon::error::Error;
use babylon::hub::Hub;
use babylon::types::{AgentKind, Handle};

const T0: i64 = 1_700_000_000_000;

fn h(s: &str) -> Handle {
    Handle::parse(s).unwrap()
}

fn fixture() -> (Hub, Handle, Handle) {
    let mut hub = Hub::new_in_memory();
    let code = h("code");
    let deploy = h("deploy");
    hub.mint_token(&code, AgentKind::Agent, T0).unwrap();
    hub.mint_token(&deploy, AgentKind::Agent, T0).unwrap();
    hub.create_channel(&code, "deploy", "t", T0).unwrap();
    (hub, code, deploy)
}

fn ids(hub: &Hub, who: &Handle) -> Vec<i64> {
    hub.catch_up(who, None, false, 50).unwrap().messages.iter().map(|m| m.id).collect()
}

#[test]
fn mention_autosubscribes_new_handle_including_the_mention() {
    let (mut hub, code, deploy) = fixture();
    let id = hub.post(&code, "deploy", "question", "need creds?", None, &["deploy".into()], None, T0).unwrap();
    assert_eq!(ids(&hub, &deploy), vec![id]);
}

#[test]
fn mention_does_not_clobber_existing_subscribers_cursor() {
    let (mut hub, code, deploy) = fixture();
    hub.join_channel(&deploy, "deploy").unwrap();
    let m1 = hub.post(&code, "deploy", "note", "m1", None, &[], None, T0).unwrap();
    let m2 = hub.post(&code, "deploy", "note", "m2", None, &[], None, T0).unwrap();
    let m3 = hub.post(&code, "deploy", "note", "m3", None, &["deploy".into()], None, T0).unwrap();
    assert_eq!(ids(&hub, &deploy), vec![m1, m2, m3]);
}

#[test]
fn unknown_mention_is_rejected() {
    let (mut hub, code, _deploy) = fixture();
    let err = hub.post(&code, "deploy", "note", "hi", None, &["ghost".into()], None, T0);
    assert!(matches!(err, Err(Error::UnknownHandle(_))));
    assert!(hub.store.messages.is_empty());
}

#[test]
fn dm_creates_private_channel_and_only_members_see_it() {
    let (mut hub, code, deploy) = fixture();
    let (id, chname) = hub.dm(&code, &deploy, "note", "secret", Some("body"), None, T0).unwrap();
    assert_eq!(chname, "dm:code+deploy");
    assert_eq!(ids(&hub, &deploy), vec![id]);
    let mallory = h("mallory");
    hub.mint_token(&mallory, AgentKind::Agent, T0).unwrap();
    assert!(hub.catch_up(&mallory, None, false, 50).unwrap().messages.is_empty());
    assert!(hub.read(&mallory, &[id]).unwrap().is_empty());
}

#[test]
fn dm_messages_not_visible_in_carols_catch_up() {
    let mut hub = Hub::new_in_memory();
    for n in ["alice", "bob", "carol"] {
        hub.mint_token(&h(n), AgentKind::Agent, T0).unwrap();
    }
    hub.dm(&h("alice"), &h("bob"), "note", "secret message", None, None, T0).unwrap();
    let cu = hub.catch_up(&h("carol"), None, false, 50).unwrap();
    assert!(!cu.messages.iter().any(|m| m.sum.contains("secret message")));
    let named = vec!["dm:alice+bob".to_string()];
    assert!(hub.catch_up(&h("carol"), Some(named.as_slice()), false, 50).unwrap().messages.is_empty());
    assert_eq!(hub.catch_up(&h("bob"), Some(named.as_slice()), false, 50).unwrap().messages.len(), 1);
}

#[test]
fn task_requires_assignee() {
    let (mut hub, code, _d) = fixture();
    assert!(matches!(hub.post(&code, "deploy", "task", "do x", None, &[], None, T0), Err(Error::TaskNeedsAssignee)));
    assert!(hub.post(&code, "deploy", "task", "do x", None, &["deploy".into()], None, T0).is_ok());
}

#[test]
fn post_refusals_name_what_is_wrong() {
    let (mut hub, code, _d) = fixture();
    assert!(matches!(hub.post(&code, "deploy", "note", "", None, &[], None, T0), Err(Error::TooLarge(x)) if x == "summary"));
    let long = "s".repeat(1025);
    assert!(matches!(hub.post(&code, "deploy", "note", &long, None, &[], None, T0), Err(Error::TooLarge(x)) if x == "summary"));
    let body = "b".repeat(262_145);
    assert!(matches!(hub.post(&code, "deploy", "note", "s", Some(&body), &[], None, T0), Err(Error::TooLarge(x)) if x == "body"));
    assert!(matches!(hub.post(&code, "deploy", "memo", "s", None, &[], None, T0), Err(Error::BadName(x)) if x == "memo"));
    assert!(matches!(hub.post(&code, "deploy", "note", "s", None, &["no way".into()], None, T0), Err(Error::BadName(_))));
    assert!(matches!(hub.post(&code, "nope", "note", "s", None, &[], None, T0), Err(Error::UnknownChannel(_))));
    assert!(matches!(hub.post(&code, "deploy", "note", "s", None, &[], Some(77), T0), Err(Error::BadReplyTarget(77))));
    hub.create_channel(&code, "other", "t", T0).unwrap();
    let elsewhere = hub.post(&code, "other", "note", "s", None, &[], None, T0).unwrap();
    assert!(matches!(hub.post(&code, "deploy", "note", "s", None, &[], Some(elsewhere), T0), Err(Error::BadReplyTarget(_))));
    assert_eq!(hub.store.messages.len(), 1);
}

#[test]
fn mentions_are_normalized_and_stored_in_order() {
    let (mut hub, code, _d) = fixture();
    hub.mint_token(&h("alpha"), AgentKind::Agent, T0).unwrap();
    let id = hub.post(&code, "deploy", "note", "s", None, &[" Deploy ".into(), "alpha".into()], None, T0).unwrap();
    let full = hub.read(&code, &[id]).unwrap();
    assert_eq!(full[0].to, vec!["alpha".to_string(), "deploy".to_string()]);
}

#[test]
fn dm_to_self_and_repeat_dm_reuse_the_channel() {
    let (mut hub, code, deploy) = fixture();
    let (a, n1) = hub.dm(&code, &deploy, "note", "one", None, None, T0).unwrap();
    let (b, n2) = hub.dm(&deploy, &code, "note", "two", None, Some(a), T0).unwrap();
    assert_eq!(n1, n2);
    assert_eq!(b, a + 1);
    assert_eq!(hub.store.channels.len(), 2);
    assert_eq!(hub.store.channels[1].members, vec!["code".to_string(), "deploy".to_string()]);
    assert!(matches!(hub.dm(&code, &deploy, "memo", "x", None, None, T0), Err(Error::BadName(_))));
    assert_eq!(hub.store.channels.len(), 2);
}
