use babylon::error::Error;
use babylon::hub::Hub;
use babylon::lifecycle::WaitStep;
use babylon::types::{AgentKind, Handle};

const T0: i64 = 1_700_000_000_000;

fn h(s: &str) -> Handle {
    Handle::parse(s).unwrap()
}

#[test]
fn wait_for_caps_concurrent_per_handle() {
    let mut hub = Hub::new_in_memory();
    let bob = h("bob");
    hub.mint_token(&bob, AgentKind::Agent, T0).unwrap();
    assert_eq!(hub.wait_begin(&bob, 2).unwrap(), 2000);
    assert_eq!(hub.wait_begin(&bob, 2).unwrap(), 2000);
    let third = hub.wait_begin(&bob, 1);
    assert!(matches!(third, Err(Error::TooLarge(_))));
    hub.wait_end(&bob);
    assert_eq!(hub.wait_begin(&bob, 1).unwrap(), 1000, "a slot frees when a wait ends");
}

#[test]
fn wait_budget_is_held_between_one_and_fifty_seconds() {
    let mut hub = Hub::new_in_memory();
    let bob = h("bob");
    assert_eq!(hub.wait_begin(&bob, 0).unwrap(), 1000);
    hub.wait_end(&bob);
    assert_eq!(hub.wait_begin(&bob, 500).unwrap(), 50_000);
    hub.wait_end(&bob);
    hub.wait_end(&bob);
    hub.wait_end(&bob);
    assert_eq!(hub.wait_begin(&bob, 25).unwrap(), 25_000, "ending more than begun never goes below zero");
}

#[test]
fn post_wakes_only_subscribers() {
    let mut hub = Hub::new_in_memory();
    let code = h("code");
    let sub = h("sub");
    let other = h("other");
    for x in [&code, &sub, &other] {
        hub.mint_token(x, AgentKind::Agent, T0).unwrap();
    }
    hub.create_channel(&code, "deploy", "t", T0).unwrap();
    hub.join_channel(&sub, "deploy").unwrap();
    assert!(matches!(hub.wait_poll(&sub, None, false, T0, T0 + 3000).unwrap(), WaitStep::Sleep(3000)));
    assert!(matches!(hub.wait_poll(&other, None, false, T0, T0 + 1000).unwrap(), WaitStep::Sleep(1000)));
    let id = hub.post(&code, "deploy", "note", "ping", None, &[], None, T0 + 50).unwrap();
    let woken = hub.wake_list(id);
    assert!(woken.contains(&"sub".to_string()));
    assert!(!woken.contains(&"other".to_string()));
    match hub.wait_poll(&sub, None, false, T0 + 60, T0 + 3000).unwrap() {
        WaitStep::Done(cu) => assert_eq!(cu.woke, Some(true)),
        WaitStep::Sleep(_) => panic!("the subscriber has a message"),
    }
    match hub.wait_poll(&other, None, false, T0 + 1000, T0 + 1000).unwrap() {
        WaitStep::Done(cu) => assert_eq!(cu.woke, Some(false)),
        WaitStep::Sleep(_) => panic!("the outsider's wait has run out"),
    }
}

#[test]
fn wait_for_wakes_on_post_before_timeout() {
    let mut hub = Hub::new_in_memory();
    let code = h("code");
    let bob = h("bob");
    hub.mint_token(&code, AgentKind::Agent, T0).unwrap();
    hub.mint_token(&bob, AgentKind::Agent, T0).unwrap();
    hub.create_channel(&code, "deploy", "t", T0).unwrap();
    hub.join_channel(&bob, "deploy").unwrap();
    let budget = hub.wait_begin(&bob, 5).unwrap() as i64;
    let deadline = T0 + budget;
    assert!(matches!(hub.wait_poll(&bob, None, false, T0, deadline).unwrap(), WaitStep::Sleep(5000)));
    hub.post(&code, "deploy", "note", "ping", None, &[], None, T0 + 50).unwrap();
    match hub.wait_poll(&bob, None, false, T0 + 50, deadline).unwrap() {
        WaitStep::Done(cu) => {
            assert_eq!(cu.woke, Some(true));
            assert_eq!(cu.messages.len(), 1);
        }
        WaitStep::Sleep(_) => panic!("expected the message"),
    }
    hub.wait_end(&bob);
}

#[test]
fn wait_for_times_out_empty() {
    let mut hub = Hub::new_in_memory();
    let bob = h("bob");
    hub.mint_token(&bob, AgentKind::Agent, T0).unwrap();
    let budget = hub.wait_begin(&bob, 1).unwrap() as i64;
    match hub.wait_poll(&bob, None, false, T0 + budget, T0 + budget).unwrap() {
        WaitStep::Done(cu) => {
            assert_eq!(cu.woke, Some(false));
            assert!(cu.messages.is_empty());
            assert!(cu.next_cursors.is_empty());
            assert!(!cu.has_more);
        }
        WaitStep::Sleep(_) => panic!("the wait has run out"),
    }
}

#[test]
fn resolve_authz_idempotent_and_kind_checked() {
    let mut hub = Hub::new_in_memory();
    let code = h("code");
    let deploy = h("deploy");
    let mallory = h("mallory");
    for x in [&code, &deploy, &mallory] {
        hub.mint_token(x, AgentKind::Agent, T0).unwrap();
    }
    hub.create_channel(&code, "deploy", "t", T0).unwrap();
    let task = hub.post(&code, "deploy", "task", "hand creds", None, &["deploy".into()], None, T0).unwrap();
    assert!(matches!(hub.resolve(&mallory, task, None, T0 + 1), Err(Error::NotAuthorizedToResolve(_))));
    let r1 = hub.resolve(&deploy, task, None, T0 + 2).unwrap();
    let r2 = hub.resolve(&code, task, None, T0 + 3).unwrap();
    assert_eq!(r1.resolved_by, "deploy");
    assert_eq!(r2.resolved_by, "deploy");
    assert_eq!(r2.resolved_at, T0 + 2, "resolving again returns the first resolution");
    let note = hub.post(&code, "deploy", "note", "fyi", None, &[], None, T0).unwrap();
    assert!(matches!(hub.resolve(&code, note, None, T0), Err(Error::BadResolveTarget(_))));
    assert!(matches!(hub.resolve(&code, 999, None, T0), Err(Error::BadResolveTarget(999))));
}

#[test]
fn operator_may_resolve_anything() {
    let mut hub = Hub::new_in_memory();
    let code = h("code");
    hub.mint_token(&code, AgentKind::Agent, T0).unwrap();
    hub.mint_token(&h("boss"), AgentKind::Operator, T0).unwrap();
    hub.create_channel(&code, "deploy", "t", T0).unwrap();
    let q = hub.post(&code, "deploy", "question", "why?", None, &[], None, T0).unwrap();
    let r = hub.resolve(&h("boss"), q, Some("closing"), T0 + 7).unwrap();
    assert_eq!((r.id, r.resolved_at, r.resolved_by.as_str()), (q, T0 + 7, "boss"));
}

#[test]
fn answer_auto_resolves_question_and_open_lists_filter() {
    let mut hub = Hub::new_in_memory();
    let code = h("code");
    let deploy = h("deploy");
    for x in [&code, &deploy] {
        hub.mint_token(x, AgentKind::Agent, T0).unwrap();
    }
    hub.create_channel(&code, "deploy", "t", T0).unwrap();
    let q = hub.post(&code, "deploy", "question", "deploy now?", None, &["deploy".into()], None, T0).unwrap();
    assert_eq!(hub.open_questions(&deploy, true, None).unwrap().len(), 1);
    hub.post(&deploy, "deploy", "answer", "yes", None, &[], Some(q), T0 + 1).unwrap();
    assert_eq!(hub.open_questions(&deploy, true, None).unwrap().len(), 0, "answer auto-resolves");
    hub.post(&code, "deploy", "task", "do x", None, &["deploy".into()], None, T0).unwrap();
    assert_eq!(hub.open_tasks(&deploy, true, None, None).unwrap().len(), 1);
    assert_eq!(hub.open_tasks(&code, true, None, None).unwrap().len(), 0, "not assigned to code");
    assert_eq!(hub.open_tasks(&code, true, Some("deploy"), None).unwrap().len(), 1, "owner filter");
    assert_eq!(hub.open_tasks(&code, false, None, Some("elsewhere")).unwrap().len(), 0, "channel filter");
    assert_eq!(hub.open_tasks(&code, false, None, Some("deploy")).unwrap().len(), 1);
}

#[test]
fn dm_questions_and_tasks_are_listed_only_to_members() {
    let mut hub = Hub::new_in_memory();
    for n in ["alice", "bob", "carol"] {
        hub.mint_token(&h(n), AgentKind::Agent, T0).unwrap();
    }
    let (q, dm) = hub.dm(&h("alice"), &h("bob"), "question", "ship it?", None, None, T0).unwrap();
    assert_eq!(dm, "dm:alice+bob");
    let t = hub.post(&h("alice"), &dm, "task", "ship it", None, &["bob".to_string()], None, T0).unwrap();
    let ids = |v: Vec<babylon::dto::MsgSummary>| v.into_iter().map(|m| m.id).collect::<Vec<_>>();
    assert!(!ids(hub.open_questions(&h("carol"), false, None).unwrap()).contains(&q));
    assert!(!ids(hub.open_tasks(&h("carol"), false, None, None).unwrap()).contains(&t));
    assert!(!ids(hub.open_tasks(&h("carol"), false, Some("bob"), None).unwrap()).contains(&t));
    assert!(ids(hub.open_questions(&h("bob"), false, None).unwrap()).contains(&q));
    assert!(ids(hub.open_questions(&h("alice"), false, None).unwrap()).contains(&q));
    assert!(ids(hub.open_tasks(&h("bob"), true, None, None).unwrap()).contains(&t));
}
