use babylon::error::Error;
use babylon::hub::Hub;
use babylon::types::{AgentKind, Handle};

const T0: i64 = 1_700_000_000_000;

fn h(s: &str) -> Handle {
    Handle::parse(s).unwrap()
}

fn seeded() -> (Hub, Handle, Handle) {
    let mut hub = Hub::new_in_memory();
    let code = h("code");
    let deploy = h("deploy");
    hub.mint_token(&code, AgentKind::Agent, T0).unwrap();
    hub.mint_token(&deploy, AgentKind::Agent, T0).unwrap();
    hub.create_channel(&code, "deploy", "deploy talk", T0).unwrap();
    (hub, code, deploy)
}

#[test]
fn channel_history_orders_oldest_to_newest_with_body_and_mentions() {
    let (mut hub, code, deploy) = seeded();
    let m1 = hub.post(&code, "deploy", "note", "m1", Some("body1"), &[], None, T0).unwrap();
    let q = hub
        .post(&code, "deploy", "question", "need creds?", Some("qbody"), &["deploy".into()], None, T0)
        .unwrap();
    hub.post(&deploy, "deploy", "answer", "yes", None, &[], Some(q), T0 + 5).unwrap();
    let hist = hub.channel_history("deploy", None, 50).unwrap();
    let ids: Vec<i64> = hist.iter().map(|m| m.id).collect();
    assert_eq!(ids, vec![m1, q, q + 1], "oldest to newest");
    let first = &hist[0];
    assert_eq!(first.channel, "deploy");
    assert_eq!(first.body.as_deref(), Some("body1"));
    assert_eq!(first.from, "code");
    let question = hist.iter().find(|m| m.id == q).unwrap();
    assert_eq!(question.to, vec!["deploy".to_string()]);
    assert!(question.resolved_at.is_some(), "question auto-resolved");
    assert_eq!(question.resolved_by.as_deref(), Some("deploy"));
    assert_eq!(hist[2].reply_to, Some(q));
    assert_eq!(hist[2].kind, "answer");
}

#[test]
fn channel_history_before_paginates() {
    let (mut hub, code, _deploy) = seeded();
    let mut ids = Vec::new();
    for i in 0..5 {
        ids.push(hub.post(&code, "deploy", "note", &format!("m{i}"), None, &[], None, T0).unwrap());
    }
    let page = hub.channel_history("deploy", Some(ids[2]), 50).unwrap();
    let got: Vec<i64> = page.iter().map(|m| m.id).collect();
    assert_eq!(got, vec![ids[0], ids[1]], "only ids strictly < before");
}

#[test]
fn channel_history_keeps_the_newest_within_the_limit() {
    let (mut hub, code, _deploy) = seeded();
    let mut ids = Vec::new();
    for i in 0..5 {
        ids.push(hub.post(&code, "deploy", "note", &format!("m{i}"), None, &[], None, T0).unwrap());
    }
    let page = hub.channel_history("deploy", None, 2).unwrap();
    assert_eq!(page.iter().map(|m| m.id).collect::<Vec<_>>(), vec![ids[3], ids[4]]);
    let all = hub.channel_history("deploy", None, 0).unwrap();
    assert_eq!(all.len(), 5, "a limit of zero means the maximum");
    let big = hub.channel_history("deploy", None, 10_000).unwrap();
    assert_eq!(big.len(), 5);
}

#[test]
fn channel_history_god_view_reads_dm_without_membership() {
    let (mut hub, code, deploy) = seeded();
    let (id, chname) = hub.dm(&code, &deploy, "note", "secret", Some("dmbody"), None, T0).unwrap();
    assert_eq!(chname, "dm:code+deploy");
    let hist = hub.channel_history(&chname, None, 50).unwrap();
    assert_eq!(hist.iter().map(|m| m.id).collect::<Vec<_>>(), vec![id]);
    assert_eq!(hist[0].body.as_deref(), Some("dmbody"));
}

#[test]
fn channel_history_unknown_channel_errors() {
    let (hub, _code, _deploy) = seeded();
    assert!(matches!(hub.channel_history("nope", None, 50), Err(Error::UnknownChannel(_))));
}

#[test]
fn conversations_includes_dm_with_members_counts_and_archived() {
    let (mut hub, code, deploy) = seeded();
    let bob = h("bob");
    hub.mint_token(&bob, AgentKind::Agent, T0).unwrap();
    hub.join_channel(&bob, "deploy").unwrap();
    hub.post(&code, "deploy", "note", "m1", None, &[], None, T0 + 1).unwrap();
    hub.post(&code, "deploy", "note", "m2", None, &[], None, T0 + 2).unwrap();
    hub.create_channel(&code, "ops", "ops talk", T0).unwrap();
    hub.archive_channel(&code, "ops", T0).unwrap();
    hub.dm(&code, &deploy, "note", "secret", None, None, T0 + 3).unwrap();

    let convs = hub.conversations().unwrap();

    let dm = convs.iter().find(|c| c.name == "dm:code+deploy").unwrap();
    assert_eq!(dm.kind, "dm");
    let mut dm_members = dm.members.clone();
    dm_members.sort();
    assert_eq!(dm_members, vec!["code".to_string(), "deploy".to_string()]);
    assert_eq!(dm.message_count, 1);
    assert!(dm.last_activity_ts.is_some());

    let deploy_ch = convs.iter().find(|c| c.name == "deploy").unwrap();
    assert_eq!(deploy_ch.message_count, 2);
    let mut members = deploy_ch.members.clone();
    members.sort();
    assert_eq!(members, vec!["bob".to_string(), "code".to_string()]);
    assert!(!deploy_ch.archived);

    let ops = convs.iter().find(|c| c.name == "ops").unwrap();
    assert!(ops.archived);
    assert_eq!(ops.message_count, 0);
    assert_eq!(ops.last_activity_ts, None);
}

#[test]
fn conversations_are_ordered_by_latest_activity_then_name() {
    let (mut hub, code, _deploy) = seeded();
    hub.create_channel(&code, "beta", "t", T0).unwrap();
    hub.create_channel(&code, "alpha", "t", T0).unwrap();
    hub.create_channel(&code, "quiet", "t", T0).unwrap();
    hub.create_channel(&code, "aaa-quiet", "t", T0).unwrap();
    hub.post(&code, "deploy", "note", "old", None, &[], None, T0 + 1).unwrap();
    hub.post(&code, "beta", "note", "new", None, &[], None, T0 + 9).unwrap();
    hub.post(&code, "alpha", "note", "new", None, &[], None, T0 + 9).unwrap();
    let names: Vec<String> = hub.conversations().unwrap().into_iter().map(|c| c.name).collect();
    assert_eq!(names, vec!["alpha", "beta", "deploy", "aaa-quiet", "quiet"]);
    let c = hub.conversations().unwrap();
    assert_eq!(c[0].last_activity_ts, Some(T0 + 9));
    assert_eq!(c[0].members, vec!["code".to_string()]);
}

#[test]
fn admin_view_and_table_sizes() {
    let (mut hub, code, deploy) = seeded();
    hub.join_channel(&deploy, "deploy").unwrap();
    hub.post(&code, "deploy", "note", "m", None, &[], None, T0 + 4).unwrap();
    hub.create_channel(&code, "alpha", "t", T0).unwrap();
    let chans = hub.admin_channels().unwrap();
    assert_eq!(chans.iter().map(|c| c.name.as_str()).collect::<Vec<_>>(), vec!["alpha", "deploy"]);
    assert_eq!(chans[1].member_count, 2);
    assert_eq!(chans[1].message_count, 1);
    assert_eq!(chans[1].last_activity_ts, Some(T0 + 4));
    assert_eq!(chans[0].member_count, 0);
    let stats = hub.global_stats().unwrap();
    assert_eq!((stats.agents, stats.channels, stats.messages), (2, 2, 1));
}

#[test]
fn wake_list_names_active_subscribers_of_the_channel() {
    let (mut hub, code, deploy) = seeded();
    let other = h("other");
    hub.mint_token(&other, AgentKind::Agent, T0).unwrap();
    hub.join_channel(&deploy, "deploy").unwrap();
    let id = hub.post(&code, "deploy", "note", "ping", None, &[], None, T0).unwrap();
    let mut woken = hub.wake_list(id);
    woken.sort();
    assert_eq!(woken, vec!["code".to_string(), "deploy".to_string()]);
    assert!(hub.wake_list(999).is_empty());
}
