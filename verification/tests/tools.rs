use babylon::error::{Error, McpErrorKind};
use babylon::hub::Hub;
use babylon::tools::{
    ack, archive_channel, catch_up, caller, create_channel, dm, file_issue, join_channel, leave_channel,
    list_agents, list_channels, open_questions, open_tasks, post, read, register, resolve, wait_for_timeout, yes,
    AckParams, AuthedHandle, CatchUpParams, ChannelNameParams, CreateChannelParams, DmParams, FileIssueParams,
    ListChannelsParams, OpenQuestionsParams, OpenTasksParams, PostParams, ReadParams, RegisterParams,
    ResolveParams, WaitForParams,
};
use babylon::types::{AgentKind, Handle};

const T0: i64 = 1_700_000_000_000;

fn h(s: &str) -> Handle {
    Handle::parse(s).unwrap()
}

fn posted(channel: &str, kind: &str, summary: &str, mentions: &[&str]) -> PostParams {
    PostParams {
        channel: channel.into(),
        kind: kind.into(),
        summary: summary.into(),
        body: None,
        mentions: mentions.iter().map(|m| m.to_string()).collect(),
        reply_to: None,
    }
}

#[test]
fn server_constructs_with_all_tool_schemas() {
    assert!(yes());
    assert_eq!(wait_for_timeout(&WaitForParams { timeout_secs: None, channels: None, only_mentions: false }), 25);
    assert_eq!(wait_for_timeout(&WaitForParams { timeout_secs: Some(3), channels: None, only_mentions: true }), 3);
}

#[test]
fn caller_needs_an_authenticated_valid_handle() {
    assert_eq!(caller(Some(&AuthedHandle("Code".into()))).unwrap().as_str(), "code");
    match caller(None) {
        Err((McpErrorKind::InvalidRequest, m)) => assert_eq!(m, "unauthenticated"),
        other => panic!("unexpected {:?}", other.map(|h| h.into_string()).map_err(|e| e.1)),
    }
    match caller(Some(&AuthedHandle("not a handle".into()))) {
        Err((McpErrorKind::InvalidRequest, m)) => assert_eq!(m, "bad handle"),
        other => panic!("unexpected {:?}", other.map(|h| h.into_string()).map_err(|e| e.1)),
    }
}

#[test]
fn tools_drive_a_whole_conversation() {
    let mut hub = Hub::new_in_memory();
    let code = h("code");
    let bob = h("bob");
    hub.mint_token(&code, AgentKind::Agent, T0).unwrap();
    hub.mint_token(&bob, AgentKind::Agent, T0).unwrap();
    let reg = register(&mut hub, &bob, RegisterParams { role: Some("ops".into()) }, T0).unwrap();
    assert_eq!(reg.handle, "bob");
    let created = create_channel(&mut hub, &code, &CreateChannelParams { name: "deploy".into(), topic: "t".into() }, T0)
        .unwrap();
    assert!(created.created);
    assert_eq!(join_channel(&mut hub, &bob, &ChannelNameParams { name: "deploy".into() }).unwrap().unread, 0);
    let q = post(&mut hub, &code, &posted("deploy", "question", "ready?", &["bob"]), T0).unwrap().id;
    let cu = catch_up(&hub, &bob, &CatchUpParams { channels: None, only_mentions: false, limit: None }).unwrap();
    assert_eq!(cu.messages.iter().map(|m| m.id).collect::<Vec<_>>(), vec![q]);
    let full = read(&hub, &bob, &ReadParams { ids: vec![q] }).unwrap();
    assert_eq!(full.messages[0].sum, "ready?");
    assert_eq!(open_questions(&hub, &bob, &OpenQuestionsParams { mine_only: true, channel: None }).unwrap().questions.len(), 1);
    let answer = PostParams { reply_to: Some(q), ..posted("deploy", "answer", "yes", &[]) };
    post(&mut hub, &bob, &answer, T0 + 1).unwrap();
    assert!(open_questions(&hub, &bob, &OpenQuestionsParams { mine_only: true, channel: None }).unwrap().questions.is_empty());
    assert!(ack(&mut hub, &bob, &AckParams { channel: "deploy".into(), up_to_id: q + 1 }).unwrap().acked);
    assert!(catch_up(&hub, &bob, &CatchUpParams { channels: None, only_mentions: false, limit: Some(5) })
        .unwrap()
        .messages
        .is_empty());
    let t = post(&mut hub, &code, &posted("deploy", "task", "ship", &["bob"]), T0).unwrap().id;
    assert_eq!(open_tasks(&hub, &code, &OpenTasksParams { mine_only: true, owner: Some("bob".into()), channel: None })
        .unwrap()
        .tasks
        .len(), 1);
    let r = resolve(&mut hub, &bob, &ResolveParams { id: t, note: None }, T0 + 2).unwrap();
    assert_eq!(r.resolved_by, "bob");
    let d = dm(
        &mut hub,
        &code,
        &DmParams { to: "Bob".into(), kind: "note".into(), summary: "psst".into(), body: None, reply_to: None },
        T0,
    )
    .unwrap();
    assert_eq!(d.channel, "dm:bob+code");
    assert!(matches!(
        dm(&mut hub, &code, &DmParams { to: "no one".into(), kind: "note".into(), summary: "x".into(), body: None, reply_to: None }, T0),
        Err(Error::BadName(_))
    ));
    let listed = list_channels(&hub, &bob, &ListChannelsParams { include_archived: false }).unwrap();
    assert_eq!(listed.channels.iter().map(|c| c.name.as_str()).collect::<Vec<_>>(), vec!["deploy", "dm:bob+code"]);
    assert!(leave_channel(&mut hub, &bob, &ChannelNameParams { name: "deploy".into() }).unwrap().ok);
    assert!(archive_channel(&mut hub, &code, &ChannelNameParams { name: "deploy".into() }, T0).unwrap().ok);
    assert_eq!(list_channels(&hub, &bob, &ListChannelsParams { include_archived: false }).unwrap().channels.len(), 1);
    let agents = list_agents(&hub, T0 + 5).unwrap().agents;
    assert_eq!(agents.iter().map(|a| a.handle.as_str()).collect::<Vec<_>>(), vec!["bob", "code"]);
    assert!(agents[0].online);
    let issue = file_issue(
        &mut hub,
        &code,
        &FileIssueParams {
            channel: "deploy".into(),
            title: "follow up".into(),
            body: None,
            assignee: Some("bob".into()),
            parent: None,
            prefix: Some("dep".into()),
        },
        T0,
    )
    .unwrap();
    assert_eq!(issue.reference, "#dep-1");
}
