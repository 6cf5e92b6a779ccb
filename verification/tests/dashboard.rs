use babylon::dashboard::{
    archive_channel, archive_channel_from, create_channel, create_channel_from, history, post_message_from, overview, overview_from, post_message, provision, provision_from,
    tokens_mint, tokens_mint_from, tokens_revoke, tokens_rotate, tokens_rotate_from, CreateChannelRequest, HandleRequest, HistoryQuery, MintRequest, PostMessageRequest,
    ProvisionRequest,
};
use babylon::hub::Hub;
use babylon::token::token_from_bytes;
use babylon::types::{AgentKind, Handle};
use babylon::web::dashboard_access;

const T0: i64 = 1_700_000_000_000;
const OWNER: &str = "owner@example.com";

fn h(s: &str) -> Handle {
    Handle::parse(s).unwrap()
}

fn chan(name: &str, topic: &str) -> CreateChannelRequest {
    CreateChannelRequest { name: name.into(), topic: topic.into() }
}

fn note(channel: &str, summary: &str, body: Option<&str>) -> PostMessageRequest {
    PostMessageRequest {
        channel: channel.into(),
        kind: "note".into(),
        summary: summary.into(),
        body: body.map(|b| b.to_string()),
        mentions: vec![],
    }
}

fn query(channel: Option<&str>, before: Option<i64>, limit: Option<i64>) -> HistoryQuery {
    HistoryQuery { channel: channel.map(|c| c.to_string()), before, limit }
}

#[test]
fn overview_no_owner_returns_403() {
    assert_eq!(dashboard_access(None, Some(OWNER), Some("127.0.0.1:8787"), false, None, None, None, &[]), Err(403));
}

#[test]
fn overview_wrong_owner_returns_403() {
    assert_eq!(
        dashboard_access(Some(OWNER), Some("mallory@example.com"), Some("127.0.0.1:8787"), false, None, None, None, &[]),
        Err(403)
    );
}

#[test]
fn overview_correct_owner_returns_200_with_keys() {
    assert_eq!(dashboard_access(Some(OWNER), Some(OWNER), Some("127.0.0.1:8787"), false, None, None, None, &[]), Ok(()));
    let mut hub = Hub::new_in_memory();
    hub.mint_token(&h("code"), AgentKind::Agent, T0).unwrap();
    create_channel(&mut hub, &chan("ops", "operations"), T0).unwrap();
    hub.post(&h("code"), "ops", "question", "why?", None, &[], None, T0).unwrap();
    let o = overview(&mut hub, "abc123", true, 4096, T0).unwrap();
    assert_eq!(o.pin, "abc123");
    assert!(o.health.ok && o.health.ready);
    assert_eq!(o.db_bytes, 4096);
    assert_eq!((o.stats.agents, o.stats.channels, o.stats.messages), (2, 1, 1));
    assert_eq!(o.agents.iter().map(|a| a.handle.as_str()).collect::<Vec<_>>(), vec!["code", "operator"]);
    assert_eq!(o.channels.len(), 1);
    assert_eq!(o.open_questions.len(), 1);
    assert!(o.open_tasks.is_empty());
}

#[test]
fn overview_lists_open_questions_of_direct_channels_too() {
    let mut hub = Hub::new_in_memory();
    hub.mint_token(&h("alfa"), AgentKind::Agent, T0).unwrap();
    hub.mint_token(&h("bravo"), AgentKind::Agent, T0).unwrap();
    let (q, _) = hub.dm(&h("alfa"), &h("bravo"), "question", "ready?", None, None, T0).unwrap();
    let o = overview(&mut hub, "pin", true, 0, T0).unwrap();
    assert_eq!(o.open_questions.iter().map(|m| m.id).collect::<Vec<_>>(), vec![q]);
}

#[test]
fn post_missing_csrf_returns_403() {
    let allowed = vec!["babylon.example.ts.net".to_string()];
    assert_eq!(
        dashboard_access(Some(OWNER), Some(OWNER), Some("127.0.0.1:8787"), true, None, None, None, &allowed),
        Err(403)
    );
}

#[test]
fn post_mismatched_csrf_returns_403() {
    let allowed = vec!["babylon.example.ts.net".to_string()];
    assert_eq!(
        dashboard_access(
            Some(OWNER),
            Some(OWNER),
            Some("127.0.0.1:8787"),
            true,
            None,
            Some("babylon_csrf=aaa"),
            Some("bbb"),
            &allowed
        ),
        Err(403)
    );
}

#[test]
fn post_evil_origin_returns_403() {
    let allowed = vec!["babylon.example.ts.net".to_string()];
    assert_eq!(
        dashboard_access(
            Some(OWNER),
            Some(OWNER),
            Some("127.0.0.1:8787"),
            true,
            Some("https://evil.com"),
            Some("babylon_csrf=tok"),
            Some("tok"),
            &allowed
        ),
        Err(403)
    );
}

#[test]
fn post_loopback_origin_returns_200() {
    let allowed = vec!["babylon.example.ts.net".to_string()];
    assert_eq!(
        dashboard_access(
            Some(OWNER),
            Some(OWNER),
            Some("127.0.0.1:8787"),
            true,
            Some("http://127.0.0.1:8787"),
            Some("babylon_csrf=tok"),
            Some("tok"),
            &allowed
        ),
        Ok(())
    );
}

#[test]
fn mint_rotate_revoke_lifecycle() {
    let mut hub = Hub::new_in_memory();
    let minted = tokens_mint(&mut hub, &MintRequest { handle: "alpha".into(), kind: None }, T0).unwrap();
    assert_eq!(minted.handle, "alpha");
    assert!(minted.token.starts_with("bbln_"));
    assert_eq!(tokens_mint(&mut hub, &MintRequest { handle: "alpha".into(), kind: None }, T0).err(), Some(409));
    assert_eq!(tokens_mint(&mut hub, &MintRequest { handle: "no way".into(), kind: None }, T0).err(), Some(400));
    let rot = tokens_rotate(&mut hub, &HandleRequest { handle: "alpha".into() }).unwrap();
    assert!(rot.token.starts_with("bbln_"));
    assert_eq!(tokens_rotate(&mut hub, &HandleRequest { handle: "ghost".into() }).err(), Some(404));
    assert_eq!(tokens_revoke(&mut hub, &HandleRequest { handle: "ghost".into() }, T0), Err(404));
    assert_eq!(tokens_revoke(&mut hub, &HandleRequest { handle: "alpha".into() }, T0), Ok(()));
    let op = tokens_mint(&mut hub, &MintRequest { handle: "boss".into(), kind: Some("operator".into()) }, T0).unwrap();
    assert_eq!(hub.resolve_token(&op.token).unwrap().as_str(), "boss");
    assert_eq!(hub.store.agents[1].kind, AgentKind::Operator);
}

#[test]
fn channel_lifecycle() {
    let mut hub = Hub::new_in_memory();
    assert_eq!(create_channel(&mut hub, &chan("ops", "operations"), T0), Ok(()));
    assert_eq!(create_channel(&mut hub, &chan("dm:x", "nope"), T0), Err(400));
    assert_eq!(create_channel(&mut hub, &chan("ops", "operations"), T0), Err(409));
    assert_eq!(archive_channel(&mut hub, "ops", T0 + 1), Ok(()));
    assert_eq!(archive_channel(&mut hub, "dm:x", T0), Err(400));
    assert_eq!(hub.store.channels[0].created_by, "operator");
    assert_eq!(hub.store.channels[0].archived_at, Some(T0 + 1));
}

#[test]
fn history_owner_gated_and_paginates() {
    let mut hub = Hub::new_in_memory();
    create_channel(&mut hub, &chan("ops", "operations"), T0).unwrap();
    let mut ids = Vec::new();
    for i in 0..3 {
        ids.push(post_message(&mut hub, &note("ops", &format!("m{i}"), Some(&format!("b{i}"))), T0).unwrap());
    }
    let msgs = history(&hub, &query(Some("ops"), None, None)).unwrap();
    assert_eq!(msgs.iter().map(|m| m.id).collect::<Vec<_>>(), ids, "oldest to newest");
    assert_eq!(msgs[0].body.as_deref(), Some("b0"), "bodies present");
    let before = history(&hub, &query(Some("ops"), Some(ids[1]), None)).unwrap();
    assert_eq!(before.iter().map(|m| m.id).collect::<Vec<_>>(), vec![ids[0]], "before paginates");
    let last = history(&hub, &query(Some("ops"), None, Some(1))).unwrap();
    assert_eq!(last.iter().map(|m| m.id).collect::<Vec<_>>(), vec![ids[2]]);
}

#[test]
fn history_unknown_channel_returns_404() {
    let hub = Hub::new_in_memory();
    assert_eq!(history(&hub, &query(Some("nope"), None, None)).err(), Some(404));
    assert_eq!(history(&hub, &query(None, None, None)).err(), Some(400));
}

#[test]
fn operator_can_post_note_into_dm() {
    let mut hub = Hub::new_in_memory();
    hub.mint_token(&h("alfa"), AgentKind::Agent, T0).unwrap();
    hub.mint_token(&h("bravo"), AgentKind::Agent, T0).unwrap();
    hub.dm(&h("alfa"), &h("bravo"), "note", "hi", None, None, T0).unwrap();
    post_message(&mut hub, &note("dm:alfa+bravo", "op peek", None), T0).unwrap();
    let msgs = history(&hub, &query(Some("dm:alfa+bravo"), None, None)).unwrap();
    assert!(msgs.iter().any(|m| m.from == "operator" && m.summary == "op peek"));
}

#[test]
fn history_returns_xss_body_verbatim() {
    let mut hub = Hub::new_in_memory();
    create_channel(&mut hub, &chan("ops", "operations"), T0).unwrap();
    let payload = "<img src=x onerror=alert(1)>";
    post_message(&mut hub, &note("ops", "xss", Some(payload)), T0).unwrap();
    let msgs = history(&hub, &query(Some("ops"), None, None)).unwrap();
    assert!(msgs.iter().any(|m| m.body.as_deref() == Some(payload)));
}

#[test]
fn message_posting() {
    let mut hub = Hub::new_in_memory();
    create_channel(&mut hub, &chan("ops", "operations"), T0).unwrap();
    assert!(post_message(&mut hub, &note("ops", "hello", None), T0).is_ok());
    let task = PostMessageRequest {
        channel: "ops".into(),
        kind: "task".into(),
        summary: "do it".into(),
        body: None,
        mentions: vec![],
    };
    assert_eq!(post_message(&mut hub, &task, T0), Err(400));
    assert_eq!(post_message(&mut hub, &note("dm:x", "secret", None), T0), Err(404));
    let bogus = PostMessageRequest { kind: "bogus".into(), ..note("ops", "x", None) };
    assert_eq!(post_message(&mut hub, &bogus, T0), Err(400));
}

#[test]
fn conversations_returns_seeded_dm() {
    let mut hub = Hub::new_in_memory();
    hub.mint_token(&h("alfa"), AgentKind::Agent, T0).unwrap();
    hub.mint_token(&h("bravo"), AgentKind::Agent, T0).unwrap();
    hub.dm(&h("alfa"), &h("bravo"), "note", "hi", None, None, T0).unwrap();
    let convs = hub.conversations().unwrap();
    assert!(convs.iter().any(|c| c.name == "dm:alfa+bravo" && c.kind == "dm"));
}

#[test]
fn dashboard_provision_answers() {
    let mut hub = Hub::new_in_memory();
    let ok = provision(&mut hub, Some(OWNER), Some(OWNER), &ProvisionRequest { handle: "x1".into() }, T0).unwrap();
    assert_eq!(ok.handle, "x1");
    assert!(ok.token.starts_with("bbln_"));
    assert_eq!(
        provision(&mut hub, Some(OWNER), Some(OWNER), &ProvisionRequest { handle: "x1".into() }, T0).err(),
        Some(409)
    );
    assert_eq!(provision(&mut hub, None, Some(OWNER), &ProvisionRequest { handle: "x2".into() }, T0).err(), Some(403));
}

#[test]
fn dashboard_tokens_from_given_bytes() {
    let mut hub = Hub::new_in_memory();
    let m = |h: &str, k: Option<&str>| MintRequest { handle: h.into(), kind: k.map(|x| x.to_string()) };
    let t = tokens_mint_from(&mut hub, &m("Ops", Some("operator")), &[7u8; 32], T0).unwrap();
    assert_eq!((t.handle.as_str(), t.token.clone()), ("ops", token_from_bytes(&[7u8; 32])));
    assert_eq!(tokens_mint_from(&mut hub, &m("dev", None), &[7u8; 32], T0).err(), Some(500));
    assert_eq!(tokens_mint_from(&mut hub, &m("ops", None), &[8u8; 32], T0).err(), Some(409));
    assert_eq!(tokens_mint_from(&mut hub, &m("a b", None), &[8u8; 32], T0).err(), Some(400));
    let hr = |h: &str| HandleRequest { handle: h.into() };
    assert_eq!(tokens_rotate_from(&mut hub, &hr("ops"), &[9u8; 32]).unwrap().token, token_from_bytes(&[9u8; 32]));
    assert_eq!(tokens_rotate_from(&mut hub, &hr("ops"), &[9u8; 32]).err(), Some(500));
    assert_eq!(tokens_rotate_from(&mut hub, &hr("nobody"), &[1u8; 32]).err(), Some(404));
    let p = provision_from(&mut hub, Some(OWNER), Some(OWNER), &ProvisionRequest { handle: "bot".into() }, &[2u8; 32], T0)
        .unwrap();
    assert_eq!((p.handle.as_str(), p.token.clone()), ("bot", token_from_bytes(&[2u8; 32])));
    let held = babylon::token::hash_token(&p.token);
    assert_eq!(overview_from(&mut hub, "pin", true, 0, held, T0).err(), Some(500));
    let o = overview_from(&mut hub, "pin", true, 0, vec![3u8; 32], T0).unwrap();
    assert_eq!(o.stats.agents, 3);
    assert!(hub.agent_exists("operator").unwrap());
}

#[test]
fn operator_writes_from_a_given_operator_hash() {
    let mut hub = Hub::new_in_memory();
    let t = hub.mint_token(&h("code"), AgentKind::Agent, T0).unwrap();
    let held = babylon::token::hash_token(&t);
    assert_eq!(create_channel_from(&mut hub, &chan("ops", "t"), held.clone(), T0), Err(500));
    assert!(!hub.agent_exists("operator").unwrap());
    assert_eq!(create_channel_from(&mut hub, &chan("dm:x", "t"), held.clone(), T0), Err(400));
    assert_eq!(create_channel_from(&mut hub, &chan("ops", "t"), vec![4u8; 32], T0), Ok(()));
    assert!(hub.agent_exists("operator").unwrap());
    assert_eq!(post_message_from(&mut hub, &note("ops", "hi", None), Vec::new(), T0), Ok(1));
    assert_eq!(archive_channel_from(&mut hub, "ops", Vec::new(), T0), Ok(()));
    assert!(hub.store.is_well_formed());
}
