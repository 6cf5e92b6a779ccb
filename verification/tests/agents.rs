use babylon::error::Error;
use babylon::hub::Hub;
use babylon::types::{AgentKind, Handle};

const T0: i64 = 1_700_000_000_000;

fn h(s: &str) -> Handle {
    Handle::parse(s).unwrap()
}

#[test]
fn hub_builds_over_store() {
    let hub = Hub::new_in_memory();
    assert!(hub.now_ms() > 0);
    assert!(hub.store.agents.is_empty());
}

#[test]
fn mint_existing_handle_returns_handle_exists() {
    let mut hub = Hub::new_in_memory();
    let code = h("code");
    let original_token = hub.mint_token(&code, AgentKind::Agent, T0).unwrap();
    let err = hub.mint_token(&code, AgentKind::Agent, T0);
    assert!(matches!(err, Err(Error::HandleExists(_))), "got {err:?}");
    assert_eq!(hub.resolve_token(&original_token).unwrap().as_str(), "code");
}

#[test]
fn mint_then_resolve_then_revoke() {
    let mut hub = Hub::new_in_memory();
    let code = h("code");
    let token = hub.mint_token(&code, AgentKind::Agent, T0).unwrap();
    assert_eq!(hub.resolve_token(&token).unwrap().as_str(), "code");
    hub.revoke_token(&code, T0 + 1).unwrap();
    assert!(matches!(hub.resolve_token(&token), Err(Error::TokenRevoked)));
}

#[test]
fn rotate_invalidates_old() {
    let mut hub = Hub::new_in_memory();
    let code = h("code");
    let t1 = hub.mint_token(&code, AgentKind::Agent, T0).unwrap();
    let t2 = hub.rotate_token(&code).unwrap();
    assert!(hub.resolve_token(&t1).is_err());
    assert_eq!(hub.resolve_token(&t2).unwrap().as_str(), "code");
}

#[test]
fn rotate_lifts_a_revocation() {
    let mut hub = Hub::new_in_memory();
    let code = h("code");
    hub.mint_token(&code, AgentKind::Agent, T0).unwrap();
    hub.revoke_token(&code, T0 + 1).unwrap();
    let t2 = hub.rotate_token(&code).unwrap();
    assert_eq!(hub.resolve_token(&t2).unwrap().as_str(), "code");
}

#[test]
fn ensure_operator_is_idempotent_and_unusable() {
    let mut hub = Hub::new_in_memory();
    hub.ensure_operator(T0).unwrap();
    let ops: Vec<_> = hub.store.agents.iter().filter(|a| a.handle == "operator").collect();
    assert_eq!(ops.len(), 1);
    assert_eq!(ops[0].kind, AgentKind::Operator);
    let hash1 = ops[0].token_hash.clone();
    hub.ensure_operator(T0 + 5).unwrap();
    let ops: Vec<_> = hub.store.agents.iter().filter(|a| a.handle == "operator").collect();
    assert_eq!(ops.len(), 1, "repeat call must not create a second row");
    assert_eq!(ops[0].token_hash, hash1, "repeat call must not mutate the hash");
    assert_eq!(hub.store.agents.len(), 1);
    assert!(matches!(hub.resolve_token("bbln_guess"), Err(Error::Unauthorized)));
}

#[test]
fn revoke_and_rotate_missing_handle_return_unknown_handle() {
    let mut hub = Hub::new_in_memory();
    let ghost = h("ghost");
    assert!(matches!(hub.revoke_token(&ghost, T0), Err(Error::UnknownHandle(_))));
    assert!(matches!(hub.rotate_token(&ghost), Err(Error::UnknownHandle(_))));
}

#[test]
fn register_sets_role_and_presence_online() {
    let mut hub = Hub::new_in_memory();
    let code = h("code");
    hub.mint_token(&code, AgentKind::Agent, T0).unwrap();
    let r = hub.register(&code, Some("app-side".into()), T0 + 10).unwrap();
    assert_eq!(r.handle, "code");
    let agents = hub.list_agents(T0 + 20).unwrap();
    let me = agents.iter().find(|a| a.handle == "code").unwrap();
    assert!(me.online);
    assert_eq!(me.role.as_deref(), Some("app-side"));
    assert_eq!(me.last_seen, T0 + 10);
}

#[test]
fn presence_lapses_after_ninety_seconds() {
    let mut hub = Hub::new_in_memory();
    let code = h("code");
    hub.mint_token(&code, AgentKind::Agent, T0).unwrap();
    hub.register(&code, None, T0).unwrap();
    assert!(hub.list_agents(T0 + 90_999).unwrap()[0].online);
    assert!(!hub.list_agents(T0 + 91_000).unwrap()[0].online);
    assert!(hub.presence.online("code", 90, T0 + 1000));
    assert!(!hub.presence.online("nobody", 90, T0));
}

#[test]
fn list_agents_orders_by_handle() {
    let mut hub = Hub::new_in_memory();
    for n in ["zed", "code", "mid"] {
        hub.mint_token(&h(n), AgentKind::Agent, T0).unwrap();
    }
    let names: Vec<String> = hub.list_agents(T0).unwrap().into_iter().map(|a| a.handle).collect();
    assert_eq!(names, vec!["code", "mid", "zed"]);
    assert!(hub.agent_exists("mid").unwrap());
    assert!(!hub.agent_exists("nobody").unwrap());
}

#[test]
fn register_reports_unread_counts_capped_at_fifty() {
    let mut hub = Hub::new_in_memory();
    let code = h("code");
    let bob = h("bob");
    hub.mint_token(&code, AgentKind::Agent, T0).unwrap();
    hub.mint_token(&bob, AgentKind::Agent, T0).unwrap();
    hub.create_channel(&code, "deploy", "t", T0).unwrap();
    hub.create_channel(&code, "quiet", "t", T0).unwrap();
    hub.join_channel(&bob, "deploy").unwrap();
    hub.join_channel(&bob, "quiet").unwrap();
    for i in 0..60 {
        hub.post(&code, "deploy", "note", &format!("m{i}"), None, &[], None, T0 + i).unwrap();
    }
    let r = hub.register(&bob, None, T0 + 100).unwrap();
    assert_eq!(r.unread, vec![("deploy".to_string(), 50)]);
    assert_eq!(
        hub.unread_counts(&code).unwrap(),
        vec![("deploy".to_string(), 50)],
        "an author's later posts stay unread for it: posting keeps its cursor"
    );
}

#[test]
fn provision_owner_new_handle_returns_200_and_valid_token() {
    let mut hub = Hub::new_in_memory();
    let (handle, token) = hub.provision(Some("me@x"), Some("me@x"), "New-Agent", T0).unwrap();
    assert_eq!(handle, "new-agent");
    assert!(token.starts_with("bbln_"));
    assert_eq!(hub.resolve_token(&token).unwrap().as_str(), "new-agent");
}

#[test]
fn provision_wrong_header_returns_403() {
    let mut hub = Hub::new_in_memory();
    assert_eq!(hub.provision(Some("me@x"), Some("you@x"), "a", T0), Err(403));
    assert!(hub.store.agents.is_empty());
}

#[test]
fn provision_missing_header_returns_403() {
    let mut hub = Hub::new_in_memory();
    assert_eq!(hub.provision(Some("me@x"), None, "a", T0), Err(403));
}

#[test]
fn provision_existing_handle_returns_409() {
    let mut hub = Hub::new_in_memory();
    hub.mint_token(&h("a"), AgentKind::Agent, T0).unwrap();
    assert_eq!(hub.provision(Some("me@x"), Some("me@x"), "a", T0), Err(409));
    assert_eq!(hub.provision(Some("me@x"), Some("me@x"), "bad name", T0), Err(400));
}

#[test]
fn provision_no_owner_login_returns_403() {
    let mut hub = Hub::new_in_memory();
    assert_eq!(hub.provision(None, Some(""), "a", T0), Err(403));
}

#[test]
fn prod_auth_valid_token_can_register_and_list() {
    let mut hub = Hub::new_in_memory();
    let token = hub.mint_token(&h("code"), AgentKind::Agent, T0).unwrap();
    let bearer = format!("Bearer {token}");
    assert_eq!(hub.authenticate(false, None, Some(&bearer), T0 + 1).as_deref(), Some("code"));
    assert!(hub.presence.online("code", 90, T0 + 2) == false, "touch keeps liveness as it was");
    hub.register(&h("code"), None, T0 + 3).unwrap();
    assert_eq!(hub.list_agents(T0 + 4).unwrap().len(), 1);
}

#[test]
fn prod_auth_bogus_token_rejected() {
    let mut hub = Hub::new_in_memory();
    let token = hub.mint_token(&h("code"), AgentKind::Agent, T0).unwrap();
    assert_eq!(hub.authenticate(false, None, Some("Bearer bbln_bogus"), T0), None);
    assert_eq!(hub.authenticate(false, None, Some(&token), T0), None, "the Bearer prefix is required");
    assert_eq!(hub.authenticate(false, None, None, T0), None);
    assert_eq!(hub.authenticate(false, Some("code"), None, T0), None, "the handle header counts only in dev mode");
}

#[test]
fn prod_auth_revoked_token_rejected() {
    let mut hub = Hub::new_in_memory();
    let token = hub.mint_token(&h("code"), AgentKind::Agent, T0).unwrap();
    hub.revoke_token(&h("code"), T0).unwrap();
    assert_eq!(hub.authenticate(false, None, Some(&format!("Bearer {token}")), T0), None);
}

#[test]
fn dev_auth_trusts_registered_handle_header() {
    let mut hub = Hub::new_in_memory();
    hub.mint_token(&h("code"), AgentKind::Agent, T0).unwrap();
    assert_eq!(hub.authenticate(true, Some("code"), None, T0).as_deref(), Some("code"));
    assert_eq!(hub.authenticate(true, Some("ghost"), None, T0), None);
    assert_eq!(hub.authenticate(true, None, Some("Bearer x"), T0), None);
}

#[test]
fn minted_and_rotated_tokens_keep_the_tables_whole() {
    let mut hub = Hub::new_in_memory();
    let a = hub.mint_token(&h("code"), AgentKind::Agent, T0).unwrap();
    let b = hub.mint_token(&h("deploy"), AgentKind::Agent, T0).unwrap();
    hub.ensure_operator(T0).unwrap();
    assert_ne!(a, b);
    let c = hub.rotate_token(&h("code")).unwrap();
    assert!(hub.store.is_well_formed());
    assert_eq!(hub.resolve_token(&c).unwrap().as_str(), "code");
    assert_eq!(hub.resolve_token(&b).unwrap().as_str(), "deploy");
    assert!(matches!(hub.resolve_token(&a), Err(babylon::error::Error::Unauthorized)));
}

#[test]
fn minting_from_given_bytes_fixes_the_token_and_refuses_a_held_one() {
    let mut hub = Hub::new_in_memory();
    let a = [1u8; 32];
    let t = hub.mint_token_from(&h("code"), AgentKind::Agent, &a, T0).unwrap();
    assert_eq!(t, babylon::token::token_from_bytes(&a));
    assert_eq!(hub.resolve_token(&t).unwrap().as_str(), "code");
    assert!(matches!(hub.mint_token_from(&h("deploy"), AgentKind::Agent, &a, T0), Err(Error::RandomUnavailable)));
    assert!(matches!(hub.mint_token_from(&h("code"), AgentKind::Agent, &[2u8; 32], T0), Err(Error::HandleExists(_))));
    assert!(matches!(hub.rotate_token_from(&h("code"), &a), Err(Error::RandomUnavailable)));
    let t2 = hub.rotate_token_from(&h("code"), &[3u8; 32]).unwrap();
    assert_eq!(t2, babylon::token::token_from_bytes(&[3u8; 32]));
    assert!(matches!(hub.resolve_token(&t), Err(Error::Unauthorized)));
    assert!(matches!(hub.rotate_token_from(&h("ghost"), &[4u8; 32]), Err(Error::UnknownHandle(_))));
    let held = babylon::token::hash_token(&t2);
    assert!(matches!(hub.ensure_operator_from(held, T0), Err(Error::RandomUnavailable)));
    hub.ensure_operator_from(vec![9u8; 32], T0).unwrap();
    assert!(hub.agent_exists("operator").unwrap());
    assert_eq!(
        hub.provision_from(Some("me@x"), Some("me@x"), "Bob", &[5u8; 32], T0).unwrap(),
        ("bob".to_string(), babylon::token::token_from_bytes(&[5u8; 32]))
    );
    assert_eq!(hub.provision_from(Some("me@x"), Some("me@x"), "eve", &[5u8; 32], T0), Err(500));
    assert_eq!(hub.provision_from(Some("me@x"), Some("other"), "eve", &[6u8; 32], T0), Err(403));
    assert!(hub.store.is_well_formed());
}
