use babylon::error::Error;
use babylon::hub::Hub;
use babylon::types::{AgentKind, Handle, IssueStatus};

const T0: i64 = 1_700_000_000_000;

fn h(s: &str) -> Handle {
    Handle::parse(s).unwrap()
}

fn two_agents() -> (Hub, Handle, Handle) {
    let mut hub = Hub::new_in_memory();
    let code = h("code");
    let dep = h("deploy");
    hub.mint_token(&code, AgentKind::Agent, T0).unwrap();
    hub.mint_token(&dep, AgentKind::Agent, T0).unwrap();
    (hub, code, dep)
}

#[test]
fn file_issue_assigns_ref_and_per_channel_number() {
    let (mut hub, code, _dep) = two_agents();
    hub.create_channel(&code, "pmv2", "polymarket v2", T0).unwrap();
    let a = hub.file_issue(&code, "pmv2", "first", None, Some("deploy"), None, Some("pmv2"), T0).unwrap();
    let b = hub.file_issue(&code, "pmv2", "second", None, None, None, None, T0).unwrap();
    assert_eq!(a.reference, "#pmv2-1");
    assert_eq!(b.reference, "#pmv2-2");
    assert_eq!(b.number, 2);
}

#[test]
fn assigned_issue_reaches_assignee_via_catch_up() {
    let (mut hub, code, dep) = two_agents();
    hub.create_channel(&code, "pmv2", "t", T0).unwrap();
    let i = hub.file_issue(&code, "pmv2", "do x", None, Some("deploy"), None, None, T0).unwrap();
    let cu = hub.catch_up(&dep, None, false, 50).unwrap();
    assert!(cu.messages.iter().any(|m| m.id == i.id));
}

#[test]
fn channel_owned_issue_needs_no_assignee() {
    let (mut hub, code, _dep) = two_agents();
    hub.create_channel(&code, "pmv2", "t", T0).unwrap();
    let j = hub.file_issue(&code, "pmv2", "anyone", None, None, None, None, T0).unwrap();
    assert_eq!(j.reference, "#pmv2-1");
}

#[test]
fn duplicate_prefix_rejected() {
    let (mut hub, code, _dep) = two_agents();
    hub.create_channel(&code, "alpha", "t", T0).unwrap();
    hub.create_channel(&code, "beta", "t", T0).unwrap();
    hub.file_issue(&code, "alpha", "x", None, None, None, Some("shared"), T0).unwrap();
    let err = hub.file_issue(&code, "beta", "y", None, None, None, Some("shared"), T0);
    assert!(matches!(err, Err(Error::DuplicatePrefix(_))));
}

#[test]
fn numbers_are_per_channel_and_prefix_sticks() {
    let (mut hub, code, _dep) = two_agents();
    hub.create_channel(&code, "alpha", "t", T0).unwrap();
    hub.create_channel(&code, "beta", "t", T0).unwrap();
    let a1 = hub.file_issue(&code, "alpha", "x", None, None, None, Some("AL"), T0).unwrap();
    let b1 = hub.file_issue(&code, "beta", "y", None, None, None, None, T0).unwrap();
    let a2 = hub.file_issue(&code, "alpha", "z", None, None, None, Some("ignored"), T0).unwrap();
    assert_eq!((a1.reference.as_str(), a1.number), ("#al-1", 1));
    assert_eq!((b1.reference.as_str(), b1.number), ("#beta-1", 1));
    assert_eq!((a2.reference.as_str(), a2.number), ("#al-2", 2));
    assert_eq!(hub.store.issues.len(), 3);
    assert!(hub.store.issues.iter().all(|i| i.status == IssueStatus::Open));
}

#[test]
fn parent_reference_is_resolved_and_recorded() {
    let (mut hub, code, _dep) = two_agents();
    hub.create_channel(&code, "pmv2", "t", T0).unwrap();
    let parent = hub.file_issue(&code, "pmv2", "epic", None, None, None, None, T0).unwrap();
    let child = hub.file_issue(&code, "pmv2", "part", None, None, Some("#PMV2-1"), None, T0).unwrap();
    assert_eq!(child.number, 2);
    assert_eq!(hub.store.issues[1].parent_id, Some(parent.id));
    let (mid, cid, num, prefix) = hub.resolve_issue_ref("pmv2-2").unwrap();
    assert_eq!((mid, cid, num, prefix.as_str()), (child.id, 1, 2, "pmv2"));
    assert!(matches!(hub.resolve_issue_ref("#pmv2-9"), Err(Error::UnknownIssue(x)) if x == "#pmv2-9"));
    assert!(matches!(hub.resolve_issue_ref("nodash"), Err(Error::BadIssueRef(_))));
}

#[test]
fn file_issue_refusals_leave_nothing_behind() {
    let (mut hub, code, _dep) = two_agents();
    hub.create_channel(&code, "pmv2", "t", T0).unwrap();
    assert!(matches!(hub.file_issue(&code, "pmv2", "", None, None, None, None, T0), Err(Error::TooLarge(x)) if x == "title"));
    assert!(matches!(
        hub.file_issue(&code, "pmv2", &"t".repeat(1025), None, None, None, None, T0),
        Err(Error::TooLarge(_))
    ));
    let big = "b".repeat(262_145);
    assert!(matches!(hub.file_issue(&code, "pmv2", "t", Some(&big), None, None, None, T0), Err(Error::TooLarge(x)) if x == "body"));
    assert!(matches!(hub.file_issue(&code, "pmv2", "t", None, Some("bad name"), None, None, T0), Err(Error::BadName(_))));
    assert!(matches!(hub.file_issue(&code, "pmv2", "t", None, None, Some("#pmv2-1"), None, T0), Err(Error::UnknownIssue(_))));
    assert!(matches!(hub.file_issue(&code, "nope", "t", None, None, None, None, T0), Err(Error::UnknownChannel(_))));
    assert!(matches!(hub.file_issue(&code, "pmv2", "t", None, Some("ghost"), None, None, T0), Err(Error::UnknownHandle(x)) if x == "ghost"));
    assert!(hub.store.messages.is_empty());
    assert!(hub.store.issues.is_empty());
    assert_eq!(hub.store.channels[0].issue_prefix, None, "a refused filing sets no prefix");
}

#[test]
fn filed_reference_reads_back_in_lower_case() {
    let (mut hub, code, _dep) = two_agents();
    hub.create_channel(&code, "ops", "t", T0).unwrap();
    let a = hub.file_issue(&code, "ops", "x", None, None, None, Some("PM"), T0).unwrap();
    assert_eq!(a.reference, "#pm-1");
    assert_eq!(babylon::types::parse_issue_ref(&a.reference).unwrap(), ("pm".to_string(), 1));
    assert_eq!(hub.resolve_issue_ref(&a.reference).unwrap().0, a.id);
    assert!(hub.store.is_well_formed());
}

#[test]
fn empty_prefix_gives_a_reference_that_does_not_read_back() {
    let (mut hub, code, _dep) = two_agents();
    hub.create_channel(&code, "ops", "t", T0).unwrap();
    let a = hub.file_issue(&code, "ops", "x", None, None, None, Some(""), T0).unwrap();
    assert_eq!(a.reference, "#-1");
    assert!(babylon::types::parse_issue_ref(&a.reference).is_err());
}
