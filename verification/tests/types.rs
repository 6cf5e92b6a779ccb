use babylon::types::{dm_channel_name, issue_ref, parse_issue_ref, AgentKind, ChannelKind, Handle, IssueStatus, MessageKind};

#[test]
fn handle_accepts_valid_lowercases_and_rejects_bad() {
    assert_eq!(Handle::parse("Code").unwrap().as_str(), "code");
    assert_eq!(Handle::parse("dep-loy_2").unwrap().as_str(), "dep-loy_2");
    assert!(Handle::parse("").is_err());
    assert!(Handle::parse("has space").is_err());
    assert!(Handle::parse("plus+sign").is_err());
    assert!(Handle::parse("colon:x").is_err());
    assert!(Handle::parse(&"x".repeat(65)).is_err());
}

#[test]
fn kinds_roundtrip_str() {
    assert_eq!(MessageKind::Task.as_str(), "task");
    assert_eq!(MessageKind::parse("question").unwrap(), MessageKind::Question);
    assert!(MessageKind::parse("nope").is_err());
    assert!(MessageKind::Task.has_lifecycle());
    assert!(MessageKind::Question.has_lifecycle());
    assert!(!MessageKind::Note.has_lifecycle());
    assert_eq!(ChannelKind::Dm.as_str(), "dm");
    assert_eq!(AgentKind::Operator.as_str(), "operator");
}

#[test]
fn dm_name_is_sorted_and_prefixed() {
    let a = Handle::parse("code").unwrap();
    let b = Handle::parse("deploy").unwrap();
    assert_eq!(dm_channel_name(&a, &b), "dm:code+deploy");
    assert_eq!(dm_channel_name(&b, &a), "dm:code+deploy");
}

#[test]
fn issue_status_roundtrips() {
    assert_eq!(IssueStatus::InProgress.as_str(), "in_progress");
    assert_eq!(IssueStatus::parse("blocked").unwrap(), IssueStatus::Blocked);
    assert_eq!(IssueStatus::parse("closed").unwrap(), IssueStatus::Closed);
    assert!(IssueStatus::parse("nope").is_err());
}

#[test]
fn issue_ref_parses_prefix_and_number() {
    assert_eq!(parse_issue_ref("#pmv2-12").unwrap(), ("pmv2".to_string(), 12));
    assert_eq!(parse_issue_ref("pmv2-12").unwrap(), ("pmv2".to_string(), 12));
    assert_eq!(parse_issue_ref("#poly-market-3").unwrap(), ("poly-market".to_string(), 3));
    assert!(parse_issue_ref("nodash").is_err());
    assert!(parse_issue_ref("#pmv2-x").is_err());
    assert!(parse_issue_ref("#pmv2-0").is_err());
    assert!(parse_issue_ref("#-5").is_err());
}

#[test]
fn every_kind_parses_back_from_its_name() {
    for k in [
        MessageKind::Question,
        MessageKind::Answer,
        MessageKind::Decision,
        MessageKind::Status,
        MessageKind::Note,
        MessageKind::Task,
    ] {
        assert_eq!(MessageKind::parse(k.as_str()).unwrap(), k);
    }
    for st in [IssueStatus::Open, IssueStatus::InProgress, IssueStatus::Blocked, IssueStatus::Closed] {
        assert_eq!(IssueStatus::parse(st.as_str()).unwrap(), st);
    }
}

#[test]
fn issue_ref_reads_back_as_prefix_and_number() {
    let r = issue_ref("poly-market", 42);
    assert_eq!(r, "#poly-market-42");
    assert_eq!(parse_issue_ref(&r).unwrap(), ("poly-market".to_string(), 42));
    assert_eq!(parse_issue_ref("  #PMV2-7  ").unwrap(), ("pmv2".to_string(), 7));
}

#[test]
fn handle_text_parses_to_itself() {
    let h = Handle::parse("  Deploy_2 ").unwrap();
    assert_eq!(h.as_str(), "deploy_2");
    assert_eq!(Handle::parse(h.as_str()).unwrap().as_str(), "deploy_2");
    assert_eq!(Handle::parse(&"y".repeat(64)).unwrap().into_string().len(), 64);
}

#[test]
fn bad_names_and_kinds_carry_the_raw_text() {
    match Handle::parse("Bad Name") {
        Err(babylon::error::Error::BadName(x)) => assert_eq!(x, "Bad Name"),
        other => panic!("unexpected {other:?}"),
    }
    match IssueStatus::parse("done") {
        Err(babylon::error::Error::BadStatus(x)) => assert_eq!(x, "done"),
        other => panic!("unexpected {other:?}"),
    }
    match parse_issue_ref("#x-0") {
        Err(babylon::error::Error::BadIssueRef(x)) => assert_eq!(x, "#x-0"),
        other => panic!("unexpected {other:?}"),
    }
}

#[test]
fn dm_names_of_different_pairs_differ() {
    let n = |a: &str, b: &str| dm_channel_name(&Handle::parse(a).unwrap(), &Handle::parse(b).unwrap());
    assert_ne!(n("ab", "c"), n("a", "bc"));
    assert_ne!(n("a-b", "c"), n("a", "b-c"));
    assert_eq!(n("zed", "amy"), "dm:amy+zed");
    assert!(Handle::parse("a+b").is_err());
}

#[test]
fn numbers_and_white_space_in_names_and_references() {
    assert_eq!(Handle::parse("\u{3000}Code\u{a0}\t").unwrap().as_str(), "code");
    assert!(Handle::parse("\u{200b}code").is_err());
    assert_eq!(parse_issue_ref("#pm-+5").unwrap(), ("pm".to_string(), 5));
    assert_eq!(parse_issue_ref("#pm-9223372036854775807").unwrap().1, i64::MAX);
    assert!(parse_issue_ref("#pm-9223372036854775808").is_err());
    assert!(parse_issue_ref("#pm-99999999999999999999").is_err());
    assert!(parse_issue_ref("#pm-1x").is_err());
    assert!(parse_issue_ref("#pm-").is_err());
    assert_eq!(parse_issue_ref("#pm--3").unwrap(), ("pm-".to_string(), 3));
}
