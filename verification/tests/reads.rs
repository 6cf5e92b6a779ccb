use babylon::error::Error;
use babylon::hub::Hub;
use babylon::types::{AgentKind, Handle};
use std::collections::BTreeSet;

const T0: i64 = 1_700_000_000_000;

fn h(s: &str) -> Handle {
    Handle::parse(s).unwrap()
}

fn two() -> (Hub, Handle, Handle) {
    let mut hub = Hub::new_in_memory();
    let code = h("code");
    let bob = h("bob");
    hub.mint_token(&code, AgentKind::Agent, T0).unwrap();
    hub.mint_token(&bob, AgentKind::Agent, T0).unwrap();
    hub.create_channel(&code, "deploy", "t", T0).unwrap();
    (hub, code, bob)
}

fn cursor(cu: &babylon::dto::CatchUp, name: &str) -> i64 {
    cu.next_cursors.iter().find(|(n, _)| n == name).map(|(_, c)| *c).unwrap()
}

#[test]
fn task_mentions_populated_in_catch_up_and_read() {
    let (mut hub, code, _bob) = two();
    let deploy = h("deploy");
    hub.mint_token(&deploy, AgentKind::Agent, T0).unwrap();
    let id = hub.post(&code, "deploy", "task", "do the thing", Some("body"), &["deploy".into()], None, T0).unwrap();
    let cu = hub.catch_up(&deploy, None, false, 50).unwrap();
    let msg = cu.messages.iter().find(|m| m.id == id).unwrap();
    assert_eq!(msg.to, vec!["deploy".to_string()], "catch_up must populate to");
    assert_eq!(msg.open, Some(true));
    let full = hub.read(&deploy, &[id]).unwrap();
    assert_eq!(full[0].to, vec!["deploy".to_string()], "read must populate to");
}

#[test]
fn catch_up_is_non_advancing_and_paginates_per_channel() {
    let (mut hub, code, bob) = two();
    hub.join_channel(&bob, "deploy").unwrap();
    let mut ids = Vec::new();
    for i in 0..3 {
        ids.push(hub.post(&code, "deploy", "note", &format!("m{i}"), None, &[], None, T0).unwrap());
    }
    let p1 = hub.catch_up(&bob, None, false, 2).unwrap();
    assert_eq!(p1.messages.len(), 2);
    assert!(p1.has_more);
    assert_eq!(cursor(&p1, "deploy"), ids[1]);
    let p1b = hub.catch_up(&bob, None, false, 2).unwrap();
    assert_eq!(p1b.messages.len(), 2, "non-advancing: same page until ack");
    hub.ack(&bob, "deploy", ids[1]).unwrap();
    let p2 = hub.catch_up(&bob, None, false, 2).unwrap();
    assert_eq!(p2.messages.iter().map(|m| m.id).collect::<Vec<_>>(), vec![ids[2]]);
    assert!(!p2.has_more);
}

#[test]
fn read_returns_bodies_for_visible_messages() {
    let (mut hub, code, _bob) = two();
    let id = hub.post(&code, "deploy", "note", "tldr", Some("full body"), &[], None, T0).unwrap();
    let full = hub.read(&code, &[id]).unwrap();
    assert_eq!(full[0].body.as_deref(), Some("full body"));
    assert_eq!(full[0].sum, "tldr");
    assert_eq!(full[0].ch, "deploy");
    assert_eq!(full[0].open, None);
    let again = hub.read(&code, &[id, 999, -1, id]).unwrap();
    assert_eq!(again.iter().map(|m| m.id).collect::<Vec<_>>(), vec![id, id], "unknown ids are left out");
}

#[test]
fn ack_is_monotonic_and_clamped() {
    let (mut hub, code, bob) = two();
    hub.join_channel(&bob, "deploy").unwrap();
    let m1 = hub.post(&code, "deploy", "note", "m1", None, &[], None, T0).unwrap();
    let m2 = hub.post(&code, "deploy", "note", "m2", None, &[], None, T0).unwrap();
    hub.ack(&bob, "deploy", m2 + 10_000).unwrap();
    let m3 = hub.post(&code, "deploy", "note", "m3", None, &[], None, T0).unwrap();
    let cu = hub.catch_up(&bob, None, false, 50).unwrap();
    assert_eq!(cu.messages.iter().map(|m| m.id).collect::<Vec<_>>(), vec![m3], "future ack must not eat m3");
    hub.ack(&bob, "deploy", m1).unwrap();
    let cu = hub.catch_up(&bob, None, false, 50).unwrap();
    assert_eq!(cu.messages.iter().map(|m| m.id).collect::<Vec<_>>(), vec![m3]);
    assert!(matches!(hub.ack(&bob, "nope", 1), Err(Error::UnknownChannel(_))));
    let carol = h("carol");
    assert!(matches!(hub.ack(&carol, "deploy", 1), Err(Error::NotSubscribed(_))));
}

#[test]
fn only_mentions_filters_the_page() {
    let (mut hub, code, bob) = two();
    hub.join_channel(&bob, "deploy").unwrap();
    hub.post(&code, "deploy", "note", "general", None, &[], None, T0).unwrap();
    let m = hub.post(&code, "deploy", "question", "bob?", None, &["bob".into()], None, T0).unwrap();
    let cu = hub.catch_up(&bob, None, true, 50).unwrap();
    assert_eq!(cu.messages.iter().map(|x| x.id).collect::<Vec<_>>(), vec![m]);
    assert_eq!(cursor(&cu, "deploy"), m);
}

/// Plays a sequence of posts to two channels and catch-up/ack rounds, then
/// drains what is left; every message must be seen exactly once.
fn play(ops: &[u8]) {
    let mut hub = Hub::new_in_memory();
    let code = h("code");
    let bob = h("bob");
    hub.mint_token(&code, AgentKind::Agent, T0).unwrap();
    hub.mint_token(&bob, AgentKind::Agent, T0).unwrap();
    for ch in ["a", "b"] {
        hub.create_channel(&code, ch, "t", T0).unwrap();
        hub.join_channel(&bob, ch).unwrap();
    }
    let mut posted = BTreeSet::new();
    let mut seen: Vec<i64> = Vec::new();
    for op in ops {
        match op % 3 {
            0 => {
                posted.insert(hub.post(&code, "a", "note", "m", None, &[], None, T0).unwrap());
            }
            1 => {
                posted.insert(hub.post(&code, "b", "note", "m", None, &[], None, T0).unwrap());
            }
            _ => {
                let cu = hub.catch_up(&bob, None, false, 5).unwrap();
                seen.extend(cu.messages.iter().map(|m| m.id));
                for (ch, cur) in &cu.next_cursors {
                    hub.ack(&bob, ch, *cur).unwrap();
                }
            }
        }
    }
    loop {
        let cu = hub.catch_up(&bob, None, false, 100).unwrap();
        if cu.messages.is_empty() {
            break;
        }
        seen.extend(cu.messages.iter().map(|m| m.id));
        for (ch, cur) in &cu.next_cursors {
            hub.ack(&bob, ch, *cur).unwrap();
        }
    }
    let seen_set: BTreeSet<i64> = seen.iter().copied().collect();
    assert_eq!(seen.len(), seen_set.len(), "nothing seen twice");
    assert_eq!(seen_set, posted, "nothing lost");
}

#[test]
fn ack_then_catchup_never_loses_or_dups() {
    play(&[0, 1, 2, 0, 0, 0, 0, 0, 0, 0, 2, 1, 2, 2]);
    play(&[2, 2, 0, 1, 0, 1, 0, 1, 0, 1, 0, 1, 0, 1, 2, 0, 2]);
    let mut x: u32 = 12345;
    for _ in 0..20 {
        let mut ops = Vec::new();
        let n = 1 + (x % 39) as usize;
        for _ in 0..n {
            x = x.wrapping_mul(1_103_515_245).wrapping_add(12_345);
            ops.push(((x >> 16) % 3) as u8);
        }
        play(&ops);
    }
}
