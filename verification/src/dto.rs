//! What the hub's operations hand back.
use crate::store::{names_view, opt_view};
use vstd::prelude::*;

verus! {

/// A message as a one-line summary.
pub struct MsgSummary {
    pub id: i64,
    pub ch: String,
    pub from: String,
    pub kind: String,
    pub re: Option<i64>,
    pub to: Vec<String>,
    pub open: Option<bool>,
    pub sum: String,
    pub ts: i64,
}

pub struct MsgSummaryV {
    pub id: i64,
    pub ch: Seq<char>,
    pub from: Seq<char>,
    pub kind: Seq<char>,
    pub re: Option<i64>,
    pub to: Seq<Seq<char>>,
    pub open: Option<bool>,
    pub sum: Seq<char>,
    pub ts: i64,
}

impl View for MsgSummary {
    type V = MsgSummaryV;

    open spec fn view(&self) -> MsgSummaryV {
        MsgSummaryV {
            id: self.id,
            ch: self.ch@,
            from: self.from@,
            kind: self.kind@,
            re: self.re,
            to: names_view(self.to@),
            open: self.open,
            sum: self.sum@,
            ts: self.ts,
        }
    }
}

/// A message with its body.
pub struct MsgFull {
    pub id: i64,
    pub ch: String,
    pub from: String,
    pub kind: String,
    pub re: Option<i64>,
    pub to: Vec<String>,
    pub open: Option<bool>,
    pub sum: String,
    pub ts: i64,
    pub body: Option<String>,
}

pub struct MsgFullV {
    pub summary: MsgSummaryV,
    pub body: Option<Seq<char>>,
}

impl View for MsgFull {
    type V = MsgFullV;

    open spec fn view(&self) -> MsgFullV {
        MsgFullV {
            summary: MsgSummaryV {
                id: self.id,
                ch: self.ch@,
                from: self.from@,
                kind: self.kind@,
                re: self.re,
                to: names_view(self.to@),
                open: self.open,
                sum: self.sum@,
                ts: self.ts,
            },
            body: opt_view(self.body),
        }
    }
}

/// One page of unread messages.  `next_cursors` gives, for each channel that
/// had unread messages on this page, the id of the last of them; a channel
/// asked for twice appears twice, with the same id.
pub struct CatchUp {
    pub messages: Vec<MsgSummary>,
    pub next_cursors: Vec<(String, i64)>,
    pub has_more: bool,
    pub woke: Option<bool>,
}

/// What registering tells an agent: its handle and, per channel with unread
/// messages, how many (at most 50).
pub struct RegisterResult {
    pub handle: String,
    pub unread: Vec<(String, i64)>,
}

/// A channel as listed to an agent.
pub struct ChannelInfo {
    pub name: String,
    pub topic: String,
    pub kind: String,
    pub subscribed: bool,
    pub unread: i64,
}

/// A registered agent and whether it is online.
pub struct AgentInfo {
    pub handle: String,
    pub role: Option<String>,
    pub kind: String,
    pub last_seen: i64,
    pub online: bool,
}

/// When and by whom a question or task was resolved.
pub struct ResolveResult {
    pub id: i64,
    pub resolved_at: i64,
    pub resolved_by: String,
}

/// A channel as the operator sees it.
pub struct AdminChannelInfo {
    pub name: String,
    pub topic: String,
    pub kind: String,
    pub archived: bool,
    pub member_count: i64,
    pub message_count: i64,
    pub last_activity_ts: Option<i64>,
}

/// Table sizes.
pub struct GlobalStats {
    pub agents: i64,
    pub channels: i64,
    pub messages: i64,
}

/// A message with everything recorded about it.
pub struct MessageFull {
    pub id: i64,
    pub channel: String,
    pub from: String,
    pub kind: String,
    pub summary: String,
    pub body: Option<String>,
    pub ts: i64,
    pub reply_to: Option<i64>,
    pub resolved_at: Option<i64>,
    pub resolved_by: Option<String>,
    pub to: Vec<String>,
}

/// A channel with its active members and activity.
pub struct ConversationInfo {
    pub name: String,
    pub kind: String,
    pub topic: String,
    pub members: Vec<String>,
    pub message_count: i64,
    pub last_activity_ts: Option<i64>,
    pub archived: bool,
}

/// A newly filed issue.
pub struct FiledIssue {
    pub reference: String,
    pub id: i64,
    pub number: i64,
}

/// An issue in a list.
pub struct IssueInfo {
    pub reference: String,
    pub title: String,
    pub status: String,
    pub assignee: Vec<String>,
    pub parent_ref: Option<String>,
    pub open_children: i64,
    pub ts: i64,
}

/// An issue with its body and immediate subissues.
pub struct IssueDetail {
    pub reference: String,
    pub channel: String,
    pub title: String,
    pub body: Option<String>,
    pub status: String,
    pub assignee: Vec<String>,
    pub parent_ref: Option<String>,
    pub open_children: i64,
    pub ts: i64,
    pub children: Vec<IssueInfo>,
}

} // verus!
