//! The tools agents call: each tool's parameters and result, and what the
//! call does to the hub.
use crate::agents::{agents_listed, pairs_view, registered, unread_list};
use crate::channels::{archived, create_outcome, join_outcome, left};
use crate::dto::{AgentInfo, CatchUp, ChannelInfo, FiledIssue, MsgFull, MsgSummary, RegisterResult, ResolveResult};
use crate::error::{Error, McpErrorKind};
use crate::history::{channel_info_view, channel_names, listed_channels};
use crate::hub::Hub;
use crate::issues::file_issue_outcome;
use crate::lifecycle::{open_ids, opt_str, resolve_outcome, summaries_are};
use crate::messages::{dm_opened, post_outcome};
use crate::order::order_by_key;
use crate::reads::{ack_outcome, catch_up_is, read_is};
use crate::store::{names_view, opt_view};
use crate::text::owned;
use crate::types::{dm_name, normalized_handle, valid_handle, Handle, MessageKind};
use vstd::prelude::*;
use vstd::utf8::encode_utf8;

verus! {

/// The handle authentication found for a request.
#[derive(Clone, Debug)]
pub struct AuthedHandle(pub String);

pub struct RegisterParams {
    pub role: Option<String>,
}

pub struct ListChannelsParams {
    pub include_archived: bool,
}

pub struct CreateChannelParams {
    pub name: String,
    pub topic: String,
}

pub struct ChannelNameParams {
    pub name: String,
}

pub struct PostParams {
    pub channel: String,
    pub kind: String,
    pub summary: String,
    pub body: Option<String>,
    pub mentions: Vec<String>,
    pub reply_to: Option<i64>,
}

pub struct CatchUpParams {
    pub channels: Option<Vec<String>>,
    pub only_mentions: bool,
    pub limit: Option<i64>,
}

pub struct ReadParams {
    pub ids: Vec<i64>,
}

pub struct AckParams {
    pub channel: String,
    pub up_to_id: i64,
}

pub struct WaitForParams {
    pub timeout_secs: Option<u64>,
    pub channels: Option<Vec<String>>,
    pub only_mentions: bool,
}

pub struct DmParams {
    pub to: String,
    pub kind: String,
    pub summary: String,
    pub body: Option<String>,
    pub reply_to: Option<i64>,
}

pub struct ResolveParams {
    pub id: i64,
    pub note: Option<String>,
}

pub struct OpenQuestionsParams {
    pub mine_only: bool,
    pub channel: Option<String>,
}

pub struct OpenTasksParams {
    pub mine_only: bool,
    pub owner: Option<String>,
    pub channel: Option<String>,
}

pub struct FileIssueParams {
    pub channel: String,
    pub title: String,
    pub body: Option<String>,
    pub assignee: Option<String>,
    pub parent: Option<String>,
    pub prefix: Option<String>,
}

pub struct DmResult {
    pub id: i64,
    pub channel: String,
}

pub struct ChannelList {
    pub channels: Vec<ChannelInfo>,
}

pub struct MessageList {
    pub messages: Vec<MsgFull>,
}

pub struct QuestionList {
    pub questions: Vec<MsgSummary>,
}

pub struct TaskList {
    pub tasks: Vec<MsgSummary>,
}

pub struct AgentList {
    pub agents: Vec<AgentInfo>,
}

pub struct PostResult {
    pub id: i64,
}

pub struct JoinResult {
    pub unread: i64,
}

pub struct CreateChannelResult {
    pub created: bool,
}

pub struct AckResult {
    pub acked: bool,
}

pub struct OkResult {
    pub ok: bool,
}

/// The default of the `mine_only` switches: on.
pub fn yes() -> (r: bool)
    ensures
        r,
{
    true
}

/// The page size a catch-up uses when none is asked for.
pub const DEFAULT_PAGE: i64 = 50;

/// How long a long-poll waits when no time is asked for, in seconds.
pub const DEFAULT_WAIT_SECS: u64 = 25;

/// How many bytes a text takes as UTF-8, as `str::len` reports it.
pub open spec fn text_len(t: Seq<char>) -> nat {
    (encode_utf8(t).len() as usize) as nat
}

/// `text_len` of an optional text, 0 when absent.
pub open spec fn opt_bytes(o: Option<String>) -> nat {
    match o {
        Some(b) => text_len(b@),
        None => 0,
    }
}

/// The names of an optional list of channel names.
pub open spec fn opt_names(o: Option<Vec<String>>) -> Option<Seq<Seq<char>>> {
    match o {
        Some(v) => Some(names_view(v@)),
        None => None,
    }
}

fn as_opt_str(o: &Option<String>) -> (r: Option<&str>)
    ensures
        opt_str(r) == opt_view(*o),
        match r {
            Some(x) => x.len() == opt_bytes(*o),
            None => opt_bytes(*o) == 0,
        },
{
    match o {
        Some(x) => Some(x.as_str()),
        None => None,
    }
}

fn as_opt_slice(o: &Option<Vec<String>>) -> (r: Option<&[String]>)
    ensures
        match r {
            Some(ns) => opt_names(*o) == Some(names_view(ns@)),
            None => opt_names(*o) is None,
        },
{
    match o {
        Some(v) => Some(v.as_slice()),
        None => None,
    }
}

/// Who a tool call comes from: the handle its authentication recorded,
/// refused as unauthenticated when there is none and as a bad handle when
/// it is not one.
pub fn caller(authed: Option<&AuthedHandle>) -> (r: Result<Handle, (McpErrorKind, String)>)
    ensures
        match authed {
            None => r matches Err(e) && e.0 == McpErrorKind::InvalidRequest && e.1@
                == "unauthenticated"@,
            Some(a) => if valid_handle(normalized_handle(a.0@)) {
                r matches Ok(h) && h@ == normalized_handle(a.0@)
            } else {
                r matches Err(e) && e.0 == McpErrorKind::InvalidRequest && e.1@ == "bad handle"@
            },
        },
{
    match authed {
        None => Err((McpErrorKind::InvalidRequest, owned("unauthenticated"))),
        Some(a) => match Handle::parse(a.0.as_str()) {
            Ok(h) => Ok(h),
            Err(_) => Err((McpErrorKind::InvalidRequest, owned("bad handle"))),
        },
    }
}

/// `register`: announces `h` (see `Hub::register`).
pub fn register(hub: &mut Hub, h: &Handle, p: RegisterParams, now: i64) -> (r: Result<RegisterResult, Error>)
    requires
        old(hub).store@.wf(),
    ensures
        final(hub).store@.wf(),
        final(hub).store@ == registered(old(hub).store@, h@, opt_view(p.role), now),
        final(hub).presence@ == old(hub).presence@.insert(h@, (true, now)),
        r matches Ok(rr) && rr.handle@ == h@ && pairs_view(rr.unread@) == unread_list(
            final(hub).store@,
            h@,
            final(hub).store@.subs.len() as int,
        ),
{
    hub.register(h, p.role, now)
}

/// `list_channels`: the channels by name as `h` sees them.
pub fn list_channels(hub: &Hub, h: &Handle, p: &ListChannelsParams) -> (r: Result<ChannelList, Error>)
    requires
        hub.store@.wf(),
    ensures
        r matches Ok(cl) && {
            let ord = order_by_key(hub.store@.channels.len(), channel_names(hub.store@));
            cl.channels@.map_values(|ci: ChannelInfo| channel_info_view(ci)) == listed_channels(
                hub.store@,
                h@,
                p.include_archived,
                ord,
                ord.len() as int,
            )
        },
{
    match hub.list_channels(h, p.include_archived) {
        Ok(channels) => Ok(ChannelList { channels }),
        Err(e) => Err(e),
    }
}

/// `create_channel`: a public channel by `h`.
pub fn create_channel(hub: &mut Hub, h: &Handle, p: &CreateChannelParams, now: i64) -> (r: Result<CreateChannelResult, Error>)
    requires
        old(hub).store@.wf(),
        old(hub).store@.channels.len() + 1 < i64::MAX,
    ensures
        final(hub).store@.wf(),
        create_outcome(
            old(hub).store@,
            final(hub).store@,
            match r {
                Ok(c) => Ok(c.created),
                Err(e) => Err(e),
            },
            h@,
            p.name@,
            p.topic@,
            text_len(p.topic@),
            now,
        ),
{
    match hub.create_channel(h, p.name.as_str(), p.topic.as_str(), now) {
        Ok(created) => Ok(CreateChannelResult { created }),
        Err(e) => Err(e),
    }
}

/// `join_channel`: `h` subscribes from now on.
pub fn join_channel(hub: &mut Hub, h: &Handle, p: &ChannelNameParams) -> (r: Result<JoinResult, Error>)
    requires
        old(hub).store@.wf(),
    ensures
        final(hub).store@.wf(),
        join_outcome(
            old(hub).store@,
            final(hub).store@,
            match r {
                Ok(_) => Ok(()),
                Err(e) => Err(e),
            },
            h@,
            p.name@,
        ),
        r matches Ok(j) ==> j.unread == 0,
{
    match hub.join_channel(h, p.name.as_str()) {
        Ok(()) => Ok(JoinResult { unread: 0 }),
        Err(e) => Err(e),
    }
}

/// `leave_channel`: `h` stops following the channel, keeping its cursor.
pub fn leave_channel(hub: &mut Hub, h: &Handle, p: &ChannelNameParams) -> (r: Result<OkResult, Error>)
    requires
        old(hub).store@.wf(),
    ensures
        final(hub).store@.wf(),
        final(hub).store@ == left(old(hub).store@, h@, p.name@),
        r matches Ok(o) && o.ok,
{
    match hub.leave_channel(h, p.name.as_str()) {
        Ok(()) => Ok(OkResult { ok: true }),
        Err(e) => Err(e),
    }
}

/// `archive_channel`: the channel hidden from lists, its history kept.
pub fn archive_channel(hub: &mut Hub, h: &Handle, p: &ChannelNameParams, now: i64) -> (r: Result<OkResult, Error>)
    requires
        old(hub).store@.wf(),
    ensures
        final(hub).store@.wf(),
        final(hub).store@ == archived(old(hub).store@, p.name@, now),
        r matches Ok(o) && o.ok,
{
    match hub.archive_channel(h, p.name.as_str(), now) {
        Ok(()) => Ok(OkResult { ok: true }),
        Err(e) => Err(e),
    }
}

/// `post`: a message by `h` (see `Hub::post`).
pub fn post(hub: &mut Hub, h: &Handle, p: &PostParams, now: i64) -> (r: Result<PostResult, Error>)
    requires
        old(hub).store@.wf(),
        old(hub).store@.messages.len() + 1 < i64::MAX,
    ensures
        final(hub).store@.wf(),
        post_outcome(
            old(hub).store@,
            final(hub).store@,
            match r {
                Ok(pr) => Ok(pr.id),
                Err(e) => Err(e),
            },
            h@,
            p.channel@,
            p.kind@,
            p.summary@,
            text_len(p.summary@),
            opt_view(p.body),
            opt_bytes(p.body),
            names_view(p.mentions@),
            p.reply_to,
            now,
        ),
{
    let body = as_opt_str(&p.body);
    match hub.post(
        h,
        p.channel.as_str(),
        p.kind.as_str(),
        p.summary.as_str(),
        body,
        p.mentions.as_slice(),
        p.reply_to,
        now,
    ) {
        Ok(id) => Ok(PostResult { id }),
        Err(e) => Err(e),
    }
}

/// `catch_up`: `h`'s unread summaries, 50 per channel unless a limit is
/// asked for.
pub fn catch_up(hub: &Hub, h: &Handle, p: &CatchUpParams) -> (r: Result<CatchUp, Error>)
    requires
        hub.store@.wf(),
    ensures
        r matches Ok(cu) && catch_up_is(
            hub.store@,
            h@,
            opt_names(p.channels),
            p.only_mentions,
            match p.limit {
                Some(l) => l,
                None => DEFAULT_PAGE,
            },
            cu,
        ),
{
    let limit = match p.limit {
        Some(l) => l,
        None => DEFAULT_PAGE,
    };
    hub.catch_up(h, as_opt_slice(&p.channels), p.only_mentions, limit)
}

/// `read`: full messages by id, those `h` may see.
pub fn read(hub: &Hub, h: &Handle, p: &ReadParams) -> (r: Result<MessageList, Error>)
    requires
        hub.store@.wf(),
    ensures
        r matches Ok(ml) && read_is(hub.store@, h@, p.ids@, ml.messages@),
{
    match hub.read(h, p.ids.as_slice()) {
        Ok(messages) => Ok(MessageList { messages }),
        Err(e) => Err(e),
    }
}

/// `ack`: `h`'s cursor in the channel moved up to the id given.
pub fn ack(hub: &mut Hub, h: &Handle, p: &AckParams) -> (r: Result<AckResult, Error>)
    requires
        old(hub).store@.wf(),
    ensures
        final(hub).store@.wf(),
        ack_outcome(
            old(hub).store@,
            final(hub).store@,
            match r {
                Ok(_) => Ok(()),
                Err(e) => Err(e),
            },
            h@,
            p.channel@,
            p.up_to_id as int,
        ),
        r matches Ok(a) ==> a.acked,
{
    match hub.ack(h, p.channel.as_str(), p.up_to_id) {
        Ok(()) => Ok(AckResult { acked: true }),
        Err(e) => Err(e),
    }
}

/// `wait_for`: how long to wait, in seconds, before the limits apply.
pub fn wait_for_timeout(p: &WaitForParams) -> (r: u64)
    ensures
        r == match p.timeout_secs {
            Some(t) => t,
            None => DEFAULT_WAIT_SECS,
        },
{
    match p.timeout_secs {
        Some(t) => t,
        None => DEFAULT_WAIT_SECS,
    }
}

/// `dm`: a direct message from `from` to the agent named (see `Hub::dm`).
pub fn dm(hub: &mut Hub, from: &Handle, p: &DmParams, now: i64) -> (r: Result<DmResult, Error>)
    requires
        old(hub).store@.wf(),
        old(hub).store@.channels.len() + 2 < i64::MAX,
        old(hub).store@.messages.len() + 1 < i64::MAX,
    ensures
        final(hub).store@.wf(),
        ({
            let to = normalized_handle(p.to@);
            if !valid_handle(to) {
                r matches Err(Error::BadName(x)) && x@ == p.to@ && final(hub).store@ == old(hub).store@
            } else {
                &&& (r matches Ok(d) ==> d.channel@ == dm_name(from@, to))
                &&& post_outcome(
                    dm_opened(old(hub).store@, from@, to, now),
                    final(hub).store@,
                    match r {
                        Ok(d) => Ok(d.id),
                        Err(e) => Err(e),
                    },
                    from@,
                    dm_name(from@, to),
                    p.kind@,
                    p.summary@,
                    text_len(p.summary@),
                    opt_view(p.body),
                    opt_bytes(p.body),
                    seq![],
                    p.reply_to,
                    now,
                )
            }
        }),
{
    let to = match Handle::parse(p.to.as_str()) {
        Ok(t) => t,
        Err(e) => {
            return Err(e);
        },
    };
    let body = as_opt_str(&p.body);
    match hub.dm(from, &to, p.kind.as_str(), p.summary.as_str(), body, p.reply_to, now) {
        Ok((id, channel)) => Ok(DmResult { id, channel }),
        Err(e) => Err(e),
    }
}

/// `resolve`: a question or task resolved by `h` (see `Hub::resolve`).
pub fn resolve(hub: &mut Hub, h: &Handle, p: &ResolveParams, now: i64) -> (r: Result<ResolveResult, Error>)
    requires
        old(hub).store@.wf(),
    ensures
        final(hub).store@.wf(),
        resolve_outcome(old(hub).store@, final(hub).store@, r, h@, p.id, now),
{
    hub.resolve(h, p.id, as_opt_str(&p.note), now)
}

/// `open_questions`: unresolved questions, by default those for `h`.
pub fn open_questions(hub: &Hub, h: &Handle, p: &OpenQuestionsParams) -> (r: Result<QuestionList, Error>)
    requires
        hub.store@.wf(),
    ensures
        r matches Ok(q) && summaries_are(
            hub.store@,
            q.questions@,
            open_ids(
                hub.store@,
                MessageKind::Question,
                h@,
                p.mine_only,
                None,
                opt_view(p.channel),
                false,
                hub.store@.messages.len() as int,
            ),
        ),
{
    match hub.open_questions(h, p.mine_only, as_opt_str(&p.channel)) {
        Ok(questions) => Ok(QuestionList { questions }),
        Err(e) => Err(e),
    }
}

/// `open_tasks`: unresolved tasks, by default those assigned to `h`.
pub fn open_tasks(hub: &Hub, h: &Handle, p: &OpenTasksParams) -> (r: Result<TaskList, Error>)
    requires
        hub.store@.wf(),
    ensures
        r matches Ok(tl) && summaries_are(
            hub.store@,
            tl.tasks@,
            open_ids(
                hub.store@,
                MessageKind::Task,
                h@,
                p.mine_only && p.owner is None,
                opt_view(p.owner),
                opt_view(p.channel),
                false,
                hub.store@.messages.len() as int,
            ),
        ),
{
    match hub.open_tasks(h, p.mine_only, as_opt_str(&p.owner), as_opt_str(&p.channel)) {
        Ok(tasks) => Ok(TaskList { tasks }),
        Err(e) => Err(e),
    }
}

/// `list_agents`: every agent by handle with whether it is online at `now`.
pub fn list_agents(hub: &Hub, now: i64) -> (r: Result<AgentList, Error>)
    requires
        hub.store@.wf(),
    ensures
        r matches Ok(al) && agents_listed(hub.store@, hub.presence@, now, al.agents@),
{
    match hub.list_agents(now) {
        Ok(agents) => Ok(AgentList { agents }),
        Err(e) => Err(e),
    }
}

/// `file_issue`: an issue filed by `h` (see `Hub::file_issue`).
pub fn file_issue(hub: &mut Hub, h: &Handle, p: &FileIssueParams, now: i64) -> (r: Result<FiledIssue, Error>)
    requires
        old(hub).store@.wf(),
        old(hub).store@.messages.len() + 1 < i64::MAX,
        old(hub).store@.issues.len() + 1 < i64::MAX,
    ensures
        final(hub).store@.wf(),
        file_issue_outcome(
            old(hub).store@,
            final(hub).store@,
            r,
            h@,
            p.channel@,
            p.title@,
            text_len(p.title@),
            opt_view(p.body),
            opt_bytes(p.body),
            opt_view(p.assignee),
            opt_view(p.parent),
            opt_view(p.prefix),
            now,
        ),
{
    hub.file_issue(
        h,
        p.channel.as_str(),
        p.title.as_str(),
        as_opt_str(&p.body),
        as_opt_str(&p.assignee),
        as_opt_str(&p.parent),
        as_opt_str(&p.prefix),
        now,
    )
}

} // verus!
