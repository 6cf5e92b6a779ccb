//! Questions and tasks: resolving them and listing the open ones; and how
//! many long-polls an agent may hold.
use crate::dto::{CatchUp, MsgSummary, ResolveResult};
use crate::error::Error;
use crate::hub::Hub;
use crate::presence::{begun, ended, wait_count, MAX_WAITS_PER_HANDLE};
use crate::reads::{catch_up_pages, caught_up, contains_name, shown_ids, summary_of};
use crate::store::{agent_index, can_see, messages_wf, names_view, sorted_names, MsgV, StoreV};
use crate::text::{owned, str_eq};
use crate::types::{kind_has_lifecycle, AgentKind, ChannelKind, Handle, MessageKind};
use vstd::prelude::*;

verus! {

/// Whether `h` is a registered operator.
pub open spec fn is_operator(s: StoreV, h: Seq<char>) -> bool {
    match agent_index(s, h) {
        Some(i) => s.agents[i].kind == AgentKind::Operator,
        None => false,
    }
}

/// Message `id` resolved now by `by`.
pub open spec fn resolved(s: StoreV, id: int, by: Seq<char>, now: i64) -> StoreV {
    StoreV {
        messages: s.messages.update(
            id - 1,
            MsgV { resolved_at: Some(now), resolved_by: Some(by), ..s.message_of(id) },
        ),
        ..s
    }
}

/// Whether message index `i` is an open message of kind `kind` that the
/// filters let through: in a channel `h` may see (any channel when
/// `everyone`, the operator's view); in channel `channel` when given;
/// mentioning `owner` when given, else mentioning `h` when `mine`.
pub open spec fn open_match(
    s: StoreV,
    i: int,
    kind: MessageKind,
    h: Seq<char>,
    mine: bool,
    owner: Option<Seq<char>>,
    channel: Option<Seq<char>>,
    everyone: bool,
) -> bool {
    let m = s.messages[i];
    &&& m.kind == kind
    &&& m.resolved_at is None
    &&& (everyone || can_see(s, h, m.channel_id as int))
    &&& (channel matches Some(c) ==> s.channel_of(m.channel_id as int).name == c)
    &&& match owner {
        Some(o) => m.mentions.contains(o),
        None => mine ==> m.mentions.contains(h),
    }
}

/// The ids of the matching open messages among the first `k`, ascending.
pub open spec fn open_ids(
    s: StoreV,
    kind: MessageKind,
    h: Seq<char>,
    mine: bool,
    owner: Option<Seq<char>>,
    channel: Option<Seq<char>>,
    everyone: bool,
    k: int,
) -> Seq<int>
    decreases k,
{
    if k <= 0 {
        seq![]
    } else {
        let prev = open_ids(s, kind, h, mine, owner, channel, everyone, k - 1);
        if open_match(s, k - 1, kind, h, mine, owner, channel, everyone) {
            prev.push(k)
        } else {
            prev
        }
    }
}

/// The summaries of open messages: exactly those with ids `ids`, in order.
pub open spec fn summaries_are(s: StoreV, v: Seq<MsgSummary>, ids: Seq<int>) -> bool {
    &&& v.len() == ids.len()
    &&& forall|t: int| 0 <= t < v.len() ==> #[trigger] v[t]@ == summary_of(s, ids[t])
}

pub open spec fn opt_str(o: Option<&str>) -> Option<Seq<char>> {
    match o {
        Some(x) => Some(x@),
        None => None,
    }
}

/// The longest a long-poll waits, in seconds.
pub const MAX_WAIT_SECS: u64 = 50;

/// How long a long-poll asked to wait `timeout_secs` waits: at least one
/// second, at most fifty.
pub open spec fn wait_budget(timeout_secs: u64) -> u64 {
    if timeout_secs < 1 {
        1
    } else if timeout_secs > MAX_WAIT_SECS {
        MAX_WAIT_SECS
    } else {
        timeout_secs
    }
}

/// `wait_budget`, computed.
pub fn wait_budget_secs(timeout_secs: u64) -> (r: u64)
    ensures
        r == wait_budget(timeout_secs),
{
    if timeout_secs < 1 {
        1
    } else if timeout_secs > MAX_WAIT_SECS {
        MAX_WAIT_SECS
    } else {
        timeout_secs
    }
}

/// What a long-poll does after one look at what is unread.
pub enum WaitStep {
    /// Hand this page back: messages arrived, or the time ran out.
    Done(CatchUp),
    /// Nothing yet: wait this many milliseconds, or until woken, then look
    /// again.
    Sleep(u64),
}

/// The channel names a long-poll or catch-up is limited to, if any.
pub open spec fn names_opt(channels: Option<&[String]>) -> Option<Seq<Seq<char>>> {
    match channels {
        Some(ns) => Some(names_view(ns@)),
        None => None,
    }
}

/// How many messages a look of a long-poll by `h` would show.
pub open spec fn pending(s: StoreV, h: Seq<char>, names: Option<Seq<Seq<char>>>, om: bool) -> int {
    shown_ids(s, catch_up_pages(s, h, names), h, om, 50, s.messages.len() as int).len() as int
}

/// What `by` resolving message `id` does to tables `s`, leaving `t`, with
/// result `r`.
pub open spec fn resolve_outcome(s: StoreV, t: StoreV, r: Result<ResolveResult, Error>, by: Seq<char>, id: i64, now: i64) -> bool {
    if !(1 <= id <= s.messages.len()) || !kind_has_lifecycle(s.message_of(id as int).kind) {
        r matches Err(Error::BadResolveTarget(x)) && x == id && t == s
    } else {
        let m = s.message_of(id as int);
        let c = s.channel_of(m.channel_id as int);
        if c.kind == ChannelKind::Dm && !c.members.contains(by) {
            r matches Err(Error::NotAuthorizedToResolve(x)) && x == id && t == s
        } else if m.resolved_at is Some {
            r matches Ok(rr) && rr.id == id && Some(rr.resolved_at) == m.resolved_at
                && Some(rr.resolved_by@) == m.resolved_by && t == s
        } else if by != m.author && !m.mentions.contains(by) && !is_operator(s, by) {
            r matches Err(Error::NotAuthorizedToResolve(x)) && x == id && t == s
        } else {
            r matches Ok(rr) && rr.id == id && rr.resolved_at == now && rr.resolved_by@ == by
                && t == resolved(s, id as int, by, now)
        }
    }
}

impl Hub {
    /// Resolves question or task `id` as `by`: its author, an assignee (a
    /// mentioned handle) or an operator may; in a direct channel only a
    /// member.  Resolving again returns the first resolution.
    pub fn resolve(&mut self, by: &Handle, id: i64, note: Option<&str>, now: i64) -> (r: Result<ResolveResult, Error>)
        requires
            old(self).store@.wf(),
        ensures
            final(self).store@.wf(),
            resolve_outcome(old(self).store@, final(self).store@, r, by@, id, now),
    {
        let ghost s = self.store@;
        let n = self.store.messages.len();
        if !(1 <= id && (id as u64) <= (n as u64)) {
            return Err(Error::BadResolveTarget(id));
        }
        let idx = (id - 1) as usize;
        assert(s.messages[idx as int] == self.store.messages@[idx as int]@);
        if !self.store.messages[idx].kind.has_lifecycle() {
            return Err(Error::BadResolveTarget(id));
        }
        let nc = self.store.channels.len();
        assert(self.store.messages@[idx as int].channel_id <= nc);
        let ci = (self.store.messages[idx].channel_id - 1) as usize;
        if self.store.channels[ci].kind == ChannelKind::Dm && !self.store.is_member(ci, by.as_str()) {
            return Err(Error::NotAuthorizedToResolve(id));
        }
        match (&self.store.messages[idx].resolved_at, &self.store.messages[idx].resolved_by) {
            (Some(at), Some(b)) => {
                return Ok(ResolveResult { id, resolved_at: *at, resolved_by: owned(b.as_str()) });
            },
            _ => {},
        }
        let is_operator = match self.store.find_agent(by.as_str()) {
            Some(ai) => self.store.agents[ai].kind == AgentKind::Operator,
            None => false,
        };
        let is_assignee = contains_name(&self.store.messages[idx].mentions, by.as_str());
        let is_author = str_eq(by.as_str(), self.store.messages[idx].author.as_str());
        if !is_author && !is_assignee && !is_operator {
            return Err(Error::NotAuthorizedToResolve(id));
        }
        self.store.messages[idx].resolved_at = Some(now);
        self.store.messages[idx].resolved_by = Some(owned(by.as_str()));
        proof {
            assert(self.store@.messages =~= s.messages.update(
                idx as int,
                MsgV { resolved_at: Some(now), resolved_by: Some(by@), ..s.messages[idx as int] },
            ));
            assert(self.store@ =~= resolved(s, id as int, by@, now));
            assert(messages_wf(self.store@.messages, self.store@.channels.len())) by {
                assert forall|i: int| 0 <= i < self.store@.messages.len() implies {
                    &&& 1 <= #[trigger] self.store@.messages[i].channel_id <= self.store@.channels.len()
                    &&& (self.store@.messages[i].resolved_at is Some
                        <==> self.store@.messages[i].resolved_by is Some)
                    &&& sorted_names(self.store@.messages[i].mentions)
                } by {
                    if i != idx {
                        assert(self.store@.messages[i] == s.messages[i]);
                    }
                }
            }
        }
        Ok(ResolveResult { id, resolved_at: now, resolved_by: owned(by.as_str()) })
    }

    /// Open messages of `kind` that `h` may see (all of them when
    /// `everyone`), oldest first.
    pub(crate) fn open_of_kind(
        &self,
        kind: MessageKind,
        h: &Handle,
        mine: bool,
        owner: Option<&str>,
        channel: Option<&str>,
        everyone: bool,
    ) -> (r: Vec<MsgSummary>)
        requires
            self.store@.wf(),
        ensures
            summaries_are(
                self.store@,
                r@,
                open_ids(
                    self.store@,
                    kind,
                    h@,
                    mine,
                    opt_str(owner),
                    opt_str(channel),
                    everyone,
                    self.store@.messages.len() as int,
                ),
            ),
    {
        let ghost s = self.store@;
        let ghost o = opt_str(owner);
        let ghost c = opt_str(channel);
        let mut out: Vec<MsgSummary> = Vec::new();
        let n = self.store.messages.len();
        let mut i: usize = 0;
        while i < n
            invariant
                s == self.store@,
                s.wf(),
                n == s.messages.len(),
                i <= n,
                o == opt_str(owner),
                c == opt_str(channel),
                summaries_are(s, out@, open_ids(s, kind, h@, mine, o, c, everyone, i as int)),
            decreases n - i,
        {
            let m = &self.store.messages[i];
            assert(s.messages[i as int] == m@);
            assert(1 <= s.messages[i as int].channel_id <= s.channels.len());
            let nc = self.store.channels.len();
            assert(m.channel_id <= nc);
            let in_channel = match channel {
                Some(ch) => str_eq(self.store.channels[(m.channel_id - 1) as usize].name.as_str(), ch),
                None => true,
            };
            let addressed = match owner {
                Some(ow) => contains_name(&m.mentions, ow),
                None => !mine || contains_name(&m.mentions, h.as_str()),
            };
            let visible = everyone || self.store.can_see(h.as_str(), (m.channel_id - 1) as usize);
            if m.kind == kind && m.resolved_at.is_none() && visible && in_channel && addressed {
                out.push(self.store.summary(i as i64 + 1));
            }
            i = i + 1;
        }
        out
    }

    /// Unresolved questions, oldest first; with `mine_only`, those
    /// mentioning `h`; with `channel`, those in it.
    pub fn open_questions(&self, h: &Handle, mine_only: bool, channel: Option<&str>) -> (r: Result<Vec<MsgSummary>, Error>)
        requires
            self.store@.wf(),
        ensures
            r matches Ok(v) && summaries_are(
                self.store@,
                v@,
                open_ids(
                    self.store@,
                    MessageKind::Question,
                    h@,
                    mine_only,
                    None,
                    opt_str(channel),
                    false,
                    self.store@.messages.len() as int,
                ),
            ),
    {
        Ok(self.open_of_kind(MessageKind::Question, h, mine_only, None, channel, false))
    }

    /// Unresolved tasks, oldest first; with `owner`, those assigned to it;
    /// else with `mine_only`, those assigned to `h`; with `channel`, those
    /// in it.
    pub fn open_tasks(&self, h: &Handle, mine_only: bool, owner: Option<&str>, channel: Option<&str>) -> (r: Result<Vec<MsgSummary>, Error>)
        requires
            self.store@.wf(),
        ensures
            r matches Ok(v) && summaries_are(
                self.store@,
                v@,
                open_ids(
                    self.store@,
                    MessageKind::Task,
                    h@,
                    mine_only && owner is None,
                    opt_str(owner),
                    opt_str(channel),
                    false,
                    self.store@.messages.len() as int,
                ),
            ),
    {
        let mine = if owner.is_some() {
            false
        } else {
            mine_only
        };
        Ok(self.open_of_kind(MessageKind::Task, h, mine, owner, channel, false))
    }

    /// Admits one more long-poll by `handle` (at most two at once) and gives
    /// how long it may wait, in milliseconds: `timeout_secs` held to 1..=50
    /// seconds.
    pub fn wait_begin(&mut self, handle: &Handle, timeout_secs: u64) -> (r: Result<u64, Error>)
        ensures
            final(self).store == old(self).store,
            final(self).presence == old(self).presence,
            final(self).waits@ == begun(old(self).waits@, handle@),
            if wait_count(old(self).waits@, handle@) >= MAX_WAITS_PER_HANDLE {
                r matches Err(Error::TooLarge(x)) && x@ == "wait_for concurrency"@
            } else {
                r == Ok::<u64, Error>((wait_budget(timeout_secs) * 1000) as u64)
            },
    {
        match self.waits.begin(handle.as_str()) {
            Ok(()) => Ok(wait_budget_secs(timeout_secs) * 1000),
            Err(e) => Err(e),
        }
    }

    /// Ends one long-poll of `handle`.
    pub fn wait_end(&mut self, handle: &Handle)
        ensures
            final(self).store == old(self).store,
            final(self).presence == old(self).presence,
            final(self).waits@ == ended(old(self).waits@, handle@),
    {
        self.waits.end(handle.as_str());
    }

    /// One look of a long-poll by `handle` at time `now` that ends at
    /// `deadline` (both in ms): the unread page (up to 50 per channel)
    /// marked woken when it holds messages; else, once the deadline has
    /// passed, an empty page marked not woken; else how long to sleep.
    pub fn wait_poll(
        &self,
        handle: &Handle,
        channels: Option<&[String]>,
        only_mentions: bool,
        now: i64,
        deadline: i64,
    ) -> (r: Result<WaitStep, Error>)
        requires
            self.store@.wf(),
        ensures
            ({
                let s = self.store@;
                let names = names_opt(channels);
                if pending(s, handle@, names, only_mentions) > 0 {
                    r matches Ok(WaitStep::Done(cu)) && caught_up(
                        s,
                        catch_up_pages(s, handle@, names),
                        handle@,
                        only_mentions,
                        50,
                        cu,
                    ) && cu.woke == Some(true)
                } else if now >= deadline {
                    r matches Ok(WaitStep::Done(cu)) && cu.messages@.len() == 0
                        && cu.next_cursors@.len() == 0 && !cu.has_more && cu.woke == Some(false)
                } else {
                    r matches Ok(WaitStep::Sleep(ms)) && ms == deadline - now
                }
            }),
    {
        let cu = match self.catch_up(handle, channels, only_mentions, 50) {
            Ok(cu) => cu,
            Err(e) => {
                return Err(e);
            },
        };
        if cu.messages.len() > 0 {
            return Ok(WaitStep::Done(CatchUp { woke: Some(true), ..cu }));
        }
        if now >= deadline {
            return Ok(
                WaitStep::Done(
                    CatchUp { messages: Vec::new(), next_cursors: Vec::new(), has_more: false, woke: Some(false) },
                ),
            );
        }
        let ms = (deadline as i128 - now as i128) as u64;
        Ok(WaitStep::Sleep(ms))
    }
}

} // verus!
