//! Posting messages and direct messages.
use crate::error::Error;
use crate::hub::Hub;
use crate::order::{
    insert_name, lemma_insert_name_at, lemma_insert_name_sorted, sort_names,
    sorted_copy,
};
use crate::store::{
    agent_index, channel_index, channel_max_id, lemma_wf_channel_update, messages_wf, names_view, sorted_names, sub_index,
    upsert_sub, ChannelRow, ChannelV, MessageRow, MsgV, Store, StoreV,
};
use crate::text::{concat, lemma_compare_eq, owned, seq_le, str_compare};
use crate::types::{
    dm_channel_name, dm_name, lemma_message_kind_names_distinct, normalized_handle, valid_handle, ChannelKind, Handle, MessageKind,
    message_kind_name,
};
use vstd::prelude::*;

verus! {

/// The longest summary, in bytes.
pub const MAX_SUMMARY: usize = 1024;

/// The longest body, in bytes.
pub const MAX_BODY: usize = 262144;

/// The first raw mention, from position `k` on, that is not a valid handle.
pub open spec fn first_bad_mention(ms: Seq<Seq<char>>, k: int) -> Option<int>
    decreases ms.len() - k,
{
    if k < 0 || k >= ms.len() {
        None
    } else if !valid_handle(normalized_handle(ms[k])) {
        Some(k)
    } else {
        first_bad_mention(ms, k + 1)
    }
}

/// The mentions as handles.
pub open spec fn normalized_mentions(ms: Seq<Seq<char>>) -> Seq<Seq<char>> {
    ms.map_values(|m: Seq<char>| normalized_handle(m))
}

/// The first mention, from position `k` on, that names no agent.
pub open spec fn first_unknown(s: StoreV, ms: Seq<Seq<char>>, k: int) -> Option<int>
    decreases ms.len() - k,
{
    if k < 0 || k >= ms.len() {
        None
    } else if agent_index(s, ms[k]) is None {
        Some(k)
    } else {
        first_unknown(s, ms, k + 1)
    }
}

/// The first `k` mentions that reach channel `cid`: all of them in a public
/// channel, only its members in a direct one.
pub open spec fn kept_mentions(s: StoreV, ms: Seq<Seq<char>>, cid: int, k: int) -> Seq<Seq<char>>
    decreases k,
{
    if k <= 0 {
        seq![]
    } else {
        let prev = kept_mentions(s, ms, cid, k - 1);
        if s.channel_of(cid).kind == ChannelKind::Channel || s.channel_of(cid).members.contains(
            ms[k - 1],
        ) {
            prev.push(ms[k - 1])
        } else {
            prev
        }
    }
}

/// Each of the first `k` names subscribed to `cid` (from `cursor` when new).
pub open spec fn upsert_all(s: StoreV, names: Seq<Seq<char>>, cid: int, cursor: int, k: int) -> StoreV
    decreases k,
{
    if k <= 0 {
        s
    } else {
        upsert_sub(upsert_all(s, names, cid, cursor, k - 1), names[k - 1], cid, cursor)
    }
}

/// The message a post records.
pub open spec fn new_message(
    cid: int,
    author: Seq<char>,
    kind: MessageKind,
    summary: Seq<char>,
    body: Option<Seq<char>>,
    reply_to: Option<i64>,
    now: i64,
    kept: Seq<Seq<char>>,
) -> MsgV {
    MsgV {
        channel_id: cid as i64,
        author,
        kind,
        summary,
        body,
        reply_to,
        created_at: now,
        resolved_at: None,
        resolved_by: None,
        mentions: sort_names(kept),
    }
}

/// The tables after a message is recorded: the message (id one past the
/// last), the author subscribed from it on (an existing subscription only
/// re-activated), and each kept mention subscribed from just before it.
pub open spec fn message_inserted(s: StoreV, m: MsgV, kept: Seq<Seq<char>>) -> StoreV {
    let id: int = s.messages.len() as int + 1;
    let s1 = StoreV { messages: s.messages.push(m), ..s };
    let s2 = upsert_sub(s1, m.author, m.channel_id as int, id);
    upsert_all(s2, kept, m.channel_id as int, id - 1, kept.len() as int)
}

/// An answer resolves the open question it replies to.
pub open spec fn answer_resolves(s: StoreV, rt: int, by: Seq<char>, now: i64) -> StoreV {
    if 1 <= rt <= s.messages.len() && s.message_of(rt).kind == MessageKind::Question
        && s.message_of(rt).resolved_at is None {
        StoreV {
            messages: s.messages.update(
                rt - 1,
                MsgV { resolved_at: Some(now), resolved_by: Some(by), ..s.message_of(rt) },
            ),
            ..s
        }
    } else {
        s
    }
}

/// Whether a post's text fits: a summary of 1-1024 bytes, a body of at most
/// 256 KiB.
pub open spec fn summary_fits(summary_len: nat) -> bool {
    1 <= summary_len <= MAX_SUMMARY
}

/// What posting does to tables `s`, leaving `t`, with result `r`: each
/// refusal leaves the tables as they were.
pub open spec fn post_outcome(
    s: StoreV,
    t: StoreV,
    r: Result<i64, Error>,
    author: Seq<char>,
    channel: Seq<char>,
    kind: Seq<char>,
    summary: Seq<char>,
    summary_bytes: nat,
    body_v: Option<Seq<char>>,
    body_bytes: nat,
    ms: Seq<Seq<char>>,
    reply_to: Option<i64>,
    now: i64,
) -> bool {
    if !summary_fits(summary_bytes) {
        r matches Err(Error::TooLarge(x)) && x@ == "summary"@ && t == s
    } else if body_bytes > MAX_BODY {
        r matches Err(Error::TooLarge(x)) && x@ == "body"@ && t == s
    } else if forall|k: MessageKind| message_kind_name(k) != kind {
        r matches Err(Error::BadName(x)) && x@ == kind && t == s
    } else if first_bad_mention(ms, 0) is Some {
        r matches Err(Error::BadName(x)) && x@ == ms[first_bad_mention(ms, 0)->0] && t == s
    } else if (choose|k: MessageKind| message_kind_name(k) == kind) == MessageKind::Task
        && ms.len() == 0 {
        r matches Err(Error::TaskNeedsAssignee) && t == s
    } else if channel_index(s, channel) is None {
        r matches Err(Error::UnknownChannel(x)) && x@ == channel && t == s
    } else {
        let cid = channel_index(s, channel)->0 + 1;
        let norm = normalized_mentions(ms);
        if reply_to matches Some(rt) && !(1 <= rt <= s.messages.len() && s.message_of(
            rt as int,
        ).channel_id == cid) {
            r matches Err(Error::BadReplyTarget(x)) && reply_to == Some(x) && t == s
        } else if first_unknown(s, norm, 0) is Some {
            r matches Err(Error::UnknownHandle(x)) && x@ == norm[first_unknown(s, norm, 0)->0]
                && t == s
        } else {
            let k = choose|k: MessageKind| message_kind_name(k) == kind;
            let kept = kept_mentions(s, norm, cid, norm.len() as int);
            let m = new_message(cid, author, k, summary, body_v, reply_to, now, kept);
            let s1 = message_inserted(s, m, kept);
            r == Ok::<i64, Error>((s.messages.len() + 1) as i64) && t == (if k
                == MessageKind::Answer && reply_to is Some {
                answer_resolves(s1, reply_to->0 as int, author, now)
            } else {
                s1
            })
        }
    }
}

pub proof fn lemma_upsert_wf(s: StoreV, h: Seq<char>, cid: int, cursor: int)
    requires
        s.wf(),
        1 <= cid <= s.channels.len(),
    ensures
        upsert_sub(s, h, cid, cursor).wf(),
        upsert_sub(s, h, cid, cursor).messages == s.messages,
        upsert_sub(s, h, cid, cursor).channels == s.channels,
        upsert_sub(s, h, cid, cursor).agents == s.agents,
        upsert_sub(s, h, cid, cursor).issues == s.issues,
{
    match sub_index(s, h, cid) {
        Some(i) => {
            crate::store::lemma_wf_sub_update(s, i, crate::store::SubV { active: true, ..s.subs[i] });
        },
        None => {
            let t = upsert_sub(s, h, cid, cursor);
            assert forall|a: int, b: int| 0 <= a < b < t.subs.len() implies !(
            #[trigger] t.subs[a].handle == #[trigger] t.subs[b].handle && t.subs[a].channel_id
                == t.subs[b].channel_id) by {
                if b == s.subs.len() {
                    assert(!(s.subs[a].handle == h && s.subs[a].channel_id == cid));
                }
            }
        },
    }
}

pub proof fn lemma_upsert_all_wf(s: StoreV, names: Seq<Seq<char>>, cid: int, cursor: int, k: int)
    requires
        s.wf(),
        1 <= cid <= s.channels.len(),
        k <= names.len(),
    ensures
        upsert_all(s, names, cid, cursor, k).wf(),
        upsert_all(s, names, cid, cursor, k).messages == s.messages,
        upsert_all(s, names, cid, cursor, k).channels == s.channels,
        upsert_all(s, names, cid, cursor, k).agents == s.agents,
        upsert_all(s, names, cid, cursor, k).issues == s.issues,
    decreases k,
{
    if k > 0 {
        lemma_upsert_all_wf(s, names, cid, cursor, k - 1);
        lemma_upsert_wf(upsert_all(s, names, cid, cursor, k - 1), names[k - 1], cid, cursor);
    }
}

/// The mentions as handles, or `BadName` with the first that is not one.
fn parse_mentions(mentions: &[String]) -> (r: Result<Vec<String>, Error>)
    ensures
        match r {
            Ok(v) => first_bad_mention(names_view(mentions@), 0) is None && names_view(v@)
                == normalized_mentions(names_view(mentions@)),
            Err(e) => match first_bad_mention(names_view(mentions@), 0) {
                Some(i) => 0 <= i < mentions@.len() && (e matches Error::BadName(x) && x@
                    == mentions@[i]@),
                None => false,
            },
        },
{
    let ghost ms = names_view(mentions@);
    let mut out: Vec<String> = Vec::new();
    let mut i: usize = 0;
    while i < mentions.len()
        invariant
            i <= mentions@.len(),
            ms == names_view(mentions@),
            first_bad_mention(ms, 0) == first_bad_mention(ms, i as int),
            names_view(out@) == normalized_mentions(ms).take(i as int),
        decreases mentions.len() - i,
    {
        assert(ms[i as int] == mentions@[i as int]@);
        match Handle::parse(mentions[i].as_str()) {
            Ok(h) => {
                assert(normalized_mentions(ms)[i as int] == normalized_handle(ms[i as int]));
                let hs = h.into_string();
                let ghost before = names_view(out@);
                out.push(hs);
                assert(names_view(out@) =~= before.push(hs@));
                assert(normalized_mentions(ms).take(i + 1) =~= normalized_mentions(ms).take(
                    i as int,
                ).push(normalized_mentions(ms)[i as int]));
            },
            Err(_) => {
                return Err(Error::BadName(owned(mentions[i].as_str())));
            },
        }
        i = i + 1;
    }
    assert(normalized_mentions(ms).take(i as int) =~= normalized_mentions(ms));
    Ok(out)
}

impl Store {
    /// The handles among `ms` that channel `ci` lets a message mention, or
    /// `UnknownHandle` for the first that names no agent.
    pub fn keep_mentions(&self, ms: &Vec<String>, ci: usize) -> (r: Result<Vec<String>, Error>)
        requires
            self@.wf(),
            ci < self@.channels.len(),
        ensures
            match first_unknown(self@, names_view(ms@), 0) {
                Some(k) => 0 <= k < ms@.len() && (r matches Err(Error::UnknownHandle(x)) && x@
                    == ms@[k]@),
                None => r matches Ok(v) && names_view(v@) == kept_mentions(
                    self@,
                    names_view(ms@),
                    ci + 1,
                    ms@.len() as int,
                ),
            },
    {
        let ghost nv = names_view(ms@);
        let mut out: Vec<String> = Vec::new();
        let mut i: usize = 0;
        while i < ms.len()
            invariant
                self@.wf(),
                ci < self@.channels.len(),
                i <= ms@.len(),
                nv == names_view(ms@),
                first_unknown(self@, nv, 0) == first_unknown(self@, nv, i as int),
                names_view(out@) == kept_mentions(self@, nv, ci + 1, i as int),
            decreases ms.len() - i,
        {
            if self.find_agent(ms[i].as_str()).is_none() {
                return Err(Error::UnknownHandle(owned(ms[i].as_str())));
            }
            let keep = self.channels[ci].kind == ChannelKind::Channel || self.is_member(
                ci,
                ms[i].as_str(),
            );
            if keep {
                out.push(owned(ms[i].as_str()));
            }
            assert(names_view(out@) =~= kept_mentions(self@, nv, ci + 1, i + 1));
            i = i + 1;
        }
        Ok(out)
    }

    /// Records a message in channel `cid` by `author`, subscribes the author
    /// and each kept mention, and returns the message's id.
    pub fn insert_message(
        &mut self,
        cid: i64,
        author: &str,
        kind: MessageKind,
        summary: &str,
        body: Option<&str>,
        reply_to: Option<i64>,
        now: i64,
        kept: &Vec<String>,
    ) -> (r: i64)
        requires
            old(self)@.wf(),
            old(self)@.messages.len() + 1 < i64::MAX,
            1 <= cid <= old(self)@.channels.len(),
        ensures
            final(self)@.wf(),
            r == old(self)@.messages.len() + 1,
            final(self)@.messages.len() == old(self)@.messages.len() + 1,
            forall|i: int|
                0 <= i < old(self)@.messages.len() ==> #[trigger] final(self)@.messages[i]
                    == old(self)@.messages[i],
            final(self)@.channels == old(self)@.channels,
            final(self)@.agents == old(self)@.agents,
            final(self)@.issues == old(self)@.issues,
            final(self)@ == message_inserted(
                old(self)@,
                new_message(
                    cid as int,
                    author@,
                    kind,
                    summary@,
                    match body {
                        Some(b) => Some(b@),
                        None => None,
                    },
                    reply_to,
                    now,
                    names_view(kept@),
                ),
                names_view(kept@),
            ),
    {
        let ghost s = self@;
        let ghost kv = names_view(kept@);
        let mentions = sorted_copy(kept);
        let row = MessageRow {
            channel_id: cid,
            author: owned(author),
            kind,
            summary: owned(summary),
            body: match body {
                Some(b) => Some(owned(b)),
                None => None,
            },
            reply_to,
            created_at: now,
            resolved_at: None,
            resolved_by: None,
            mentions,
        };
        let id = self.messages.len() as i64 + 1;
        self.messages.push(row);
        let ghost m = new_message(
            cid as int,
            author@,
            kind,
            summary@,
            match body {
                Some(b) => Some(b@),
                None => None,
            },
            reply_to,
            now,
            kv,
        );
        proof {
            assert(row@ == m);
            assert(self@.messages =~= s.messages.push(m));
            assert(self@ =~= StoreV { messages: s.messages.push(m), ..s });
            assert(messages_wf(self@.messages, self@.channels.len())) by {
                assert forall|i: int| 0 <= i < self@.messages.len() implies {
                    &&& 1 <= #[trigger] self@.messages[i].channel_id <= self@.channels.len()
                    &&& (self@.messages[i].resolved_at is Some
                        <==> self@.messages[i].resolved_by is Some)
                    &&& sorted_names(self@.messages[i].mentions)
                } by {
                    if i < s.messages.len() {
                        assert(self@.messages[i] == s.messages[i]);
                    }
                }
            }
        }
        let ghost s1 = self@;
        self.upsert_sub(author, cid, id);
        proof {
            lemma_upsert_wf(s1, author@, cid as int, id as int);
        }
        let ghost s2 = self@;
        let mut k: usize = 0;
        while k < kept.len()
            invariant
                k <= kept@.len(),
                kv == names_view(kept@),
                s2.wf(),
                1 <= cid <= s2.channels.len(),
                1 <= id,
                self@ == upsert_all(s2, kv, cid as int, id - 1, k as int),
            decreases kept.len() - k,
        {
            proof {
                lemma_upsert_all_wf(s2, kv, cid as int, id - 1, k as int);
            }
            self.upsert_sub(kept[k].as_str(), cid, id - 1);
            k = k + 1;
        }
        proof {
            lemma_upsert_all_wf(s2, kv, cid as int, id - 1, k as int);
        }
        id
    }
}

impl Hub {
    /// Posts a message to channel `channel` as `author`.  `kind` names a
    /// message kind; `mentions` are handles, each subscribed to the channel
    /// from just before this message (in a direct channel only members are
    /// mentioned); a task needs one.  `reply_to` must be a message of the
    /// same channel, and an answer resolves the open question it replies to.
    pub fn post(
        &mut self,
        author: &Handle,
        channel: &str,
        kind: &str,
        summary: &str,
        body: Option<&str>,
        mentions: &[String],
        reply_to: Option<i64>,
        now: i64,
    ) -> (r: Result<i64, Error>)
        requires
            old(self).store@.wf(),
            old(self).store@.messages.len() + 1 < i64::MAX,
        ensures
            final(self).store@.wf(),
            post_outcome(
                old(self).store@,
                final(self).store@,
                r,
                author@,
                channel@,
                kind@,
                summary@,
                summary.len() as nat,
                match body {
                    Some(b) => Some(b@),
                    None => None,
                },
                match body {
                    Some(b) => b.len() as nat,
                    None => 0,
                },
                names_view(mentions@),
                reply_to,
                now,
            ),
    {
        if summary.len() == 0 || summary.len() > MAX_SUMMARY {
            return Err(Error::TooLarge(owned("summary")));
        }
        if let Some(b) = body {
            if b.len() > MAX_BODY {
                return Err(Error::TooLarge(owned("body")));
            }
        }
        let k = match MessageKind::parse(kind) {
            Ok(k) => k,
            Err(e) => {
                return Err(e);
            },
        };
        let mhandles = match parse_mentions(mentions) {
            Ok(v) => v,
            Err(e) => {
                return Err(e);
            },
        };
        proof {
            let c = choose|c: MessageKind| message_kind_name(c) == kind@;
            lemma_message_kind_names_distinct(c, k);
        }
        if k == MessageKind::Task && mhandles.len() == 0 {
            return Err(Error::TaskNeedsAssignee);
        }
        let ci = match self.store.find_channel(channel) {
            Some(ci) => ci,
            None => {
                return Err(Error::UnknownChannel(owned(channel)));
            },
        };
        let cid = ci as i64 + 1;
        if let Some(rt) = reply_to {
            if !(1 <= rt && rt <= self.store.messages.len() as i64 && self.store.messages[(rt
                - 1) as usize].channel_id == cid) {
                return Err(Error::BadReplyTarget(rt));
            }
        }
        let kept = match self.store.keep_mentions(&mhandles, ci) {
            Ok(v) => v,
            Err(e) => {
                return Err(e);
            },
        };
        let id = self.store.insert_message(cid, author.as_str(), k, summary, body, reply_to, now, &kept);
        if k == MessageKind::Answer {
            if let Some(rt) = reply_to {
                let ghost s1 = self.store@;
                let idx = (rt - 1) as usize;
                if self.store.messages[idx].kind == MessageKind::Question
                    && self.store.messages[idx].resolved_at.is_none() {
                    self.store.messages[idx].resolved_at = Some(now);
                    self.store.messages[idx].resolved_by = Some(owned(author.as_str()));
                    proof {
                        let nm = MsgV {
                            resolved_at: Some(now),
                            resolved_by: Some(author@),
                            ..s1.messages[idx as int]
                        };
                        assert(self.store@.messages =~= s1.messages.update(idx as int, nm));
                        assert(self.store@ =~= answer_resolves(s1, rt as int, author@, now));
                        assert(messages_wf(self.store@.messages, self.store@.channels.len())) by {
                            assert forall|i: int| 0 <= i < self.store@.messages.len() implies {
                                &&& 1 <= #[trigger] self.store@.messages[i].channel_id
                                    <= self.store@.channels.len()
                                &&& (self.store@.messages[i].resolved_at is Some
                                    <==> self.store@.messages[i].resolved_by is Some)
                                &&& sorted_names(self.store@.messages[i].mentions)
                            } by {
                                if i != idx {
                                    assert(self.store@.messages[i] == s1.messages[i]);
                                }
                            }
                        }
                    }
                }
            }
        }
        Ok(id)
    }
}

/// The topic a direct channel is created with: `dm <from>/<to>`.
pub open spec fn dm_topic(from: Seq<char>, to: Seq<char>) -> Seq<char> {
    seq!['d', 'm', ' '] + from + seq!['/'] + to
}

/// `h` added to the members of channel `ci`, in order, unless already one.
pub open spec fn add_member(s: StoreV, ci: int, h: Seq<char>) -> StoreV {
    if s.channels[ci].members.contains(h) {
        s
    } else {
        StoreV {
            channels: s.channels.update(
                ci,
                ChannelV { members: insert_name(h, s.channels[ci].members), ..s.channels[ci] },
            ),
            ..s
        }
    }
}

/// Index of the direct channel between `from` and `to`, once it exists.
pub open spec fn dm_index(s: StoreV, from: Seq<char>, to: Seq<char>) -> int {
    match channel_index(s, dm_name(from, to)) {
        Some(i) => i,
        None => s.channels.len() as int,
    }
}

/// The tables once the direct channel between `from` and `to` exists (made
/// now when new) with both as members, each subscribed (from its newest
/// message on when the subscription is new).
pub open spec fn dm_opened(s: StoreV, from: Seq<char>, to: Seq<char>, now: i64) -> StoreV {
    let name = dm_name(from, to);
    let s1 = match channel_index(s, name) {
        Some(_) => s,
        None => StoreV {
            channels: s.channels.push(
                ChannelV {
                    name,
                    topic: dm_topic(from, to),
                    kind: ChannelKind::Dm,
                    created_by: from,
                    created_at: now,
                    archived_at: None,
                    issue_prefix: None,
                    members: seq![],
                },
            ),
            ..s
        },
    };
    let ci = dm_index(s, from, to);
    let max_id = channel_max_id(s1, ci + 1);
    let s2 = upsert_sub(add_member(s1, ci, from), from, ci + 1, max_id);
    upsert_sub(add_member(s2, ci, to), to, ci + 1, max_id)
}

impl Store {
    /// Adds `h` to the members of channel `ci` unless it is one already.
    pub fn add_member(&mut self, ci: usize, h: &str)
        requires
            old(self)@.wf(),
            ci < old(self)@.channels.len(),
        ensures
            final(self)@.wf(),
            final(self)@ == add_member(old(self)@, ci as int, h@),
    {
        if self.is_member(ci, h) {
            return;
        }
        let ghost s = self@;
        let ghost before = s.channels[ci as int].members;
        let mut j: usize = 0;
        let n = self.channels[ci].members.len();
        while j < n
            invariant
                self@ == s,
                ci < s.channels.len(),
                before == s.channels[ci as int].members,
                n == before.len(),
                j <= n,
                forall|t: int| 0 <= t < j ==> !seq_le(h@, #[trigger] before[t]),
            ensures
                j <= n,
                forall|t: int| 0 <= t < j ==> !seq_le(h@, #[trigger] before[t]),
                j == n || seq_le(h@, before[j as int]),
            decreases n - j,
        {
            if str_compare(h, self.channels[ci].members[j].as_str()) <= 0 {
                break;
            }
            j = j + 1;
        }
        proof {
            if j < n {
                lemma_compare_eq(h@, before[j as int]);
            }
            lemma_insert_name_at(h@, before, j as int);
            lemma_insert_name_sorted(h@, before);
        }
        self.channels[ci].members.insert(j, owned(h));
        proof {
            let c = ChannelV { members: insert_name(h@, before), ..s.channels[ci as int] };
            assert(names_view(self.channels@[ci as int].members@) =~= before.insert(j as int, h@));
            assert(self@.channels =~= s.channels.update(ci as int, c));
            lemma_wf_channel_update(s, ci as int, c);
            assert(self@ =~= add_member(s, ci as int, h@));
        }
    }
}

impl Hub {
    /// Sends a direct message from `from` to `to` in their private channel
    /// (`dm:<lo>+<hi>`), opening it first: the channel is created when new,
    /// both become members and are subscribed.  The channel stays open even
    /// when the message itself is refused.
    pub fn dm(
        &mut self,
        from: &Handle,
        to: &Handle,
        kind: &str,
        summary: &str,
        body: Option<&str>,
        reply_to: Option<i64>,
        now: i64,
    ) -> (r: Result<(i64, String), Error>)
        requires
            old(self).store@.wf(),
            old(self).store@.channels.len() + 2 < i64::MAX,
            old(self).store@.messages.len() + 1 < i64::MAX,
        ensures
            final(self).store@.wf(),
            (r matches Ok((_, nm)) ==> nm@ == dm_name(from@, to@)),
            post_outcome(
                dm_opened(old(self).store@, from@, to@, now),
                final(self).store@,
                match r {
                    Ok((id, _)) => Ok(id),
                    Err(e) => Err(e),
                },
                from@,
                dm_name(from@, to@),
                kind@,
                summary@,
                summary.len() as nat,
                match body {
                    Some(b) => Some(b@),
                    None => None,
                },
                match body {
                    Some(b) => b.len() as nat,
                    None => 0,
                },
                seq![],
                reply_to,
                now,
            ),
    {
        let name = dm_channel_name(from, to);
        let ghost s = self.store@;
        let ci = match self.store.find_channel(name.as_str()) {
            Some(ci) => ci,
            None => {
                let topic = concat(owned("dm "), from.as_str());
                let topic = concat(topic, "/");
                let topic = concat(topic, to.as_str());
                proof {
                    reveal_strlit("dm ");
                    reveal_strlit("/");
                }
                let row = ChannelRow {
                    name: owned(name.as_str()),
                    topic,
                    kind: ChannelKind::Dm,
                    created_by: owned(from.as_str()),
                    created_at: now,
                    archived_at: None,
                    issue_prefix: None,
                    members: Vec::new(),
                };
                let ci = self.store.channels.len();
                self.store.channels.push(row);
                proof {
                    assert(row@.members =~= seq![]);
                    crate::types::lemma_dm_name_lower(from@, to@);
                    assert(row@.topic =~= dm_topic(from@, to@));
                    assert(self.store@.channels =~= s.channels.push(row@));
                    assert forall|i: int, j: int|
                        0 <= i < j < self.store@.channels.len() implies #[trigger] self.store@.channels[i].name
                        != #[trigger] self.store@.channels[j].name by {
                        if j == s.channels.len() {
                            assert(s.channels[i].name != row@.name);
                        }
                    }
                    assert(self.store@ =~= StoreV { channels: s.channels.push(row@), ..s });
                }
                ci
            },
        };
        assert(ci as int == dm_index(s, from@, to@));
        let ghost s1 = self.store@;
        assert(s1 == match channel_index(s, dm_name(from@, to@)) {
            Some(_) => s,
            None => StoreV {
                channels: s.channels.push(
                    ChannelV {
                        name: dm_name(from@, to@),
                        topic: dm_topic(from@, to@),
                        kind: ChannelKind::Dm,
                        created_by: from@,
                        created_at: now,
                        archived_at: None,
                        issue_prefix: None,
                        members: seq![],
                    },
                ),
                ..s
            },
        });
        let cid = ci as i64 + 1;
        let max_id = self.store.channel_max(cid);
        self.store.add_member(ci, from.as_str());
        self.store.upsert_sub(from.as_str(), cid, max_id);
        self.store.add_member(ci, to.as_str());
        self.store.upsert_sub(to.as_str(), cid, max_id);
        assert(self.store@ == dm_opened(s, from@, to@, now));
        let no_mentions: Vec<String> = Vec::new();
        assert(names_view(no_mentions@) =~= seq![]);
        match self.post(from, name.as_str(), kind, summary, body, no_mentions.as_slice(), reply_to, now) {
            Ok(id) => Ok((id, name)),
            Err(e) => Err(e),
        }
    }
}

} // verus!
