//! Whole-channel views: a channel's history page by page, every
//! conversation with its members and activity, the channel list as an agent
//! sees it, and the sizes of the tables.
use crate::agents::capped_unread;
use crate::dto::{AdminChannelInfo, ChannelInfo, ConversationInfo, GlobalStats, MessageFull};
use crate::error::Error;
use crate::hub::Hub;
use crate::order::{order_by_key, order_by_name, sort_names, sorted_copy};
use crate::reads::copy_names;
use crate::store::{
    channel_index, is_subscribed, names_view, opt_view, sub_index, ChannelV, Store, StoreV,
};
use crate::text::{owned, seq_le, str_compare};
use crate::types::{channel_kind_name, message_kind_name, Handle};
use vstd::prelude::*;

verus! {

/// The most messages one history page holds.
pub const MAX_HISTORY: i64 = 200;

/// How many messages a history page holds when `limit` is asked for: the
/// maximum for a limit of zero or less, else the limit capped at the maximum.
pub open spec fn history_limit(limit: i64) -> int {
    if limit <= 0 || limit >= MAX_HISTORY {
        MAX_HISTORY as int
    } else {
        limit as int
    }
}

/// Whether message `id` is in channel `cid` and, when `before` is given,
/// older than it.
pub open spec fn in_history(s: StoreV, cid: int, before: Option<i64>, id: int) -> bool {
    &&& s.message_of(id).channel_id == cid
    &&& match before {
        Some(b) => id < b,
        None => true,
    }
}

/// The ids among `1..=k` that `in_history` keeps, ascending.
pub open spec fn history_ids(s: StoreV, cid: int, before: Option<i64>, k: int) -> Seq<int>
    decreases k,
{
    if k <= 0 {
        seq![]
    } else {
        let prev = history_ids(s, cid, before, k - 1);
        if in_history(s, cid, before, k) {
            prev.push(k)
        } else {
            prev
        }
    }
}

/// The ids on a history page: the newest `history_limit(limit)` messages
/// of channel `cid` older than `before`, oldest first.
pub open spec fn history_page(s: StoreV, cid: int, before: Option<i64>, limit: i64) -> Seq<int> {
    let all = history_ids(s, cid, before, s.messages.len() as int);
    let n = history_limit(limit);
    if all.len() <= n {
        all
    } else {
        all.subrange(all.len() - n, all.len() as int)
    }
}

/// `mf` is message `id`, shown as a message of channel `channel`.
pub open spec fn message_full_is(mf: MessageFull, s: StoreV, id: int, channel: Seq<char>) -> bool {
    let m = s.message_of(id);
    &&& mf.id == id
    &&& mf.channel@ == channel
    &&& mf.from@ == m.author
    &&& mf.kind@ == message_kind_name(m.kind)
    &&& mf.summary@ == m.summary
    &&& opt_view(mf.body) == m.body
    &&& mf.ts == m.created_at
    &&& mf.reply_to == m.reply_to
    &&& mf.resolved_at == m.resolved_at
    &&& opt_view(mf.resolved_by) == m.resolved_by
    &&& names_view(mf.to@) == m.mentions
}

/// How many of the first `k` messages are in channel `cid`.
pub open spec fn count_in(s: StoreV, cid: int, k: int) -> nat
    decreases k,
{
    if k <= 0 {
        0
    } else {
        count_in(s, cid, k - 1) + if s.messages[k - 1].channel_id == cid {
            1nat
        } else {
            0nat
        }
    }
}

/// The latest creation time among the first `k` messages of channel `cid`.
pub open spec fn latest_in(s: StoreV, cid: int, k: int) -> Option<i64>
    decreases k,
{
    if k <= 0 {
        None
    } else {
        let prev = latest_in(s, cid, k - 1);
        let m = s.messages[k - 1];
        if m.channel_id != cid {
            prev
        } else {
            match prev {
                Some(t) => if t >= m.created_at {
                    Some(t)
                } else {
                    Some(m.created_at)
                },
                None => Some(m.created_at),
            }
        }
    }
}

/// The handles of the active subscriptions to channel `cid` among the first
/// `k` subscription rows, in row order.
pub open spec fn members_upto(s: StoreV, cid: int, k: int) -> Seq<Seq<char>>
    decreases k,
{
    if k <= 0 {
        seq![]
    } else {
        let prev = members_upto(s, cid, k - 1);
        if s.subs[k - 1].channel_id == cid && s.subs[k - 1].active {
            prev.push(s.subs[k - 1].handle)
        } else {
            prev
        }
    }
}

/// The members of channel `cid`: who is actively subscribed, by handle.
pub open spec fn members_of(s: StoreV, cid: int) -> Seq<Seq<char>> {
    sort_names(members_upto(s, cid, s.subs.len() as int))
}

/// Whether conversation key `a` comes no later than `b`: the most recently
/// active first, those without messages last, equal activity by name.
pub open spec fn activity_le(a: (Option<i64>, Seq<char>), b: (Option<i64>, Seq<char>)) -> bool {
    match a.0 {
        Some(x) => match b.0 {
            Some(y) => x > y || (x == y && seq_le(a.1, b.1)),
            None => true,
        },
        None => match b.0 {
            Some(_) => false,
            None => seq_le(a.1, b.1),
        },
    }
}

/// Index `x` placed before the first index of `s` whose key it does not
/// come after.
pub open spec fn insert_by_activity(x: int, s: Seq<int>, key: Seq<(Option<i64>, Seq<char>)>) -> Seq<int>
    decreases s.len(),
{
    if s.len() == 0 {
        seq![x]
    } else if activity_le(key[x], key[s[0]]) {
        seq![x] + s
    } else {
        seq![s[0]] + insert_by_activity(x, s.drop_first(), key)
    }
}

/// The indices `0..n` ordered by `key` under `activity_le`.
pub open spec fn order_by_activity(n: nat, key: Seq<(Option<i64>, Seq<char>)>) -> Seq<int>
    decreases n,
{
    if n == 0 {
        seq![]
    } else {
        insert_by_activity(n - 1, order_by_activity((n - 1) as nat, key), key)
    }
}

/// Each channel's latest activity and name.
pub open spec fn activity_keys(s: StoreV) -> Seq<(Option<i64>, Seq<char>)> {
    Seq::new(
        s.channels.len(),
        |c: int| (latest_in(s, c + 1, s.messages.len() as int), s.channels[c].name),
    )
}

pub open spec fn key_view(v: Seq<(Option<i64>, String)>) -> Seq<(Option<i64>, Seq<char>)> {
    v.map_values(|k: (Option<i64>, String)| (k.0, k.1@))
}

/// `ci` describes channel `c` (an index) as a conversation.
pub open spec fn conversation_is(ci: ConversationInfo, s: StoreV, c: int) -> bool {
    let ch = s.channels[c];
    &&& ci.name@ == ch.name
    &&& ci.kind@ == channel_kind_name(ch.kind)
    &&& ci.topic@ == ch.topic
    &&& names_view(ci.members@) == members_of(s, c + 1)
    &&& ci.message_count == count_in(s, c + 1, s.messages.len() as int)
    &&& ci.last_activity_ts == latest_in(s, c + 1, s.messages.len() as int)
    &&& ci.archived == ch.archived_at is Some
}

/// `ai` describes channel `c` (an index) to the operator.
pub open spec fn admin_info_is(ai: AdminChannelInfo, s: StoreV, c: int) -> bool {
    let ch = s.channels[c];
    &&& ai.name@ == ch.name
    &&& ai.topic@ == ch.topic
    &&& ai.kind@ == channel_kind_name(ch.kind)
    &&& ai.archived == ch.archived_at is Some
    &&& ai.member_count == members_upto(s, c + 1, s.subs.len() as int).len()
    &&& ai.message_count == count_in(s, c + 1, s.messages.len() as int)
    &&& ai.last_activity_ts == latest_in(s, c + 1, s.messages.len() as int)
}

/// Channel `c` (an index) as `h` sees it in the list: name, topic, kind,
/// whether `h` is subscribed and, if so, its unread count up to 50.
pub open spec fn listed_info(s: StoreV, h: Seq<char>, c: int) -> (Seq<char>, Seq<char>, Seq<char>, bool, int) {
    let ch = s.channels[c];
    if is_subscribed(s, h, c + 1) {
        let i = sub_index(s, h, c + 1)->0;
        (ch.name, ch.topic, channel_kind_name(ch.kind), true, capped_unread(s, c + 1, s.subs[i].last_acked_id as int))
    } else {
        (ch.name, ch.topic, channel_kind_name(ch.kind), false, 0)
    }
}

/// The list `h` gets of the channels at the first `k` positions of `ord`,
/// leaving archived ones out unless `include_archived`.
pub open spec fn listed_channels(s: StoreV, h: Seq<char>, include_archived: bool, ord: Seq<int>, k: int) -> Seq<(Seq<char>, Seq<char>, Seq<char>, bool, int)>
    decreases k,
{
    if k <= 0 {
        seq![]
    } else {
        let prev = listed_channels(s, h, include_archived, ord, k - 1);
        let c = ord[k - 1];
        if s.channels[c].archived_at is Some && !include_archived {
            prev
        } else {
            prev.push(listed_info(s, h, c))
        }
    }
}

pub open spec fn channel_info_view(ci: ChannelInfo) -> (Seq<char>, Seq<char>, Seq<char>, bool, int) {
    (ci.name@, ci.topic@, ci.kind@, ci.subscribed, ci.unread as int)
}

/// The channel names, in table order.
pub open spec fn channel_names(s: StoreV) -> Seq<Seq<char>> {
    s.channels.map_values(|c: ChannelV| c.name)
}

proof fn lemma_count_in_bound(s: StoreV, cid: int, k: int)
    requires
        0 <= k,
    ensures
        count_in(s, cid, k) <= k,
    decreases k,
{
    if k > 0 {
        lemma_count_in_bound(s, cid, k - 1);
    }
}

proof fn lemma_members_upto_bound(s: StoreV, cid: int, k: int)
    requires
        0 <= k,
    ensures
        members_upto(s, cid, k).len() <= k,
    decreases k,
{
    if k > 0 {
        lemma_members_upto_bound(s, cid, k - 1);
    }
}

proof fn lemma_insert_by_activity_at(x: int, s: Seq<int>, key: Seq<(Option<i64>, Seq<char>)>, j: int)
    requires
        0 <= j <= s.len(),
        forall|t: int| 0 <= t < j ==> !activity_le(key[x], key[#[trigger] s[t]]),
        j == s.len() || activity_le(key[x], key[s[j]]),
    ensures
        insert_by_activity(x, s, key) == s.insert(j, x),
    decreases s.len(),
{
    if s.len() == 0 {
        assert(s.insert(j, x) =~= seq![x]);
    } else if j == 0 {
        assert(s.insert(j, x) =~= seq![x] + s);
    } else {
        let t = s.drop_first();
        assert forall|u: int| 0 <= u < j - 1 implies !activity_le(key[x], key[#[trigger] t[u]]) by {
            assert(t[u] == s[u + 1]);
        }
        lemma_insert_by_activity_at(x, t, key, j - 1);
        assert(s.insert(j, x) =~= seq![s[0]] + t.insert(j - 1, x));
    }
}

fn activity_before(a: &(Option<i64>, String), b: &(Option<i64>, String)) -> (r: bool)
    ensures
        r == activity_le((a.0, a.1@), (b.0, b.1@)),
{
    match a.0 {
        Some(x) => match b.0 {
            Some(y) => x > y || (x == y && str_compare(a.1.as_str(), b.1.as_str()) <= 0),
            None => true,
        },
        None => match b.0 {
            Some(_) => false,
            None => str_compare(a.1.as_str(), b.1.as_str()) <= 0,
        },
    }
}

/// The positions `0..keys.len()` ordered by `activity_le`.
fn order_by_activity_of(keys: &Vec<(Option<i64>, String)>) -> (r: Vec<usize>)
    ensures
        r@.map_values(|u: usize| u as int) == order_by_activity(keys@.len(), key_view(keys@)),
        forall|t: int| 0 <= t < r@.len() ==> #[trigger] r@[t] < keys@.len(),
{
    let ghost key = key_view(keys@);
    let mut out: Vec<usize> = Vec::new();
    let mut k: usize = 0;
    while k < keys.len()
        invariant
            k <= keys@.len(),
            key == key_view(keys@),
            out@.map_values(|u: usize| u as int) == order_by_activity(k as nat, key),
            forall|t: int| 0 <= t < out@.len() ==> #[trigger] out@[t] < k,
        decreases keys.len() - k,
    {
        let mut j: usize = 0;
        while j < out.len()
            invariant
                j <= out@.len(),
                k < keys@.len(),
                key == key_view(keys@),
                forall|t: int| 0 <= t < out@.len() ==> #[trigger] out@[t] < k,
                forall|t: int|
                    0 <= t < j ==> !activity_le(key[k as int], key[#[trigger] out@[t] as int]),
            ensures
                j <= out@.len(),
                forall|t: int|
                    0 <= t < j ==> !activity_le(key[k as int], key[#[trigger] out@[t] as int]),
                j == out@.len() || activity_le(key[k as int], key[out@[j as int] as int]),
            decreases out.len() - j,
        {
            let o = out[j];
            if activity_before(&keys[k], &keys[o]) {
                break;
            }
            j = j + 1;
        }
        let ghost before = out@.map_values(|u: usize| u as int);
        proof {
            assert forall|t: int| 0 <= t < j implies !activity_le(key[k as int], key[#[trigger] before[t]]) by {
                assert(before[t] == out@[t] as int);
            }
            if j < out@.len() {
                assert(before[j as int] == out@[j as int] as int);
            }
            lemma_insert_by_activity_at(k as int, before, key, j as int);
        }
        out.insert(j, k);
        assert(out@.map_values(|u: usize| u as int) =~= before.insert(j as int, k as int));
        k = k + 1;
    }
    out
}

fn copy_opt(o: &Option<String>) -> (r: Option<String>)
    ensures
        opt_view(r) == opt_view(*o),
{
    match o {
        Some(x) => Some(owned(x.as_str())),
        None => None,
    }
}

impl Store {
    /// How many messages channel `cid` has, and when the latest was created.
    pub fn activity_of(&self, cid: i64) -> (r: (i64, Option<i64>))
        requires
            self@.wf(),
        ensures
            r.0 == count_in(self@, cid as int, self@.messages.len() as int),
            r.1 == latest_in(self@, cid as int, self@.messages.len() as int),
    {
        let ghost s = self@;
        let nm = self.messages.len();
        let mut n: i64 = 0;
        let mut latest: Option<i64> = None;
        let mut k: usize = 0;
        while k < nm
            invariant
                s == self@,
                s.wf(),
                nm == s.messages.len(),
                k <= nm,
                n == count_in(s, cid as int, k as int),
                latest == latest_in(s, cid as int, k as int),
            decreases nm - k,
        {
            proof {
                lemma_count_in_bound(s, cid as int, k as int);
            }
            let m = &self.messages[k];
            assert(s.messages[k as int] == m@);
            if m.channel_id == cid {
                n = n + 1;
                latest = match latest {
                    Some(t) => if t >= m.created_at {
                        Some(t)
                    } else {
                        Some(m.created_at)
                    },
                    None => Some(m.created_at),
                };
            }
            k = k + 1;
        }
        (n, latest)
    }

    /// Who is actively subscribed to channel `cid`, in row order.
    pub fn active_handles(&self, cid: i64) -> (r: Vec<String>)
        requires
            self@.wf(),
        ensures
            names_view(r@) == members_upto(self@, cid as int, self@.subs.len() as int),
    {
        let ghost s = self@;
        let ns = self.subs.len();
        let mut out: Vec<String> = Vec::new();
        let mut k: usize = 0;
        while k < ns
            invariant
                s == self@,
                ns == s.subs.len(),
                k <= ns,
                names_view(out@) == members_upto(s, cid as int, k as int),
            decreases ns - k,
        {
            let row = &self.subs[k];
            assert(s.subs[k as int] == row@);
            if row.channel_id == cid && row.active {
                let ghost before = names_view(out@);
                let x = owned(row.handle.as_str());
                out.push(x);
                assert(names_view(out@) =~= before.push(x@));
            }
            k = k + 1;
        }
        out
    }

    /// The channel names, in table order.
    pub fn channel_name_list(&self) -> (r: Vec<String>)
        ensures
            names_view(r@) == channel_names(self@),
    {
        let ghost s = self@;
        let mut out: Vec<String> = Vec::new();
        let mut k: usize = 0;
        while k < self.channels.len()
            invariant
                s == self@,
                k <= s.channels.len(),
                names_view(out@) == channel_names(s).take(k as int),
            decreases self.channels.len() - k,
        {
            let ghost before = names_view(out@);
            let x = owned(self.channels[k].name.as_str());
            out.push(x);
            assert(names_view(out@) =~= before.push(x@));
            assert(channel_names(s).take(k + 1) =~= channel_names(s).take(k as int).push(
                s.channels[k as int].name,
            ));
            k = k + 1;
        }
        assert(channel_names(s).take(s.channels.len() as int) =~= channel_names(s));
        out
    }

    /// Channel `c` (an index) as a conversation.
    pub fn conversation_of(&self, c: usize) -> (r: ConversationInfo)
        requires
            self@.wf(),
            c < self@.channels.len(),
        ensures
            conversation_is(r, self@, c as int),
    {
        let cid = c as i64 + 1;
        let (count, latest) = self.activity_of(cid);
        let handles = self.active_handles(cid);
        let ch = &self.channels[c];
        assert(self@.channels[c as int] == ch@);
        ConversationInfo {
            name: owned(ch.name.as_str()),
            kind: owned(ch.kind.as_str()),
            topic: owned(ch.topic.as_str()),
            members: sorted_copy(&handles),
            message_count: count,
            last_activity_ts: latest,
            archived: ch.archived_at.is_some(),
        }
    }

    /// Channel `c` (an index) as the operator sees it.
    pub fn admin_info_of(&self, c: usize) -> (r: AdminChannelInfo)
        requires
            self@.wf(),
            self@.subs.len() < i64::MAX,
            c < self@.channels.len(),
        ensures
            admin_info_is(r, self@, c as int),
    {
        let cid = c as i64 + 1;
        let (count, latest) = self.activity_of(cid);
        let handles = self.active_handles(cid);
        proof {
            lemma_members_upto_bound(self@, cid as int, self@.subs.len() as int);
        }
        let ch = &self.channels[c];
        assert(self@.channels[c as int] == ch@);
        assert(handles@.len() == names_view(handles@).len());
        AdminChannelInfo {
            name: owned(ch.name.as_str()),
            topic: owned(ch.topic.as_str()),
            kind: owned(ch.kind.as_str()),
            archived: ch.archived_at.is_some(),
            member_count: handles.len() as i64,
            message_count: count,
            last_activity_ts: latest,
        }
    }

    /// Message `id` with everything recorded of it, as a message of `channel`.
    pub fn message_full(&self, id: i64, channel: &str) -> (r: MessageFull)
        requires
            self@.wf(),
            1 <= id <= self@.messages.len(),
        ensures
            message_full_is(r, self@, id as int, channel@),
    {
        let n = self.messages.len();
        assert(id <= n);
        let m = &self.messages[(id - 1) as usize];
        assert(self@.message_of(id as int) == m@);
        MessageFull {
            id,
            channel: owned(channel),
            from: owned(m.author.as_str()),
            kind: owned(m.kind.as_str()),
            summary: owned(m.summary.as_str()),
            body: copy_opt(&m.body),
            ts: m.created_at,
            reply_to: m.reply_to,
            resolved_at: m.resolved_at,
            resolved_by: copy_opt(&m.resolved_by),
            to: copy_names(&m.mentions),
        }
    }
}

impl Hub {
    /// A page of channel `channel`'s messages, whoever may read them: the
    /// newest `limit` (200 when `limit` is zero or less, and never more than
    /// 200) of those older than `before`, oldest first.
    pub fn channel_history(&self, channel: &str, before: Option<i64>, limit: i64) -> (r: Result<Vec<MessageFull>, Error>)
        requires
            self.store@.wf(),
        ensures
            ({
                let s = self.store@;
                match channel_index(s, channel@) {
                    None => r matches Err(Error::UnknownChannel(x)) && x@ == channel@,
                    Some(ci) => r matches Ok(v) && {
                        let page = history_page(s, ci + 1, before, limit);
                        &&& v@.len() == page.len()
                        &&& forall|t: int|
                            0 <= t < v@.len() ==> message_full_is(#[trigger] v@[t], s, page[t], channel@)
                    },
                }
            }),
    {
        let ghost s = self.store@;
        let ci = match self.store.find_channel(channel) {
            Some(ci) => ci,
            None => {
                return Err(Error::UnknownChannel(owned(channel)));
            },
        };
        let cid = ci as i64 + 1;
        let n = if limit <= 0 || limit >= MAX_HISTORY {
            MAX_HISTORY
        } else {
            limit
        };
        let nm = self.store.messages.len();
        let mut ids: Vec<i64> = Vec::new();
        let mut k: usize = 0;
        while k < nm
            invariant
                s == self.store@,
                s.wf(),
                nm == s.messages.len(),
                k <= nm,
                ids@.len() <= k,
                ids@.map_values(|x: i64| x as int) == history_ids(s, cid as int, before, k as int),
                forall|u: int| 0 <= u < ids@.len() ==> 1 <= #[trigger] ids@[u] <= k,
            decreases nm - k,
        {
            let id = (k + 1) as i64;
            assert(s.message_of(id as int).channel_id == self.store.messages@[k as int].channel_id);
            let keep = self.store.messages[k].channel_id == cid && match before {
                Some(b) => id < b,
                None => true,
            };
            let ghost prev = ids@.map_values(|x: i64| x as int);
            if keep {
                ids.push(id);
                assert(ids@.map_values(|x: i64| x as int) =~= prev.push(id as int));
            }
            k = k + 1;
        }
        let ghost all = history_ids(s, cid as int, before, nm as int);
        let start: usize = if ids.len() as i64 <= n {
            0
        } else {
            ids.len() - n as usize
        };
        let ghost page = history_page(s, cid as int, before, limit);
        assert(page =~= all.subrange(start as int, all.len() as int));
        let mut out: Vec<MessageFull> = Vec::new();
        let mut t: usize = start;
        while t < ids.len()
            invariant
                s == self.store@,
                s.wf(),
                start <= t <= ids@.len(),
                ids@.map_values(|x: i64| x as int) == all,
                forall|u: int| 0 <= u < ids@.len() ==> 1 <= #[trigger] ids@[u] <= s.messages.len(),
                page == all.subrange(start as int, all.len() as int),
                out@.len() == t - start,
                forall|u: int|
                    0 <= u < out@.len() ==> message_full_is(#[trigger] out@[u], s, page[u], channel@),
            decreases ids.len() - t,
        {
            assert(all[t as int] == ids@[t as int] as int);
            let mf = self.store.message_full(ids[t], channel);
            out.push(mf);
            t = t + 1;
        }
        Ok(out)
    }

    /// Every channel, direct ones included, with its active members (by
    /// handle), its message count, its latest activity and whether it is
    /// archived; the most recently active first, channels without messages
    /// last, equal activity by name.
    pub fn conversations(&self) -> (r: Result<Vec<ConversationInfo>, Error>)
        requires
            self.store@.wf(),
        ensures
            r matches Ok(v) && {
                let ord = order_by_activity(self.store@.channels.len(), activity_keys(self.store@));
                &&& v@.len() == ord.len()
                &&& forall|t: int|
                    0 <= t < v@.len() ==> conversation_is(#[trigger] v@[t], self.store@, ord[t])
            },
    {
        let ghost s = self.store@;
        let nc = self.store.channels.len();
        let mut keys: Vec<(Option<i64>, String)> = Vec::new();
        let mut c: usize = 0;
        while c < nc
            invariant
                s == self.store@,
                s.wf(),
                nc == s.channels.len(),
                c <= nc,
                key_view(keys@) == activity_keys(s).take(c as int),
            decreases nc - c,
        {
            let (_, latest) = self.store.activity_of(c as i64 + 1);
            let ghost before = key_view(keys@);
            let name = owned(self.store.channels[c].name.as_str());
            keys.push((latest, name));
            assert(key_view(keys@) =~= before.push((latest, name@)));
            assert(activity_keys(s).take(c + 1) =~= activity_keys(s).take(c as int).push(
                activity_keys(s)[c as int],
            ));
            c = c + 1;
        }
        assert(activity_keys(s).take(nc as int) =~= activity_keys(s));
        let order = order_by_activity_of(&keys);
        let ghost ov = order@.map_values(|u: usize| u as int);
        let mut out: Vec<ConversationInfo> = Vec::new();
        let mut t: usize = 0;
        while t < order.len()
            invariant
                s == self.store@,
                s.wf(),
                nc == s.channels.len(),
                keys@.len() == nc,
                t <= order@.len(),
                ov == order@.map_values(|u: usize| u as int),
                ov == order_by_activity(nc as nat, activity_keys(s)),
                forall|u: int| 0 <= u < order@.len() ==> #[trigger] order@[u] < nc,
                out@.len() == t,
                forall|u: int| 0 <= u < t ==> conversation_is(#[trigger] out@[u], s, ov[u]),
            decreases order.len() - t,
        {
            let c = order[t];
            assert(ov[t as int] == c as int);
            let info = self.store.conversation_of(c);
            out.push(info);
            t = t + 1;
        }
        Ok(out)
    }

    /// Every channel, direct ones included, by name, with its member count,
    /// message count, latest activity and whether it is archived.
    pub fn admin_channels(&self) -> (r: Result<Vec<AdminChannelInfo>, Error>)
        requires
            self.store@.wf(),
            self.store@.subs.len() < i64::MAX,
        ensures
            r matches Ok(v) && {
                let ord = order_by_key(self.store@.channels.len(), channel_names(self.store@));
                &&& v@.len() == ord.len()
                &&& forall|t: int|
                    0 <= t < v@.len() ==> admin_info_is(#[trigger] v@[t], self.store@, ord[t])
            },
    {
        let ghost s = self.store@;
        let names = self.store.channel_name_list();
        assert(names_view(names@).len() == names@.len());
        assert(channel_names(s).len() == s.channels.len());
        let order = order_by_name(&names);
        let ghost ov = order@.map_values(|u: usize| u as int);
        let mut out: Vec<AdminChannelInfo> = Vec::new();
        let mut t: usize = 0;
        while t < order.len()
            invariant
                s == self.store@,
                s.wf(),
                s.subs.len() < i64::MAX,
                names@.len() == s.channels.len(),
                t <= order@.len(),
                ov == order@.map_values(|u: usize| u as int),
                ov == order_by_key(s.channels.len(), channel_names(s)),
                forall|u: int| 0 <= u < order@.len() ==> #[trigger] order@[u] < names@.len(),
                out@.len() == t,
                forall|u: int| 0 <= u < t ==> admin_info_is(#[trigger] out@[u], s, ov[u]),
            decreases order.len() - t,
        {
            let c = order[t];
            assert(ov[t as int] == c as int);
            let info = self.store.admin_info_of(c);
            out.push(info);
            t = t + 1;
        }
        Ok(out)
    }

    /// The channels by name, archived ones only when `include_archived`,
    /// each with whether `handle` is subscribed and, if so, how many
    /// messages it has not acknowledged (counted up to 50).
    pub fn list_channels(&self, handle: &Handle, include_archived: bool) -> (r: Result<Vec<ChannelInfo>, Error>)
        requires
            self.store@.wf(),
        ensures
            r matches Ok(v) && {
                let ord = order_by_key(self.store@.channels.len(), channel_names(self.store@));
                v@.map_values(|ci: ChannelInfo| channel_info_view(ci)) == listed_channels(
                    self.store@,
                    handle@,
                    include_archived,
                    ord,
                    ord.len() as int,
                )
            },
    {
        let ghost s = self.store@;
        let names = self.store.channel_name_list();
        assert(names_view(names@).len() == names@.len());
        assert(channel_names(s).len() == s.channels.len());
        let order = order_by_name(&names);
        let ghost ov = order@.map_values(|u: usize| u as int);
        let mut out: Vec<ChannelInfo> = Vec::new();
        let mut t: usize = 0;
        while t < order.len()
            invariant
                s == self.store@,
                s.wf(),
                names@.len() == s.channels.len(),
                t <= order@.len(),
                ov == order@.map_values(|u: usize| u as int),
                ov == order_by_key(s.channels.len(), channel_names(s)),
                forall|u: int| 0 <= u < order@.len() ==> #[trigger] order@[u] < names@.len(),
                out@.map_values(|ci: ChannelInfo| channel_info_view(ci)) == listed_channels(
                    s,
                    handle@,
                    include_archived,
                    ov,
                    t as int,
                ),
            decreases order.len() - t,
        {
            let c = order[t];
            assert(ov[t as int] == c as int);
            let ch = &self.store.channels[c];
            assert(s.channels[c as int] == ch@);
            if !(ch.archived_at.is_some() && !include_archived) {
                let cid = c as i64 + 1;
                let (subscribed, unread) = match self.store.find_sub(handle.as_str(), cid) {
                    Some(i) => if self.store.subs[i].active {
                        (true, self.store.unread_in(cid, self.store.subs[i].last_acked_id))
                    } else {
                        (false, 0)
                    },
                    None => (false, 0),
                };
                let info = ChannelInfo {
                    name: owned(ch.name.as_str()),
                    topic: owned(ch.topic.as_str()),
                    kind: owned(ch.kind.as_str()),
                    subscribed,
                    unread,
                };
                let ghost before = out@.map_values(|ci: ChannelInfo| channel_info_view(ci));
                assert(channel_info_view(info) == listed_info(s, handle@, c as int));
                out.push(info);
                assert(out@.map_values(|ci: ChannelInfo| channel_info_view(ci)) =~= before.push(
                    channel_info_view(info),
                ));
            }
            t = t + 1;
        }
        Ok(out)
    }

    /// How many agents, channels and messages the hub holds.
    pub fn global_stats(&self) -> (r: Result<GlobalStats, Error>)
        requires
            self.store@.wf(),
            self.store@.agents.len() < i64::MAX,
        ensures
            r matches Ok(g) && g.agents == self.store@.agents.len() && g.channels
                == self.store@.channels.len() && g.messages == self.store@.messages.len(),
    {
        Ok(
            GlobalStats {
                agents: self.store.agents.len() as i64,
                channels: self.store.channels.len() as i64,
                messages: self.store.messages.len() as i64,
            },
        )
    }

    /// Who to wake once message `id` is posted: the handles actively
    /// subscribed to its channel, in row order; nobody for an unknown id.
    pub fn wake_list(&self, id: i64) -> (r: Vec<String>)
        requires
            self.store@.wf(),
        ensures
            names_view(r@) == if 1 <= id <= self.store@.messages.len() {
                members_upto(
                    self.store@,
                    self.store@.message_of(id as int).channel_id as int,
                    self.store@.subs.len() as int,
                )
            } else {
                seq![]
            },
    {
        if id < 1 || id > self.store.messages.len() as i64 {
            return Vec::new();
        }
        let cid = self.store.messages[(id - 1) as usize].channel_id;
        self.store.active_handles(cid)
    }
}

} // verus!
