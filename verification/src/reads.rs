//! Reading: summaries of unread messages page by page, full messages, and
//! acknowledging what was read.
use crate::dto::{CatchUp, MsgFull, MsgFullV, MsgSummary, MsgSummaryV};
use crate::error::Error;
use crate::hub::Hub;
use crate::store::{
    can_see, channel_index, channel_max_id, is_subscribed, lemma_wf_sub_update, names_view, opt_view,
    sub_index, Store, StoreV, SubV,
};
use crate::text::owned;
use crate::types::{kind_has_lifecycle, message_kind_name, ChannelKind, Handle};
use vstd::prelude::*;

verus! {

/// Message `id` as a summary.
pub open spec fn summary_of(s: StoreV, id: int) -> MsgSummaryV {
    let m = s.message_of(id);
    MsgSummaryV {
        id: id as i64,
        ch: s.channel_of(m.channel_id as int).name,
        from: m.author,
        kind: message_kind_name(m.kind),
        re: m.reply_to,
        to: m.mentions,
        open: if kind_has_lifecycle(m.kind) {
            Some(m.resolved_at is None)
        } else {
            None
        },
        sum: m.summary,
        ts: m.created_at,
    }
}

/// Message `id` with its body.
pub open spec fn full_of(s: StoreV, id: int) -> MsgFullV {
    MsgFullV { summary: summary_of(s, id), body: s.message_of(id).body }
}

/// A copy of a list of names.
pub fn copy_names(v: &Vec<String>) -> (r: Vec<String>)
    ensures
        names_view(r@) == names_view(v@),
{
    let mut out: Vec<String> = Vec::new();
    let mut i: usize = 0;
    while i < v.len()
        invariant
            i <= v@.len(),
            names_view(out@) == names_view(v@).take(i as int),
        decreases v.len() - i,
    {
        let ghost before = names_view(out@);
        let x = owned(v[i].as_str());
        out.push(x);
        assert(names_view(out@) =~= before.push(x@));
        assert(names_view(v@).take(i + 1) =~= names_view(v@).take(i as int).push(v@[i as int]@));
        i = i + 1;
    }
    assert(names_view(v@).take(v@.len() as int) =~= names_view(v@));
    out
}

impl Store {
    /// Message `id` as a summary.
    pub fn summary(&self, id: i64) -> (r: MsgSummary)
        requires
            self@.wf(),
            1 <= id <= self@.messages.len(),
        ensures
            r@ == summary_of(self@, id as int),
    {
        let n = self.messages.len();
        assert(id <= n);
        let m = &self.messages[(id - 1) as usize];
        assert(self@.messages[id - 1].channel_id == m.channel_id);
        let nc = self.channels.len();
        assert(m.channel_id <= nc);
        let c = &self.channels[(m.channel_id - 1) as usize];
        let open = if m.kind.has_lifecycle() {
            Some(m.resolved_at.is_none())
        } else {
            None
        };
        MsgSummary {
            id,
            ch: owned(c.name.as_str()),
            from: owned(m.author.as_str()),
            kind: owned(m.kind.as_str()),
            re: m.reply_to,
            to: copy_names(&m.mentions),
            open,
            sum: owned(m.summary.as_str()),
            ts: m.created_at,
        }
    }

    /// Message `id` with its body.
    pub fn full(&self, id: i64) -> (r: MsgFull)
        requires
            self@.wf(),
            1 <= id <= self@.messages.len(),
        ensures
            r@ == full_of(self@, id as int),
    {
        let s = self.summary(id);
        let n = self.messages.len();
        assert(id <= n);
        let m = &self.messages[(id - 1) as usize];
        assert(self@.messages[id - 1].body == opt_view(m.body));
        MsgFull {
            id: s.id,
            ch: s.ch,
            from: s.from,
            kind: s.kind,
            re: s.re,
            to: s.to,
            open: s.open,
            sum: s.sum,
            ts: s.ts,
            body: match &m.body {
                Some(b) => Some(owned(b.as_str())),
                None => None,
            },
        }
    }

    /// Whether `h` may see channel `ci` (an index).
    pub fn can_see(&self, h: &str, ci: usize) -> (r: bool)
        requires
            self@.wf(),
            ci < self@.channels.len(),
        ensures
            r == can_see(self@, h@, ci + 1),
    {
        self.channels[ci].kind == ChannelKind::Channel || self.is_member(ci, h)
    }
}

/// The ids among the first `k` of `ids` that name a message `h` may see.
pub open spec fn visible_ids(s: StoreV, h: Seq<char>, ids: Seq<i64>, k: int) -> Seq<int>
    decreases k,
{
    if k <= 0 {
        seq![]
    } else {
        let prev = visible_ids(s, h, ids, k - 1);
        let id = ids[k - 1] as int;
        if 1 <= id <= s.messages.len() && can_see(s, h, s.message_of(id).channel_id as int) {
            prev.push(id)
        } else {
            prev
        }
    }
}

/// The cursor after acknowledging up to `up_to`: never backwards, never past
/// the channel's newest message, never below 0.
pub open spec fn acked_cursor(cur: int, up_to: int, chan_max: int) -> int {
    let clamped = if up_to < 0 {
        0
    } else if up_to > chan_max {
        chan_max
    } else {
        up_to
    };
    if clamped > cur {
        clamped
    } else {
        cur
    }
}

/// The tables after `h` acknowledges channel index `ci` up to `up_to`.
pub open spec fn acked(s: StoreV, h: Seq<char>, ci: int, up_to: int) -> StoreV {
    let i = sub_index(s, h, ci + 1)->0;
    StoreV {
        subs: s.subs.update(
            i,
            SubV {
                last_acked_id: acked_cursor(
                    s.subs[i].last_acked_id as int,
                    up_to,
                    channel_max_id(s, ci + 1),
                ) as i64,
                ..s.subs[i]
            },
        ),
        ..s
    }
}

/// What `h` acknowledging channel `channel` up to `up_to` does to tables
/// `s`, leaving `t`, with result `r`.
pub open spec fn ack_outcome(s: StoreV, t: StoreV, r: Result<(), Error>, h: Seq<char>, channel: Seq<char>, up_to: int) -> bool {
    match channel_index(s, channel) {
        None => r matches Err(Error::UnknownChannel(x)) && x@ == channel
            && t == s,
        Some(ci) => if !is_subscribed(s, h, ci + 1) {
            r matches Err(Error::NotSubscribed(x)) && x@ == channel
                && t == s
        } else {
            r is Ok && t == acked(s, h, ci, up_to)
        },
    }
}

/// `v` is what `h` reads of `ids`: the full messages of those it may see.
pub open spec fn read_is(s: StoreV, h: Seq<char>, ids: Seq<i64>, v: Seq<MsgFull>) -> bool {
    let vis = visible_ids(s, h, ids, ids.len() as int);
    &&& v.len() == vis.len()
    &&& forall|t: int| 0 <= t < v.len() ==> #[trigger] v[t]@ == full_of(s, vis[t])
}

impl Hub {
    /// Full messages for `ids`, in the order given, leaving out ids that
    /// name no message or one in a direct channel `h` is not a member of.
    pub fn read(&self, h: &Handle, ids: &[i64]) -> (r: Result<Vec<MsgFull>, Error>)
        requires
            self.store@.wf(),
        ensures
            r matches Ok(v) && read_is(self.store@, h@, ids@, v@),
    {
        let ghost s = self.store@;
        let mut out: Vec<MsgFull> = Vec::new();
        let mut k: usize = 0;
        while k < ids.len()
            invariant
                s == self.store@,
                s.wf(),
                k <= ids@.len(),
                out@.len() == visible_ids(s, h@, ids@, k as int).len(),
                forall|t: int|
                    0 <= t < out@.len() ==> #[trigger] out@[t]@ == full_of(
                        s,
                        visible_ids(s, h@, ids@, k as int)[t],
                    ),
            decreases ids.len() - k,
        {
            let id = ids[k];
            let n = self.store.messages.len();
            if 1 <= id && (id as u64) <= (n as u64) {
                assert(s.messages[id - 1].channel_id == self.store.messages@[id - 1].channel_id);
                let nc = self.store.channels.len();
                assert(self.store.messages@[id - 1].channel_id <= nc);
                let ci = (self.store.messages[(id - 1) as usize].channel_id - 1) as usize;
                if self.store.can_see(h.as_str(), ci) {
                    let f = self.store.full(id);
                    out.push(f);
                }
            }
            assert(out@.len() == visible_ids(s, h@, ids@, k + 1).len());
            k = k + 1;
        }
        Ok(out)
    }

    /// Moves `h`'s cursor in `channel` up to `up_to_id`: it never moves
    /// back, and never past the channel's newest message.
    pub fn ack(&mut self, h: &Handle, channel: &str, up_to_id: i64) -> (r: Result<(), Error>)
        requires
            old(self).store@.wf(),
        ensures
            final(self).store@.wf(),
            ack_outcome(old(self).store@, final(self).store@, r, h@, channel@, up_to_id as int),
    {
        let ghost s = self.store@;
        let ci = match self.store.find_channel(channel) {
            Some(ci) => ci,
            None => {
                return Err(Error::UnknownChannel(owned(channel)));
            },
        };
        let cid = ci as i64 + 1;
        let i = match self.store.find_sub(h.as_str(), cid) {
            Some(i) => i,
            None => {
                return Err(Error::NotSubscribed(owned(channel)));
            },
        };
        if !self.store.subs[i].active {
            return Err(Error::NotSubscribed(owned(channel)));
        }
        let chan_max = self.store.channel_max(cid);
        let clamped = if up_to_id < 0 {
            0
        } else if up_to_id > chan_max {
            chan_max
        } else {
            up_to_id
        };
        if clamped > self.store.subs[i].last_acked_id {
            self.store.subs[i].last_acked_id = clamped;
        }
        proof {
            let row = SubV {
                last_acked_id: acked_cursor(
                    s.subs[i as int].last_acked_id as int,
                    up_to_id as int,
                    channel_max_id(s, cid as int),
                ) as i64,
                ..s.subs[i as int]
            };
            lemma_wf_sub_update(s, i as int, row);
            assert(self.store@ =~= acked(s, h@, ci as int, up_to_id as int));
        }
        Ok(())
    }
}

/// One channel's share of a catch-up: its id, the name it is reported
/// under, and the reader's cursor there.
pub struct Page {
    pub cid: int,
    pub name: Seq<char>,
    pub cur: int,
}

/// Whether subscription row `i` belongs to `h`, is active, and lets `h` see
/// its channel.
pub open spec fn readable_sub(s: StoreV, h: Seq<char>, i: int) -> bool {
    &&& s.subs[i].handle == h
    &&& s.subs[i].active
    &&& can_see(s, h, s.subs[i].channel_id as int)
}

/// The pages of all of `h`'s readable subscriptions among the first `k`
/// rows, in row order.
pub open spec fn pages_all(s: StoreV, h: Seq<char>, k: int) -> Seq<Page>
    decreases k,
{
    if k <= 0 {
        seq![]
    } else {
        let prev = pages_all(s, h, k - 1);
        if readable_sub(s, h, k - 1) {
            let cid = s.subs[k - 1].channel_id as int;
            prev.push(Page { cid, name: s.channel_of(cid).name, cur: s.subs[k - 1].last_acked_id as int })
        } else {
            prev
        }
    }
}

/// The pages of the first `k` of the named channels that `h` is actively
/// subscribed to and may see, in the order named.
pub open spec fn pages_named(s: StoreV, h: Seq<char>, names: Seq<Seq<char>>, k: int) -> Seq<Page>
    decreases k,
{
    if k <= 0 {
        seq![]
    } else {
        let prev = pages_named(s, h, names, k - 1);
        match channel_index(s, names[k - 1]) {
            Some(ci) => if is_subscribed(s, h, ci + 1) && can_see(s, h, ci + 1) {
                prev.push(
                    Page {
                        cid: ci + 1,
                        name: names[k - 1],
                        cur: s.subs[sub_index(s, h, ci + 1)->0].last_acked_id as int,
                    },
                )
            } else {
                prev
            },
            None => prev,
        }
    }
}

/// Whether message index `i` is unread on page `p` (and mentions `h` when
/// only mentions count).
pub open spec fn unread_on(s: StoreV, p: Page, h: Seq<char>, om: bool, i: int) -> bool {
    &&& s.messages[i].channel_id == p.cid
    &&& i + 1 > p.cur
    &&& (om ==> s.messages[i].mentions.contains(h))
}

/// How many of the first `k` messages are unread on page `p`.
pub open spec fn unread_count(s: StoreV, p: Page, h: Seq<char>, om: bool, k: int) -> nat
    decreases k,
{
    if k <= 0 {
        0
    } else {
        unread_count(s, p, h, om, k - 1) + if unread_on(s, p, h, om, k - 1) {
            1nat
        } else {
            0nat
        }
    }
}

/// Whether message index `i` is among the first `lim` unread on page `p`.
pub open spec fn shown_on(s: StoreV, p: Page, h: Seq<char>, om: bool, lim: int, i: int) -> bool {
    unread_on(s, p, h, om, i) && unread_count(s, p, h, om, i) < lim
}

/// On how many of the first `j` pages message index `i` is shown.
pub open spec fn times_shown(s: StoreV, ps: Seq<Page>, h: Seq<char>, om: bool, lim: int, i: int, j: int) -> nat
    decreases j,
{
    if j <= 0 {
        0
    } else {
        times_shown(s, ps, h, om, lim, i, j - 1) + if shown_on(s, ps[j - 1], h, om, lim, i) {
            1nat
        } else {
            0nat
        }
    }
}

/// The ids shown among the first `k` messages, ascending, each as many
/// times as the pages it is shown on.
pub open spec fn shown_ids(s: StoreV, ps: Seq<Page>, h: Seq<char>, om: bool, lim: int, k: int) -> Seq<int>
    decreases k,
{
    if k <= 0 {
        seq![]
    } else {
        shown_ids(s, ps, h, om, lim, k - 1) + Seq::new(
            times_shown(s, ps, h, om, lim, k - 1, ps.len() as int),
            |t: int| k,
        )
    }
}

/// The id of the last message among the first `k` shown on page `p`, or 0.
pub open spec fn last_shown(s: StoreV, p: Page, h: Seq<char>, om: bool, lim: int, k: int) -> int
    decreases k,
{
    if k <= 0 {
        0
    } else if shown_on(s, p, h, om, lim, k - 1) {
        k
    } else {
        last_shown(s, p, h, om, lim, k - 1)
    }
}

/// For each of the first `j` pages that shows anything, its name and the id
/// of the last message it shows.
pub open spec fn next_cursors(s: StoreV, ps: Seq<Page>, h: Seq<char>, om: bool, lim: int, j: int) -> Seq<(Seq<char>, int)>
    decreases j,
{
    if j <= 0 {
        seq![]
    } else {
        let prev = next_cursors(s, ps, h, om, lim, j - 1);
        let last = last_shown(s, ps[j - 1], h, om, lim, s.messages.len() as int);
        if last > 0 {
            prev.push((ps[j - 1].name, last))
        } else {
            prev
        }
    }
}

/// The page size a requested limit stands for: 50 when not positive, at
/// most 200.
pub open spec fn page_limit(limit: i64) -> int {
    if limit <= 0 {
        50
    } else if limit > 200 {
        200
    } else {
        limit as int
    }
}

/// The pages a catch-up reads.
pub open spec fn catch_up_pages(s: StoreV, h: Seq<char>, channels: Option<Seq<Seq<char>>>) -> Seq<Page> {
    match channels {
        None => pages_all(s, h, s.subs.len() as int),
        Some(ns) => pages_named(s, h, ns, ns.len() as int),
    }
}

proof fn lemma_unread_count_bound(s: StoreV, p: Page, h: Seq<char>, om: bool, k: int)
    requires
        0 <= k,
    ensures
        unread_count(s, p, h, om, k) <= k,
    decreases k,
{
    if k > 0 {
        lemma_unread_count_bound(s, p, h, om, k - 1);
    }
}

proof fn lemma_times_shown_bound(s: StoreV, ps: Seq<Page>, h: Seq<char>, om: bool, lim: int, i: int, j: int)
    requires
        0 <= j,
    ensures
        times_shown(s, ps, h, om, lim, i, j) <= j,
    decreases j,
{
    if j > 0 {
        lemma_times_shown_bound(s, ps, h, om, lim, i, j - 1);
    }
}

/// Nothing at or before a page's cursor is unread or shown there.
proof fn lemma_nothing_before_cursor(s: StoreV, p: Page, h: Seq<char>, om: bool, lim: int, k: int)
    requires
        0 <= k <= p.cur,
    ensures
        unread_count(s, p, h, om, k) == 0,
        last_shown(s, p, h, om, lim, k) == 0,
    decreases k,
{
    if k > 0 {
        lemma_nothing_before_cursor(s, p, h, om, lim, k - 1);
    }
}

/// A message older than every page's cursor is shown on none of them.
proof fn lemma_times_shown_zero(s: StoreV, ps: Seq<Page>, h: Seq<char>, om: bool, lim: int, i: int, j: int, lo: int)
    requires
        0 <= i < lo,
        0 <= j <= ps.len(),
        forall|t: int| 0 <= t < ps.len() ==> lo <= #[trigger] ps[t].cur,
    ensures
        times_shown(s, ps, h, om, lim, i, j) == 0,
    decreases j,
{
    if j > 0 {
        assert(lo <= ps[j - 1].cur);
        lemma_times_shown_zero(s, ps, h, om, lim, i, j - 1, lo);
    }
}

/// No message older than every page's cursor is shown.
proof fn lemma_shown_ids_before(s: StoreV, ps: Seq<Page>, h: Seq<char>, om: bool, lim: int, k: int, lo: int)
    requires
        0 <= k <= lo,
        forall|t: int| 0 <= t < ps.len() ==> lo <= #[trigger] ps[t].cur,
    ensures
        shown_ids(s, ps, h, om, lim, k) == Seq::<int>::empty(),
    decreases k,
{
    if k > 0 {
        lemma_shown_ids_before(s, ps, h, om, lim, k - 1, lo);
        lemma_times_shown_zero(s, ps, h, om, lim, k - 1, ps.len() as int, lo);
        assert(shown_ids(s, ps, h, om, lim, k) =~= Seq::<int>::empty());
    }
}

pub open spec fn page_of(t: (i64, String, i64)) -> Page {
    Page { cid: t.0 as int, name: t.1@, cur: t.2 as int }
}

/// Whether `v` holds `h`.
pub fn contains_name(v: &Vec<String>, h: &str) -> (r: bool)
    ensures
        r == names_view(v@).contains(h@),
{
    let mut i: usize = 0;
    while i < v.len()
        invariant
            i <= v@.len(),
            forall|j: int| 0 <= j < i ==> #[trigger] v@[j]@ != h@,
        decreases v.len() - i,
    {
        if crate::text::str_eq(v[i].as_str(), h) {
            assert(names_view(v@)[i as int] == h@);
            return true;
        }
        i = i + 1;
    }
    proof {
        if names_view(v@).contains(h@) {
            let j = choose|j: int| 0 <= j < names_view(v@).len() && names_view(v@)[j] == h@;
            assert(v@[j]@ == h@);
        }
    }
    false
}

impl Store {
    /// The pages a catch-up by `h` reads.
    fn pages(&self, h: &str, channels: Option<&[String]>) -> (r: Vec<(i64, String, i64)>)
        requires
            self@.wf(),
        ensures
            r@.map_values(|t: (i64, String, i64)| page_of(t)) == catch_up_pages(
                self@,
                h@,
                match channels {
                    Some(ns) => Some(names_view(ns@)),
                    None => None,
                },
            ),
            forall|j: int| 0 <= j < r@.len() ==> 1 <= #[trigger] r@[j].0 <= self@.channels.len(),
    {
        let ghost s = self@;
        let mut out: Vec<(i64, String, i64)> = Vec::new();
        match channels {
            None => {
                let mut k: usize = 0;
                while k < self.subs.len()
                    invariant
                        s == self@,
                        s.wf(),
                        k <= s.subs.len(),
                        out@.map_values(|t: (i64, String, i64)| page_of(t)) == pages_all(
                            s,
                            h@,
                            k as int,
                        ),
                        forall|j: int| 0 <= j < out@.len() ==> 1 <= #[trigger] out@[j].0 <= s.channels.len(),
                    decreases self.subs.len() - k,
                {
                    let sub = &self.subs[k];
                    assert(s.subs[k as int].channel_id == sub.channel_id);
                    let nc = self.channels.len();
                    assert(sub.channel_id <= nc);
                    let ci = (sub.channel_id - 1) as usize;
                    if sub.active && crate::text::str_eq(sub.handle.as_str(), h) && self.can_see(h, ci) {
                        let ghost before = out@.map_values(|t: (i64, String, i64)| page_of(t));
                        let t = (sub.channel_id, owned(self.channels[ci].name.as_str()), sub.last_acked_id);
                        out.push(t);
                        assert(out@.map_values(|t: (i64, String, i64)| page_of(t)) =~= before.push(page_of(t)));
                    }
                    k = k + 1;
                }
            },
            Some(ns) => {
                let ghost nv = names_view(ns@);
                let mut k: usize = 0;
                while k < ns.len()
                    invariant
                        s == self@,
                        s.wf(),
                        k <= ns@.len(),
                        nv == names_view(ns@),
                        out@.map_values(|t: (i64, String, i64)| page_of(t)) == pages_named(
                            s,
                            h@,
                            nv,
                            k as int,
                        ),
                        forall|j: int| 0 <= j < out@.len() ==> 1 <= #[trigger] out@[j].0 <= s.channels.len(),
                    decreases ns.len() - k,
                {
                    assert(nv[k as int] == ns@[k as int]@);
                    if let Some(ci) = self.find_channel(ns[k].as_str()) {
                        let cid = ci as i64 + 1;
                        if let Some(i) = self.find_sub(h, cid) {
                            if self.subs[i].active && self.can_see(h, ci) {
                                let ghost before = out@.map_values(|t: (i64, String, i64)| page_of(t));
                                let t = (cid, owned(ns[k].as_str()), self.subs[i].last_acked_id);
                                out.push(t);
                                assert(out@.map_values(|t: (i64, String, i64)| page_of(t)) =~= before.push(page_of(t)));
                            }
                        }
                    }
                    k = k + 1;
                }
            },
        }
        out
    }
}

/// `cu` is the catch-up over pages `ps` with page size `lim`.
pub open spec fn caught_up(s: StoreV, ps: Seq<Page>, h: Seq<char>, om: bool, lim: int, cu: CatchUp) -> bool {
    let ids = shown_ids(s, ps, h, om, lim, s.messages.len() as int);
    &&& cu.messages@.len() == ids.len()
    &&& forall|t: int| 0 <= t < ids.len() ==> #[trigger] cu.messages@[t]@ == summary_of(s, ids[t])
    &&& cu.next_cursors@.map_values(|c: (String, i64)| (c.0@, c.1 as int)) == next_cursors(s, ps, h, om, lim, ps.len() as int)
    &&& cu.has_more == exists|j: int|
        0 <= j < ps.len() && unread_count(s, #[trigger] ps[j], h, om, s.messages.len() as int) > lim
}

/// `cu` is the catch-up `h` gets: the unread pages of its channels (or of
/// those named), at most `page_limit(limit)` per channel.
pub open spec fn catch_up_is(
    s: StoreV,
    h: Seq<char>,
    names: Option<Seq<Seq<char>>>,
    om: bool,
    limit: i64,
    cu: CatchUp,
) -> bool {
    &&& caught_up(s, catch_up_pages(s, h, names), h, om, page_limit(limit), cu)
    &&& cu.woke is None
}

impl Hub {
    /// The messages `h` has not yet acknowledged, as summaries in id order:
    /// per channel (all its active subscriptions, or the ones named), at
    /// most `limit` (50 when not positive, at most 200) of those after its
    /// cursor, only those mentioning `h` when `only_mentions`; direct
    /// channels only when `h` is a member.  Reading moves no cursor.
    pub fn catch_up(&self, h: &Handle, channels: Option<&[String]>, only_mentions: bool, limit: i64) -> (r: Result<CatchUp, Error>)
        requires
            self.store@.wf(),
        ensures
            r matches Ok(cu) && catch_up_is(
                self.store@,
                h@,
                match channels {
                    Some(ns) => Some(names_view(ns@)),
                    None => None,
                },
                only_mentions,
                limit,
                cu,
            ),
    {
        let ghost s = self.store@;
        let lim: usize = if limit <= 0 {
            50
        } else if limit > 200 {
            200
        } else {
            limit as usize
        };
        let pages = self.store.pages(h.as_str(), channels);
        let ghost ps = pages@.map_values(|t: (i64, String, i64)| page_of(t));
        let np = pages.len();
        let mut counts: Vec<usize> = Vec::new();
        let mut lasts: Vec<i64> = Vec::new();
        let mut j: usize = 0;
        while j < np
            invariant
                j <= np,
                np == pages@.len(),
                counts@.len() == j,
                lasts@.len() == j,
                forall|t: int| 0 <= t < j ==> #[trigger] counts@[t] == 0,
                forall|t: int| 0 <= t < j ==> #[trigger] lasts@[t] == 0,
            decreases np - j,
        {
            counts.push(0);
            lasts.push(0);
            j = j + 1;
        }
        let mut out: Vec<MsgSummary> = Vec::new();
        let nm = self.store.messages.len();
        // Nothing at or before the oldest cursor is unread: start after it.
        let mut lo: i64 = nm as i64;
        let mut j: usize = 0;
        while j < np
            invariant
                j <= np,
                np == pages@.len(),
                ps == pages@.map_values(|t: (i64, String, i64)| page_of(t)),
                lo <= nm,
                nm == s.messages.len(),
                s.messages.len() < i64::MAX,
                forall|t: int| 0 <= t < j ==> lo <= #[trigger] ps[t].cur,
                counts@.len() == np,
                lasts@.len() == np,
                forall|t: int| 0 <= t < np ==> #[trigger] counts@[t] == 0,
                forall|t: int| 0 <= t < np ==> #[trigger] lasts@[t] == 0,
            decreases np - j,
        {
            assert(ps[j as int] == page_of(pages@[j as int]));
            if pages[j].2 < lo {
                lo = pages[j].2;
            }
            j = j + 1;
        }
        let start: usize = if lo < 0 {
            0
        } else {
            lo as usize
        };
        proof {
            if start > 0 {
                assert forall|t: int| 0 <= t < np implies start <= #[trigger] ps[t].cur by {
                    assert(lo <= ps[t].cur);
                }
                lemma_shown_ids_before(s, ps, h@, only_mentions, lim as int, start as int, start as int);
            } else {
                assert(shown_ids(s, ps, h@, only_mentions, lim as int, 0) =~= Seq::<int>::empty());
            }
            assert forall|t: int| 0 <= t < np implies #[trigger] counts@[t] == unread_count(
                s,
                ps[t],
                h@,
                only_mentions,
                start as int,
            ) by {
                if start > 0 {
                    assert(lo <= ps[t].cur);
                    lemma_nothing_before_cursor(s, ps[t], h@, only_mentions, lim as int, start as int);
                }
            }
            assert forall|t: int| 0 <= t < np implies #[trigger] lasts@[t] == last_shown(
                s,
                ps[t],
                h@,
                only_mentions,
                lim as int,
                start as int,
            ) by {
                if start > 0 {
                    assert(lo <= ps[t].cur);
                    lemma_nothing_before_cursor(s, ps[t], h@, only_mentions, lim as int, start as int);
                }
            }
        }
        let mut i: usize = start;
        while i < nm
            invariant
                s == self.store@,
                s.wf(),
                nm == s.messages.len(),
                i <= nm,
                np == ps.len(),
                ps == pages@.map_values(|t: (i64, String, i64)| page_of(t)),
                lim as int == page_limit(limit),
                counts@.len() == np,
                lasts@.len() == np,
                forall|t: int| 0 <= t < np ==> #[trigger] counts@[t] == unread_count(s, ps[t], h@, only_mentions, i as int),
                forall|t: int| 0 <= t < np ==> #[trigger] lasts@[t] == last_shown(s, ps[t], h@, only_mentions, lim as int, i as int),
                out@.len() == shown_ids(s, ps, h@, only_mentions, lim as int, i as int).len(),
                forall|t: int| 0 <= t < out@.len() ==> #[trigger] out@[t]@ == summary_of(s, shown_ids(s, ps, h@, only_mentions, lim as int, i as int)[t]),
            decreases nm - i,
        {
            let id = i as i64 + 1;
            let m = &self.store.messages[i];
            assert(s.messages[i as int].channel_id == m.channel_id);
            assert(s.messages[i as int].mentions == names_view(m.mentions@));
            let mentioned = !only_mentions || contains_name(&m.mentions, h.as_str());
            let mut c: usize = 0;
            let mut j: usize = 0;
            while j < np
                invariant
                    s == self.store@,
                    s.wf(),
                    nm == s.messages.len(),
                    i < nm,
                    id == i + 1,
                    j <= np,
                    np == ps.len(),
                    ps == pages@.map_values(|t: (i64, String, i64)| page_of(t)),
                    lim as int == page_limit(limit),
                    counts@.len() == np,
                    lasts@.len() == np,
                    m.channel_id == s.messages[i as int].channel_id,
                    mentioned == (!only_mentions || s.messages[i as int].mentions.contains(h@)),
                    forall|t: int| 0 <= t < j ==> #[trigger] counts@[t] == unread_count(s, ps[t], h@, only_mentions, i + 1),
                    forall|t: int| j <= t < np ==> #[trigger] counts@[t] == unread_count(s, ps[t], h@, only_mentions, i as int),
                    forall|t: int| 0 <= t < j ==> #[trigger] lasts@[t] == last_shown(s, ps[t], h@, only_mentions, lim as int, i + 1),
                    forall|t: int| j <= t < np ==> #[trigger] lasts@[t] == last_shown(s, ps[t], h@, only_mentions, lim as int, i as int),
                    c == times_shown(s, ps, h@, only_mentions, lim as int, i as int, j as int),
                decreases np - j,
            {
                proof {
                    lemma_unread_count_bound(s, ps[j as int], h@, only_mentions, i as int);
                    lemma_times_shown_bound(s, ps, h@, only_mentions, lim as int, i as int, j as int);
                }
                assert(ps[j as int] == page_of(pages@[j as int]));
                let (pcid, _, pcur) = &pages[j];
                if m.channel_id == *pcid && id > *pcur && mentioned {
                    if counts[j] < lim {
                        c = c + 1;
                        lasts[j] = id;
                    }
                    counts[j] = counts[j] + 1;
                }
                j = j + 1;
            }
            let mut t: usize = 0;
            let ghost prev_len = out@.len();
            while t < c
                invariant
                    s == self.store@,
                    s.wf(),
                    i < nm,
                    nm == s.messages.len(),
                    id == i + 1,
                    t <= c,
                    out@.len() == prev_len + t,
                    forall|u: int| 0 <= u < prev_len ==> #[trigger] out@[u]@ == summary_of(s, shown_ids(s, ps, h@, only_mentions, lim as int, i as int)[u]),
                    forall|u: int| prev_len <= u < out@.len() ==> #[trigger] out@[u]@ == summary_of(s, id as int),
                decreases c - t,
            {
                out.push(self.store.summary(id));
                t = t + 1;
            }
            proof {
                let prev = shown_ids(s, ps, h@, only_mentions, lim as int, i as int);
                let next = shown_ids(s, ps, h@, only_mentions, lim as int, i + 1);
                assert(next == prev + Seq::new(c as nat, |u: int| i + 1));
                assert forall|u: int| 0 <= u < out@.len() implies #[trigger] out@[u]@ == summary_of(s, next[u]) by {
                    if u < prev_len {
                        assert(next[u] == prev[u]);
                    } else {
                        assert(next[u] == i + 1);
                    }
                }
            }
            i = i + 1;
        }
        let mut has_more = false;
        let mut cursors: Vec<(String, i64)> = Vec::new();
        let mut j: usize = 0;
        while j < np
            invariant
                s == self.store@,
                s.wf(),
                nm == s.messages.len(),
                j <= np,
                np == ps.len(),
                ps == pages@.map_values(|t: (i64, String, i64)| page_of(t)),
                lim as int == page_limit(limit),
                counts@.len() == np,
                lasts@.len() == np,
                forall|t: int| 0 <= t < np ==> #[trigger] counts@[t] == unread_count(s, ps[t], h@, only_mentions, nm as int),
                forall|t: int| 0 <= t < np ==> #[trigger] lasts@[t] == last_shown(s, ps[t], h@, only_mentions, lim as int, nm as int),
                has_more == exists|t: int| 0 <= t < j && unread_count(s, #[trigger] ps[t], h@, only_mentions, nm as int) > lim,
                cursors@.map_values(|c: (String, i64)| (c.0@, c.1 as int)) == next_cursors(s, ps, h@, only_mentions, lim as int, j as int),
            decreases np - j,
        {
            if counts[j] > lim {
                has_more = true;
            }
            if lasts[j] > 0 {
                let ghost before = cursors@.map_values(|c: (String, i64)| (c.0@, c.1 as int));
                assert(ps[j as int] == page_of(pages@[j as int]));
                let c = (owned(pages[j].1.as_str()), lasts[j]);
                cursors.push(c);
                assert(cursors@.map_values(|c: (String, i64)| (c.0@, c.1 as int)) =~= before.push((c.0@, c.1 as int)));
            }
            j = j + 1;
        }
        let cu = CatchUp { messages: out, next_cursors: cursors, has_more, woke: None };
        proof {
            let ids = shown_ids(s, ps, h@, only_mentions, lim as int, s.messages.len() as int);
            assert(cu.messages@.len() == ids.len());
            assert(forall|t: int| 0 <= t < ids.len() ==> #[trigger] cu.messages@[t]@ == summary_of(s, ids[t]));
            assert(caught_up(s, ps, h@, only_mentions, lim as int, cu));
        }
        Ok(cu)
    }
}

} // verus!
