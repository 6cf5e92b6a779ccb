//! What holds of the hub across operations: reading and acknowledging,
//! joining and leaving, mentions, tokens, issues and names.
use crate::agents::{hash_owner, token_owner, with_agent};
use crate::channels::{joined, left};
use crate::history::{activity_le, insert_by_activity, order_by_activity};
use crate::issues::{issue_filed, max_number, prefix_owner};
use crate::order::{insert_index, order_by_key};
use crate::presence::{begun, ended, MAX_WAITS_PER_HANDLE};
use crate::token::token_hash;
use crate::messages::{dm_index, dm_opened, message_inserted, upsert_all};
use crate::text::{
    ascii_lower, is_white_space, lemma_compare_antisym, lemma_compare_eq, lemma_compare_trans, seq_le,
    trim_end, trim_start, trimmed,
};
use crate::text::{digits_value, is_digit, nat_decimal, parsed_i64, int_decimal};
use crate::types::{ChannelKind, dm_name, is_handle_char, issue_ref_parts, issue_ref_text, last_dash, normalized_handle, valid_handle, AgentKind};
use crate::reads::{acked, acked_cursor, last_shown, shown_on, unread_count, unread_on, Page};
use crate::store::{
    channel_index, channel_max_id, is_subscribed, lemma_wf_sub_update, max_id_upto, sub_index, upsert_sub,
    can_see, AgentV, ChannelV, MsgV, StoreV, SubV,
};
use vstd::prelude::*;

verus! {

/// The page of `h`'s subscription to channel index `ci`: the channel, its
/// name and `h`'s cursor there.
pub open spec fn sub_page(s: StoreV, h: Seq<char>, ci: int) -> Page {
    Page {
        cid: ci + 1,
        name: s.channels[ci].name,
        cur: s.subs[sub_index(s, h, ci + 1)->0].last_acked_id as int,
    }
}

proof fn lemma_unread_count_mono(s: StoreV, p: Page, h: Seq<char>, om: bool, a: int, b: int)
    requires
        0 <= a <= b,
    ensures
        unread_count(s, p, h, om, a) <= unread_count(s, p, h, om, b),
    decreases b,
{
    if b > a {
        lemma_unread_count_mono(s, p, h, om, a, b - 1);
    }
}

/// An unread message counts before every later one.
proof fn lemma_unread_count_step(s: StoreV, p: Page, h: Seq<char>, om: bool, i: int, j: int)
    requires
        0 <= i < j,
        unread_on(s, p, h, om, i),
    ensures
        unread_count(s, p, h, om, j) >= unread_count(s, p, h, om, i) + 1,
{
    lemma_unread_count_mono(s, p, h, om, i + 1, j);
}

/// The last message shown among the first `k` is shown, and none after it.
proof fn lemma_last_shown(s: StoreV, p: Page, h: Seq<char>, om: bool, lim: int, k: int)
    requires
        0 <= k,
    ensures
        0 <= last_shown(s, p, h, om, lim, k) <= k,
        last_shown(s, p, h, om, lim, k) > 0 ==> shown_on(
            s,
            p,
            h,
            om,
            lim,
            last_shown(s, p, h, om, lim, k) - 1,
        ),
        forall|i: int|
            last_shown(s, p, h, om, lim, k) <= i < k ==> !#[trigger] shown_on(s, p, h, om, lim, i),
    decreases k,
{
    if k > 0 && !shown_on(s, p, h, om, lim, k - 1) {
        lemma_last_shown(s, p, h, om, lim, k - 1);
    }
}

/// A message of channel `cid` among the first `k` is no newer than the
/// channel's newest among them.
proof fn lemma_max_id_upto_bound(s: StoreV, cid: int, j: int, k: int)
    requires
        0 <= j < k <= s.messages.len(),
        s.messages[j].channel_id == cid,
    ensures
        j + 1 <= max_id_upto(s, cid, k),
    decreases k,
{
    if s.messages[k - 1].channel_id != cid {
        lemma_max_id_upto_bound(s, cid, j, k - 1);
    }
}

proof fn lemma_max_id_upto_le(s: StoreV, cid: int, k: int)
    requires
        0 <= k,
    ensures
        0 <= max_id_upto(s, cid, k) <= k,
    decreases k,
{
    if k > 0 {
        lemma_max_id_upto_le(s, cid, k - 1);
    }
}

/// Within well-formed tables, the row a handle holds in a channel is the
/// only one.
proof fn lemma_sub_index_unique(s: StoreV, h: Seq<char>, cid: int, i: int)
    requires
        s.wf(),
        0 <= i < s.subs.len(),
        s.subs[i].handle == h,
        s.subs[i].channel_id == cid,
    ensures
        sub_index(s, h, cid) == Some(i),
{
    let j = choose|j: int|
        0 <= j < s.subs.len() && #[trigger] s.subs[j].handle == h && s.subs[j].channel_id == cid;
    if j != i {
        if j < i {
            assert(!(s.subs[j].handle == s.subs[i].handle && s.subs[j].channel_id
                == s.subs[i].channel_id));
        } else {
            assert(!(s.subs[i].handle == s.subs[j].handle && s.subs[i].channel_id
                == s.subs[j].channel_id));
        }
    }
}

/// Nothing is lost and nothing is read twice: once `h` acknowledges a
/// channel up to the last message a catch-up showed there (the cursor the
/// catch-up hands back for it), the messages still unread there are
/// exactly those that catch-up did not show.
pub proof fn law_ack_to_next_cursor(s: StoreV, h: Seq<char>, ci: int, om: bool, lim: int, x: int)
    requires
        s.wf(),
        0 <= ci < s.channels.len(),
        is_subscribed(s, h, ci + 1),
        0 <= x < s.messages.len(),
        last_shown(s, sub_page(s, h, ci), h, om, lim, s.messages.len() as int) > 0,
    ensures
        ({
            let p = sub_page(s, h, ci);
            let t = acked(s, h, ci, last_shown(s, p, h, om, lim, s.messages.len() as int));
            &&& t.wf()
            &&& is_subscribed(t, h, ci + 1)
            &&& sub_page(t, h, ci).cur == last_shown(s, p, h, om, lim, s.messages.len() as int)
            &&& (unread_on(t, sub_page(t, h, ci), h, om, x) <==> (unread_on(s, p, h, om, x)
                && !shown_on(s, p, h, om, lim, x)))
        }),
{
    let n = s.messages.len() as int;
    let p = sub_page(s, h, ci);
    let last = last_shown(s, p, h, om, lim, n);
    lemma_last_shown(s, p, h, om, lim, n);
    let j = last - 1;
    assert(shown_on(s, p, h, om, lim, j));
    let i = sub_index(s, h, ci + 1)->0;
    lemma_max_id_upto_bound(s, ci + 1, j, n);
    assert(last <= channel_max_id(s, ci + 1));
    assert(acked_cursor(p.cur, last, channel_max_id(s, ci + 1)) == last);
    let row = SubV { last_acked_id: last as i64, ..s.subs[i] };
    lemma_wf_sub_update(s, i, row);
    let t = acked(s, h, ci, last);
    assert(t == StoreV { subs: s.subs.update(i, row), ..s });
    lemma_sub_index_unique(t, h, ci + 1, i);
    assert(sub_page(t, h, ci).cur == last);
    if unread_on(s, p, h, om, x) && !shown_on(s, p, h, om, lim, x) {
        if x < j {
            lemma_unread_count_step(s, p, h, om, x, j);
        }
    }
    if unread_on(t, sub_page(t, h, ci), h, om, x) {
        assert(!shown_on(s, p, h, om, lim, x));
    }
}

/// One step of a run seen by reader `h` of channel index `ci`: either `h`
/// catches up (pages of `lim`) and acknowledges the channel up to the last
/// message shown there, if any; or something else happens that only adds
/// messages and leaves `h`'s cursor there as it was (posts by anyone).
pub open spec fn run_step(s: StoreV, t: StoreV, read: bool, h: Seq<char>, ci: int, lim: int) -> bool {
    if read {
        let last = last_shown(s, sub_page(s, h, ci), h, false, lim, s.messages.len() as int);
        t == if last > 0 {
            acked(s, h, ci, last)
        } else {
            s
        }
    } else {
        &&& s.messages.len() <= t.messages.len()
        &&& forall|x: int| 0 <= x < s.messages.len() ==> #[trigger] t.messages[x] == s.messages[x]
        &&& sub_page(t, h, ci).cur == sub_page(s, h, ci).cur
    }
}

/// Whether message index `x` was shown to `h` in channel index `ci` by one
/// of the first `k` steps of run `st`.
pub open spec fn delivered(st: Seq<StoreV>, reads: Seq<bool>, h: Seq<char>, ci: int, lim: int, k: int, x: int) -> bool
    decreases k,
{
    if k <= 0 {
        false
    } else {
        delivered(st, reads, h, ci, lim, k - 1, x) || (reads[k - 1] && 0 <= x
            < st[k - 1].messages.len() && shown_on(
            st[k - 1],
            sub_page(st[k - 1], h, ci),
            h,
            false,
            lim,
            x,
        ))
    }
}

/// The premises of a run: every state well formed with `h` subscribed to
/// channel index `ci`, consecutive states one `run_step` apart, and the
/// starting cursor no newer than the newest message.
pub open spec fn run_ok(st: Seq<StoreV>, reads: Seq<bool>, h: Seq<char>, ci: int, lim: int) -> bool {
    &&& st.len() == reads.len() + 1
    &&& lim > 0
    &&& forall|k: int|
        0 <= k < st.len() ==> (#[trigger] st[k]).wf() && 0 <= ci < st[k].channels.len()
            && is_subscribed(st[k], h, ci + 1)
    &&& forall|k: int| 0 <= k < reads.len() ==> run_step(st[k], st[k + 1], #[trigger] reads[k], h, ci, lim)
    &&& sub_page(st[0], h, ci).cur <= st[0].messages.len()
}

proof fn lemma_run(st: Seq<StoreV>, reads: Seq<bool>, h: Seq<char>, ci: int, lim: int, k: int, x: int)
    requires
        run_ok(st, reads, h, ci, lim),
        0 <= k < st.len(),
    ensures
        ({
            let s = st[k];
            let cur0 = sub_page(st[0], h, ci).cur;
            &&& cur0 <= sub_page(s, h, ci).cur <= s.messages.len()
            &&& delivered(st, reads, h, ci, lim, k, x) ==> 0 <= x < s.messages.len()
                && s.messages[x].channel_id == ci + 1 && x + 1 > cur0
            &&& (0 <= x < s.messages.len() && s.messages[x].channel_id == ci + 1 && x + 1 > cur0)
                ==> (delivered(st, reads, h, ci, lim, k, x) <==> !unread_on(
                s,
                sub_page(s, h, ci),
                h,
                false,
                x,
            ))
        }),
    decreases k,
{
    if k > 0 {
        lemma_run(st, reads, h, ci, lim, k - 1, x);
        let s = st[k - 1];
        let t = st[k];
        assert(s.wf() && 0 <= ci < s.channels.len() && is_subscribed(s, h, ci + 1));
        assert(t.wf() && is_subscribed(t, h, ci + 1));
        assert(run_step(s, t, reads[k - 1], h, ci, lim));
        let p = sub_page(s, h, ci);
        let n = s.messages.len() as int;
        if reads[k - 1] {
            let last = last_shown(s, p, h, false, lim, n);
            lemma_last_shown(s, p, h, false, lim, n);
            if last > 0 {
                if 0 <= x < n {
                    law_ack_to_next_cursor(s, h, ci, false, lim, x);
                } else {
                    law_ack_to_next_cursor(s, h, ci, false, lim, 0);
                }
                assert(t.messages == s.messages);
                assert(shown_on(s, p, h, false, lim, last - 1));
            } else {
                if 0 <= x < n {
                    assert(!shown_on(s, p, h, false, lim, x));
                }
            }
        } else {
            if 0 <= x < n {
                assert(t.messages[x] == s.messages[x]);
            }
        }
    }
}

/// Catching up and acknowledging never loses a message nor shows one twice,
/// over a whole run: after any run of `run_step`s, a message of the channel
/// newer than the starting cursor has been shown exactly when it is no
/// longer unread; so once a catch-up shows nothing more, every such
/// message has been shown.
pub proof fn law_catch_up_run_no_loss(st: Seq<StoreV>, reads: Seq<bool>, h: Seq<char>, ci: int, lim: int, x: int)
    requires
        run_ok(st, reads, h, ci, lim),
    ensures
        ({
            let n = reads.len() as int;
            let s = st[n];
            let cur0 = sub_page(st[0], h, ci).cur;
            &&& (0 <= x < s.messages.len() && s.messages[x].channel_id == ci + 1 && x + 1 > cur0)
                ==> (delivered(st, reads, h, ci, lim, n, x) <==> !unread_on(
                s,
                sub_page(s, h, ci),
                h,
                false,
                x,
            ))
            &&& (0 <= x < s.messages.len() && s.messages[x].channel_id == ci + 1 && x + 1 > cur0
                && last_shown(s, sub_page(s, h, ci), h, false, lim, s.messages.len() as int) == 0)
                ==> delivered(st, reads, h, ci, lim, n, x)
            &&& delivered(st, reads, h, ci, lim, n, x) ==> x + 1 > cur0
        }),
{
    let n = reads.len() as int;
    lemma_run(st, reads, h, ci, lim, n, x);
    let s = st[n];
    let p = sub_page(s, h, ci);
    if 0 <= x < s.messages.len() && s.messages[x].channel_id == ci + 1 && x + 1 > sub_page(st[0], h, ci).cur
        && last_shown(s, p, h, false, lim, s.messages.len() as int) == 0 {
        lemma_last_shown(s, p, h, false, lim, s.messages.len() as int);
        if unread_on(s, p, h, false, x) {
            lemma_first_unread_shown(s, p, h, lim, x);
        }
    }
}

/// When some message is unread on a page, the first of them is shown.
proof fn lemma_first_unread_shown(s: StoreV, p: Page, h: Seq<char>, lim: int, x: int)
    requires
        lim > 0,
        0 <= x < s.messages.len(),
        unread_on(s, p, h, false, x),
    ensures
        exists|i: int| 0 <= i <= x && #[trigger] shown_on(s, p, h, false, lim, i),
    decreases x,
{
    if unread_count(s, p, h, false, x) == 0 {
        assert(shown_on(s, p, h, false, lim, x));
    } else {
        let i = lemma_some_unread_before(s, p, h, x);
        lemma_first_unread_shown(s, p, h, lim, i);
    }
}

/// Some message before `k` is unread when the count of them is not zero.
proof fn lemma_some_unread_before(s: StoreV, p: Page, h: Seq<char>, k: int) -> (i: int)
    requires
        0 <= k,
        unread_count(s, p, h, false, k) > 0,
    ensures
        0 <= i < k,
        unread_on(s, p, h, false, i),
    decreases k,
{
    if unread_on(s, p, h, false, k - 1) {
        k - 1
    } else {
        lemma_some_unread_before(s, p, h, k - 1)
    }
}

/// Subscribing never touches a message.
proof fn lemma_upsert_all_messages(s: StoreV, names: Seq<Seq<char>>, cid: int, cursor: int, k: int)
    ensures
        crate::messages::upsert_all(s, names, cid, cursor, k).messages == s.messages,
    decreases k,
{
    if k > 0 {
        lemma_upsert_all_messages(s, names, cid, cursor, k - 1);
    }
}

/// A refused post changes nothing.
pub proof fn law_refused_post_changes_nothing(
    s: StoreV,
    t: StoreV,
    r: Result<i64, crate::error::Error>,
    author: Seq<char>,
    channel: Seq<char>,
    kind: Seq<char>,
    summary: Seq<char>,
    summary_bytes: nat,
    body_v: Option<Seq<char>>,
    body_bytes: nat,
    ms: Seq<Seq<char>>,
    reply_to: Option<i64>,
    now: i64,
)
    requires
        crate::messages::post_outcome(
            s,
            t,
            r,
            author,
            channel,
            kind,
            summary,
            summary_bytes,
            body_v,
            body_bytes,
            ms,
            reply_to,
            now,
        ),
        r is Err,
    ensures
        t == s,
{
}

/// A post replies only within its own channel, and only an answer resolves
/// anything: the one open question it replies to, as resolved by its
/// author now; every other message keeps its resolution.
pub proof fn law_post_resolves_only_the_answered_question(
    s: StoreV,
    t: StoreV,
    r: Result<i64, crate::error::Error>,
    author: Seq<char>,
    channel: Seq<char>,
    kind: Seq<char>,
    summary: Seq<char>,
    summary_bytes: nat,
    body_v: Option<Seq<char>>,
    body_bytes: nat,
    ms: Seq<Seq<char>>,
    reply_to: Option<i64>,
    now: i64,
    x: int,
)
    requires
        crate::messages::post_outcome(
            s,
            t,
            r,
            author,
            channel,
            kind,
            summary,
            summary_bytes,
            body_v,
            body_bytes,
            ms,
            reply_to,
            now,
        ),
        s.wf(),
        r is Ok,
        0 <= x < s.messages.len(),
    ensures
        t.messages.len() == s.messages.len() + 1,
        reply_to matches Some(rt) ==> 1 <= rt <= s.messages.len() && s.message_of(rt as int).channel_id
            == t.messages[s.messages.len() as int].channel_id,
        if kind == "answer"@ && reply_to == Some((x + 1) as i64) && s.messages[x].kind
            == crate::types::MessageKind::Question && s.messages[x].resolved_at is None {
            t.messages[x].resolved_at == Some(now) && t.messages[x].resolved_by == Some(author)
        } else {
            t.messages[x].resolved_at == s.messages[x].resolved_at && t.messages[x].resolved_by
                == s.messages[x].resolved_by
        },
{
    let cid = channel_index(s, channel)->0 + 1;
    let norm = crate::messages::normalized_mentions(ms);
    let k = choose|k: crate::types::MessageKind| crate::types::message_kind_name(k) == kind;
    let kept = crate::messages::kept_mentions(s, norm, cid, norm.len() as int);
    let m = crate::messages::new_message(cid, author, k, summary, body_v, reply_to, now, kept);
    let s0 = StoreV { messages: s.messages.push(m), ..s };
    let s2 = upsert_sub(s0, m.author, m.channel_id as int, (s.messages.len() + 1) as int);
    lemma_upsert_all_messages(s2, kept, m.channel_id as int, s.messages.len() as int, kept.len() as int);
    let s1 = message_inserted(s, m, kept);
    assert(s1.messages == s.messages.push(m));
    crate::types::lemma_message_kind_names_distinct(k, crate::types::MessageKind::Answer);
    reveal_strlit("answer");
    assert(crate::types::message_kind_name(crate::types::MessageKind::Answer) == "answer"@);
    assert(crate::types::message_kind_name(k) == kind);
    assert(s1.messages[x] == s.messages[x]);
    if let Some(rt) = reply_to {
        if rt == (x + 1) as i64 {
            assert(rt as int == x + 1);
            assert(s1.message_of(rt as int) == s.messages[x]);
        }
    }
}

/// Joining is subscribing from now: right after `h` joins a channel it
/// had no subscription to, nothing there is unread for it.
pub proof fn law_join_from_now(s: StoreV, h: Seq<char>, ci: int, om: bool, x: int)
    requires
        s.wf(),
        0 <= ci < s.channels.len(),
        sub_index(s, h, ci + 1) is None,
        0 <= x < s.messages.len(),
    ensures
        ({
            let t = joined(s, h, ci);
            &&& is_subscribed(t, h, ci + 1)
            &&& !unread_on(t, sub_page(t, h, ci), h, om, x)
        }),
{
    let t = joined(s, h, ci);
    let i = s.subs.len() as int;
    let m = channel_max_id(s, ci + 1);
    lemma_max_id_upto_le(s, ci + 1, s.messages.len() as int);
    crate::messages::lemma_upsert_wf(s, h, ci + 1, m);
    assert(t == StoreV {
        subs: s.subs.push(SubV { handle: h, channel_id: (ci + 1) as i64, last_acked_id: m as i64, active: true }),
        ..s
    });
    lemma_sub_index_unique(t, h, ci + 1, i);
    if t.messages[x].channel_id == ci + 1 {
        lemma_max_id_upto_bound(s, ci + 1, x, s.messages.len() as int);
    }
}

/// Leaving keeps the cursor: an agent that leaves a channel and joins it
/// again reads on from where it had acknowledged.
pub proof fn law_rejoin_keeps_cursor(s: StoreV, h: Seq<char>, ci: int)
    requires
        s.wf(),
        0 <= ci < s.channels.len(),
        sub_index(s, h, ci + 1) is Some,
    ensures
        ({
            let t = joined(left(s, h, s.channels[ci].name), h, ci);
            &&& is_subscribed(t, h, ci + 1)
            &&& sub_page(t, h, ci).cur == sub_page(s, h, ci).cur
        }),
{
    let i = sub_index(s, h, ci + 1)->0;
    let name = s.channels[ci].name;
    assert(s.channels[ci].name == name);
    let l = left(s, h, name);
    assert(channel_index(s, name) == Some(ci)) by {
        let k = choose|k: int| 0 <= k < s.channels.len() && #[trigger] s.channels[k].name == name;
        if k != ci {
            if k < ci {
                assert(s.channels[k].name != s.channels[ci].name);
            } else {
                assert(s.channels[ci].name != s.channels[k].name);
            }
        }
    }
    let row = SubV { active: false, ..s.subs[i] };
    lemma_wf_sub_update(s, i, row);
    assert(l == StoreV { subs: s.subs.update(i, row), ..s });
    lemma_sub_index_unique(l, h, ci + 1, i);
    let t = joined(l, h, ci);
    let row2 = SubV { active: true, ..l.subs[i] };
    lemma_wf_sub_update(l, i, row2);
    assert(t == StoreV { subs: l.subs.update(i, row2), ..l });
    lemma_sub_index_unique(t, h, ci + 1, i);
}


/// What upserting `h`'s subscription to `cid` does to the row of `x` there:
/// `h`'s row is active, keeping its cursor when it existed and taking
/// `cursor` when new; every other handle's row stays as it was.
proof fn lemma_upsert_sub_row(s: StoreV, h: Seq<char>, cid: int, cursor: int, x: Seq<char>)
    requires
        s.wf(),
        1 <= cid <= s.channels.len(),
        0 <= cursor < i64::MAX,
    ensures
        ({
            let t = upsert_sub(s, h, cid, cursor);
            &&& t.wf()
            &&& t.messages == s.messages
            &&& t.channels == s.channels
            &&& x == h ==> (sub_index(t, x, cid) is Some && t.subs[sub_index(t, x, cid)->0].active
                && t.subs[sub_index(t, x, cid)->0].last_acked_id == match sub_index(s, x, cid) {
                Some(j) => s.subs[j].last_acked_id,
                None => cursor as i64,
            })
            &&& x != h ==> (sub_index(t, x, cid) == sub_index(s, x, cid) && (sub_index(s, x, cid) matches Some(j)
                ==> t.subs[j] == s.subs[j]))
        }),
{
    let t = upsert_sub(s, h, cid, cursor);
    crate::messages::lemma_upsert_wf(s, h, cid, cursor);
    match sub_index(s, h, cid) {
        Some(i) => {
            lemma_sub_index_unique(t, h, cid, i);
            if x != h {
                match sub_index(s, x, cid) {
                    Some(j) => {
                        lemma_sub_index_unique(s, x, cid, j);
                        lemma_sub_index_unique(t, x, cid, j);
                    },
                    None => {
                        if sub_index(t, x, cid) is Some {
                            let j = sub_index(t, x, cid)->0;
                            assert(s.subs[j].handle == x && s.subs[j].channel_id == cid);
                        }
                    },
                }
            }
        },
        None => {
            let i = s.subs.len() as int;
            lemma_sub_index_unique(t, h, cid, i);
            if x != h {
                match sub_index(s, x, cid) {
                    Some(j) => {
                        lemma_sub_index_unique(t, x, cid, j);
                    },
                    None => {
                        if sub_index(t, x, cid) is Some {
                            let j = sub_index(t, x, cid)->0;
                            assert(s.subs[j].handle == x && s.subs[j].channel_id == cid);
                        }
                    },
                }
            }
        },
    }
}

/// What subscribing the first `k` of `names` to `cid` does to the row of
/// `x` there.
proof fn lemma_upsert_all_row(s: StoreV, names: Seq<Seq<char>>, cid: int, cursor: int, k: int, x: Seq<char>)
    requires
        s.wf(),
        1 <= cid <= s.channels.len(),
        0 <= cursor < i64::MAX,
        0 <= k <= names.len(),
    ensures
        ({
            let t = upsert_all(s, names, cid, cursor, k);
            &&& t.wf()
            &&& t.messages == s.messages
            &&& t.channels == s.channels
            &&& names.take(k).contains(x) ==> (sub_index(t, x, cid) is Some
                && t.subs[sub_index(t, x, cid)->0].active
                && t.subs[sub_index(t, x, cid)->0].last_acked_id == match sub_index(s, x, cid) {
                Some(j) => s.subs[j].last_acked_id,
                None => cursor as i64,
            })
            &&& !names.take(k).contains(x) ==> (sub_index(t, x, cid) == sub_index(s, x, cid) && (
            sub_index(s, x, cid) matches Some(j) ==> t.subs[j] == s.subs[j]))
        }),
    decreases k,
{
    if k == 0 {
        assert(names.take(0) =~= Seq::<Seq<char>>::empty());
    } else {
        let prev = upsert_all(s, names, cid, cursor, k - 1);
        lemma_upsert_all_row(s, names, cid, cursor, k - 1, x);
        lemma_upsert_sub_row(prev, names[k - 1], cid, cursor, x);
        let y = names[k - 1];
        assert(names.take(k) =~= names.take(k - 1).push(y));
        assert(names.take(k).contains(x) <==> (names.take(k - 1).contains(x) || y == x)) by {
            if names.take(k).contains(x) {
                let j = choose|j: int| 0 <= j < k && #[trigger] names.take(k)[j] == x;
                if j < k - 1 {
                    assert(names.take(k - 1)[j] == x);
                }
            }
            if names.take(k - 1).contains(x) {
                let j = choose|j: int| 0 <= j < k - 1 && #[trigger] names.take(k - 1)[j] == x;
                assert(names.take(k)[j] == x);
            }
            if y == x {
                assert(names.take(k)[k - 1] == x);
            }
        }
    }
}

/// A mention subscribes: after a message mentioning `x` (not its author)
/// is recorded, `x` is subscribed to the channel, with the cursor it had
/// there, or, when it had none, from just before the message, so the
/// message is unread for it.
pub proof fn law_mention_subscribes(s: StoreV, m: MsgV, kept: Seq<Seq<char>>, x: Seq<char>)
    requires
        s.wf(),
        s.messages.len() + 1 < i64::MAX,
        1 <= m.channel_id <= s.channels.len(),
        m.resolved_at is None,
        m.resolved_by is None,
        crate::store::sorted_names(m.mentions),
        kept.contains(x),
        x != m.author,
    ensures
        ({
            let t = message_inserted(s, m, kept);
            let cid = m.channel_id as int;
            &&& is_subscribed(t, x, cid)
            &&& t.subs[sub_index(t, x, cid)->0].last_acked_id == match sub_index(s, x, cid) {
                Some(j) => s.subs[j].last_acked_id,
                None => s.messages.len() as i64,
            }
            &&& (sub_index(s, x, cid) is None ==> unread_on(
                t,
                sub_page(t, x, cid - 1),
                x,
                false,
                s.messages.len() as int,
            ))
        }),
{
    let cid = m.channel_id as int;
    let id: int = s.messages.len() as int + 1;
    let s1 = StoreV { messages: s.messages.push(m), ..s };
    assert(s1.wf()) by {
        assert forall|i: int| 0 <= i < s1.messages.len() implies {
            &&& 1 <= #[trigger] s1.messages[i].channel_id <= s1.channels.len()
            &&& (s1.messages[i].resolved_at is Some <==> s1.messages[i].resolved_by is Some)
            &&& crate::store::sorted_names(s1.messages[i].mentions)
        } by {
            if i < s.messages.len() {
                assert(s1.messages[i] == s.messages[i]);
            }
        }
    }
    assert(sub_index(s1, x, cid) == sub_index(s, x, cid));
    lemma_upsert_sub_row(s1, m.author, cid, id, x);
    let s2 = upsert_sub(s1, m.author, cid, id);
    lemma_upsert_all_row(s2, kept, cid, id - 1, kept.len() as int, x);
    assert(kept.take(kept.len() as int) =~= kept);
}

/// The direct channel between two agents has one name, whichever of them
/// is given first.
pub proof fn law_dm_name_symmetric(a: Seq<char>, b: Seq<char>)
    ensures
        dm_name(a, b) == dm_name(b, a),
{
    lemma_compare_antisym(a, b);
    lemma_compare_eq(a, b);
}

/// `dm:x+y` splits back into `x` and `y` when neither holds a `+`.
proof fn lemma_dm_parts(x: Seq<char>, y: Seq<char>, u: Seq<char>, v: Seq<char>)
    requires
        valid_handle(x),
        valid_handle(y),
        valid_handle(u),
        valid_handle(v),
        seq!['d', 'm', ':'] + x + seq!['+'] + y == seq!['d', 'm', ':'] + u + seq!['+'] + v,
    ensures
        x == u,
        y == v,
{
    let a = seq!['d', 'm', ':'] + x + seq!['+'] + y;
    let b = seq!['d', 'm', ':'] + u + seq!['+'] + v;
    if x.len() < u.len() {
        assert(a[3 + x.len() as int] == '+');
        assert(b[3 + x.len() as int] == u[x.len() as int]);
        assert(is_handle_char(u[x.len() as int]));
        assert(false);
    }
    if u.len() < x.len() {
        assert(b[3 + u.len() as int] == '+');
        assert(a[3 + u.len() as int] == x[u.len() as int]);
        assert(is_handle_char(x[u.len() as int]));
        assert(false);
    }
    assert(x =~= a.subrange(3, 3 + x.len() as int));
    assert(u =~= b.subrange(3, 3 + u.len() as int));
    assert(y =~= a.subrange(4 + x.len() as int, a.len() as int));
    assert(v =~= b.subrange(4 + u.len() as int, b.len() as int));
}

/// Different pairs of agents get different direct channels: two valid
/// handles' direct-channel name is that of no other pair.
pub proof fn law_dm_name_injective(a: Seq<char>, b: Seq<char>, c: Seq<char>, d: Seq<char>)
    requires
        valid_handle(a),
        valid_handle(b),
        valid_handle(c),
        valid_handle(d),
        dm_name(a, b) == dm_name(c, d),
    ensures
        (a == c && b == d) || (a == d && b == c),
{
    if seq_le(a, b) {
        if seq_le(c, d) {
            lemma_dm_parts(a, b, c, d);
        } else {
            lemma_dm_parts(a, b, d, c);
        }
    } else {
        if seq_le(c, d) {
            lemma_dm_parts(b, a, c, d);
        } else {
            lemma_dm_parts(b, a, d, c);
        }
    }
}

/// Acknowledging never moves a cursor back, and never past the channel's
/// newest message unless the cursor already was.
pub proof fn law_ack_never_moves_back(cur: int, up_to: int, chan_max: int)
    requires
        0 <= chan_max,
    ensures
        acked_cursor(cur, up_to, chan_max) >= cur,
        acked_cursor(cur, up_to, chan_max) <= if cur > chan_max {
            cur
        } else {
            chan_max
        },
        cur <= up_to && 0 <= up_to <= chan_max ==> acked_cursor(cur, up_to, chan_max) == up_to,
{
}

proof fn lemma_handle_chars_kept(h: Seq<char>)
    requires
        valid_handle(h),
    ensures
        trimmed(h) == h,
        ascii_lower(h) == h,
{
    assert(!is_white_space(h[0]));
    assert(!is_white_space(h.last()));
    assert(trim_start(h) == h);
    assert(trim_end(h) == h);
    assert(ascii_lower(h) =~= h);
}

/// A handle is already normal: parsing its text gives it back.
pub proof fn law_handle_is_normal(h: Seq<char>)
    requires
        valid_handle(h),
    ensures
        normalized_handle(h) == h,
{
    lemma_handle_chars_kept(h);
}


proof fn lemma_hash_owner_push(s: StoreV, a: AgentV, hash: Seq<u8>, k: int)
    requires
        0 <= k <= s.agents.len(),
        hash_owner(s, hash, k) is None,
        a.token_hash == hash,
    ensures
        hash_owner(StoreV { agents: s.agents.push(a), ..s }, hash, k) == Some(s.agents.len() as int),
    decreases s.agents.len() - k,
{
    let t = StoreV { agents: s.agents.push(a), ..s };
    if k < s.agents.len() {
        assert(t.agents[k] == s.agents[k]);
        lemma_hash_owner_push(s, a, hash, k + 1);
    }
}

/// `hash_owner` reads only the stored hashes.
proof fn lemma_hash_owner_same_hashes(s: StoreV, u: StoreV, hash: Seq<u8>, k: int)
    requires
        s.agents.len() == u.agents.len(),
        forall|i: int| 0 <= i < s.agents.len() ==> #[trigger] s.agents[i].token_hash == u.agents[i].token_hash,
    ensures
        hash_owner(s, hash, k) == hash_owner(u, hash, k),
    decreases s.agents.len() - k,
{
    if 0 <= k < s.agents.len() {
        lemma_hash_owner_same_hashes(s, u, hash, k + 1);
    }
}

/// A minted token authenticates its agent: minting hands out a token only
/// when no agent holds its hash yet (see `Hub::mint_token`).
pub proof fn law_minted_token_resolves(s: StoreV, h: Seq<char>, kind: AgentKind, t: Seq<char>, now: i64)
    requires
        valid_handle(h),
        hash_owner(s, token_hash(t), 0) is None,
    ensures
        token_owner(
            StoreV {
                agents: s.agents.push(
                    AgentV {
                        handle: h,
                        kind,
                        token_hash: token_hash(t),
                        token_revoked: None,
                        role: None,
                        last_seen_at: 0,
                        created_at: now,
                    },
                ),
                ..s
            },
            t,
        ) == Some(h),
{
    let a = AgentV {
        handle: h,
        kind,
        token_hash: token_hash(t),
        token_revoked: None,
        role: None,
        last_seen_at: 0,
        created_at: now,
    };
    lemma_hash_owner_push(s, a, token_hash(t), 0);
    lemma_handle_chars_kept(h);
}

/// The handle comes from the token alone: in well-formed tables a token
/// reaches exactly the agent holding its hash, and authenticates it unless
/// its token was revoked.
pub proof fn law_token_resolves_to_its_holder(s: StoreV, t: Seq<char>, i: int)
    requires
        s.wf(),
        0 <= i < s.agents.len(),
        s.agents[i].token_hash == token_hash(t),
    ensures
        hash_owner(s, token_hash(t), 0) == Some(i),
        token_owner(s, t) == if s.agents[i].token_revoked is Some {
            None
        } else {
            Some(s.agents[i].handle)
        },
{
    lemma_hash_owner_found(s, token_hash(t), 0);
    match hash_owner(s, token_hash(t), 0) {
        Some(j) => {
            if j < i {
                assert(s.agents[j].token_hash != s.agents[i].token_hash);
            } else if i < j {
                assert(s.agents[i].token_hash != s.agents[j].token_hash);
            }
        },
        None => {},
    }
    assert(valid_handle(s.agents[i].handle));
    lemma_handle_chars_kept(s.agents[i].handle);
}

/// A token whose hash no agent holds authenticates nobody.
pub proof fn law_unknown_token_refused(s: StoreV, t: Seq<char>)
    requires
        forall|j: int| 0 <= j < s.agents.len() ==> #[trigger] s.agents[j].token_hash != token_hash(t),
    ensures
        hash_owner(s, token_hash(t), 0) is None,
        token_owner(s, t) is None,
{
    lemma_hash_owner_found(s, token_hash(t), 0);
}

/// A revoked agent's token no longer authenticates anyone.
pub proof fn law_revoked_token_refused(s: StoreV, i: int, t: Seq<char>, now: i64)
    requires
        0 <= i < s.agents.len(),
        hash_owner(s, token_hash(t), 0) == Some(i),
    ensures
        token_owner(with_agent(s, i, AgentV { token_revoked: Some(now), ..s.agents[i] }), t) is None,
{
    let u = with_agent(s, i, AgentV { token_revoked: Some(now), ..s.agents[i] });
    assert forall|j: int| 0 <= j < s.agents.len() implies #[trigger] s.agents[j].token_hash
        == u.agents[j].token_hash by {
        if j != i {
            assert(u.agents[j] == s.agents[j]);
        }
    }
    lemma_hash_owner_same_hashes(s, u, token_hash(t), 0);
}

proof fn lemma_hash_owner_found(s: StoreV, hash: Seq<u8>, k: int)
    requires
        0 <= k,
    ensures
        hash_owner(s, hash, k) matches Some(j) ==> k <= j < s.agents.len() && s.agents[j].token_hash
            == hash && forall|m: int| k <= m < j ==> #[trigger] s.agents[m].token_hash != hash,
        hash_owner(s, hash, k) is None ==> forall|m: int|
            k <= m < s.agents.len() ==> #[trigger] s.agents[m].token_hash != hash,
    decreases s.agents.len() - k,
{
    if k < s.agents.len() && s.agents[k].token_hash != hash {
        lemma_hash_owner_found(s, hash, k + 1);
    }
}

/// Rotation retires the old token: afterwards the agent's row is reached
/// by the new token and no longer by the old one; rotating hands out a
/// token only when no agent holds its hash yet (see `Hub::rotate_token`),
/// so it differs from the old one.
pub proof fn law_rotation_retires_old_token(s: StoreV, i: int, old_token: Seq<char>, new_token: Seq<char>)
    requires
        0 <= i < s.agents.len(),
        hash_owner(s, token_hash(old_token), 0) == Some(i),
        token_hash(new_token) != token_hash(old_token),
        hash_owner(s, token_hash(new_token), 0) is None,
    ensures
        ({
            let u = with_agent(
                s,
                i,
                AgentV { token_hash: token_hash(new_token), token_revoked: None, ..s.agents[i] },
            );
            &&& hash_owner(u, token_hash(new_token), 0) == Some(i)
            &&& hash_owner(u, token_hash(old_token), 0) != Some(i)
        }),
{
    let u = with_agent(s, i, AgentV { token_hash: token_hash(new_token), token_revoked: None, ..s.agents[i] });
    lemma_hash_owner_found(s, token_hash(new_token), 0);
    lemma_hash_owner_found(u, token_hash(new_token), 0);
    lemma_hash_owner_found(u, token_hash(old_token), 0);
    if hash_owner(u, token_hash(new_token), 0) != Some(i) {
        assert(u.agents[i].token_hash == token_hash(new_token));
        match hash_owner(u, token_hash(new_token), 0) {
            Some(j) => {
                assert(u.agents[j] == s.agents[j]);
            },
            None => {},
        }
    }
}

/// Whether no two issues of a channel share a number.
pub open spec fn issue_numbers_distinct(s: StoreV) -> bool {
    forall|a: int, b: int|
        0 <= a < b < s.issues.len() && #[trigger] s.issues[a].channel_id == #[trigger] s.issues[b].channel_id
            ==> s.issues[a].number != s.issues[b].number
}

/// Whether no two channels share an issue prefix.
pub open spec fn prefixes_distinct(s: StoreV) -> bool {
    forall|a: int, b: int|
        0 <= a < b < s.channels.len() && (#[trigger] s.channels[a].issue_prefix) is Some
            ==> s.channels[a].issue_prefix != #[trigger] s.channels[b].issue_prefix
}

proof fn lemma_max_number_above(s: StoreV, cid: int, k: int, a: int)
    requires
        0 <= a < k <= s.issues.len(),
        s.issues[a].channel_id == cid,
    ensures
        s.issues[a].number <= max_number(s, cid, k),
    decreases k,
{
    if a < k - 1 {
        lemma_max_number_above(s, cid, k - 1, a);
    }
}

proof fn lemma_prefix_owner_none(s: StoreV, p: Seq<char>, k: int)
    requires
        0 <= k,
        prefix_owner(s, p, k) is None,
    ensures
        forall|c: int| k <= c < s.channels.len() ==> #[trigger] s.channels[c].issue_prefix != Some(p),
    decreases s.channels.len() - k,
{
    if k < s.channels.len() {
        lemma_prefix_owner_none(s, p, k + 1);
    }
}

/// Recording a new message changes no channel, agent or issue.
proof fn lemma_message_inserted_keeps(s: StoreV, m: MsgV, kept: Seq<Seq<char>>)
    requires
        s.wf(),
        s.messages.len() + 1 < i64::MAX,
        1 <= m.channel_id <= s.channels.len(),
        m.resolved_at is None,
        m.resolved_by is None,
        crate::store::sorted_names(m.mentions),
    ensures
        ({
            let t = message_inserted(s, m, kept);
            &&& t.wf()
            &&& t.channels == s.channels
            &&& t.agents == s.agents
            &&& t.issues == s.issues
            &&& t.messages == s.messages.push(m)
        }),
{
    let cid = m.channel_id as int;
    let id: int = s.messages.len() as int + 1;
    let s1 = StoreV { messages: s.messages.push(m), ..s };
    assert(s1.wf()) by {
        assert forall|i: int| 0 <= i < s1.messages.len() implies {
            &&& 1 <= #[trigger] s1.messages[i].channel_id <= s1.channels.len()
            &&& (s1.messages[i].resolved_at is Some <==> s1.messages[i].resolved_by is Some)
            &&& crate::store::sorted_names(s1.messages[i].mentions)
        } by {
            if i < s.messages.len() {
                assert(s1.messages[i] == s.messages[i]);
            }
        }
    }
    crate::messages::lemma_upsert_wf(s1, m.author, cid, id);
    let s2 = upsert_sub(s1, m.author, cid, id);
    crate::messages::lemma_upsert_all_wf(s2, kept, cid, id - 1, kept.len() as int);
}

/// Filing an issue keeps issue numbers distinct within each channel and
/// issue prefixes distinct across channels; `p` is the prefix it files
/// under, in lower case as every such prefix is
/// (`lemma_effective_prefix_lower`).
pub proof fn law_filing_keeps_numbers_and_prefixes_distinct(
    s: StoreV,
    ci: int,
    p: Seq<char>,
    by: Seq<char>,
    title: Seq<char>,
    body: Option<Seq<char>>,
    ms: Seq<Seq<char>>,
    parent_id: Option<i64>,
    now: i64,
)
    requires
        s.wf(),
        s.messages.len() + 1 < i64::MAX,
        s.issues.len() + 1 < i64::MAX,
        0 <= ci < s.channels.len(),
        issue_numbers_distinct(s),
        prefixes_distinct(s),
        s.channels[ci].issue_prefix is None ==> prefix_owner(s, p, 0) is None,
        s.channels[ci].issue_prefix is Some ==> s.channels[ci].issue_prefix == Some(p),
        ascii_lower(p) == p,
    ensures
        ({
            let t = issue_filed(s, ci, p, by, title, body, ms, parent_id, now);
            &&& issue_numbers_distinct(t)
            &&& prefixes_distinct(t)
        }),
{
    let cid = ci + 1;
    let s1 = if s.channels[ci].issue_prefix is None {
        StoreV {
            channels: s.channels.update(ci, crate::store::ChannelV { issue_prefix: Some(p), ..s.channels[ci] }),
            ..s
        }
    } else {
        s
    };
    if s.channels[ci].issue_prefix is None {
        assert(crate::store::sorted_names(s.channels[ci].members));
        crate::store::lemma_wf_channel_update(
            s,
            ci,
            crate::store::ChannelV { issue_prefix: Some(p), ..s.channels[ci] },
        );
        lemma_prefix_owner_none(s, p, 0);
    }
    let kept = crate::messages::kept_mentions(s, ms, cid, ms.len() as int);
    let m = crate::messages::new_message(cid, by, crate::types::MessageKind::Task, title, body, None, now, kept);
    crate::order::lemma_sort_names_sorted(kept);
    lemma_message_inserted_keeps(s1, m, kept);
    let s2 = message_inserted(s1, m, kept);
    let t = issue_filed(s, ci, p, by, title, body, ms, parent_id, now);
    let n = s.issues.len() as int;
    crate::issues::lemma_max_number_bound(s, cid, n);
    assert forall|a: int, b: int|
        0 <= a < b < t.issues.len() && #[trigger] t.issues[a].channel_id == #[trigger] t.issues[b].channel_id
            implies t.issues[a].number != t.issues[b].number by {
        if b == n {
            assert(t.issues[a] == s.issues[a]);
            lemma_max_number_above(s, cid, n, a);
        } else {
            assert(t.issues[a] == s.issues[a]);
            assert(t.issues[b] == s.issues[b]);
        }
    }
    assert forall|a: int, b: int|
        0 <= a < b < t.channels.len() && (#[trigger] t.channels[a].issue_prefix) is Some
            implies t.channels[a].issue_prefix != #[trigger] t.channels[b].issue_prefix by {
        if s.channels[ci].issue_prefix is None && (a == ci || b == ci) {
            if a == ci {
                assert(t.channels[b] == s.channels[b]);
            } else {
                assert(t.channels[a] == s.channels[a]);
            }
        } else {
            assert(t.channels[a] == s.channels[a]);
            assert(t.channels[b] == s.channels[b]);
        }
    }
}


proof fn lemma_decimal_digits(n: nat)
    ensures
        nat_decimal(n).len() >= 1,
        forall|i: int| 0 <= i < nat_decimal(n).len() ==> is_digit(#[trigger] nat_decimal(n)[i]),
        digits_value(nat_decimal(n)) == n,
    decreases n,
{
    let d = nat_decimal(n);
    if n >= 10 {
        lemma_decimal_digits(n / 10);
        assert(d.drop_last() =~= nat_decimal(n / 10));
        assert(forall|i: int| 0 <= i < d.len() - 1 ==> d[i] == nat_decimal(n / 10)[i]);
        let r: int = (n % 10) as int;
        assert(0 <= r < 10);
        assert(d.last() == ((('0' as u32) + r) as char));
        assert((d.last() as u32) == 48 + r);
        vstd::arithmetic::div_mod::lemma_fundamental_div_mod(n as int, 10);
        assert(digits_value(d) == digits_value(d.drop_last()) * 10 + ((d.last() as u32) - ('0' as u32)) as nat);
        assert(digits_value(d.drop_last()) == n / 10);
        assert(digits_value(d) == (n / 10) * 10 + r);
    } else {
        assert(d.drop_last() =~= Seq::<char>::empty());
        assert((d.last() as u32) == 48 + n);
        assert(digits_value(d) == digits_value(d.drop_last()) * 10 + ((d.last() as u32) - ('0' as u32)) as nat);
    }
}

proof fn lemma_last_dash_digits(s: Seq<char>, j: int, k: int)
    requires
        0 <= j < k <= s.len(),
        s[j] == '-',
        forall|i: int| j < i < s.len() ==> is_digit(#[trigger] s[i]),
    ensures
        last_dash(s, k) == Some(j),
    decreases k,
{
    if k - 1 > j {
        assert(is_digit(s[k - 1]));
        lemma_last_dash_digits(s, j, k - 1);
    }
}

/// A filed issue's reference reads back: the reference filing gives an
/// issue in channel index `ci` parses as the prefix it was filed under and
/// its number, unless that prefix is empty (an empty prefix asked for).
pub proof fn law_filed_reference_reads_back(s: StoreV, ci: int, prefix: Option<Seq<char>>)
    requires
        s.wf(),
        s.issues.len() + 1 < i64::MAX,
        0 <= ci < s.channels.len(),
        crate::issues::effective_prefix(s, ci, prefix).len() > 0,
    ensures
        ({
            let p = crate::issues::effective_prefix(s, ci, prefix);
            let n = max_number(s, ci + 1, s.issues.len() as int) + 1;
            issue_ref_parts(issue_ref_text(p, n)) == Some((p, n as i64))
        }),
{
    let p = crate::issues::effective_prefix(s, ci, prefix);
    let n = max_number(s, ci + 1, s.issues.len() as int) + 1;
    crate::issues::lemma_max_number_bound(s, ci + 1, s.issues.len() as int);
    crate::issues::lemma_effective_prefix_lower(s, ci, prefix);
    law_issue_ref_roundtrip(p, n as i64);
}

/// An issue's reference reads back as its prefix and number: for a
/// non-empty prefix already in lower case and a number above zero.
pub proof fn law_issue_ref_roundtrip(p: Seq<char>, n: i64)
    requires
        p.len() > 0,
        ascii_lower(p) == p,
        n > 0,
    ensures
        issue_ref_parts(issue_ref_text(p, n as int)) == Some((p, n)),
{
    let d = nat_decimal(n as nat);
    lemma_decimal_digits(n as nat);
    let raw = issue_ref_text(p, n as int);
    assert(int_decimal(n as int) == d);
    assert(raw =~= seq!['#'] + p + seq!['-'] + d);
    assert(!is_white_space(raw[0]));
    assert(raw.last() == d.last());
    assert(is_digit(d[d.len() - 1]));
    assert(!is_white_space(raw.last()));
    assert(trim_start(raw) == raw);
    assert(trim_end(raw) == raw);
    assert(trimmed(raw) == raw);
    let body = raw.drop_first();
    assert(body =~= p + seq!['-'] + d);
    let j = p.len() as int;
    assert(body[j] == '-');
    assert forall|i: int| j < i < body.len() implies is_digit(#[trigger] body[i]) by {
        assert(body[i] == d[i - j - 1]);
    }
    lemma_last_dash_digits(body, j, body.len() as int);
    assert(body.subrange(j + 1, body.len() as int) =~= d);
    assert(body.subrange(0, j) =~= p);
    assert(!(d[0] == '-' || d[0] == '+')) by {
        assert(is_digit(d[0]));
    }
    assert(parsed_i64(d) == Some(n));
}


/// No agent ever holds more long-polls than the cap: admitting and ending
/// them keeps every count at or below it.
pub proof fn law_wait_count_capped(m: Map<Seq<char>, u32>, h: Seq<char>)
    requires
        forall|k: Seq<char>| m.contains_key(k) ==> #[trigger] m[k] <= MAX_WAITS_PER_HANDLE,
    ensures
        forall|k: Seq<char>|
            begun(m, h).contains_key(k) ==> #[trigger] begun(m, h)[k] <= MAX_WAITS_PER_HANDLE,
        forall|k: Seq<char>|
            ended(m, h).contains_key(k) ==> #[trigger] ended(m, h)[k] <= MAX_WAITS_PER_HANDLE,
{
}


/// Index `x` placed before the first index of `s` it is `le` to.
pub open spec fn insert_le(x: int, s: Seq<int>, le: spec_fn(int, int) -> bool) -> Seq<int>
    decreases s.len(),
{
    if s.len() == 0 {
        seq![x]
    } else if le(x, s[0]) {
        seq![x] + s
    } else {
        seq![s[0]] + insert_le(x, s.drop_first(), le)
    }
}

/// The indices `0..n` inserted one by one with `insert_le`.
pub open spec fn order_le(n: nat, le: spec_fn(int, int) -> bool) -> Seq<int>
    decreases n,
{
    if n == 0 {
        seq![]
    } else {
        insert_le(n - 1, order_le((n - 1) as nat, le), le)
    }
}

/// Whether `le` orders the indices `0..n` totally and transitively.
pub open spec fn total_order_on(n: int, le: spec_fn(int, int) -> bool) -> bool {
    &&& forall|a: int, b: int| 0 <= a < n && 0 <= b < n ==> #[trigger] le(a, b) || le(b, a)
    &&& forall|a: int, b: int, c: int|
        0 <= a < n && 0 <= b < n && 0 <= c < n && #[trigger] le(a, b) && #[trigger] le(b, c) ==> le(a, c)
}

/// Whether `o` lists each of `0..n` once, in `le` order.
pub open spec fn sorted_permutation(o: Seq<int>, n: int, le: spec_fn(int, int) -> bool) -> bool {
    &&& o.len() == n
    &&& forall|t: int| 0 <= t < o.len() ==> 0 <= #[trigger] o[t] < n
    &&& forall|t: int, u: int| 0 <= t < u < o.len() ==> #[trigger] o[t] != #[trigger] o[u]
    &&& forall|t: int, u: int| 0 <= t < u < o.len() ==> le(#[trigger] o[t], #[trigger] o[u])
}

proof fn lemma_insert_le_is_insert(x: int, s: Seq<int>, le: spec_fn(int, int) -> bool) -> (j: int)
    ensures
        0 <= j <= s.len(),
        insert_le(x, s, le) == s.insert(j, x),
        forall|t: int| 0 <= t < j ==> !le(x, #[trigger] s[t]),
        j < s.len() ==> le(x, s[j]),
    decreases s.len(),
{
    if s.len() == 0 {
        assert(s.insert(0, x) =~= seq![x]);
        0
    } else if le(x, s[0]) {
        assert(s.insert(0, x) =~= seq![x] + s);
        0
    } else {
        let t = s.drop_first();
        let j = lemma_insert_le_is_insert(x, t, le);
        assert(s.insert(j + 1, x) =~= seq![s[0]] + t.insert(j, x));
        assert forall|u: int| 0 <= u < j + 1 implies !le(x, #[trigger] s[u]) by {
            if u > 0 {
                assert(s[u] == t[u - 1]);
            }
        }
        j + 1
    }
}

proof fn lemma_order_le_sorts(n: nat, le: spec_fn(int, int) -> bool, m: int)
    requires
        n <= m,
        total_order_on(m, le),
    ensures
        sorted_permutation(order_le(n, le), n as int, le),
    decreases n,
{
    if n > 0 {
        let s = order_le((n - 1) as nat, le);
        lemma_order_le_sorts((n - 1) as nat, le, m);
        let x = n - 1;
        let j = lemma_insert_le_is_insert(x, s, le);
        let o = s.insert(j, x);
        assert(o == order_le(n, le));
        assert forall|t: int| 0 <= t < o.len() implies 0 <= #[trigger] o[t] < n by {
            if t > j {
                assert(o[t] == s[t - 1]);
            } else if t < j {
                assert(o[t] == s[t]);
            }
        }
        assert forall|t: int, u: int| 0 <= t < u < o.len() implies #[trigger] o[t] != #[trigger] o[u] by {
            if t < j && u < j {
                assert(o[t] == s[t] && o[u] == s[u]);
            } else if t < j && u > j {
                assert(o[t] == s[t] && o[u] == s[u - 1]);
            } else if t > j {
                assert(o[t] == s[t - 1] && o[u] == s[u - 1]);
            } else if t == j {
                assert(o[u] == s[u - 1]);
            } else {
                assert(o[t] == s[t]);
            }
        }
        assert forall|t: int, u: int| 0 <= t < u < o.len() implies le(#[trigger] o[t], #[trigger] o[u]) by {
            if t < j && u < j {
                assert(o[t] == s[t] && o[u] == s[u]);
            } else if t < j && u == j {
                assert(o[t] == s[t]);
                assert(!le(x, s[t]));
                assert(le(x, s[t]) || le(s[t], x));
            } else if t < j && u > j {
                assert(o[t] == s[t] && o[u] == s[u - 1]);
            } else if t == j {
                assert(o[u] == s[u - 1]);
                assert(le(x, s[j]));
                if u - 1 > j {
                    assert(le(s[j], s[u - 1]));
                }
            } else {
                assert(o[t] == s[t - 1] && o[u] == s[u - 1]);
            }
        }
    }
}

proof fn lemma_insert_index_le(x: int, s: Seq<int>, key: Seq<Seq<char>>)
    ensures
        insert_index(x, s, key) == insert_le(x, s, |a: int, b: int| seq_le(key[a], key[b])),
    decreases s.len(),
{
    if s.len() > 0 {
        lemma_insert_index_le(x, s.drop_first(), key);
    }
}

proof fn lemma_order_by_key_le(n: nat, key: Seq<Seq<char>>)
    ensures
        order_by_key(n, key) == order_le(n, |a: int, b: int| seq_le(key[a], key[b])),
    decreases n,
{
    if n > 0 {
        lemma_order_by_key_le((n - 1) as nat, key);
        lemma_insert_index_le(n - 1, order_by_key((n - 1) as nat, key), key);
    }
}

/// The agent and channel lists list every entry once, ordered by name:
/// `order_by_key` gives each of `0..n` once, their keys ascending.
pub proof fn law_order_by_key_sorts(n: nat, key: Seq<Seq<char>>)
    requires
        n <= key.len(),
    ensures
        sorted_permutation(order_by_key(n, key), n as int, |a: int, b: int| seq_le(key[a], key[b])),
{
    let le = |a: int, b: int| seq_le(key[a], key[b]);
    assert forall|a: int, b: int| 0 <= a < n && 0 <= b < n implies #[trigger] le(a, b) || le(b, a) by {
        lemma_compare_antisym(key[a], key[b]);
    }
    assert forall|a: int, b: int, c: int|
        0 <= a < n && 0 <= b < n && 0 <= c < n && #[trigger] le(a, b) && #[trigger] le(b, c) implies le(
        a,
        c,
    ) by {
        lemma_compare_trans(key[a], key[b], key[c]);
    }
    lemma_order_le_sorts(n, le, n as int);
    lemma_order_by_key_le(n, key);
}

proof fn lemma_insert_by_activity_le(x: int, s: Seq<int>, key: Seq<(Option<i64>, Seq<char>)>)
    ensures
        insert_by_activity(x, s, key) == insert_le(x, s, |a: int, b: int| activity_le(key[a], key[b])),
    decreases s.len(),
{
    if s.len() > 0 {
        lemma_insert_by_activity_le(x, s.drop_first(), key);
    }
}

proof fn lemma_order_by_activity_le(n: nat, key: Seq<(Option<i64>, Seq<char>)>)
    ensures
        order_by_activity(n, key) == order_le(n, |a: int, b: int| activity_le(key[a], key[b])),
    decreases n,
{
    if n > 0 {
        lemma_order_by_activity_le((n - 1) as nat, key);
        lemma_insert_by_activity_le(n - 1, order_by_activity((n - 1) as nat, key), key);
    }
}

/// The conversation list lists every channel once, the most recently
/// active first, those without messages last, equal activity by name.
pub proof fn law_order_by_activity_sorts(n: nat, key: Seq<(Option<i64>, Seq<char>)>)
    requires
        n <= key.len(),
    ensures
        sorted_permutation(
            order_by_activity(n, key),
            n as int,
            |a: int, b: int| activity_le(key[a], key[b]),
        ),
{
    let le = |a: int, b: int| activity_le(key[a], key[b]);
    assert forall|a: int, b: int| 0 <= a < n && 0 <= b < n implies #[trigger] le(a, b) || le(b, a) by {
        lemma_compare_antisym(key[a].1, key[b].1);
    }
    assert forall|a: int, b: int, c: int|
        0 <= a < n && 0 <= b < n && 0 <= c < n && #[trigger] le(a, b) && #[trigger] le(b, c) implies le(
        a,
        c,
    ) by {
        if key[a].0 == key[b].0 && key[b].0 == key[c].0 {
            lemma_compare_trans(key[a].1, key[b].1, key[c].1);
        }
    }
    lemma_order_le_sorts(n, le, n as int);
    lemma_order_by_activity_le(n, key);
}


/// A direct channel is private to its two agents: once `from` opens one
/// with `to`, exactly they may read it.
pub proof fn law_dm_private(s: StoreV, from: Seq<char>, to: Seq<char>, now: i64, h: Seq<char>)
    requires
        channel_index(s, dm_name(from, to)) is None,
    ensures
        ({
            let t = dm_opened(s, from, to, now);
            let ci = s.channels.len() as int;
            &&& t.channels[ci].name == dm_name(from, to)
            &&& t.channels[ci].kind == ChannelKind::Dm
            &&& (can_see(t, h, ci + 1) <==> (h == from || h == to))
        }),
{
    let ci = s.channels.len() as int;
    assert(dm_index(s, from, to) == ci);
    let t = dm_opened(s, from, to, now);
    let m = t.channels[ci].members;
    if to == from {
        assert(m =~= seq![from]);
    } else if seq_le(to, from) {
        assert(m =~= seq![to, from]);
    } else {
        assert(seq![from].drop_first() =~= Seq::<Seq<char>>::empty());
        assert(crate::order::insert_name(to, Seq::<Seq<char>>::empty()) == seq![to]);
        assert(m =~= seq![from, to]);
    }
    if h == from || h == to {
        if h == from {
            assert(m.contains(h)) by {
                if to != from && seq_le(to, from) {
                    assert(m[1] == h);
                } else {
                    assert(m[0] == h);
                }
            }
        } else {
            assert(m.contains(h)) by {
                if to == from || seq_le(to, from) {
                    assert(m[0] == h);
                } else {
                    assert(m[1] == h);
                }
            }
        }
    }
}

/// Open questions and tasks are listed only where the asker may read:
/// every message in an agent's open list lies in a channel it may see, so
/// a direct channel's questions and tasks reach its two members alone.
pub proof fn law_open_lists_only_visible(
    s: StoreV,
    kind: crate::types::MessageKind,
    h: Seq<char>,
    mine: bool,
    owner: Option<Seq<char>>,
    channel: Option<Seq<char>>,
    k: int,
    t: int,
)
    requires
        0 <= t < crate::lifecycle::open_ids(s, kind, h, mine, owner, channel, false, k).len(),
    ensures
        ({
            let id = crate::lifecycle::open_ids(s, kind, h, mine, owner, channel, false, k)[t];
            1 <= id <= k && can_see(s, h, s.messages[id - 1].channel_id as int)
        }),
    decreases k,
{
    if k > 0 {
        let prev = crate::lifecycle::open_ids(s, kind, h, mine, owner, channel, false, k - 1);
        if t < prev.len() {
            law_open_lists_only_visible(s, kind, h, mine, owner, channel, k - 1, t);
        }
    }
}


/// The messages of channel `cid` among the first `k` whose id is past
/// cursor `cur`, by index.
pub open spec fn past_cursor(s: StoreV, cid: int, cur: int, k: int) -> Set<int> {
    Set::new(|i: int| 0 <= i < k && s.messages[i].channel_id == cid && i + 1 > cur)
}

proof fn lemma_newer_count_is_past_cursor(s: StoreV, cid: int, cur: int, k: int)
    requires
        0 <= k,
    ensures
        past_cursor(s, cid, cur, k).finite(),
        crate::agents::newer_count(s, cid, cur, k) == past_cursor(s, cid, cur, k).len(),
    decreases k,
{
    if k == 0 {
        assert(past_cursor(s, cid, cur, 0) =~= Set::<int>::empty());
    } else {
        lemma_newer_count_is_past_cursor(s, cid, cur, k - 1);
        let prev = past_cursor(s, cid, cur, k - 1);
        if s.messages[k - 1].channel_id == cid && k > cur {
            assert(past_cursor(s, cid, cur, k) =~= prev.insert(k - 1));
            assert(!prev.contains(k - 1));
        } else {
            assert(past_cursor(s, cid, cur, k) =~= prev);
        }
    }
}

/// A channel's unread count counts exactly its messages with an id past
/// the reader's cursor, up to 50: none once the reader has acknowledged
/// past its newest message.
pub proof fn law_unread_counts_only_past_cursor(s: StoreV, cid: int, cur: int)
    ensures
        ({
            let n = past_cursor(s, cid, cur, s.messages.len() as int).len() as int;
            crate::agents::capped_unread(s, cid, cur) == if n < 50 {
                n
            } else {
                50
            }
        }),
        (forall|i: int|
            0 <= i < s.messages.len() && #[trigger] s.messages[i].channel_id == cid ==> i + 1 <= cur)
            ==> crate::agents::capped_unread(s, cid, cur) == 0,
        (exists|i: int|
            0 <= i < s.messages.len() && #[trigger] s.messages[i].channel_id == cid && i + 1 > cur)
            ==> crate::agents::capped_unread(s, cid, cur) > 0,
{
    let n = s.messages.len() as int;
    lemma_newer_count_is_past_cursor(s, cid, cur, n);
    if forall|i: int|
        0 <= i < s.messages.len() && #[trigger] s.messages[i].channel_id == cid ==> i + 1 <= cur {
        assert(past_cursor(s, cid, cur, n) =~= Set::<int>::empty());
    }
    if exists|i: int|
        0 <= i < s.messages.len() && #[trigger] s.messages[i].channel_id == cid && i + 1 > cur {
        let i = choose|i: int|
            0 <= i < s.messages.len() && #[trigger] s.messages[i].channel_id == cid && i + 1 > cur;
        assert(past_cursor(s, cid, cur, n).contains(i));
    }
}

/// The author of an open question or task, in a channel it may read, may
/// always resolve it: the answer is the resolution by that author now, and
/// the message records it.
pub proof fn law_author_may_resolve(
    s: StoreV,
    t: StoreV,
    r: Result<crate::dto::ResolveResult, crate::error::Error>,
    by: Seq<char>,
    id: i64,
    now: i64,
)
    requires
        crate::lifecycle::resolve_outcome(s, t, r, by, id, now),
        1 <= id <= s.messages.len(),
        s.messages[id - 1].kind == crate::types::MessageKind::Question || s.messages[id - 1].kind
            == crate::types::MessageKind::Task,
        s.messages[id - 1].author == by,
        s.messages[id - 1].resolved_at is None,
        s.channel_of(s.messages[id - 1].channel_id as int).kind == ChannelKind::Channel
            || s.channel_of(s.messages[id - 1].channel_id as int).members.contains(by),
    ensures
        r matches Ok(rr) && rr.id == id && rr.resolved_at == now && rr.resolved_by@ == by,
        t.messages.len() == s.messages.len(),
        t.messages[id - 1].resolved_at == Some(now),
        t.messages[id - 1].resolved_by == Some(by),
{
}

/// A channel's latest activity is the newest creation time among its
/// messages: no earlier than any of them and equal to one; `None` exactly
/// when it has none.
pub proof fn law_last_activity_is_newest(s: StoreV, cid: int, k: int)
    requires
        0 <= k <= s.messages.len(),
    ensures
        crate::history::latest_in(s, cid, k) is None <==> (forall|i: int|
            0 <= i < k ==> #[trigger] s.messages[i].channel_id != cid),
        crate::history::latest_in(s, cid, k) matches Some(t) ==> (forall|i: int|
            0 <= i < k && #[trigger] s.messages[i].channel_id == cid ==> s.messages[i].created_at <= t)
            && (exists|i: int|
            0 <= i < k && #[trigger] s.messages[i].channel_id == cid && s.messages[i].created_at == t),
    decreases k,
{
    if k > 0 {
        law_last_activity_is_newest(s, cid, k - 1);
        let m = s.messages[k - 1];
        if m.channel_id == cid {
            assert(s.messages[k - 1].channel_id == cid);
        }
        match crate::history::latest_in(s, cid, k - 1) {
            Some(t0) => {
                let j = choose|i: int|
                    0 <= i < k - 1 && #[trigger] s.messages[i].channel_id == cid
                        && s.messages[i].created_at == t0;
                assert(s.messages[j].channel_id == cid);
            },
            None => {},
        }
    }
}

/// A question's or task's summary, and its full form, say it is open
/// exactly when it has no resolution; other messages carry no open flag.
/// Once resolved, a message reads as not open.
pub proof fn law_open_flag_follows_resolution(s: StoreV, id: int, by: Seq<char>, now: i64)
    requires
        1 <= id <= s.messages.len(),
    ensures
        ({
            let m = s.messages[id - 1];
            let lifecycle = m.kind == crate::types::MessageKind::Question || m.kind
                == crate::types::MessageKind::Task;
            &&& crate::reads::summary_of(s, id).open == if lifecycle {
                Some(m.resolved_at is None)
            } else {
                None::<bool>
            }
            &&& crate::reads::full_of(s, id).summary.open == crate::reads::summary_of(s, id).open
            &&& lifecycle ==> crate::reads::summary_of(crate::lifecycle::resolved(s, id, by, now), id).open
                == Some(false)
        }),
{
}

/// In well-formed tables a channel's name leads back to it.
proof fn lemma_channel_index_of(s: StoreV, c: int)
    requires
        s.wf(),
        0 <= c < s.channels.len(),
    ensures
        channel_index(s, s.channels[c].name) == Some(c),
{
    let name = s.channels[c].name;
    assert(s.channels[c].name == name);
    let j = choose|i: int| 0 <= i < s.channels.len() && #[trigger] s.channels[i].name == name;
    if j != c {
        if j < c {
            assert(s.channels[j].name != s.channels[c].name);
        } else {
            assert(s.channels[c].name != s.channels[j].name);
        }
    }
}

/// The channel list says a channel is subscribed exactly when the agent
/// holds an active subscription row for it, and reports unread messages
/// only then.  After leaving a channel it is listed as not subscribed,
/// with nothing unread.
pub proof fn law_listed_subscription_is_active(s: StoreV, h: Seq<char>, c: int)
    requires
        s.wf(),
        0 <= c < s.channels.len(),
    ensures
        crate::history::listed_info(s, h, c).3 <==> exists|i: int|
            0 <= i < s.subs.len() && #[trigger] s.subs[i].handle == h && s.subs[i].channel_id == c + 1
                && s.subs[i].active,
        !crate::history::listed_info(s, h, c).3 ==> crate::history::listed_info(s, h, c).4 == 0,
        ({
            let t = crate::channels::left(s, h, s.channels[c].name);
            &&& !crate::history::listed_info(t, h, c).3
            &&& crate::history::listed_info(t, h, c).4 == 0
        }),
{
    if exists|i: int|
        0 <= i < s.subs.len() && #[trigger] s.subs[i].handle == h && s.subs[i].channel_id == c + 1
            && s.subs[i].active {
        let i = choose|i: int|
            0 <= i < s.subs.len() && #[trigger] s.subs[i].handle == h && s.subs[i].channel_id == c + 1
                && s.subs[i].active;
        lemma_sub_index_unique(s, h, c + 1, i);
    }
    lemma_channel_index_of(s, c);
    let t = crate::channels::left(s, h, s.channels[c].name);
    match sub_index(s, h, c + 1) {
        Some(i) => {
            let row = SubV { active: false, ..s.subs[i] };
            lemma_wf_sub_update(s, i, row);
            assert(t == StoreV { subs: s.subs.update(i, row), ..s });
            lemma_sub_index_unique(t, h, c + 1, i);
        },
        None => {},
    }
}

/// At most fifty of `n`.
pub open spec fn up_to_fifty(n: int) -> int {
    if n < 50 {
        n
    } else {
        50
    }
}

/// The messages past the cursor of subscription row `i`, by index.
pub open spec fn row_past(s: StoreV, i: int) -> Set<int> {
    past_cursor(s, s.subs[i].channel_id as int, s.subs[i].last_acked_id as int, s.messages.len() as int)
}

/// The unread list of `h` holds one entry for each of its active
/// subscriptions with messages past the cursor, and no other: the
/// channel's name and the number of those messages, up to 50.
pub proof fn law_unread_list_is_past_cursor(s: StoreV, h: Seq<char>, k: int)
    requires
        0 <= k <= s.subs.len(),
    ensures
        ({
            let l = crate::agents::unread_list(s, h, k);
            &&& forall|e: int|
                0 <= e < l.len() ==> exists|i: int|
                    0 <= i < k && #[trigger] s.subs[i].handle == h && s.subs[i].active
                        && (#[trigger] l[e]).0 == s.channels[s.subs[i].channel_id - 1].name
                        && l[e].1 == up_to_fifty(row_past(s, i).len() as int) && l[e].1 > 0
            &&& forall|i: int|
                0 <= i < k && #[trigger] s.subs[i].handle == h && s.subs[i].active
                    && row_past(s, i).len() > 0 ==> exists|e: int|
                    0 <= e < l.len() && (#[trigger] l[e]).0 == s.channels[s.subs[i].channel_id - 1].name
                        && l[e].1 == up_to_fifty(row_past(s, i).len() as int)
        }),
    decreases k,
{
    if k > 0 {
        law_unread_list_is_past_cursor(s, h, k - 1);
        let prev = crate::agents::unread_list(s, h, k - 1);
        let l = crate::agents::unread_list(s, h, k);
        let i = k - 1;
        law_unread_counts_only_past_cursor(s, s.subs[i].channel_id as int, s.subs[i].last_acked_id as int);
        let n = row_past(s, i).len() as int;
        if s.subs[i].handle == h && s.subs[i].active && crate::agents::row_unread(s, i) > 0 {
            assert(l == prev.push(l[prev.len() as int]));
            assert forall|e: int| 0 <= e < l.len() implies exists|j: int|
                0 <= j < k && #[trigger] s.subs[j].handle == h && s.subs[j].active
                    && (#[trigger] l[e]).0 == s.channels[s.subs[j].channel_id - 1].name
                    && l[e].1 == up_to_fifty(row_past(s, j).len() as int) && l[e].1 > 0 by {
                if e < prev.len() {
                    assert(l[e] == prev[e]);
                } else {
                    assert(s.subs[i].handle == h);
                }
            }
            assert forall|j: int|
                0 <= j < k && #[trigger] s.subs[j].handle == h && s.subs[j].active
                    && row_past(s, j).len() > 0 implies exists|e: int|
                0 <= e < l.len() && (#[trigger] l[e]).0 == s.channels[s.subs[j].channel_id - 1].name
                    && l[e].1 == up_to_fifty(row_past(s, j).len() as int) by {
                if j < i {
                    let e = choose|e: int|
                        0 <= e < prev.len() && (#[trigger] prev[e]).0 == s.channels[s.subs[j].channel_id - 1].name
                            && prev[e].1 == up_to_fifty(row_past(s, j).len() as int);
                    assert(l[e] == prev[e]);
                } else {
                    assert(l[prev.len() as int] == l[prev.len() as int]);
                }
            }
        } else {
            assert(l == prev);
            assert forall|j: int|
                0 <= j < k && #[trigger] s.subs[j].handle == h && s.subs[j].active
                    && row_past(s, j).len() > 0 implies exists|e: int|
                0 <= e < l.len() && (#[trigger] l[e]).0 == s.channels[s.subs[j].channel_id - 1].name
                    && l[e].1 == up_to_fifty(row_past(s, j).len() as int) by {
                if j < i {
                } else {
                    assert(row_past(s, i).len() > 0);
                }
            }
        }
    }
}

/// A subscribed channel's entry in the channel list counts the messages
/// past the agent's cursor there, up to 50.
pub proof fn law_listed_unread_is_past_cursor(s: StoreV, h: Seq<char>, c: int, i: int)
    requires
        s.wf(),
        0 <= c < s.channels.len(),
        0 <= i < s.subs.len(),
        s.subs[i].handle == h,
        s.subs[i].channel_id == c + 1,
        s.subs[i].active,
    ensures
        crate::history::listed_info(s, h, c).3,
        crate::history::listed_info(s, h, c).4 == up_to_fifty(
            past_cursor(s, c + 1, s.subs[i].last_acked_id as int, s.messages.len() as int).len() as int,
        ),
{
    lemma_sub_index_unique(s, h, c + 1, i);
    law_unread_counts_only_past_cursor(s, c + 1, s.subs[i].last_acked_id as int);
}

/// The messages of channel `cid` among the first `k`, by index.
pub open spec fn in_channel(s: StoreV, cid: int, k: int) -> Set<int> {
    Set::new(|i: int| 0 <= i < k && s.messages[i].channel_id == cid)
}

/// A channel's message count is the number of its messages.
pub proof fn law_message_count_is_channel_size(s: StoreV, cid: int, k: int)
    requires
        0 <= k,
    ensures
        in_channel(s, cid, k).finite(),
        crate::history::count_in(s, cid, k) == in_channel(s, cid, k).len(),
    decreases k,
{
    if k == 0 {
        assert(in_channel(s, cid, 0) =~= Set::<int>::empty());
    } else {
        law_message_count_is_channel_size(s, cid, k - 1);
        let prev = in_channel(s, cid, k - 1);
        if s.messages[k - 1].channel_id == cid {
            assert(in_channel(s, cid, k) =~= prev.insert(k - 1));
            assert(!prev.contains(k - 1));
        } else {
            assert(in_channel(s, cid, k) =~= prev);
        }
    }
}

/// Whether `by` is registered as an operator.
pub open spec fn operator_registered(s: StoreV, by: Seq<char>) -> bool {
    exists|j: int| 0 <= j < s.agents.len() && #[trigger] s.agents[j].handle == by
        && s.agents[j].kind == AgentKind::Operator
}

/// Resolving answers every request: a missing id or a message that is no
/// question or task is a bad target; a direct channel refuses non-members;
/// a resolved message gives back its first resolution; an open one is
/// resolved now when its author, an assignee or an operator asks, and
/// refused otherwise.  A refusal changes nothing, and a resolution
/// touches that one message alone.
pub proof fn law_resolve_answers(
    s: StoreV,
    t: StoreV,
    r: Result<crate::dto::ResolveResult, crate::error::Error>,
    by: Seq<char>,
    id: i64,
    now: i64,
)
    requires
        s.wf(),
        crate::lifecycle::resolve_outcome(s, t, r, by, id, now),
    ensures
        !(1 <= id <= s.messages.len()) ==> (r matches Err(crate::error::Error::BadResolveTarget(x)) && x == id),
        1 <= id <= s.messages.len() ==> ({
            let m = s.messages[id - 1];
            let c = s.channels[m.channel_id - 1];
            let lifecycle = m.kind == crate::types::MessageKind::Question || m.kind
                == crate::types::MessageKind::Task;
            let visible = c.kind == ChannelKind::Channel || c.members.contains(by);
            let may = by == m.author || m.mentions.contains(by) || operator_registered(s, by);
            &&& !lifecycle ==> (r matches Err(crate::error::Error::BadResolveTarget(x)) && x == id)
            &&& lifecycle && !visible ==> (r matches Err(crate::error::Error::NotAuthorizedToResolve(x))
                && x == id)
            &&& lifecycle && visible && m.resolved_at is Some ==> (r matches Ok(rr) && rr.id == id
                && Some(rr.resolved_at) == m.resolved_at && Some(rr.resolved_by@) == m.resolved_by
                && t == s)
            &&& lifecycle && visible && m.resolved_at is None && !may ==> (r matches Err(
                crate::error::Error::NotAuthorizedToResolve(x),
            ) && x == id)
            &&& lifecycle && visible && m.resolved_at is None && may ==> (r matches Ok(rr) && rr.id == id
                && rr.resolved_at == now && rr.resolved_by@ == by && t.messages[id - 1].resolved_at
                == Some(now) && t.messages[id - 1].resolved_by == Some(by))
        }),
        r is Err ==> t == s,
        t.agents == s.agents,
        t.channels == s.channels,
        t.subs == s.subs,
        t.messages.len() == s.messages.len(),
        forall|j: int| 0 <= j < s.messages.len() && j != id - 1 ==> #[trigger] t.messages[j] == s.messages[j],
        forall|j: int|
            0 <= j < s.messages.len() ==> (#[trigger] t.messages[j]).body == s.messages[j].body
                && t.messages[j].author == s.messages[j].author && t.messages[j].kind == s.messages[j].kind,
{
    if operator_registered(s, by) {
        let j = choose|j: int| 0 <= j < s.agents.len() && #[trigger] s.agents[j].handle == by
            && s.agents[j].kind == AgentKind::Operator;
        let a = crate::store::agent_index(s, by)->0;
        assert(s.agents[a].handle == by);
        if a != j {
            if a < j {
                assert(s.agents[a].handle != s.agents[j].handle);
            } else {
                assert(s.agents[j].handle != s.agents[a].handle);
            }
        }
    }
    if crate::lifecycle::is_operator(s, by) {
        let a = crate::store::agent_index(s, by)->0;
        assert(s.agents[a].handle == by);
    }
}

/// A summary shows the message as stored: its id, channel, author, reply
/// target, mentions, summary line and time; the full form adds its body.
pub proof fn law_summary_shows_message(s: StoreV, id: int)
    requires
        s.wf(),
        1 <= id <= s.messages.len(),
    ensures
        ({
            let m = s.messages[id - 1];
            let v = crate::reads::summary_of(s, id);
            &&& v.id == id
            &&& v.ch == s.channels[m.channel_id - 1].name
            &&& v.from == m.author
            &&& v.re == m.reply_to
            &&& v.to == m.mentions
            &&& v.sum == m.summary
            &&& v.ts == m.created_at
            &&& crate::reads::full_of(s, id).body == m.body
        }),
{
}
} // verus!
