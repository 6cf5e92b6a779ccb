//! Issues: task messages with a per-channel number, named `#prefix-N`.
use crate::dto::FiledIssue;
use crate::error::Error;
use crate::hub::Hub;
use crate::lifecycle::opt_str;
use crate::messages::{first_unknown, kept_mentions, message_inserted, new_message, MAX_BODY};
use crate::store::{
    channel_index, issues_wf, lemma_wf_channel_update, names_view, sorted_names, ChannelV, IssueRow,
    IssueV, Store, StoreV,
};
use crate::text::{ascii_lower, ascii_lowercase, owned, str_eq};
use crate::types::{
    issue_ref, issue_ref_parts, issue_ref_text, normalized_handle, parse_issue_ref, valid_handle,
    Handle, IssueStatus, MessageKind,
};
use vstd::prelude::*;

verus! {

/// The longest issue title, in bytes.
pub const MAX_TITLE: usize = 1024;

/// The first issue row, from `k` on, numbered `n` in the channel whose
/// issue prefix is `p`.
pub open spec fn issue_with_ref(s: StoreV, p: Seq<char>, n: i64, k: int) -> Option<int>
    decreases s.issues.len() - k,
{
    if k < 0 || k >= s.issues.len() {
        None
    } else if s.channel_of(s.issues[k].channel_id as int).issue_prefix == Some(p)
        && s.issues[k].number == n {
        Some(k)
    } else {
        issue_with_ref(s, p, n, k + 1)
    }
}

/// The first channel, from index `k` on, whose issue prefix is `p`.
pub open spec fn prefix_owner(s: StoreV, p: Seq<char>, k: int) -> Option<int>
    decreases s.channels.len() - k,
{
    if k < 0 || k >= s.channels.len() {
        None
    } else if s.channels[k].issue_prefix == Some(p) {
        Some(k)
    } else {
        prefix_owner(s, p, k + 1)
    }
}

/// The highest issue number of channel `cid` among the first `k` issue
/// rows, or 0.
pub open spec fn max_number(s: StoreV, cid: int, k: int) -> int
    decreases k,
{
    if k <= 0 {
        0
    } else {
        let prev = max_number(s, cid, k - 1);
        if s.issues[k - 1].channel_id == cid && s.issues[k - 1].number > prev {
            s.issues[k - 1].number as int
        } else {
            prev
        }
    }
}

/// The issue row the reference `raw` names, if it is well formed and there
/// is one.
pub open spec fn ref_target(s: StoreV, raw: Seq<char>) -> Option<int> {
    match issue_ref_parts(raw) {
        None => None,
        Some(pn) => issue_with_ref(s, pn.0, pn.1, 0),
    }
}

/// What resolving the reference `raw` gives: the issue's message id,
/// channel id, number and the prefix, or why there is none.
pub open spec fn resolved_ref(s: StoreV, raw: Seq<char>, r: Result<(i64, i64, i64, String), Error>) -> bool {
    match issue_ref_parts(raw) {
        None => r matches Err(Error::BadIssueRef(x)) && x@ == raw,
        Some(pn) => match issue_with_ref(s, pn.0, pn.1, 0) {
            None => r matches Err(Error::UnknownIssue(x)) && x@ == raw,
            Some(k) => r matches Ok(v) && v.0 == s.issues[k].message_id && v.1
                == s.issues[k].channel_id && v.2 == pn.1 && v.3@ == pn.0,
        },
    }
}

/// The prefix issues of channel `ci` (an index) are filed under: the one it
/// has, else the one asked for in lower case, else the channel's name.
pub open spec fn effective_prefix(s: StoreV, ci: int, prefix: Option<Seq<char>>) -> Seq<char> {
    match s.channels[ci].issue_prefix {
        Some(p) => p,
        None => match prefix {
            Some(q) => ascii_lower(q),
            None => s.channels[ci].name,
        },
    }
}

/// The prefix issues are filed under is in lower case.
pub proof fn lemma_effective_prefix_lower(s: StoreV, ci: int, prefix: Option<Seq<char>>)
    requires
        s.wf(),
        0 <= ci < s.channels.len(),
    ensures
        ascii_lower(effective_prefix(s, ci, prefix)) == effective_prefix(s, ci, prefix),
{
    assert(crate::store::channel_lower(s.channels[ci]));
    if let Some(q) = prefix {
        crate::text::lemma_lower_idem(q);
    }
}

/// The assignee as the list of mentions of the issue's task message.
pub open spec fn assignee_mentions(assignee: Option<Seq<char>>) -> Seq<Seq<char>> {
    match assignee {
        Some(a) => seq![normalized_handle(a)],
        None => seq![],
    }
}

/// The tables after filing: the channel's prefix recorded if it had none,
/// the task message posted, and the issue row added, open.
pub open spec fn issue_filed(
    s: StoreV,
    ci: int,
    p: Seq<char>,
    by: Seq<char>,
    title: Seq<char>,
    body: Option<Seq<char>>,
    ms: Seq<Seq<char>>,
    parent_id: Option<i64>,
    now: i64,
) -> StoreV {
    let cid = ci + 1;
    let s1 = if s.channels[ci].issue_prefix is None {
        StoreV {
            channels: s.channels.update(ci, ChannelV { issue_prefix: Some(p), ..s.channels[ci] }),
            ..s
        }
    } else {
        s
    };
    let kept = kept_mentions(s, ms, cid, ms.len() as int);
    let m = new_message(cid, by, MessageKind::Task, title, body, None, now, kept);
    let s2 = message_inserted(s1, m, kept);
    StoreV {
        issues: s2.issues.push(
            IssueV {
                message_id: (s.messages.len() + 1) as i64,
                channel_id: cid as i64,
                number: (max_number(s, cid, s.issues.len() as int) + 1) as i64,
                parent_id,
                status: IssueStatus::Open,
            },
        ),
        ..s2
    }
}

/// What filing an issue does to tables `s`, leaving `t`, with result `r`:
/// each refusal leaves the tables as they were.
pub open spec fn file_issue_outcome(
    s: StoreV,
    t: StoreV,
    r: Result<FiledIssue, Error>,
    by: Seq<char>,
    channel: Seq<char>,
    title: Seq<char>,
    title_bytes: nat,
    body: Option<Seq<char>>,
    body_bytes: nat,
    assignee: Option<Seq<char>>,
    parent: Option<Seq<char>>,
    prefix: Option<Seq<char>>,
    now: i64,
) -> bool {
    if title_bytes == 0 || title_bytes > MAX_TITLE {
        r matches Err(Error::TooLarge(x)) && x@ == "title"@ && t == s
    } else if body_bytes > MAX_BODY {
        r matches Err(Error::TooLarge(x)) && x@ == "body"@ && t == s
    } else if assignee matches Some(a) && !valid_handle(normalized_handle(a)) {
        r matches Err(Error::BadName(x)) && Some(x@) == assignee && t == s
    } else if parent matches Some(p) && issue_ref_parts(p) is None {
        r matches Err(Error::BadIssueRef(x)) && Some(x@) == parent && t == s
    } else if parent matches Some(p) && ref_target(s, p) is None {
        r matches Err(Error::UnknownIssue(x)) && Some(x@) == parent && t == s
    } else if channel_index(s, channel) is None {
        r matches Err(Error::UnknownChannel(x)) && x@ == channel && t == s
    } else {
        let ci = channel_index(s, channel)->0;
        let p = effective_prefix(s, ci, prefix);
        let ms = assignee_mentions(assignee);
        if s.channels[ci].issue_prefix is None && prefix_owner(s, p, 0) is Some {
            r matches Err(Error::DuplicatePrefix(x)) && x@ == p && t == s
        } else if first_unknown(s, ms, 0) is Some {
            r matches Err(Error::UnknownHandle(x)) && x@ == ms[0] && t == s
        } else {
            let parent_id = match parent {
                Some(q) => Some(s.issues[ref_target(s, q)->0].message_id),
                None => None,
            };
            let number = max_number(s, ci + 1, s.issues.len() as int) + 1;
            &&& r matches Ok(fi) && fi.reference@ == issue_ref_text(p, number) && fi.id == s.messages.len()
                + 1 && fi.number == number
            &&& t == issue_filed(s, ci, p, by, title, body, ms, parent_id, now)
        }
    }
}

pub proof fn lemma_max_number_bound(s: StoreV, cid: int, k: int)
    requires
        s.wf(),
        0 <= k <= s.issues.len(),
    ensures
        0 <= max_number(s, cid, k) <= k,
    decreases k,
{
    if k > 0 {
        lemma_max_number_bound(s, cid, k - 1);
        assert(1 <= s.issues[k - 1].channel_id <= s.channels.len());
    }
}


impl Store {
    /// Whether some channel already has issue prefix `p`.
    pub fn prefix_taken(&self, p: &str) -> (r: bool)
        requires
            self@.wf(),
        ensures
            r == prefix_owner(self@, p@, 0) is Some,
    {
        let ghost s = self@;
        let mut k: usize = 0;
        while k < self.channels.len()
            invariant
                s == self@,
                k <= s.channels.len(),
                prefix_owner(s, p@, 0) == prefix_owner(s, p@, k as int),
            decreases self.channels.len() - k,
        {
            let ch = &self.channels[k];
            assert(s.channels[k as int] == ch@);
            let hit = match &ch.issue_prefix {
                Some(x) => str_eq(x.as_str(), p),
                None => false,
            };
            if hit {
                return true;
            }
            k = k + 1;
        }
        false
    }

    /// The highest issue number of channel `cid`, or 0.
    pub fn max_issue_number(&self, cid: i64) -> (r: i64)
        requires
            self@.wf(),
        ensures
            r == max_number(self@, cid as int, self@.issues.len() as int),
            0 <= r <= self@.issues.len(),
    {
        let ghost s = self@;
        let mut best: i64 = 0;
        let mut k: usize = 0;
        while k < self.issues.len()
            invariant
                s == self@,
                s.wf(),
                k <= s.issues.len(),
                best == max_number(s, cid as int, k as int),
            decreases self.issues.len() - k,
        {
            proof {
                lemma_max_number_bound(s, cid as int, k as int);
            }
            let row = &self.issues[k];
            assert(s.issues[k as int] == row@);
            if row.channel_id == cid && row.number > best {
                best = row.number;
            }
            k = k + 1;
        }
        proof {
            lemma_max_number_bound(s, cid as int, k as int);
        }
        best
    }
}

impl Hub {
    /// The issue `raw` names (`#prefix-N`, the `#` optional): its message
    /// id, channel id, number and prefix.
    pub fn resolve_issue_ref(&self, raw: &str) -> (r: Result<(i64, i64, i64, String), Error>)
        requires
            self.store@.wf(),
        ensures
            resolved_ref(self.store@, raw@, r),
    {
        let ghost s = self.store@;
        let (prefix, number) = match parse_issue_ref(raw) {
            Ok(v) => v,
            Err(e) => {
                return Err(e);
            },
        };
        let mut k: usize = 0;
        while k < self.store.issues.len()
            invariant
                s == self.store@,
                s.wf(),
                k <= s.issues.len(),
                issue_ref_parts(raw@) == Some((prefix@, number)),
                issue_with_ref(s, prefix@, number, 0) == issue_with_ref(s, prefix@, number, k as int),
            decreases self.store.issues.len() - k,
        {
            let row = &self.store.issues[k];
            assert(s.issues[k as int] == row@);
            let nc = self.store.channels.len();
            assert(1 <= row.channel_id <= nc);
            let ch = &self.store.channels[(row.channel_id - 1) as usize];
            assert(s.channel_of(row.channel_id as int) == ch@);
            let hit = row.number == number && match &ch.issue_prefix {
                Some(p) => str_eq(p.as_str(), prefix.as_str()),
                None => false,
            };
            if hit {
                assert(s.channel_of(s.issues[k as int].channel_id as int).issue_prefix == Some(prefix@));
                assert(issue_with_ref(s, prefix@, number, k as int) == Some(k as int));
                return Ok((row.message_id, row.channel_id, row.number, prefix));
            }
            k = k + 1;
        }
        Err(Error::UnknownIssue(owned(raw)))
    }

    /// Files an issue in channel `channel`: a task message by `by` with
    /// `title` as its summary, mentioning `assignee` when given, numbered one
    /// past the channel's highest issue and open.  A channel without an issue
    /// prefix takes `prefix` (lower-cased) or its own name, which no other
    /// channel may hold; `parent` names the parent issue.
    pub fn file_issue(
        &mut self,
        by: &Handle,
        channel: &str,
        title: &str,
        body: Option<&str>,
        assignee: Option<&str>,
        parent: Option<&str>,
        prefix: Option<&str>,
        now: i64,
    ) -> (r: Result<FiledIssue, Error>)
        requires
            old(self).store@.wf(),
            old(self).store@.messages.len() + 1 < i64::MAX,
            old(self).store@.issues.len() + 1 < i64::MAX,
        ensures
            final(self).store@.wf(),
            final(self).presence == old(self).presence,
            final(self).waits == old(self).waits,
            file_issue_outcome(
                old(self).store@,
                final(self).store@,
                r,
                by@,
                channel@,
                title@,
                title.len() as nat,
                opt_str(body),
                match body {
                    Some(b) => b.len() as nat,
                    None => 0,
                },
                opt_str(assignee),
                opt_str(parent),
                opt_str(prefix),
                now,
            ),
    {
        let ghost s = self.store@;
        if title.len() == 0 || title.len() > MAX_TITLE {
            return Err(Error::TooLarge(owned("title")));
        }
        if let Some(b) = body {
            if b.len() > MAX_BODY {
                return Err(Error::TooLarge(owned("body")));
            }
        }
        let assignee_h: Option<String> = match assignee {
            Some(a) => match Handle::parse(a) {
                Ok(h) => Some(h.into_string()),
                Err(e) => {
                    return Err(e);
                },
            },
            None => None,
        };
        let parent_id: Option<i64> = match parent {
            Some(q) => match self.resolve_issue_ref(q) {
                Ok(v) => Some(v.0),
                Err(e) => {
                    return Err(e);
                },
            },
            None => None,
        };
        let ci = match self.store.find_channel(channel) {
            Some(ci) => ci,
            None => {
                return Err(Error::UnknownChannel(owned(channel)));
            },
        };
        let cid = ci as i64 + 1;
        let had_prefix = self.store.channels[ci].issue_prefix.is_some();
        let p: String = match &self.store.channels[ci].issue_prefix {
            Some(x) => owned(x.as_str()),
            None => match prefix {
                Some(q) => ascii_lowercase(q),
                None => owned(channel),
            },
        };
        assert(s.channels[ci as int] == self.store.channels@[ci as int]@);
        assert(p@ == effective_prefix(s, ci as int, opt_str(prefix)));
        if !had_prefix && self.store.prefix_taken(p.as_str()) {
            return Err(Error::DuplicatePrefix(p));
        }
        let mut ms: Vec<String> = Vec::new();
        if let Some(a) = assignee_h {
            ms.push(a);
        }
        let ghost msv = assignee_mentions(opt_str(assignee));
        assert(names_view(ms@) =~= msv);
        let kept = match self.store.keep_mentions(&ms, ci) {
            Ok(v) => v,
            Err(e) => {
                return Err(e);
            },
        };
        let number = self.store.max_issue_number(cid) + 1;
        if !had_prefix {
            let ghost c = ChannelV { issue_prefix: Some(p@), ..s.channels[ci as int] };
            proof {
                assert(sorted_names(s.channels[ci as int].members));
                lemma_effective_prefix_lower(s, ci as int, opt_str(prefix));
                lemma_wf_channel_update(s, ci as int, c);
            }
            self.store.channels[ci].issue_prefix = Some(owned(p.as_str()));
            assert(self.store@.channels =~= s.channels.update(ci as int, c));
            assert(self.store@ =~= StoreV { channels: s.channels.update(ci as int, c), ..s });
        }
        let ghost s1 = self.store@;
        let id = self.store.insert_message(cid, by.as_str(), MessageKind::Task, title, body, None, now, &kept);
        let ghost s2 = self.store@;
        let row = IssueRow {
            message_id: id,
            channel_id: cid,
            number,
            parent_id,
            status: IssueStatus::Open,
        };
        self.store.issues.push(row);
        proof {
            assert(self.store@.issues =~= s2.issues.push(row@));
            assert(self.store@ =~= StoreV { issues: s2.issues.push(row@), ..s2 });
            assert(issues_wf(self.store@.issues, self.store@.channels.len(), self.store@.messages.len())) by {
                assert forall|i: int| 0 <= i < self.store@.issues.len() implies {
                    &&& 1 <= #[trigger] self.store@.issues[i].channel_id <= self.store@.channels.len()
                    &&& 1 <= self.store@.issues[i].message_id <= self.store@.messages.len()
                    &&& 1 <= self.store@.issues[i].number <= i + 1
                } by {
                    if i < s2.issues.len() {
                        assert(self.store@.issues[i] == s2.issues[i]);
                        assert(s2.issues[i] == s.issues[i]);
                    }
                }
            }
        }
        let reference = issue_ref(p.as_str(), number);
        Ok(FiledIssue { reference, id, number })
    }
}

} // verus!
