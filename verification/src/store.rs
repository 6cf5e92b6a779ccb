//! The hub's tables and their mathematical model.
//!
//! A channel's id is its position in `channels` plus one, a message's id its
//! position in `messages` plus one; ids are handed out in increasing order and
//! never reused.
use crate::text::{ascii_lower, owned, seq_le, str_eq};
use crate::types::{valid_handle, AgentKind, ChannelKind, IssueStatus, MessageKind};
use vstd::prelude::*;

verus! {

pub open spec fn opt_view(o: Option<String>) -> Option<Seq<char>> {
    match o {
        Some(s) => Some(s@),
        None => None,
    }
}

pub open spec fn names_view(v: Seq<String>) -> Seq<Seq<char>> {
    v.map_values(|s: String| s@)
}

/// A registered agent.
pub struct AgentRow {
    pub handle: String,
    pub kind: AgentKind,
    pub token_hash: Vec<u8>,
    pub token_revoked: Option<i64>,
    pub role: Option<String>,
    pub last_seen_at: i64,
    pub created_at: i64,
}

#[verifier::ext_equal]
pub struct AgentV {
    pub handle: Seq<char>,
    pub kind: AgentKind,
    pub token_hash: Seq<u8>,
    pub token_revoked: Option<i64>,
    pub role: Option<Seq<char>>,
    pub last_seen_at: i64,
    pub created_at: i64,
}

impl View for AgentRow {
    type V = AgentV;

    open spec fn view(&self) -> AgentV {
        AgentV {
            handle: self.handle@,
            kind: self.kind,
            token_hash: self.token_hash@,
            token_revoked: self.token_revoked,
            role: opt_view(self.role),
            last_seen_at: self.last_seen_at,
            created_at: self.created_at,
        }
    }
}

/// A channel, public or direct.  `members` lists who belongs to a direct
/// channel, in ascending order.
pub struct ChannelRow {
    pub name: String,
    pub topic: String,
    pub kind: ChannelKind,
    pub created_by: String,
    pub created_at: i64,
    pub archived_at: Option<i64>,
    pub issue_prefix: Option<String>,
    pub members: Vec<String>,
}

#[verifier::ext_equal]
pub struct ChannelV {
    pub name: Seq<char>,
    pub topic: Seq<char>,
    pub kind: ChannelKind,
    pub created_by: Seq<char>,
    pub created_at: i64,
    pub archived_at: Option<i64>,
    pub issue_prefix: Option<Seq<char>>,
    pub members: Seq<Seq<char>>,
}

impl View for ChannelRow {
    type V = ChannelV;

    open spec fn view(&self) -> ChannelV {
        ChannelV {
            name: self.name@,
            topic: self.topic@,
            kind: self.kind,
            created_by: self.created_by@,
            created_at: self.created_at,
            archived_at: self.archived_at,
            issue_prefix: opt_view(self.issue_prefix),
            members: names_view(self.members@),
        }
    }
}

/// An agent's read cursor in a channel; inactive once the agent left.
pub struct SubscriptionRow {
    pub handle: String,
    pub channel_id: i64,
    pub last_acked_id: i64,
    pub active: bool,
}

#[verifier::ext_equal]
pub struct SubV {
    pub handle: Seq<char>,
    pub channel_id: i64,
    pub last_acked_id: i64,
    pub active: bool,
}

impl View for SubscriptionRow {
    type V = SubV;

    open spec fn view(&self) -> SubV {
        SubV {
            handle: self.handle@,
            channel_id: self.channel_id,
            last_acked_id: self.last_acked_id,
            active: self.active,
        }
    }
}

/// A posted message with the handles it mentions, in ascending order.
pub struct MessageRow {
    pub channel_id: i64,
    pub author: String,
    pub kind: MessageKind,
    pub summary: String,
    pub body: Option<String>,
    pub reply_to: Option<i64>,
    pub created_at: i64,
    pub resolved_at: Option<i64>,
    pub resolved_by: Option<String>,
    pub mentions: Vec<String>,
}

#[verifier::ext_equal]
pub struct MsgV {
    pub channel_id: i64,
    pub author: Seq<char>,
    pub kind: MessageKind,
    pub summary: Seq<char>,
    pub body: Option<Seq<char>>,
    pub reply_to: Option<i64>,
    pub created_at: i64,
    pub resolved_at: Option<i64>,
    pub resolved_by: Option<Seq<char>>,
    pub mentions: Seq<Seq<char>>,
}

impl View for MessageRow {
    type V = MsgV;

    open spec fn view(&self) -> MsgV {
        MsgV {
            channel_id: self.channel_id,
            author: self.author@,
            kind: self.kind,
            summary: self.summary@,
            body: opt_view(self.body),
            reply_to: self.reply_to,
            created_at: self.created_at,
            resolved_at: self.resolved_at,
            resolved_by: opt_view(self.resolved_by),
            mentions: names_view(self.mentions@),
        }
    }
}

/// An issue: a task message with a per-channel number and a status.
pub struct IssueRow {
    pub message_id: i64,
    pub channel_id: i64,
    pub number: i64,
    pub parent_id: Option<i64>,
    pub status: IssueStatus,
}

#[verifier::ext_equal]
pub struct IssueV {
    pub message_id: i64,
    pub channel_id: i64,
    pub number: i64,
    pub parent_id: Option<i64>,
    pub status: IssueStatus,
}

impl View for IssueRow {
    type V = IssueV;

    open spec fn view(&self) -> IssueV {
        IssueV {
            message_id: self.message_id,
            channel_id: self.channel_id,
            number: self.number,
            parent_id: self.parent_id,
            status: self.status,
        }
    }
}

/// The model of the hub's tables.
#[verifier::ext_equal]
pub struct StoreV {
    pub agents: Seq<AgentV>,
    pub channels: Seq<ChannelV>,
    pub subs: Seq<SubV>,
    pub messages: Seq<MsgV>,
    pub issues: Seq<IssueV>,
}

pub open spec fn sorted_names(s: Seq<Seq<char>>) -> bool {
    forall|i: int, j: int| 0 <= i < j < s.len() ==> seq_le(#[trigger] s[i], #[trigger] s[j])
}

impl StoreV {
    /// The id of channel `i`.
    pub open spec fn channel_id_valid(self, cid: int) -> bool {
        1 <= cid <= self.channels.len()
    }

    pub open spec fn channel_of(self, cid: int) -> ChannelV {
        self.channels[cid - 1]
    }

    pub open spec fn message_of(self, id: int) -> MsgV {
        self.messages[id - 1]
    }

    pub open spec fn message_id_valid(self, id: int) -> bool {
        1 <= id <= self.messages.len()
    }

    /// The tables' integrity: names and keys unique, references in range,
    /// resolution recorded as a pair, name lists sorted.
    pub open spec fn wf(self) -> bool {
        &&& self.channels.len() < i64::MAX
        &&& self.messages.len() < i64::MAX
        &&& agents_wf(self.agents)
        &&& channels_wf(self.channels)
        &&& subs_wf(self.subs, self.channels.len())
        &&& messages_wf(self.messages, self.channels.len())
        &&& issues_wf(self.issues, self.channels.len(), self.messages.len())
    }
}

/// Handles are valid and unique, and no two agents hold the same token
/// hash.
pub open spec fn agents_wf(agents: Seq<AgentV>) -> bool {
    &&& forall|i: int| 0 <= i < agents.len() ==> valid_handle(#[trigger] agents[i].handle)
    &&& forall|i: int, j: int|
        0 <= i < j < agents.len() ==> #[trigger] agents[i].handle != #[trigger] agents[j].handle
    &&& forall|i: int, j: int|
        0 <= i < j < agents.len() ==> #[trigger] agents[i].token_hash != #[trigger] agents[j].token_hash
}

/// Whether some agent holds token hash `hash`.
pub open spec fn hash_held(s: StoreV, hash: Seq<u8>) -> bool {
    exists|i: int| 0 <= i < s.agents.len() && #[trigger] s.agents[i].token_hash == hash
}

/// Whether a channel's name and issue prefix are in lower case.
pub open spec fn channel_lower(c: ChannelV) -> bool {
    &&& ascii_lower(c.name) == c.name
    &&& (c.issue_prefix matches Some(p) ==> ascii_lower(p) == p)
}

/// Names are unique and in lower case, as are issue prefixes, and member
/// lists sorted.
pub open spec fn channels_wf(channels: Seq<ChannelV>) -> bool {
    &&& forall|i: int, j: int|
        0 <= i < j < channels.len() ==> #[trigger] channels[i].name != #[trigger] channels[j].name
    &&& forall|i: int| 0 <= i < channels.len() ==> sorted_names(#[trigger] channels[i].members)
    &&& forall|i: int| 0 <= i < channels.len() ==> channel_lower(#[trigger] channels[i])
}

/// One row per (handle, channel), channels in range.
pub open spec fn subs_wf(subs: Seq<SubV>, n_channels: nat) -> bool {
    &&& forall|i: int, j: int|
        0 <= i < j < subs.len() ==> !(#[trigger] subs[i].handle == #[trigger] subs[j].handle
            && subs[i].channel_id == subs[j].channel_id)
    &&& forall|i: int| 0 <= i < subs.len() ==> 1 <= #[trigger] subs[i].channel_id <= n_channels
}

/// Channels in range, resolution recorded as a pair, mentions sorted.
pub open spec fn messages_wf(messages: Seq<MsgV>, n_channels: nat) -> bool {
    forall|i: int|
        0 <= i < messages.len() ==> {
            &&& 1 <= #[trigger] messages[i].channel_id <= n_channels
            &&& (messages[i].resolved_at is Some <==> messages[i].resolved_by is Some)
            &&& sorted_names(messages[i].mentions)
        }
}

/// Channels and messages in range; an issue's number at most one more than
/// the rows before it.
pub open spec fn issues_wf(issues: Seq<IssueV>, n_channels: nat, n_messages: nat) -> bool {
    forall|i: int|
        0 <= i < issues.len() ==> {
            &&& 1 <= #[trigger] issues[i].channel_id <= n_channels
            &&& 1 <= issues[i].message_id <= n_messages
            &&& 1 <= issues[i].number <= i + 1
        }
}

/// The hub's tables.
pub struct Store {
    pub agents: Vec<AgentRow>,
    pub channels: Vec<ChannelRow>,
    pub subs: Vec<SubscriptionRow>,
    pub messages: Vec<MessageRow>,
    pub issues: Vec<IssueRow>,
}

impl View for Store {
    type V = StoreV;

    open spec fn view(&self) -> StoreV {
        StoreV {
            agents: self.agents@.map_values(|r: AgentRow| r@),
            channels: self.channels@.map_values(|r: ChannelRow| r@),
            subs: self.subs@.map_values(|r: SubscriptionRow| r@),
            messages: self.messages@.map_values(|r: MessageRow| r@),
            issues: self.issues@.map_values(|r: IssueRow| r@),
        }
    }
}

/// Index of the channel named `name`.
pub open spec fn channel_index(s: StoreV, name: Seq<char>) -> Option<int> {
    if exists|i: int| 0 <= i < s.channels.len() && #[trigger] s.channels[i].name == name {
        Some(choose|i: int| 0 <= i < s.channels.len() && #[trigger] s.channels[i].name == name)
    } else {
        None
    }
}

/// Index of the agent with handle `h`.
pub open spec fn agent_index(s: StoreV, h: Seq<char>) -> Option<int> {
    if exists|i: int| 0 <= i < s.agents.len() && #[trigger] s.agents[i].handle == h {
        Some(choose|i: int| 0 <= i < s.agents.len() && #[trigger] s.agents[i].handle == h)
    } else {
        None
    }
}

/// Index of `h`'s subscription row for channel `cid`, active or not.
pub open spec fn sub_index(s: StoreV, h: Seq<char>, cid: int) -> Option<int> {
    if exists|i: int|
        0 <= i < s.subs.len() && #[trigger] s.subs[i].handle == h && s.subs[i].channel_id == cid {
        Some(
            choose|i: int|
                0 <= i < s.subs.len() && #[trigger] s.subs[i].handle == h && s.subs[i].channel_id
                    == cid,
        )
    } else {
        None
    }
}

/// Whether `h` holds an active subscription to channel `cid`.
pub open spec fn is_subscribed(s: StoreV, h: Seq<char>, cid: int) -> bool {
    match sub_index(s, h, cid) {
        Some(i) => s.subs[i].active,
        None => false,
    }
}

/// The highest message id in channel `cid` among the first `k` messages, or 0.
pub open spec fn max_id_upto(s: StoreV, cid: int, k: int) -> int
    decreases k,
{
    if k <= 0 {
        0
    } else if s.messages[k - 1].channel_id == cid {
        k
    } else {
        max_id_upto(s, cid, k - 1)
    }
}

/// The highest message id in channel `cid`, or 0 when it has none.
pub open spec fn channel_max_id(s: StoreV, cid: int) -> int {
    max_id_upto(s, cid, s.messages.len() as int)
}

/// Whether `h` may see messages of channel `cid`: any public channel, and a
/// direct channel only for its members.
pub open spec fn can_see(s: StoreV, h: Seq<char>, cid: int) -> bool {
    s.channel_of(cid).kind == ChannelKind::Channel || s.channel_of(cid).members.contains(h)
}

/// `h`'s subscription to `cid` made active: an existing row keeps its
/// cursor, a new row starts at `cursor`.
pub open spec fn upsert_sub(s: StoreV, h: Seq<char>, cid: int, cursor: int) -> StoreV {
    match sub_index(s, h, cid) {
        Some(i) => StoreV { subs: s.subs.update(i, SubV { active: true, ..s.subs[i] }), ..s },
        None => StoreV {
            subs: s.subs.push(
                SubV { handle: h, channel_id: cid as i64, last_acked_id: cursor as i64, active: true },
            ),
            ..s
        },
    }
}

/// Rewriting a subscription row without touching its key keeps the tables
/// well formed.
pub proof fn lemma_wf_sub_update(s: StoreV, i: int, row: SubV)
    requires
        s.wf(),
        0 <= i < s.subs.len(),
        row.handle == s.subs[i].handle,
        row.channel_id == s.subs[i].channel_id,
    ensures
        (StoreV { subs: s.subs.update(i, row), ..s }).wf(),
{
    let t = StoreV { subs: s.subs.update(i, row), ..s };
    assert forall|a: int, b: int| 0 <= a < b < t.subs.len() implies !(#[trigger] t.subs[a].handle
        == #[trigger] t.subs[b].handle && t.subs[a].channel_id == t.subs[b].channel_id) by {
        assert(t.subs[a].handle == s.subs[a].handle && t.subs[a].channel_id == s.subs[a].channel_id);
        assert(t.subs[b].handle == s.subs[b].handle && t.subs[b].channel_id == s.subs[b].channel_id);
    }
    assert forall|a: int| 0 <= a < t.subs.len() implies 1 <= #[trigger] t.subs[a].channel_id
        <= t.channels.len() by {
        assert(t.subs[a].channel_id == s.subs[a].channel_id);
    }
}

/// Rewriting a channel row without touching its name, with its members
/// still sorted and its issue prefix kept or set in lower case, keeps the
/// tables well formed.
pub proof fn lemma_wf_channel_update(s: StoreV, ci: int, c: ChannelV)
    requires
        s.wf(),
        0 <= ci < s.channels.len(),
        c.name == s.channels[ci].name,
        sorted_names(c.members),
        c.issue_prefix == s.channels[ci].issue_prefix || (c.issue_prefix matches Some(p) && ascii_lower(
            p,
        ) == p),
    ensures
        (StoreV { channels: s.channels.update(ci, c), ..s }).wf(),
{
    let t = StoreV { channels: s.channels.update(ci, c), ..s };
    assert(channel_lower(s.channels[ci]));
    assert forall|a: int| 0 <= a < t.channels.len() implies channel_lower(#[trigger] t.channels[a]) by {
        if a != ci {
            assert(t.channels[a] == s.channels[a]);
        }
    }
    assert forall|a: int, b: int| 0 <= a < b < t.channels.len() implies #[trigger] t.channels[a].name
        != #[trigger] t.channels[b].name by {
        assert(t.channels[a].name == s.channels[a].name);
        assert(t.channels[b].name == s.channels[b].name);
    }
    assert forall|a: int| 0 <= a < t.channels.len() implies sorted_names(
        #[trigger] t.channels[a].members,
    ) by {
        if a != ci {
            assert(t.channels[a] == s.channels[a]);
        }
    }
}

/// Whether two byte strings are equal.
pub fn bytes_eq(a: &[u8], b: &[u8]) -> (r: bool)
    ensures
        r == (a@ == b@),
{
    if a.len() != b.len() {
        return false;
    }
    let mut i: usize = 0;
    while i < a.len()
        invariant
            a@.len() == b@.len(),
            i <= a@.len(),
            forall|j: int| 0 <= j < i ==> a@[j] == b@[j],
        decreases a.len() - i,
    {
        if a[i] != b[i] {
            return false;
        }
        i = i + 1;
    }
    assert(a@ =~= b@);
    true
}

impl Store {
    pub fn new() -> (r: Store)
        ensures
            r@.wf(),
            r@.agents.len() == 0,
            r@.channels.len() == 0,
            r@.subs.len() == 0,
            r@.messages.len() == 0,
            r@.issues.len() == 0,
    {
        Store {
            agents: Vec::new(),
            channels: Vec::new(),
            subs: Vec::new(),
            messages: Vec::new(),
            issues: Vec::new(),
        }
    }

    pub fn find_channel(&self, name: &str) -> (r: Option<usize>)
        requires
            self@.wf(),
        ensures
            match r {
                Some(i) => channel_index(self@, name@) == Some(i as int) && i < self@.channels.len()
                    && self@.channels[i as int].name == name@,
                None => channel_index(self@, name@) is None,
            },
    {
        let mut i: usize = 0;
        while i < self.channels.len()
            invariant
                self@.wf(),
                i <= self.channels@.len(),
                forall|j: int| 0 <= j < i ==> #[trigger] self@.channels[j].name != name@,
            decreases self.channels.len() - i,
        {
            if str_eq(self.channels[i].name.as_str(), name) {
                assert(self@.channels[i as int].name == name@);
                proof {
                    let j = choose|j: int| 0 <= j < self@.channels.len() && #[trigger] self@.channels[j].name == name@;
                    if j != i {
                        if j < i { assert(self@.channels[j].name != self@.channels[i as int].name); }
                        else { assert(self@.channels[i as int].name != self@.channels[j].name); }
                    }
                }
                return Some(i);
            }
            i = i + 1;
        }
        None
    }

    /// Whether some agent holds token hash `hash`.
    pub fn hash_taken(&self, hash: &[u8]) -> (r: bool)
        ensures
            r == hash_held(self@, hash@),
    {
        let mut i: usize = 0;
        while i < self.agents.len()
            invariant
                i <= self.agents@.len(),
                forall|j: int| 0 <= j < i ==> #[trigger] self@.agents[j].token_hash != hash@,
            decreases self.agents.len() - i,
        {
            assert(self@.agents[i as int].token_hash == self.agents[i as int].token_hash@);
            if bytes_eq(self.agents[i].token_hash.as_slice(), hash) {
                return true;
            }
            i = i + 1;
        }
        false
    }

    pub fn find_agent(&self, h: &str) -> (r: Option<usize>)
        requires
            self@.wf(),
        ensures
            match r {
                Some(i) => agent_index(self@, h@) == Some(i as int) && i < self@.agents.len()
                    && self@.agents[i as int].handle == h@,
                None => agent_index(self@, h@) is None,
            },
    {
        let mut i: usize = 0;
        while i < self.agents.len()
            invariant
                self@.wf(),
                i <= self.agents@.len(),
                forall|j: int| 0 <= j < i ==> #[trigger] self@.agents[j].handle != h@,
            decreases self.agents.len() - i,
        {
            if str_eq(self.agents[i].handle.as_str(), h) {
                assert(self@.agents[i as int].handle == h@);
                proof {
                    let j = choose|j: int| 0 <= j < self@.agents.len() && #[trigger] self@.agents[j].handle == h@;
                    if j != i {
                        if j < i { assert(self@.agents[j].handle != self@.agents[i as int].handle); }
                        else { assert(self@.agents[i as int].handle != self@.agents[j].handle); }
                    }
                }
                return Some(i);
            }
            i = i + 1;
        }
        None
    }

    pub fn find_sub(&self, h: &str, cid: i64) -> (r: Option<usize>)
        requires
            self@.wf(),
        ensures
            match r {
                Some(i) => sub_index(self@, h@, cid as int) == Some(i as int) && i < self@.subs.len()
                    && self@.subs[i as int].handle == h@ && self@.subs[i as int].channel_id == cid,
                None => sub_index(self@, h@, cid as int) is None,
            },
    {
        let mut i: usize = 0;
        while i < self.subs.len()
            invariant
                self@.wf(),
                i <= self.subs@.len(),
                forall|j: int|
                    0 <= j < i ==> !(#[trigger] self@.subs[j].handle == h@ && self@.subs[j].channel_id
                        == cid),
            decreases self.subs.len() - i,
        {
            if self.subs[i].channel_id == cid && str_eq(self.subs[i].handle.as_str(), h) {
                assert(self@.subs[i as int].handle == h@);
                proof {
                    let j = choose|j: int| 0 <= j < self@.subs.len() && #[trigger] self@.subs[j].handle == h@ && self@.subs[j].channel_id == cid;
                    if j != i {
                        if j < i { assert(!(self@.subs[j].handle == self@.subs[i as int].handle && self@.subs[j].channel_id == self@.subs[i as int].channel_id)); }
                        else { assert(!(self@.subs[i as int].handle == self@.subs[j].handle && self@.subs[i as int].channel_id == self@.subs[j].channel_id)); }
                    }
                }
                return Some(i);
            }
            i = i + 1;
        }
        None
    }

    /// The highest message id in channel `cid`, or 0.
    pub fn channel_max(&self, cid: i64) -> (r: i64)
        requires
            self@.wf(),
        ensures
            r as int == channel_max_id(self@, cid as int),
            0 <= r <= self@.messages.len(),
    {
        let mut k: usize = self.messages.len();
        while k > 0
            invariant
                k <= self@.messages.len(),
                self@.messages.len() < i64::MAX,
                channel_max_id(self@, cid as int) == max_id_upto(self@, cid as int, k as int),
            decreases k,
        {
            if self.messages[k - 1].channel_id == cid {
                return k as i64;
            }
            k = k - 1;
        }
        0
    }

    /// Makes `h`'s subscription to `cid` active, creating it at `cursor` when
    /// there is none.
    pub fn upsert_sub(&mut self, h: &str, cid: i64, cursor: i64)
        requires
            old(self)@.wf(),
            old(self)@.channel_id_valid(cid as int),
        ensures
            final(self)@.wf(),
            final(self)@ == upsert_sub(old(self)@, h@, cid as int, cursor as int),
    {
        match self.find_sub(h, cid) {
            Some(i) => {
                self.subs[i].active = true;
                proof {
                    lemma_wf_sub_update(
                        old(self)@,
                        i as int,
                        SubV { active: true, ..old(self)@.subs[i as int] },
                    );
                }
                assert(self@.subs =~= old(self)@.subs.update(
                    i as int,
                    SubV { active: true, ..old(self)@.subs[i as int] },
                ));
            },
            None => {
                let row = SubscriptionRow {
                    handle: owned(h),
                    channel_id: cid,
                    last_acked_id: cursor,
                    active: true,
                };
                self.subs.push(row);
                assert(self@.subs =~= old(self)@.subs.push(row@));
                assert forall|i: int, j: int| 0 <= i < j < self@.subs.len() implies !(
                #[trigger] self@.subs[i].handle == #[trigger] self@.subs[j].handle
                    && self@.subs[i].channel_id == self@.subs[j].channel_id) by {
                    if j == self@.subs.len() - 1 {
                        assert(!(old(self)@.subs[i].handle == h@ && old(self)@.subs[i].channel_id
                            == cid));
                    }
                }
            },
        }
        assert(self@ =~= upsert_sub(old(self)@, h@, cid as int, cursor as int));
    }

    /// Whether `h` is among the members of channel `ci` (an index).
    pub fn is_member(&self, ci: usize, h: &str) -> (r: bool)
        requires
            ci < self@.channels.len(),
        ensures
            r == self@.channels[ci as int].members.contains(h@),
    {
        let members = &self.channels[ci].members;
        let mut i: usize = 0;
        while i < members.len()
            invariant
                ci < self.channels@.len(),
                members@ == self.channels@[ci as int].members@,
                i <= members@.len(),
                forall|j: int| 0 <= j < i ==> #[trigger] members@[j]@ != h@,
            decreases members.len() - i,
        {
            if str_eq(members[i].as_str(), h) {
                assert(self@.channels[ci as int].members[i as int] == h@);
                return true;
            }
            i = i + 1;
        }
        proof {
            if self@.channels[ci as int].members.contains(h@) {
                let j = choose|j: int|
                    0 <= j < self@.channels[ci as int].members.len()
                        && self@.channels[ci as int].members[j] == h@;
                assert(members@[j]@ == h@);
            }
        }
        false
    }
}

} // verus!
