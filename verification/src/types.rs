//! Names and kinds: agent handles, message kinds, issue status, issue refs,
//! channel and agent kinds, and the name of a direct-message channel.
use crate::error::Error;
use crate::text::{
    ascii_lower, ascii_lowercase, concat, int_decimal, i64_decimal, owned, parse_i64, parsed_i64,
    seq_le, str_compare, str_eq, trim_str, trimmed,
};
use vstd::prelude::*;
use vstd::string::*;

verus! {

/// A character allowed in a handle: lower-case ASCII letter, digit, `-`, `_`.
pub open spec fn is_handle_char(c: char) -> bool {
    ('a' <= c && c <= 'z') || ('0' <= c && c <= '9') || c == '-' || c == '_'
}

/// One to 64 handle characters.
pub open spec fn valid_handle(s: Seq<char>) -> bool {
    &&& 1 <= s.len() <= 64
    &&& forall|i: int| 0 <= i < s.len() ==> is_handle_char(#[trigger] s[i])
}

/// A valid handle is already in lower case.
pub proof fn lemma_valid_handle_lower(s: Seq<char>)
    requires
        valid_handle(s),
    ensures
        ascii_lower(s) == s,
{
    assert(ascii_lower(s) =~= s);
}

/// A direct channel's name between valid handles is in lower case.
pub proof fn lemma_dm_name_lower(a: Seq<char>, b: Seq<char>)
    requires
        valid_handle(a),
        valid_handle(b),
    ensures
        ascii_lower(dm_name(a, b)) == dm_name(a, b),
{
    assert(ascii_lower(dm_name(a, b)) =~= dm_name(a, b));
}

/// The handle a raw name stands for: trimmed and lower-cased.
pub open spec fn normalized_handle(raw: Seq<char>) -> Seq<char> {
    ascii_lower(trimmed(raw))
}

/// An agent's handle: 1-64 characters of `[a-z0-9_-]`.
#[derive(Debug, PartialEq, Eq, Hash)]
pub struct Handle(String);

impl View for Handle {
    type V = Seq<char>;

    closed spec fn view(&self) -> Seq<char> {
        self.0@
    }
}

impl Handle {
    /// Every handle is valid.
    #[verifier::type_invariant]
    spec fn handle_is_valid(self) -> bool {
        valid_handle(self.0@)
    }
}

pub(crate) fn is_valid_handle(s: &str) -> (r: bool)
    ensures
        r == valid_handle(s@),
{
    let n = s.unicode_len();
    if n < 1 || n > 64 {
        return false;
    }
    let mut i: usize = 0;
    while i < n
        invariant
            n == s@.len(),
            1 <= n <= 64,
            i <= n,
            forall|j: int| 0 <= j < i ==> is_handle_char(#[trigger] s@[j]),
        decreases n - i,
    {
        let c = s.get_char(i);
        let ok = ('a' <= c && c <= 'z') || ('0' <= c && c <= '9') || c == '-' || c == '_';
        if !ok {
            assert(!is_handle_char(s@[i as int]));
            return false;
        }
        i = i + 1;
    }
    true
}

impl Handle {
    /// Trims and lower-cases `raw`; accepts it when the result is a valid
    /// handle, else `BadName` with the raw text.
    pub fn parse(raw: &str) -> (r: Result<Handle, Error>)
        ensures
            match r {
                Ok(h) => valid_handle(normalized_handle(raw@)) && h@ == normalized_handle(raw@),
                Err(e) => !valid_handle(normalized_handle(raw@)) && e is BadName
                    && e->BadName_0@ == raw@,
            },
    {
        let t = trim_str(raw);
        let h = ascii_lowercase(t);
        if is_valid_handle(h.as_str()) {
            Ok(Handle(h))
        } else {
            Err(Error::BadName(owned(raw)))
        }
    }

    /// The handle's text, which is a valid handle.
    pub fn as_str(&self) -> (r: &str)
        ensures
            r@ == self@,
            valid_handle(r@),
    {
        proof {
            use_type_invariant(self);
        }
        self.0.as_str()
    }

    /// The handle's text, which is a valid handle.
    pub fn into_string(self) -> (r: String)
        ensures
            r@ == self@,
            valid_handle(r@),
    {
        proof {
            use_type_invariant(&self);
        }
        self.0
    }
}

/// The six kinds of message.
#[derive(Debug, Clone, Copy, PartialEq, Eq, Structural)]
pub enum MessageKind {
    Question,
    Answer,
    Decision,
    Status,
    Note,
    Task,
}

pub open spec fn message_kind_name(k: MessageKind) -> Seq<char> {
    match k {
        MessageKind::Question => "question"@,
        MessageKind::Answer => "answer"@,
        MessageKind::Decision => "decision"@,
        MessageKind::Status => "status"@,
        MessageKind::Note => "note"@,
        MessageKind::Task => "task"@,
    }
}

/// No two kinds share a name.
pub proof fn lemma_message_kind_names_distinct(a: MessageKind, b: MessageKind)
    ensures
        message_kind_name(a) == message_kind_name(b) ==> a == b,
{
    reveal_strlit("question");
    reveal_strlit("answer");
    reveal_strlit("decision");
    reveal_strlit("status");
    reveal_strlit("note");
    reveal_strlit("task");
    if a != b {
        assert(message_kind_name(a)[0] != message_kind_name(b)[0] || message_kind_name(a).len()
            != message_kind_name(b).len() || message_kind_name(a)[1] != message_kind_name(b)[1]);
    }
}

/// No two statuses share a name.
pub proof fn lemma_issue_status_names_distinct(a: IssueStatus, b: IssueStatus)
    ensures
        issue_status_name(a) == issue_status_name(b) ==> a == b,
{
    reveal_strlit("open");
    reveal_strlit("in_progress");
    reveal_strlit("blocked");
    reveal_strlit("closed");
    if a != b {
        assert(issue_status_name(a)[0] != issue_status_name(b)[0]);
    }
}

/// Questions and tasks stay open until resolved.
pub open spec fn kind_has_lifecycle(k: MessageKind) -> bool {
    k == MessageKind::Question || k == MessageKind::Task
}

impl MessageKind {
    pub fn as_str(self) -> (r: &'static str)
        ensures
            r@ == message_kind_name(self),
    {
        match self {
            MessageKind::Question => "question",
            MessageKind::Answer => "answer",
            MessageKind::Decision => "decision",
            MessageKind::Status => "status",
            MessageKind::Note => "note",
            MessageKind::Task => "task",
        }
    }

    /// The kind named `s`, else `BadName` with `s`.
    pub fn parse(s: &str) -> (r: Result<MessageKind, Error>)
        ensures
            match r {
                Ok(k) => message_kind_name(k) == s@,
                Err(e) => (forall|k: MessageKind| message_kind_name(k) != s@) && e is BadName
                    && e->BadName_0@ == s@,
            },
    {
        if str_eq(s, "question") {
            Ok(MessageKind::Question)
        } else if str_eq(s, "answer") {
            Ok(MessageKind::Answer)
        } else if str_eq(s, "decision") {
            Ok(MessageKind::Decision)
        } else if str_eq(s, "status") {
            Ok(MessageKind::Status)
        } else if str_eq(s, "note") {
            Ok(MessageKind::Note)
        } else if str_eq(s, "task") {
            Ok(MessageKind::Task)
        } else {
            Err(Error::BadName(owned(s)))
        }
    }

    pub fn has_lifecycle(self) -> (r: bool)
        ensures
            r == kind_has_lifecycle(self),
    {
        match self {
            MessageKind::Question | MessageKind::Task => true,
            _ => false,
        }
    }
}

/// Where an issue stands.
#[derive(Debug, Clone, Copy, PartialEq, Eq, Structural)]
pub enum IssueStatus {
    Open,
    InProgress,
    Blocked,
    Closed,
}

pub open spec fn issue_status_name(s: IssueStatus) -> Seq<char> {
    match s {
        IssueStatus::Open => "open"@,
        IssueStatus::InProgress => "in_progress"@,
        IssueStatus::Blocked => "blocked"@,
        IssueStatus::Closed => "closed"@,
    }
}

impl IssueStatus {
    pub fn as_str(self) -> (r: &'static str)
        ensures
            r@ == issue_status_name(self),
    {
        match self {
            IssueStatus::Open => "open",
            IssueStatus::InProgress => "in_progress",
            IssueStatus::Blocked => "blocked",
            IssueStatus::Closed => "closed",
        }
    }

    /// The status named `s`, else `BadStatus` with `s`.
    pub fn parse(s: &str) -> (r: Result<IssueStatus, Error>)
        ensures
            match r {
                Ok(k) => issue_status_name(k) == s@,
                Err(e) => (forall|k: IssueStatus| issue_status_name(k) != s@) && e is BadStatus
                    && e->BadStatus_0@ == s@,
            },
    {
        if str_eq(s, "open") {
            Ok(IssueStatus::Open)
        } else if str_eq(s, "in_progress") {
            Ok(IssueStatus::InProgress)
        } else if str_eq(s, "blocked") {
            Ok(IssueStatus::Blocked)
        } else if str_eq(s, "closed") {
            Ok(IssueStatus::Closed)
        } else {
            Err(Error::BadStatus(owned(s)))
        }
    }
}

/// `#<prefix>-<number>`.
pub open spec fn issue_ref_text(prefix: Seq<char>, number: int) -> Seq<char> {
    seq!['#'] + prefix + seq!['-'] + int_decimal(number)
}

/// The reference of issue `number` in the channel whose prefix is `prefix`.
pub fn issue_ref(prefix: &str, number: i64) -> (r: String)
    ensures
        r@ == issue_ref_text(prefix@, number as int),
{
    let r = owned("#");
    let r = concat(r, prefix);
    let r = concat(r, "-");
    let d = i64_decimal(number);
    let r = concat(r, d.as_str());
    proof {
        reveal_strlit("#");
        reveal_strlit("-");
    }
    r
}

/// Index of the last `-` among the first `k` characters.
pub open spec fn last_dash(s: Seq<char>, k: int) -> Option<int>
    decreases k,
{
    if k <= 0 {
        None
    } else if s[k - 1] == '-' {
        Some(k - 1)
    } else {
        last_dash(s, k - 1)
    }
}

/// A raw issue reference without surrounding white space and leading `#`.
pub open spec fn issue_ref_body(raw: Seq<char>) -> Seq<char> {
    let s = trimmed(raw);
    if s.len() > 0 && s[0] == '#' {
        s.drop_first()
    } else {
        s
    }
}

/// The (prefix, number) a raw reference names: the text before the last `-`
/// lower-cased and non-empty, and after it an integer above zero.
pub open spec fn issue_ref_parts(raw: Seq<char>) -> Option<(Seq<char>, i64)> {
    let s = issue_ref_body(raw);
    match last_dash(s, s.len() as int) {
        None => None,
        Some(i) => match parsed_i64(s.subrange(i + 1, s.len() as int)) {
            None => None,
            Some(n) => {
                let p = ascii_lower(s.subrange(0, i));
                if p.len() == 0 || n <= 0 {
                    None
                } else {
                    Some((p, n))
                }
            },
        },
    }
}

/// Splits `#prefix-N` (the `#` optional) into its prefix and number.
pub fn parse_issue_ref(raw: &str) -> (r: Result<(String, i64), Error>)
    ensures
        match r {
            Ok((p, n)) => issue_ref_parts(raw@) == Some((p@, n)),
            Err(e) => issue_ref_parts(raw@) is None && e is BadIssueRef && e->BadIssueRef_0@
                == raw@,
        },
{
    let t = trim_str(raw);
    let tl = t.unicode_len();
    let s: &str = if tl > 0 && t.get_char(0) == '#' {
        t.substring_char(1, tl)
    } else {
        t
    };
    proof {
        if t@.len() > 0 && t@[0] == '#' {
            assert(s@ =~= t@.drop_first());
        }
    }
    let n = s.unicode_len();
    let mut k: usize = n;
    while k > 0
        invariant
            n == s@.len(),
            k <= n,
            last_dash(s@, n as int) == last_dash(s@, k as int),
        ensures
            k <= n,
            last_dash(s@, n as int) == last_dash(s@, k as int),
            k == 0 || s@[k - 1] == '-',
        decreases k,
    {
        if s.get_char(k - 1) == '-' {
            break;
        }
        k = k - 1;
    }
    if k == 0 {
        return Err(Error::BadIssueRef(owned(raw)));
    }
    let i = k - 1;
    let num = s.substring_char(i + 1, n);
    let number = match parse_i64(num) {
        Some(v) => v,
        None => {
            return Err(Error::BadIssueRef(owned(raw)));
        },
    };
    let prefix = ascii_lowercase(s.substring_char(0, i));
    proof {
        assert(s@ == issue_ref_body(raw@));
        assert(last_dash(s@, n as int) == Some(i as int));
    }
    if prefix.unicode_len() == 0 || number <= 0 {
        return Err(Error::BadIssueRef(owned(raw)));
    }
    Ok((prefix, number))
}

/// Public channel or private two-member direct message.
#[derive(Debug, Clone, Copy, PartialEq, Eq, Structural)]
pub enum ChannelKind {
    Channel,
    Dm,
}

pub open spec fn channel_kind_name(k: ChannelKind) -> Seq<char> {
    match k {
        ChannelKind::Channel => "channel"@,
        ChannelKind::Dm => "dm"@,
    }
}

impl ChannelKind {
    pub fn as_str(self) -> (r: &'static str)
        ensures
            r@ == channel_kind_name(self),
    {
        match self {
            ChannelKind::Channel => "channel",
            ChannelKind::Dm => "dm",
        }
    }
}

/// An ordinary agent, or the hub's operator.
#[derive(Debug, Clone, Copy, PartialEq, Eq, Structural)]
pub enum AgentKind {
    Agent,
    Operator,
}

pub open spec fn agent_kind_name(k: AgentKind) -> Seq<char> {
    match k {
        AgentKind::Agent => "agent"@,
        AgentKind::Operator => "operator"@,
    }
}

impl AgentKind {
    pub fn as_str(self) -> (r: &'static str)
        ensures
            r@ == agent_kind_name(self),
    {
        match self {
            AgentKind::Agent => "agent",
            AgentKind::Operator => "operator",
        }
    }
}

/// `dm:<lo>+<hi>` with the two handles in ascending order.
pub open spec fn dm_name(a: Seq<char>, b: Seq<char>) -> Seq<char> {
    if seq_le(a, b) {
        seq!['d', 'm', ':'] + a + seq!['+'] + b
    } else {
        seq!['d', 'm', ':'] + b + seq!['+'] + a
    }
}

/// The name of the direct-message channel between two agents; the same
/// whichever of the two is given first, and different for every other
/// pair (see `law_dm_name_injective`), both handles being valid.
pub fn dm_channel_name(a: &Handle, b: &Handle) -> (r: String)
    ensures
        r@ == dm_name(a@, b@),
        valid_handle(a@),
        valid_handle(b@),
{
    proof {
        use_type_invariant(a);
        use_type_invariant(b);
    }
    let (lo, hi) = if str_compare(a.as_str(), b.as_str()) <= 0 {
        (a, b)
    } else {
        (b, a)
    };
    let r = owned("dm:");
    let r = concat(r, lo.as_str());
    let r = concat(r, "+");
    let r = concat(r, hi.as_str());
    proof {
        reveal_strlit("dm:");
        reveal_strlit("+");
    }
    r
}

} // verus!
