//! Agents: tokens, registration, unread counts and the agent list.
use crate::dto::{AgentInfo, RegisterResult};
use crate::error::Error;
use crate::hub::{Hub, PRESENCE_WINDOW_SECS};
use crate::order::{order_by_key, order_by_name};
use crate::presence::{entry_online, live_in};
use crate::store::{agent_index, hash_held, names_view, opt_view, AgentRow, AgentV, Store, StoreV};
use crate::text::{owned, str_eq};
use crate::token::{hash_token, is_token_text, random_hash, token_from_bytes, token_hash, token_text, verify};
use crate::types::{agent_kind_name, normalized_handle, valid_handle, AgentKind, Handle};
use crate::web::{opt_str_view, or_empty, BAD_REQUEST, CONFLICT, FORBIDDEN, INTERNAL_ERROR};
use vstd::prelude::*;

verus! {

/// The tables with agent `i` replaced by `a`.
pub open spec fn with_agent(s: StoreV, i: int, a: AgentV) -> StoreV {
    StoreV { agents: s.agents.update(i, a), ..s }
}

/// The first agent, from position `k` on, whose stored hash is `hash`.
pub open spec fn hash_owner(s: StoreV, hash: Seq<u8>, k: int) -> Option<int>
    decreases s.agents.len() - k,
{
    if k < 0 || k >= s.agents.len() {
        None
    } else if s.agents[k].token_hash == hash {
        Some(k)
    } else {
        hash_owner(s, hash, k + 1)
    }
}

/// How many of the first `k` messages are in channel `cid` after `cur`.
pub open spec fn newer_count(s: StoreV, cid: int, cur: int, k: int) -> nat
    decreases k,
{
    if k <= 0 {
        0
    } else {
        newer_count(s, cid, cur, k - 1) + if s.messages[k - 1].channel_id == cid && k > cur {
            1nat
        } else {
            0nat
        }
    }
}

/// How many messages of channel `cid` come after `cur`, counted up to 50.
pub open spec fn capped_unread(s: StoreV, cid: int, cur: int) -> int {
    let n = newer_count(s, cid, cur, s.messages.len() as int) as int;
    if n < 50 {
        n
    } else {
        50
    }
}

/// Unread messages of subscription row `i`, counted up to 50.
pub open spec fn row_unread(s: StoreV, i: int) -> int {
    capped_unread(s, s.subs[i].channel_id as int, s.subs[i].last_acked_id as int)
}

/// For the first `k` subscription rows of `h` that are active and have
/// unread messages: the channel's name and the count (at most 50).
pub open spec fn unread_list(s: StoreV, h: Seq<char>, k: int) -> Seq<(Seq<char>, int)>
    decreases k,
{
    if k <= 0 {
        seq![]
    } else {
        let prev = unread_list(s, h, k - 1);
        let i = k - 1;
        if s.subs[i].handle == h && s.subs[i].active && row_unread(s, i) > 0 {
            prev.push((s.channel_of(s.subs[i].channel_id as int).name, row_unread(s, i)))
        } else {
            prev
        }
    }
}

pub open spec fn pairs_view(v: Seq<(String, i64)>) -> Seq<(Seq<char>, int)> {
    v.map_values(|c: (String, i64)| (c.0@, c.1 as int))
}

/// `ai` describes agent `a`, online as presence `p` says at `now`.
pub open spec fn agent_info_is(ai: AgentInfo, a: AgentV, p: Map<Seq<char>, (bool, i64)>, now: i64) -> bool {
    &&& ai.handle@ == a.handle
    &&& opt_view(ai.role) == a.role
    &&& ai.kind@ == agent_kind_name(a.kind)
    &&& ai.last_seen == a.last_seen_at
    &&& ai.online == (p.contains_key(a.handle) && entry_online(
        p[a.handle],
        PRESENCE_WINDOW_SECS,
        now,
    ))
}

/// The token an `Authorization` header carries: what follows `Bearer `.
pub open spec fn bearer_token(header: Seq<char>) -> Option<Seq<char>> {
    if header.len() >= 7 && header.subrange(0, 7) == "Bearer "@ {
        Some(header.subrange(7, header.len() as int))
    } else {
        None
    }
}

/// The handle token `t` authenticates, if any: the agent holding its hash,
/// unless that token was revoked.
pub open spec fn token_owner(s: StoreV, t: Seq<char>) -> Option<Seq<char>> {
    match hash_owner(s, token_hash(t), 0) {
        None => None,
        Some(i) => if s.agents[i].token_revoked is Some || !valid_handle(
            normalized_handle(s.agents[i].handle),
        ) {
            None
        } else {
            Some(normalized_handle(s.agents[i].handle))
        },
    }
}

/// Who a request to the tool endpoint is: in development mode the
/// registered handle its `x-babylon-handle` header names; otherwise the
/// owner of the bearer token in its `Authorization` header.
pub open spec fn caller_of(
    s: StoreV,
    dev_no_auth: bool,
    handle_header: Option<Seq<char>>,
    authorization: Option<Seq<char>>,
) -> Option<Seq<char>> {
    if dev_no_auth {
        match handle_header {
            Some(h) => if agent_index(s, h) is Some {
                Some(h)
            } else {
                None
            },
            None => None,
        }
    } else {
        match authorization {
            Some(a) => match bearer_token(a) {
                Some(t) => token_owner(s, t),
                None => None,
            },
            None => None,
        }
    }
}

/// The tables after `h` registers at `now`: its role set when one is given,
/// and its last-seen time.
pub open spec fn registered(s: StoreV, h: Seq<char>, role: Option<Seq<char>>, now: i64) -> StoreV {
    match agent_index(s, h) {
        None => s,
        Some(i) => with_agent(
            s,
            i,
            AgentV {
                role: match role {
                    Some(x) => Some(x),
                    None => s.agents[i].role,
                },
                last_seen_at: now,
                ..s.agents[i]
            },
        ),
    }
}

/// `v` lists the agents ordered by handle, each online as presence `p`
/// says at `now`.
pub open spec fn agents_listed(s: StoreV, p: Map<Seq<char>, (bool, i64)>, now: i64, v: Seq<AgentInfo>) -> bool {
    let order = order_by_key(s.agents.len(), s.agents.map_values(|a: AgentV| a.handle));
    &&& v.len() == order.len()
    &&& forall|t: int| 0 <= t < v.len() ==> agent_info_is(#[trigger] v[t], s.agents[order[t]], p, now)
}

/// The tables with a new agent `handle` of kind `kind` holding token `t`.
pub open spec fn minted(s: StoreV, handle: Seq<char>, kind: AgentKind, t: Seq<char>, now: i64) -> StoreV {
    StoreV {
        agents: s.agents.push(
            AgentV {
                handle,
                kind,
                token_hash: token_hash(t),
                token_revoked: None,
                role: None,
                last_seen_at: 0,
                created_at: now,
            },
        ),
        ..s
    }
}

/// What minting `handle` with the token made from `bytes` does to tables
/// `s`, leaving `t`, with result `r`.
pub open spec fn mint_outcome(
    s: StoreV,
    t: StoreV,
    r: Result<String, Error>,
    handle: Seq<char>,
    kind: AgentKind,
    bytes: Seq<u8>,
    now: i64,
) -> bool {
    let tok = token_text(bytes);
    match agent_index(s, handle) {
        Some(_) => r matches Err(Error::HandleExists(x)) && x@ == handle && t == s,
        None => if hash_held(s, token_hash(tok)) {
            r matches Err(Error::RandomUnavailable) && t == s
        } else {
            r matches Ok(x) && x@ == tok && t == minted(s, handle, kind, tok, now)
        },
    }
}

/// What rotating `handle`'s token to the one made from `bytes` does to
/// tables `s`, leaving `t`, with result `r`.
pub open spec fn rotate_outcome(s: StoreV, t: StoreV, r: Result<String, Error>, handle: Seq<char>, bytes: Seq<u8>) -> bool {
    let tok = token_text(bytes);
    match agent_index(s, handle) {
        None => r matches Err(Error::UnknownHandle(x)) && x@ == handle && t == s,
        Some(i) => if hash_held(s, token_hash(tok)) {
            r matches Err(Error::RandomUnavailable) && t == s
        } else {
            r matches Ok(x) && x@ == tok && t == with_agent(
                s,
                i,
                AgentV { token_hash: token_hash(tok), token_revoked: None, ..s.agents[i] },
            )
        },
    }
}

/// What making sure of the operator with stored hash `hash` does to
/// tables `s`, leaving `t`, with result `r`.
pub open spec fn operator_outcome(s: StoreV, t: StoreV, r: Result<(), Error>, hash: Seq<u8>, now: i64) -> bool {
    match agent_index(s, "operator"@) {
        Some(_) => r is Ok && t == s,
        None => if hash_held(s, hash) {
            r matches Err(Error::RandomUnavailable) && t == s
        } else {
            r is Ok && t == StoreV {
                agents: s.agents.push(
                    AgentV {
                        handle: "operator"@,
                        kind: AgentKind::Operator,
                        token_hash: hash,
                        token_revoked: None,
                        role: None,
                        last_seen_at: 0,
                        created_at: now,
                    },
                ),
                ..s
            }
        },
    }
}

/// Whether `caller` is the configured `owner` and `handle` names a valid
/// handle that no agent has.
pub open spec fn provision_allowed(s: StoreV, owner: Option<Seq<char>>, caller: Option<Seq<char>>, handle: Seq<char>) -> bool {
    &&& owner is Some && or_empty(caller) == owner->0
    &&& valid_handle(normalized_handle(handle))
    &&& agent_index(s, normalized_handle(handle)) is None
}

/// What provisioning `handle` with the token made from `bytes` does to
/// tables `s`, leaving `t`, with result `r`.
pub open spec fn provision_outcome(
    s: StoreV,
    t: StoreV,
    r: Result<(String, String), u16>,
    owner: Option<Seq<char>>,
    caller: Option<Seq<char>>,
    handle: Seq<char>,
    bytes: Seq<u8>,
    now: i64,
) -> bool {
    let h = normalized_handle(handle);
    let tok = token_text(bytes);
    if !(owner is Some && or_empty(caller) == owner->0) {
        r == Err::<(String, String), u16>(FORBIDDEN) && t == s
    } else if !valid_handle(h) {
        r == Err::<(String, String), u16>(BAD_REQUEST) && t == s
    } else if agent_index(s, h) is Some {
        r == Err::<(String, String), u16>(CONFLICT) && t == s
    } else if hash_held(s, token_hash(tok)) {
        r == Err::<(String, String), u16>(INTERNAL_ERROR) && t == s
    } else {
        r matches Ok(v) && v.0@ == h && v.1@ == tok && t == minted(s, h, AgentKind::Agent, tok, now)
    }
}

/// What making sure of the operator did, with result `r`: on success the
/// operator exists as `operator_ensured` says; the one failure, when no
/// random bytes could be had for a missing operator, changes nothing.
pub open spec fn operator_step(s: StoreV, t: StoreV, r: Result<(), Error>, now: i64) -> bool {
    match r {
        Ok(()) => operator_ensured(s, t, now),
        Err(e) => e is RandomUnavailable && agent_index(s, "operator"@) is None && t == s,
    }
}

/// The tables `t` after making sure agent `operator` exists, from `s` at
/// `now`: unchanged when it does, else with it added as an operator whose
/// stored hash is 32 random bytes.
pub open spec fn operator_ensured(s: StoreV, t: StoreV, now: i64) -> bool {
    match agent_index(s, "operator"@) {
        Some(_) => t == s,
        None => exists|hash: Seq<u8>|
            hash.len() == 32 && t == StoreV {
                agents: s.agents.push(
                    AgentV {
                        handle: "operator"@,
                        kind: AgentKind::Operator,
                        token_hash: hash,
                        token_revoked: None,
                        role: None,
                        last_seen_at: 0,
                        created_at: now,
                    },
                ),
                ..s
            },
    }
}

proof fn lemma_newer_count_bound(s: StoreV, cid: int, cur: int, k: int)
    requires
        0 <= k,
    ensures
        newer_count(s, cid, cur, k) <= k,
    decreases k,
{
    if k > 0 {
        lemma_newer_count_bound(s, cid, cur, k - 1);
    }
}

proof fn lemma_agent_update_wf(s: StoreV, i: int, a: AgentV)
    requires
        s.wf(),
        0 <= i < s.agents.len(),
        a.handle == s.agents[i].handle,
        a.token_hash == s.agents[i].token_hash || !hash_held(s, a.token_hash),
    ensures
        with_agent(s, i, a).wf(),
{
    let t = with_agent(s, i, a);
    assert forall|x: int, y: int| 0 <= x < y < t.agents.len() implies #[trigger] t.agents[x].handle
        != #[trigger] t.agents[y].handle by {
        assert(t.agents[x].handle == s.agents[x].handle);
        assert(t.agents[y].handle == s.agents[y].handle);
    }
    assert forall|x: int| 0 <= x < t.agents.len() implies valid_handle(#[trigger] t.agents[x].handle) by {
        assert(t.agents[x].handle == s.agents[x].handle);
    }
    assert forall|x: int, y: int| 0 <= x < y < t.agents.len() implies #[trigger] t.agents[x].token_hash
        != #[trigger] t.agents[y].token_hash by {
        if x != i && y != i {
            assert(t.agents[x] == s.agents[x]);
            assert(t.agents[y] == s.agents[y]);
        } else if x == i {
            assert(t.agents[y] == s.agents[y]);
        } else {
            assert(t.agents[x] == s.agents[x]);
        }
    }
}

impl Store {
    /// How many messages of channel `cid` come after `cur`, counted up to 50.
    pub fn unread_in(&self, cid: i64, cur: i64) -> (r: i64)
        requires
            self@.wf(),
        ensures
            r == capped_unread(self@, cid as int, cur as int),
    {
        let ghost s = self@;
        let nm = self.messages.len();
        let mut n: usize = 0;
        let mut i: usize = 0;
        while i < nm
            invariant
                s == self@,
                s.wf(),
                nm == s.messages.len(),
                i <= nm,
                n == newer_count(s, cid as int, cur as int, i as int),
            decreases nm - i,
        {
            proof {
                lemma_newer_count_bound(s, cid as int, cur as int, i as int);
            }
            assert(s.messages[i as int].channel_id == self.messages@[i as int].channel_id);
            if self.messages[i].channel_id == cid && i as i64 + 1 > cur {
                n = n + 1;
            }
            i = i + 1;
        }
        if n < 50 {
            n as i64
        } else {
            50
        }
    }
}

impl Hub {
    /// `mint_token` with the token made from `bytes`: `HandleExists` when
    /// the handle has an agent; else `RandomUnavailable` when that token's
    /// hash is held already; else the new agent, holding its hash.
    pub fn mint_token_from(&mut self, handle: &Handle, kind: AgentKind, bytes: &[u8], now: i64) -> (r: Result<String, Error>)
        requires
            old(self).store@.wf(),
            bytes@.len() == 32,
        ensures
            final(self).store@.wf(),
            final(self).presence == old(self).presence,
            final(self).waits == old(self).waits,
            mint_outcome(old(self).store@, final(self).store@, r, handle@, kind, bytes@, now),
    {
        if self.store.find_agent(handle.as_str()).is_some() {
            return Err(Error::HandleExists(owned(handle.as_str())));
        }
        let token = token_from_bytes(bytes);
        let hash = hash_token(token.as_str());
        if self.store.hash_taken(hash.as_slice()) {
            return Err(Error::RandomUnavailable);
        }
        let ghost s = self.store@;
        let row = AgentRow {
            handle: owned(handle.as_str()),
            kind,
            token_hash: hash,
            token_revoked: None,
            role: None,
            last_seen_at: 0,
            created_at: now,
        };
        self.store.agents.push(row);
        proof {
            assert(self.store@.agents =~= s.agents.push(row@));
            assert forall|x: int, y: int|
                0 <= x < y < self.store@.agents.len() implies #[trigger] self.store@.agents[x].handle
                != #[trigger] self.store@.agents[y].handle by {
                if y == s.agents.len() {
                    assert(s.agents[x].handle != handle@);
                }
            }
            assert forall|x: int, y: int|
                0 <= x < y < self.store@.agents.len() implies #[trigger] self.store@.agents[x].token_hash
                != #[trigger] self.store@.agents[y].token_hash by {
                if y == s.agents.len() {
                    assert(s.agents[x].token_hash != row@.token_hash);
                }
            }
            assert(self.store@ =~= minted(s, handle@, kind, token@, now));
        }
        Ok(token)
    }

    /// The handle `handle` with a new token of kind `kind`, which only its
    /// hash is kept of.  A handle can be minted once; use `rotate_token`
    /// for a new token.  The token is made from 32 random bytes as
    /// `mint_token_from` makes it; `RandomUnavailable` when no random bytes
    /// could be had.
    pub fn mint_token(&mut self, handle: &Handle, kind: AgentKind, now: i64) -> (r: Result<String, Error>)
        requires
            old(self).store@.wf(),
        ensures
            final(self).store@.wf(),
            final(self).presence == old(self).presence,
            final(self).waits == old(self).waits,
            ({
                let s = old(self).store@;
                ||| exists|bytes: Seq<u8>|
                    bytes.len() == 32 && mint_outcome(s, final(self).store@, r, handle@, kind, bytes, now)
                ||| agent_index(s, handle@) is None && (r matches Err(Error::RandomUnavailable)
                    && final(self).store@ == s)
            }),
            match agent_index(old(self).store@, handle@) {
                Some(_) => r matches Err(Error::HandleExists(x)) && x@ == handle@
                    && final(self).store@ == old(self).store@,
                None => (r matches Ok(t) && is_token_text(t@) && !hash_held(old(self).store@, token_hash(t@))
                    && final(self).store@ == minted(old(self).store@, handle@, kind, t@, now))
                    || (r matches Err(Error::RandomUnavailable) && final(self).store@ == old(self).store@),
            },
    {
        let ghost s = self.store@;
        if self.store.find_agent(handle.as_str()).is_some() {
            let r = Err(Error::HandleExists(owned(handle.as_str())));
            let ghost z = Seq::new(32, |k: int| 0u8);
            assert(z.len() == 32 && mint_outcome(s, self.store@, r, handle@, kind, z, now));
            return r;
        }
        match random_hash() {
            Some(bytes) => {
                let r = self.mint_token_from(handle, kind, bytes.as_slice(), now);
                assert(mint_outcome(s, self.store@, r, handle@, kind, bytes@, now));
                r
            },
            None => Err(Error::RandomUnavailable),
        }
    }

    /// `rotate_token` with the token made from `bytes`: `UnknownHandle`
    /// when the handle has no agent; else `RandomUnavailable` when that
    /// token's hash is held already; else the agent holds its hash, its
    /// revocation lifted.
    pub fn rotate_token_from(&mut self, handle: &Handle, bytes: &[u8]) -> (r: Result<String, Error>)
        requires
            old(self).store@.wf(),
            bytes@.len() == 32,
        ensures
            final(self).store@.wf(),
            final(self).presence == old(self).presence,
            final(self).waits == old(self).waits,
            rotate_outcome(old(self).store@, final(self).store@, r, handle@, bytes@),
    {
        let ghost s = self.store@;
        let i = match self.store.find_agent(handle.as_str()) {
            Some(i) => i,
            None => {
                return Err(Error::UnknownHandle(owned(handle.as_str())));
            },
        };
        let token = token_from_bytes(bytes);
        let hash = hash_token(token.as_str());
        if self.store.hash_taken(hash.as_slice()) {
            return Err(Error::RandomUnavailable);
        }
        self.store.agents[i].token_hash = hash;
        self.store.agents[i].token_revoked = None;
        proof {
            let a = AgentV { token_hash: token_hash(token@), token_revoked: None, ..s.agents[i as int] };
            lemma_agent_update_wf(s, i as int, a);
            assert(self.store@ =~= with_agent(s, i as int, a));
        }
        Ok(token)
    }

    /// Replaces `handle`'s token with a new one, made from 32 random bytes
    /// as `rotate_token_from` makes it, and lifts any revocation;
    /// `RandomUnavailable` when no random bytes could be had.
    pub fn rotate_token(&mut self, handle: &Handle) -> (r: Result<String, Error>)
        requires
            old(self).store@.wf(),
        ensures
            final(self).store@.wf(),
            final(self).presence == old(self).presence,
            final(self).waits == old(self).waits,
            ({
                let s = old(self).store@;
                ||| exists|bytes: Seq<u8>|
                    bytes.len() == 32 && rotate_outcome(s, final(self).store@, r, handle@, bytes)
                ||| agent_index(s, handle@) is Some && (r matches Err(Error::RandomUnavailable)
                    && final(self).store@ == s)
            }),
            ({
                let s = old(self).store@;
                match agent_index(s, handle@) {
                    None => r matches Err(Error::UnknownHandle(x)) && x@ == handle@
                        && final(self).store@ == s,
                    Some(i) => (r matches Ok(t) && is_token_text(t@) && !hash_held(s, token_hash(t@))
                        && final(self).store@ == with_agent(
                        s,
                        i,
                        AgentV { token_hash: token_hash(t@), token_revoked: None, ..s.agents[i] },
                    )) || (r matches Err(Error::RandomUnavailable) && final(self).store@ == s),
                }
            }),
    {
        let ghost s = self.store@;
        if self.store.find_agent(handle.as_str()).is_none() {
            let r = Err(Error::UnknownHandle(owned(handle.as_str())));
            assert(rotate_outcome(s, s, r, handle@, Seq::new(32, |k: int| 0u8)));
            return r;
        }
        match random_hash() {
            Some(bytes) => {
                let r = self.rotate_token_from(handle, bytes.as_slice());
                assert(rotate_outcome(s, self.store@, r, handle@, bytes@));
                r
            },
            None => Err(Error::RandomUnavailable),
        }
    }

    /// Revokes `handle`'s token as of `now`.
    pub fn revoke_token(&mut self, handle: &Handle, now: i64) -> (r: Result<(), Error>)
        requires
            old(self).store@.wf(),
        ensures
            final(self).store@.wf(),
            final(self).presence == old(self).presence,
            final(self).waits == old(self).waits,
            ({
                let s = old(self).store@;
                match agent_index(s, handle@) {
                    None => r matches Err(Error::UnknownHandle(x)) && x@ == handle@
                        && final(self).store@ == s,
                    Some(i) => r is Ok && final(self).store@ == with_agent(
                        s,
                        i,
                        AgentV { token_revoked: Some(now), ..s.agents[i] },
                    ),
                }
            }),
    {
        let ghost s = self.store@;
        let i = match self.store.find_agent(handle.as_str()) {
            Some(i) => i,
            None => {
                return Err(Error::UnknownHandle(owned(handle.as_str())));
            },
        };
        self.store.agents[i].token_revoked = Some(now);
        proof {
            let a = AgentV { token_revoked: Some(now), ..s.agents[i as int] };
            lemma_agent_update_wf(s, i as int, a);
            assert(self.store@ =~= with_agent(s, i as int, a));
        }
        Ok(())
    }

    /// `ensure_operator` with `hash` as the operator's stored hash: nothing
    /// to do when the operator exists; else `RandomUnavailable` when some
    /// agent holds `hash`; else the operator added, holding it.
    pub fn ensure_operator_from(&mut self, hash: Vec<u8>, now: i64) -> (r: Result<(), Error>)
        requires
            old(self).store@.wf(),
            agent_index(old(self).store@, "operator"@) is None ==> hash@.len() == 32,
        ensures
            final(self).store@.wf(),
            final(self).presence == old(self).presence,
            final(self).waits == old(self).waits,
            operator_outcome(old(self).store@, final(self).store@, r, hash@, now),
    {
        if self.store.find_agent("operator").is_some() {
            return Ok(());
        }
        if self.store.hash_taken(hash.as_slice()) {
            return Err(Error::RandomUnavailable);
        }
        let ghost s = self.store@;
        let row = AgentRow {
            handle: owned("operator"),
            kind: AgentKind::Operator,
            token_hash: hash,
            token_revoked: None,
            role: None,
            last_seen_at: 0,
            created_at: now,
        };
        self.store.agents.push(row);
        proof {
            assert(self.store@.agents =~= s.agents.push(row@));
            assert forall|x: int, y: int|
                0 <= x < y < self.store@.agents.len() implies #[trigger] self.store@.agents[x].handle
                != #[trigger] self.store@.agents[y].handle by {
                if y == s.agents.len() {
                    assert(s.agents[x].handle != "operator"@);
                }
            }
            assert forall|x: int, y: int|
                0 <= x < y < self.store@.agents.len() implies #[trigger] self.store@.agents[x].token_hash
                != #[trigger] self.store@.agents[y].token_hash by {
                if y == s.agents.len() {
                    assert(s.agents[x].token_hash != row@.token_hash);
                }
            }
            reveal_strlit("operator");
            assert(valid_handle("operator"@));
            assert(self.store@ =~= StoreV { agents: s.agents.push(row@), ..s });
        }
        Ok(())
    }

    /// Makes sure agent `operator` exists, as an operator whose stored hash
    /// is 32 random bytes, so that no token resolves to it (see
    /// `ensure_operator_from`); `RandomUnavailable` when no random bytes
    /// could be had for a missing operator.
    pub fn ensure_operator(&mut self, now: i64) -> (r: Result<(), Error>)
        requires
            old(self).store@.wf(),
        ensures
            final(self).store@.wf(),
            final(self).presence == old(self).presence,
            final(self).waits == old(self).waits,
            operator_step(old(self).store@, final(self).store@, r, now),
            ({
                let s = old(self).store@;
                ||| exists|hash: Seq<u8>|
                    hash.len() == 32 && operator_outcome(s, final(self).store@, r, hash, now)
                ||| agent_index(s, "operator"@) is None && (r matches Err(Error::RandomUnavailable)
                    && final(self).store@ == s)
            }),
    {
        let ghost s = self.store@;
        if self.store.find_agent("operator").is_some() {
            let ghost z = Seq::new(32, |k: int| 0u8);
            assert(z.len() == 32 && operator_outcome(s, self.store@, Ok::<(), Error>(()), z, now));
            return Ok(());
        }
        match random_hash() {
            Some(hash) => {
                let ghost h = hash@;
                let r = self.ensure_operator_from(hash, now);
                assert(operator_outcome(s, self.store@, r, h, now));
                r
            },
            None => Err(Error::RandomUnavailable),
        }
    }

    /// The handle `token` belongs to: `Unauthorized` when no agent holds
    /// its hash, `TokenRevoked` when that agent's token was revoked.
    pub fn resolve_token(&self, token: &str) -> (r: Result<Handle, Error>)
        requires
            self.store@.wf(),
        ensures
            ({
                let s = self.store@;
                match hash_owner(s, token_hash(token@), 0) {
                    None => r matches Err(Error::Unauthorized),
                    Some(i) => if s.agents[i].token_revoked is Some {
                        r matches Err(Error::TokenRevoked)
                    } else if valid_handle(normalized_handle(s.agents[i].handle)) {
                        r matches Ok(h) && h@ == normalized_handle(s.agents[i].handle)
                    } else {
                        r matches Err(Error::BadName(x)) && x@ == s.agents[i].handle
                    },
                }
            }),
    {
        let ghost s = self.store@;
        let ghost hash = token_hash(token@);
        let mut k: usize = 0;
        while k < self.store.agents.len()
            invariant
                s == self.store@,
                k <= s.agents.len(),
                hash == token_hash(token@),
                hash_owner(s, hash, 0) == hash_owner(s, hash, k as int),
            decreases self.store.agents.len() - k,
        {
            let a = &self.store.agents[k];
            assert(s.agents[k as int] == a@);
            if verify(token, a.token_hash.as_slice()) {
                if a.token_revoked.is_some() {
                    return Err(Error::TokenRevoked);
                }
                return Handle::parse(a.handle.as_str());
            }
            k = k + 1;
        }
        Err(Error::Unauthorized)
    }

    /// Announces `handle`: records its role (when given) and the time, marks
    /// it live and seen, and reports its unread counts.
    pub fn register(&mut self, handle: &Handle, role: Option<String>, now: i64) -> (r: Result<RegisterResult, Error>)
        requires
            old(self).store@.wf(),
        ensures
            final(self).store@.wf(),
            final(self).store@ == registered(old(self).store@, handle@, opt_view(role), now),
            final(self).presence@ == old(self).presence@.insert(handle@, (true, now)),
            final(self).waits@ == old(self).waits@,
            r matches Ok(rr) && rr.handle@ == handle@ && pairs_view(rr.unread@) == unread_list(
                final(self).store@,
                handle@,
                final(self).store@.subs.len() as int,
            ),
    {
        let ghost s = self.store@;
        if let Some(i) = self.store.find_agent(handle.as_str()) {
            let ghost role_v = match opt_view(role) {
                Some(x) => Some(x),
                None => s.agents[i as int].role,
            };
            if let Some(x) = role {
                self.store.agents[i].role = Some(x);
            }
            self.store.agents[i].last_seen_at = now;
            proof {
                let a = AgentV { role: role_v, last_seen_at: now, ..s.agents[i as int] };
                lemma_agent_update_wf(s, i as int, a);
                assert(self.store@ =~= with_agent(s, i as int, a));
            }
        }
        self.presence.set_live(handle.as_str(), true, now);
        self.presence.touch(handle.as_str(), now);
        proof {
            assert(self.presence@ =~= old(self).presence@.insert(handle@, (true, now)));
        }
        let unread = match self.unread_counts(handle) {
            Ok(u) => u,
            Err(e) => {
                return Err(e);
            },
        };
        Ok(RegisterResult { handle: owned(handle.as_str()), unread })
    }

    /// Per channel `handle` is actively subscribed to, in subscription
    /// order, how many messages it has not acknowledged (counted up to 50);
    /// channels with none are left out.
    pub fn unread_counts(&self, handle: &Handle) -> (r: Result<Vec<(String, i64)>, Error>)
        requires
            self.store@.wf(),
        ensures
            r matches Ok(v) && pairs_view(v@) == unread_list(
                self.store@,
                handle@,
                self.store@.subs.len() as int,
            ),
    {
        let ghost s = self.store@;
        let mut out: Vec<(String, i64)> = Vec::new();
        let mut k: usize = 0;
        while k < self.store.subs.len()
            invariant
                s == self.store@,
                s.wf(),
                k <= s.subs.len(),
                pairs_view(out@) == unread_list(s, handle@, k as int),
            decreases self.store.subs.len() - k,
        {
            let sub = &self.store.subs[k];
            assert(s.subs[k as int] == sub@);
            if sub.active && str_eq(sub.handle.as_str(), handle.as_str()) {
                let c = self.store.unread_in(sub.channel_id, sub.last_acked_id);
                if c > 0 {
                    let nc = self.store.channels.len();
                    assert(1 <= s.subs[k as int].channel_id <= s.channels.len());
                    assert(sub.channel_id <= nc);
                    let ghost before = pairs_view(out@);
                    let name = owned(self.store.channels[(sub.channel_id - 1) as usize].name.as_str());
                    out.push((name, c));
                    assert(pairs_view(out@) =~= before.push((name@, c as int)));
                }
            }
            k = k + 1;
        }
        Ok(out)
    }

    /// Whether an agent with handle `handle` is registered.
    pub fn agent_exists(&self, handle: &str) -> (r: Result<bool, Error>)
        requires
            self.store@.wf(),
        ensures
            r matches Ok(b) && b == agent_index(self.store@, handle@) is Some,
    {
        Ok(self.store.find_agent(handle).is_some())
    }

    /// All agents ordered by handle, each online when live and seen within
    /// the presence window before `now`.
    pub fn list_agents(&self, now: i64) -> (r: Result<Vec<AgentInfo>, Error>)
        requires
            self.store@.wf(),
        ensures
            r matches Ok(v) && agents_listed(self.store@, self.presence@, now, v@),
    {
        let ghost s = self.store@;
        let mut handles: Vec<String> = Vec::new();
        let mut k: usize = 0;
        while k < self.store.agents.len()
            invariant
                s == self.store@,
                k <= s.agents.len(),
                names_view(handles@) == s.agents.map_values(|a: AgentV| a.handle).take(k as int),
            decreases self.store.agents.len() - k,
        {
            let ghost before = names_view(handles@);
            let x = owned(self.store.agents[k].handle.as_str());
            handles.push(x);
            assert(names_view(handles@) =~= before.push(x@));
            assert(s.agents.map_values(|a: AgentV| a.handle).take(k + 1) =~= s.agents.map_values(
                |a: AgentV| a.handle,
            ).take(k as int).push(s.agents[k as int].handle));
            k = k + 1;
        }
        assert(s.agents.map_values(|a: AgentV| a.handle).take(s.agents.len() as int) =~= s.agents.map_values(
            |a: AgentV| a.handle,
        ));
        let order = order_by_name(&handles);
        let ghost ov = order@.map_values(|u: usize| u as int);
        let mut out: Vec<AgentInfo> = Vec::new();
        let mut t: usize = 0;
        while t < order.len()
            invariant
                s == self.store@,
                t <= order@.len(),
                ov == order@.map_values(|u: usize| u as int),
                ov == order_by_key(s.agents.len(), s.agents.map_values(|a: AgentV| a.handle)),
                forall|u: int| 0 <= u < ov.len() ==> 0 <= #[trigger] ov[u] < s.agents.len(),
                out@.len() == t,
                forall|u: int|
                    0 <= u < t ==> agent_info_is(#[trigger] out@[u], s.agents[ov[u]], self.presence@, now),
            decreases order.len() - t,
        {
            assert(ov[t as int] == order@[t as int] as int);
            assert(self.store.agents@.len() == s.agents.len());
            let a = &self.store.agents[order[t]];
            assert(s.agents[ov[t as int]] == a@);
            let info = AgentInfo {
                handle: owned(a.handle.as_str()),
                role: match &a.role {
                    Some(x) => Some(owned(x.as_str())),
                    None => None,
                },
                kind: owned(a.kind.as_str()),
                last_seen: a.last_seen_at,
                online: self.presence.online(a.handle.as_str(), PRESENCE_WINDOW_SECS, now),
            };
            out.push(info);
            t = t + 1;
        }
        Ok(out)
    }

    /// Who a request to the tool endpoint is (see `caller_of`), marking
    /// that agent seen at `now`; `None` is answered 401.
    pub fn authenticate(
        &mut self,
        dev_no_auth: bool,
        handle_header: Option<&str>,
        authorization: Option<&str>,
        now: i64,
    ) -> (r: Option<String>)
        requires
            old(self).store@.wf(),
        ensures
            final(self).store == old(self).store,
            final(self).waits == old(self).waits,
            ({
                let who = caller_of(
                    old(self).store@,
                    dev_no_auth,
                    opt_str_view(handle_header),
                    opt_str_view(authorization),
                );
                &&& opt_view(r) == who
                &&& match who {
                    Some(h) => final(self).presence@ == old(self).presence@.insert(
                        h,
                        (live_in(old(self).presence@, h), now),
                    ),
                    None => final(self).presence == old(self).presence,
                }
            }),
    {
        let who: Option<String> = if dev_no_auth {
            match handle_header {
                Some(h) => if self.store.find_agent(h).is_some() {
                    Some(owned(h))
                } else {
                    None
                },
                None => None,
            }
        } else {
            match authorization {
                Some(a) => {
                    let n = a.unicode_len();
                    if n >= 7 && str_eq(a.substring_char(0, 7), "Bearer ") {
                        match self.resolve_token(a.substring_char(7, n)) {
                            Ok(h) => Some(h.into_string()),
                            Err(_) => None,
                        }
                    } else {
                        None
                    }
                },
                None => None,
            }
        };
        if let Some(h) = &who {
            self.presence.touch(h.as_str(), now);
        }
        who
    }

    /// Whether the tailnet owner asks to provision `handle`: 403 unless an
    /// owner is configured and `caller` is it, 400 for a bad handle; else
    /// the handle.
    fn provision_gate(owner: Option<&str>, caller: Option<&str>, handle: &str) -> (r: Result<Handle, u16>)
        ensures
            if !(owner is Some && or_empty(opt_str_view(caller)) == opt_str_view(owner)->0) {
                r == Err::<Handle, u16>(FORBIDDEN)
            } else if !valid_handle(normalized_handle(handle@)) {
                r == Err::<Handle, u16>(BAD_REQUEST)
            } else {
                r matches Ok(h) && h@ == normalized_handle(handle@)
            },
    {
        let o = match owner {
            Some(o) => o,
            None => {
                return Err(FORBIDDEN);
            },
        };
        let c: &str = match caller {
            Some(x) => x,
            None => "",
        };
        proof {
            reveal_strlit("");
        }
        assert(c@ == or_empty(opt_str_view(caller)));
        if !str_eq(c, o) {
            return Err(FORBIDDEN);
        }
        match Handle::parse(handle) {
            Ok(h) => Ok(h),
            Err(_) => Err(BAD_REQUEST),
        }
    }

    /// `provision` with the token made from `bytes`: 403, 400 and 409 as
    /// there; else 500 when that token's hash is held already; else the
    /// handle and token, the agent added.
    pub fn provision_from(
        &mut self,
        owner: Option<&str>,
        caller: Option<&str>,
        handle: &str,
        bytes: &[u8],
        now: i64,
    ) -> (r: Result<(String, String), u16>)
        requires
            old(self).store@.wf(),
            bytes@.len() == 32,
        ensures
            final(self).store@.wf(),
            final(self).presence == old(self).presence,
            final(self).waits == old(self).waits,
            provision_outcome(old(self).store@, final(self).store@, r, opt_str_view(owner), opt_str_view(caller), handle@, bytes@, now),
    {
        let h = match Self::provision_gate(owner, caller, handle) {
            Ok(h) => h,
            Err(code) => {
                return Err(code);
            },
        };
        match self.mint_token_from(&h, AgentKind::Agent, bytes, now) {
            Ok(token) => Ok((h.into_string(), token)),
            Err(Error::HandleExists(_)) => Err(CONFLICT),
            Err(_) => Err(INTERNAL_ERROR),
        }
    }

    /// Gives a new agent `handle` its token, when the tailnet owner asks:
    /// 403 unless an owner is configured and `caller` is it, 400 for a bad
    /// handle, 409 when the handle exists.  The token is made from 32
    /// random bytes as `provision_from` makes it; 500 when no random bytes
    /// could be had.  Returns the handle and token.
    pub fn provision(
        &mut self,
        owner: Option<&str>,
        caller: Option<&str>,
        handle: &str,
        now: i64,
    ) -> (r: Result<(String, String), u16>)
        requires
            old(self).store@.wf(),
        ensures
            final(self).store@.wf(),
            final(self).presence == old(self).presence,
            final(self).waits == old(self).waits,
            ({
                let s = old(self).store@;
                let h = normalized_handle(handle@);
                ||| exists|bytes: Seq<u8>|
                    bytes.len() == 32 && provision_outcome(
                        s,
                        final(self).store@,
                        r,
                        opt_str_view(owner),
                        opt_str_view(caller),
                        handle@,
                        bytes,
                        now,
                    )
                ||| provision_allowed(s, opt_str_view(owner), opt_str_view(caller), handle@) && (r
                    == Err::<(String, String), u16>(INTERNAL_ERROR) && final(self).store@ == s)
            }),
    {
        let ghost s = self.store@;
        let ghost z = Seq::new(32, |k: int| 0u8);
        let h = match Self::provision_gate(owner, caller, handle) {
            Ok(h) => h,
            Err(code) => {
                assert(z.len() == 32 && provision_outcome(
                    s,
                    self.store@,
                    Err::<(String, String), u16>(code),
                    opt_str_view(owner),
                    opt_str_view(caller),
                    handle@,
                    z,
                    now,
                ));
                return Err(code);
            },
        };
        if self.store.find_agent(h.as_str()).is_some() {
            assert(z.len() == 32 && provision_outcome(
                s,
                self.store@,
                Err::<(String, String), u16>(CONFLICT),
                opt_str_view(owner),
                opt_str_view(caller),
                handle@,
                z,
                now,
            ));
            return Err(CONFLICT);
        }
        match random_hash() {
            Some(bytes) => {
                let r = self.provision_from(owner, caller, handle, bytes.as_slice(), now);
                assert(provision_outcome(
                    s,
                    self.store@,
                    r,
                    opt_str_view(owner),
                    opt_str_view(caller),
                    handle@,
                    bytes@,
                    now,
                ));
                r
            },
            None => Err(INTERNAL_ERROR),
        }
    }
}

} // verus!
