//! The operator's dashboard: its requests and answers, and what each of its
//! actions does to the hub, as the agent `operator`.
use crate::agents::{
    agents_listed, minted, operator_ensured, operator_outcome, operator_step, provision_outcome, with_agent,
};
use crate::channels::{archived, create_outcome, starts_with_dm};
use crate::dto::{AdminChannelInfo, AgentInfo, GlobalStats, MessageFull, MsgSummary};
use crate::error::Error;
use crate::history::{admin_info_is, channel_names, history_page, message_full_is};
use crate::hub::Hub;
use crate::lifecycle::{open_ids, summaries_are};
use crate::messages::post_outcome;
use crate::order::order_by_key;
use crate::store::{agent_index, channel_index, hash_held, names_view, opt_view, AgentV, StoreV};
use crate::token::{is_token_text, random_hash, token_hash, token_text};
use crate::tools::{opt_bytes, text_len};
use crate::types::{normalized_handle, valid_handle, AgentKind, Handle, MessageKind};
use crate::web::{
    INTERNAL_ERROR,
    dashboard_limit, history_params, mint_kind, opt_str_view, post_request_check, post_request_ok,
    status_of, BAD_REQUEST,
};
use vstd::prelude::*;

verus! {

pub struct CreateChannelRequest {
    pub name: String,
    pub topic: String,
}

pub struct HandleRequest {
    pub handle: String,
}

pub struct HistoryQuery {
    pub channel: Option<String>,
    pub before: Option<i64>,
    pub limit: Option<i64>,
}

pub struct MintRequest {
    pub handle: String,
    pub kind: Option<String>,
}

pub struct OverviewHealth {
    pub ok: bool,
    pub ready: bool,
}

pub struct OverviewResponse {
    pub pin: String,
    pub health: OverviewHealth,
    pub db_bytes: u64,
    pub stats: GlobalStats,
    pub agents: Vec<AgentInfo>,
    pub channels: Vec<AdminChannelInfo>,
    pub open_questions: Vec<MsgSummary>,
    pub open_tasks: Vec<MsgSummary>,
}

pub struct PostMessageRequest {
    pub channel: String,
    pub kind: String,
    pub summary: String,
    pub body: Option<String>,
    pub mentions: Vec<String>,
}

pub struct ProvisionRequest {
    pub handle: String,
}

pub struct ProvisionResponse {
    pub handle: String,
    pub token: String,
}

pub struct TokenResponse {
    pub handle: String,
    pub token: String,
}

/// The dashboard's answer to a refusal `e` of the hub.
pub open spec fn status_result<T>(r: Result<T, Error>) -> Result<T, u16> {
    match r {
        Ok(v) => Ok(v),
        Err(e) => Err(status_of(e)),
    }
}

/// The handle the dashboard acts as.
pub fn operator_handle() -> (r: Result<Handle, u16>)
    ensures
        r matches Ok(h) && h@ == "operator"@,
{
    proof {
        reveal_strlit("operator");
        crate::laws::law_handle_is_normal("operator"@);
    }
    match Handle::parse("operator") {
        Ok(h) => Ok(h),
        Err(_) => Err(crate::web::INTERNAL_ERROR),
    }
}

/// A page of a channel's history for the dashboard: 400 without a channel,
/// 404 for an unknown one; otherwise the newest `limit` (50 by default, at
/// most 200) messages older than `before`, oldest first.
pub fn history(hub: &Hub, q: &HistoryQuery) -> (r: Result<Vec<MessageFull>, u16>)
    requires
        hub.store@.wf(),
    ensures
        ({
            let s = hub.store@;
            match q.channel {
                Some(c) if c@.len() > 0 => match channel_index(s, c@) {
                    None => r == Err::<Vec<MessageFull>, u16>(crate::web::NOT_FOUND),
                    Some(ci) => r matches Ok(v) && {
                        let page = history_page(s, ci + 1, q.before, dashboard_limit(q.limit));
                        &&& v@.len() == page.len()
                        &&& forall|t: int|
                            0 <= t < v@.len() ==> message_full_is(#[trigger] v@[t], s, page[t], c@)
                    },
                },
                _ => r == Err::<Vec<MessageFull>, u16>(BAD_REQUEST),
            }
        }),
{
    let channel: Option<&str> = match &q.channel {
        Some(c) => Some(c.as_str()),
        None => None,
    };
    let (name, limit) = match history_params(channel, q.limit) {
        Ok(v) => v,
        Err(code) => {
            return Err(code);
        },
    };
    match hub.channel_history(name.as_str(), q.before, limit) {
        Ok(v) => Ok(v),
        Err(e) => Err(crate::web::err_status(&e)),
    }
}

/// Whether `h` may serve as the operator's stored hash for tables `s`: 32
/// bytes, when the operator is missing and gets it.
pub open spec fn operator_hash_fits(s: StoreV, h: Seq<u8>) -> bool {
    agent_index(s, "operator"@) is None ==> h.len() == 32
}

/// The kind a mint request asks for: an operator when its kind says so.
pub open spec fn requested_kind(kind: Option<String>) -> AgentKind {
    if opt_view(kind) == Some("operator"@) {
        AgentKind::Operator
    } else {
        AgentKind::Agent
    }
}

/// `tokens_mint` with the token made from `bytes`: 400 for a bad handle,
/// 409 when it exists, 500 when that token's hash is held already; else
/// the handle and token, the agent added.
pub fn tokens_mint_from(hub: &mut Hub, body: &MintRequest, bytes: &[u8], now: i64) -> (r: Result<TokenResponse, u16>)
    requires
        old(hub).store@.wf(),
        bytes@.len() == 32,
    ensures
        final(hub).store@.wf(),
        ({
            let s = old(hub).store@;
            let hn = normalized_handle(body.handle@);
            let tok = token_text(bytes@);
            if !valid_handle(hn) {
                r == Err::<TokenResponse, u16>(BAD_REQUEST) && final(hub).store@ == s
            } else if agent_index(s, hn) is Some {
                r == Err::<TokenResponse, u16>(crate::web::CONFLICT) && final(hub).store@ == s
            } else if hash_held(s, token_hash(tok)) {
                r == Err::<TokenResponse, u16>(INTERNAL_ERROR) && final(hub).store@ == s
            } else {
                r matches Ok(tr) && tr.handle@ == hn && tr.token@ == tok && final(hub).store@ == minted(
                    s,
                    hn,
                    requested_kind(body.kind),
                    tok,
                    now,
                )
            }
        }),
{
    let h = match Handle::parse(body.handle.as_str()) {
        Ok(h) => h,
        Err(_) => {
            return Err(BAD_REQUEST);
        },
    };
    let kind_text: Option<&str> = match &body.kind {
        Some(k) => Some(k.as_str()),
        None => None,
    };
    assert(opt_str_view(kind_text) == opt_view(body.kind));
    let kind = mint_kind(kind_text);
    match hub.mint_token_from(&h, kind, bytes, now) {
        Ok(token) => Ok(TokenResponse { handle: h.into_string(), token }),
        Err(e) => Err(crate::web::err_status(&e)),
    }
}

/// `tokens_rotate` with the token made from `bytes`: 400 for a bad handle,
/// 404 for an unknown one, 500 when that token's hash is held already;
/// else the handle and token, the agent holding its hash.
pub fn tokens_rotate_from(hub: &mut Hub, body: &HandleRequest, bytes: &[u8]) -> (r: Result<TokenResponse, u16>)
    requires
        old(hub).store@.wf(),
        bytes@.len() == 32,
    ensures
        final(hub).store@.wf(),
        ({
            let s = old(hub).store@;
            let hn = normalized_handle(body.handle@);
            let tok = token_text(bytes@);
            if !valid_handle(hn) {
                r == Err::<TokenResponse, u16>(BAD_REQUEST) && final(hub).store@ == s
            } else {
                match agent_index(s, hn) {
                    None => r == Err::<TokenResponse, u16>(crate::web::NOT_FOUND) && final(hub).store@
                        == s,
                    Some(i) => if hash_held(s, token_hash(tok)) {
                        r == Err::<TokenResponse, u16>(INTERNAL_ERROR) && final(hub).store@ == s
                    } else {
                        r matches Ok(tr) && tr.handle@ == hn && tr.token@ == tok && final(hub).store@
                            == with_agent(
                            s,
                            i,
                            AgentV { token_hash: token_hash(tok), token_revoked: None, ..s.agents[i] },
                        )
                    },
                }
            }
        }),
{
    let h = match Handle::parse(body.handle.as_str()) {
        Ok(h) => h,
        Err(_) => {
            return Err(BAD_REQUEST);
        },
    };
    match hub.rotate_token_from(&h, bytes) {
        Ok(token) => Ok(TokenResponse { handle: h.into_string(), token }),
        Err(e) => Err(crate::web::err_status(&e)),
    }
}

/// Mints a token for a new agent: 400 for a bad handle, 409 when it exists.
/// An `operator` kind mints an operator.
pub fn tokens_mint(hub: &mut Hub, body: &MintRequest, now: i64) -> (r: Result<TokenResponse, u16>)
    requires
        old(hub).store@.wf(),
    ensures
        final(hub).store@.wf(),
        ({
            let s = old(hub).store@;
            let hn = normalized_handle(body.handle@);
            if !valid_handle(hn) {
                r == Err::<TokenResponse, u16>(BAD_REQUEST) && final(hub).store@ == s
            } else if agent_index(s, hn) is Some {
                r == Err::<TokenResponse, u16>(crate::web::CONFLICT) && final(hub).store@ == s
            } else {
                (r == Err::<TokenResponse, u16>(INTERNAL_ERROR) && final(hub).store@ == s) ||
                (r matches Ok(tr) && tr.handle@ == hn && is_token_text(tr.token@) && final(hub).store@
                    == StoreV {
                    agents: s.agents.push(
                        AgentV {
                            handle: hn,
                            kind: if opt_view(body.kind) == Some("operator"@) {
                                AgentKind::Operator
                            } else {
                                AgentKind::Agent
                            },
                            token_hash: token_hash(tr.token@),
                            token_revoked: None,
                            role: None,
                            last_seen_at: 0,
                            created_at: now,
                        },
                    ),
                    ..s
                })
            }
        }),
{
    let h = match Handle::parse(body.handle.as_str()) {
        Ok(h) => h,
        Err(_) => {
            return Err(BAD_REQUEST);
        },
    };
    let kind_text: Option<&str> = match &body.kind {
        Some(k) => Some(k.as_str()),
        None => None,
    };
    assert(opt_str_view(kind_text) == opt_view(body.kind));
    let kind = mint_kind(kind_text);
    match hub.mint_token(&h, kind, now) {
        Ok(token) => Ok(TokenResponse { handle: h.into_string(), token }),
        Err(e) => Err(crate::web::err_status(&e)),
    }
}

/// Gives an agent a new token: 400 for a bad handle, 404 for an unknown
/// one.
pub fn tokens_rotate(hub: &mut Hub, body: &HandleRequest) -> (r: Result<TokenResponse, u16>)
    requires
        old(hub).store@.wf(),
    ensures
        final(hub).store@.wf(),
        ({
            let s = old(hub).store@;
            let hn = normalized_handle(body.handle@);
            if !valid_handle(hn) {
                r == Err::<TokenResponse, u16>(BAD_REQUEST) && final(hub).store@ == s
            } else {
                match agent_index(s, hn) {
                    None => r == Err::<TokenResponse, u16>(crate::web::NOT_FOUND) && final(hub).store@
                        == s,
                    Some(i) => (r == Err::<TokenResponse, u16>(INTERNAL_ERROR) && final(hub).store@ == s)
                        || (r matches Ok(tr) && tr.handle@ == hn && is_token_text(tr.token@)
                        && final(hub).store@ == with_agent(
                        s,
                        i,
                        AgentV { token_hash: token_hash(tr.token@), token_revoked: None, ..s.agents[i] },
                    )),
                }
            }
        }),
{
    let h = match Handle::parse(body.handle.as_str()) {
        Ok(h) => h,
        Err(_) => {
            return Err(BAD_REQUEST);
        },
    };
    match hub.rotate_token(&h) {
        Ok(token) => Ok(TokenResponse { handle: h.into_string(), token }),
        Err(e) => Err(crate::web::err_status(&e)),
    }
}

/// Revokes an agent's token as of `now`: 400 for a bad handle, 404 for an
/// unknown one.
pub fn tokens_revoke(hub: &mut Hub, body: &HandleRequest, now: i64) -> (r: Result<(), u16>)
    requires
        old(hub).store@.wf(),
    ensures
        final(hub).store@.wf(),
        ({
            let s = old(hub).store@;
            let hn = normalized_handle(body.handle@);
            if !valid_handle(hn) {
                r == Err::<(), u16>(BAD_REQUEST) && final(hub).store@ == s
            } else {
                match agent_index(s, hn) {
                    None => r == Err::<(), u16>(crate::web::NOT_FOUND) && final(hub).store@ == s,
                    Some(i) => r is Ok && final(hub).store@ == with_agent(
                        s,
                        i,
                        AgentV { token_revoked: Some(now), ..s.agents[i] },
                    ),
                }
            }
        }),
{
    let h = match Handle::parse(body.handle.as_str()) {
        Ok(h) => h,
        Err(_) => {
            return Err(BAD_REQUEST);
        },
    };
    match hub.revoke_token(&h, now) {
        Ok(()) => Ok(()),
        Err(e) => Err(crate::web::err_status(&e)),
    }
}

/// Creates a public channel as the operator (made sure to exist first):
/// 400 for a direct-channel name, otherwise as `Hub::create_channel`
/// answers, each refusal by its status.
/// The operator, when missing, gets `op_hash` as its stored hash (see
/// `Hub::ensure_operator_from`).
pub fn create_channel_from(hub: &mut Hub, body: &CreateChannelRequest, op_hash: Vec<u8>, now: i64) -> (r: Result<(), u16>)
    requires
        old(hub).store@.wf(),
        agent_index(old(hub).store@, "operator"@) is None ==> op_hash@.len() == 32,
        old(hub).store@.channels.len() + 1 < i64::MAX,
    ensures
        final(hub).store@.wf(),
        if starts_with_dm(body.name@) {
            r == Err::<(), u16>(BAD_REQUEST) && final(hub).store@ == old(hub).store@
        } else {
            exists|s1: StoreV, ro: Result<(), Error>|
                operator_outcome(old(hub).store@, s1, ro, op_hash@, now) && (ro is Err ==> r == Err::<(), u16>(
                    INTERNAL_ERROR,
                ) && final(hub).store@ == old(hub).store@) && (ro is Ok ==> exists|rr: Result<bool, Error>| create_outcome(
                    s1,
                    final(hub).store@,
                    rr,
                    "operator"@,
                    body.name@,
                    body.topic@,
                    text_len(body.topic@),
                    now,
                ) && r == match rr {
                    Ok(_) => Ok(()),
                    Err(e) => Err(status_of(e)),
                })
        },
{
    if crate::channels::has_dm_prefix(body.name.as_str()) {
        return Err(BAD_REQUEST);
    }
    let ghost s0 = hub.store@;
    let ghost h = op_hash@;
    let ro = hub.ensure_operator_from(op_hash, now);
    let ghost s1 = hub.store@;
    if let Err(e) = ro {
        let code = crate::web::err_status(&e);
        assert(operator_outcome(s0, s1, ro, h, now));
        return Err(code);
    }
    let op = match operator_handle() {
        Ok(op) => op,
        Err(code) => {
            return Err(code);
        },
    };
    let rr = hub.create_channel(&op, body.name.as_str(), body.topic.as_str(), now);
    let ghost rg = rr;
    let r = match rr {
        Ok(_) => Ok(()),
        Err(e) => Err(crate::web::err_status(&e)),
    };
    assert(operator_outcome(s0, s1, ro, h, now) && create_outcome(
        s1,
        hub.store@,
        rg,
        "operator"@,
        body.name@,
        body.topic@,
        text_len(body.topic@),
        now,
    ) && r == match rg {
        Ok(_) => Ok(()),
        Err(e) => Err(status_of(e)),
    });
    r
}

/// As `create_channel_from`, the operator's stored hash, when one is needed, being
/// 32 random bytes; 500 when none could be had.
pub fn create_channel(hub: &mut Hub, body: &CreateChannelRequest, now: i64) -> (r: Result<(), u16>)
    requires
        old(hub).store@.wf(),
        old(hub).store@.channels.len() + 1 < i64::MAX,
    ensures
        final(hub).store@.wf(),
        ({
            ||| exists|h: Seq<u8>|
                #[trigger] operator_hash_fits(old(hub).store@, h) && (
        if starts_with_dm(body.name@) {
            r == Err::<(), u16>(BAD_REQUEST) && final(hub).store@ == old(hub).store@
        } else {
            exists|s1: StoreV, ro: Result<(), Error>|
                operator_outcome(old(hub).store@, s1, ro, h, now) && (ro is Err ==> r == Err::<(), u16>(
                    INTERNAL_ERROR,
                ) && final(hub).store@ == old(hub).store@) && (ro is Ok ==> exists|rr: Result<bool, Error>| create_outcome(
                    s1,
                    final(hub).store@,
                    rr,
                    "operator"@,
                    body.name@,
                    body.topic@,
                    text_len(body.topic@),
                    now,
                ) && r == match rr {
                    Ok(_) => Ok(()),
                    Err(e) => Err(status_of(e)),
                })
        })
            ||| agent_index(old(hub).store@, "operator"@) is None && !starts_with_dm(body.name@) && (r == Err::<(), u16>(
                INTERNAL_ERROR,
            ) && final(hub).store@ == old(hub).store@)
        }),
{
    if crate::channels::has_dm_prefix(body.name.as_str()) {
        let ghost z = Seq::new(32, |k: int| 0u8);
        assert(operator_hash_fits(old(hub).store@, z));
        return Err(BAD_REQUEST);
    }
    let hash = if hub.store.find_agent("operator").is_some() {
        Vec::new()
    } else {
        match random_hash() {
            Some(h) => h,
            None => {
                return Err(INTERNAL_ERROR);
            },
        }
    };
    let ghost h = hash@;
    let r = create_channel_from(hub, body, hash, now);
    assert(operator_hash_fits(old(hub).store@, h));
    r
}

/// Archives a channel as the operator: 400 for a direct channel's name.
/// The operator, when missing, gets `op_hash` as its stored hash (see
/// `Hub::ensure_operator_from`).
pub fn archive_channel_from(hub: &mut Hub, name: &str, op_hash: Vec<u8>, now: i64) -> (r: Result<(), u16>)
    requires
        old(hub).store@.wf(),
        agent_index(old(hub).store@, "operator"@) is None ==> op_hash@.len() == 32,
    ensures
        final(hub).store@.wf(),
        if starts_with_dm(name@) {
            r == Err::<(), u16>(BAD_REQUEST) && final(hub).store@ == old(hub).store@
        } else {
            exists|s1: StoreV, ro: Result<(), Error>|
                operator_outcome(old(hub).store@, s1, ro, op_hash@, now) && (ro is Err ==> r == Err::<(), u16>(
                    INTERNAL_ERROR,
                ) && final(hub).store@ == old(hub).store@) && (ro is Ok ==> r is Ok
                    && final(hub).store@ == archived(s1, name@, now))
        },
{
    if crate::channels::has_dm_prefix(name) {
        return Err(BAD_REQUEST);
    }
    let ghost s0 = hub.store@;
    let ghost h = op_hash@;
    let ro = hub.ensure_operator_from(op_hash, now);
    let ghost s1 = hub.store@;
    if let Err(e) = ro {
        let code = crate::web::err_status(&e);
        assert(operator_outcome(s0, s1, ro, h, now));
        return Err(code);
    }
    let op = match operator_handle() {
        Ok(op) => op,
        Err(code) => {
            return Err(code);
        },
    };
    match hub.archive_channel(&op, name, now) {
        Ok(()) => Ok(()),
        Err(e) => Err(crate::web::err_status(&e)),
    }
}

/// As `archive_channel_from`, the operator's stored hash, when one is needed, being
/// 32 random bytes; 500 when none could be had.
pub fn archive_channel(hub: &mut Hub, name: &str, now: i64) -> (r: Result<(), u16>)
    requires
        old(hub).store@.wf(),
    ensures
        final(hub).store@.wf(),
        ({
            ||| exists|h: Seq<u8>|
                #[trigger] operator_hash_fits(old(hub).store@, h) && (
        if starts_with_dm(name@) {
            r == Err::<(), u16>(BAD_REQUEST) && final(hub).store@ == old(hub).store@
        } else {
            exists|s1: StoreV, ro: Result<(), Error>|
                operator_outcome(old(hub).store@, s1, ro, h, now) && (ro is Err ==> r == Err::<(), u16>(
                    INTERNAL_ERROR,
                ) && final(hub).store@ == old(hub).store@) && (ro is Ok ==> r is Ok
                    && final(hub).store@ == archived(s1, name@, now))
        })
            ||| agent_index(old(hub).store@, "operator"@) is None && !starts_with_dm(name@) && (r == Err::<(), u16>(
                INTERNAL_ERROR,
            ) && final(hub).store@ == old(hub).store@)
        }),
{
    if crate::channels::has_dm_prefix(name) {
        let ghost z = Seq::new(32, |k: int| 0u8);
        assert(operator_hash_fits(old(hub).store@, z));
        return Err(BAD_REQUEST);
    }
    let hash = if hub.store.find_agent("operator").is_some() {
        Vec::new()
    } else {
        match random_hash() {
            Some(h) => h,
            None => {
                return Err(INTERNAL_ERROR);
            },
        }
    };
    let ghost h = hash@;
    let r = archive_channel_from(hub, name, hash, now);
    assert(operator_hash_fits(old(hub).store@, h));
    r
}

/// Posts as the operator: 400 for an unknown kind or a task without a
/// mention, otherwise as `Hub::post` answers, each refusal by its status.
/// The operator, when missing, gets `op_hash` as its stored hash (see
/// `Hub::ensure_operator_from`).
pub fn post_message_from(hub: &mut Hub, body: &PostMessageRequest, op_hash: Vec<u8>, now: i64) -> (r: Result<i64, u16>)
    requires
        old(hub).store@.wf(),
        agent_index(old(hub).store@, "operator"@) is None ==> op_hash@.len() == 32,
        old(hub).store@.messages.len() + 1 < i64::MAX,
    ensures
        final(hub).store@.wf(),
        if !post_request_ok(body.kind@, body.mentions@.len()) {
            r == Err::<i64, u16>(BAD_REQUEST) && final(hub).store@ == old(hub).store@
        } else {
            exists|s1: StoreV, ro: Result<(), Error>|
                operator_outcome(old(hub).store@, s1, ro, op_hash@, now) && (ro is Err ==> r == Err::<i64, u16>(
                    INTERNAL_ERROR,
                ) && final(hub).store@ == old(hub).store@) && (ro is Ok ==> exists|rr: Result<i64, Error>| post_outcome(
                    s1,
                    final(hub).store@,
                    rr,
                    "operator"@,
                    body.channel@,
                    body.kind@,
                    body.summary@,
                    text_len(body.summary@),
                    opt_view(body.body),
                    opt_bytes(body.body),
                    names_view(body.mentions@),
                    None,
                    now,
                ) && r == status_result(rr))
        },
{
    if let Err(code) = post_request_check(body.kind.as_str(), body.mentions.as_slice()) {
        return Err(code);
    }
    let ghost s0 = hub.store@;
    let ghost h = op_hash@;
    let ro = hub.ensure_operator_from(op_hash, now);
    let ghost s1 = hub.store@;
    if let Err(e) = ro {
        let code = crate::web::err_status(&e);
        assert(operator_outcome(s0, s1, ro, h, now));
        return Err(code);
    }
    let op = match operator_handle() {
        Ok(op) => op,
        Err(code) => {
            return Err(code);
        },
    };
    let b: Option<&str> = match &body.body {
        Some(x) => Some(x.as_str()),
        None => None,
    };
    let rr = hub.post(
        &op,
        body.channel.as_str(),
        body.kind.as_str(),
        body.summary.as_str(),
        b,
        body.mentions.as_slice(),
        None,
        now,
    );
    let ghost rg = rr;
    let r = match rr {
        Ok(id) => Ok(id),
        Err(e) => Err(crate::web::err_status(&e)),
    };
    assert(operator_outcome(s0, s1, ro, h, now) && post_outcome(
        s1,
        hub.store@,
        rg,
        "operator"@,
        body.channel@,
        body.kind@,
        body.summary@,
        text_len(body.summary@),
        opt_view(body.body),
        opt_bytes(body.body),
        names_view(body.mentions@),
        None,
        now,
    ) && r == status_result(rg));
    r
}

/// As `post_message_from`, the operator's stored hash, when one is needed, being
/// 32 random bytes; 500 when none could be had.
pub fn post_message(hub: &mut Hub, body: &PostMessageRequest, now: i64) -> (r: Result<i64, u16>)
    requires
        old(hub).store@.wf(),
        old(hub).store@.messages.len() + 1 < i64::MAX,
    ensures
        final(hub).store@.wf(),
        ({
            ||| exists|h: Seq<u8>|
                #[trigger] operator_hash_fits(old(hub).store@, h) && (
        if !post_request_ok(body.kind@, body.mentions@.len()) {
            r == Err::<i64, u16>(BAD_REQUEST) && final(hub).store@ == old(hub).store@
        } else {
            exists|s1: StoreV, ro: Result<(), Error>|
                operator_outcome(old(hub).store@, s1, ro, h, now) && (ro is Err ==> r == Err::<i64, u16>(
                    INTERNAL_ERROR,
                ) && final(hub).store@ == old(hub).store@) && (ro is Ok ==> exists|rr: Result<i64, Error>| post_outcome(
                    s1,
                    final(hub).store@,
                    rr,
                    "operator"@,
                    body.channel@,
                    body.kind@,
                    body.summary@,
                    text_len(body.summary@),
                    opt_view(body.body),
                    opt_bytes(body.body),
                    names_view(body.mentions@),
                    None,
                    now,
                ) && r == status_result(rr))
        })
            ||| agent_index(old(hub).store@, "operator"@) is None && post_request_ok(body.kind@, body.mentions@.len()) && (r == Err::<i64, u16>(
                INTERNAL_ERROR,
            ) && final(hub).store@ == old(hub).store@)
        }),
{
    if let Err(code) = post_request_check(body.kind.as_str(), body.mentions.as_slice()) {
        let ghost z = Seq::new(32, |k: int| 0u8);
        assert(operator_hash_fits(old(hub).store@, z));
        return Err(code);
    }
    let hash = if hub.store.find_agent("operator").is_some() {
        Vec::new()
    } else {
        match random_hash() {
            Some(h) => h,
            None => {
                return Err(INTERNAL_ERROR);
            },
        }
    };
    let ghost h = hash@;
    let r = post_message_from(hub, body, hash, now);
    assert(operator_hash_fits(old(hub).store@, h));
    r
}

/// Whether `o` is the dashboard's front page over tables `s` and presence
/// `p` at `now`: the given pin, health and size, the table sizes, the
/// agents, the channels, and all open questions and tasks.
pub open spec fn overview_is(
    s: StoreV,
    p: Map<Seq<char>, (bool, i64)>,
    o: OverviewResponse,
    pin: Seq<char>,
    ready: bool,
    db_bytes: u64,
    now: i64,
) -> bool {
    &&& o.pin@ == pin
    &&& o.health.ok
    &&& o.health.ready == ready
    &&& o.db_bytes == db_bytes
    &&& o.stats.agents == s.agents.len() && o.stats.channels == s.channels.len() && o.stats.messages
        == s.messages.len()
    &&& agents_listed(s, p, now, o.agents@)
    &&& o.channels@.len() == order_by_key(s.channels.len(), channel_names(s)).len()
    &&& forall|t: int|
        0 <= t < o.channels@.len() ==> admin_info_is(
            #[trigger] o.channels@[t],
            s,
            order_by_key(s.channels.len(), channel_names(s))[t],
        )
    &&& summaries_are(
        s,
        o.open_questions@,
        open_ids(s, MessageKind::Question, "operator"@, false, None, None, true, s.messages.len() as int),
    )
    &&& summaries_are(
        s,
        o.open_tasks@,
        open_ids(s, MessageKind::Task, "operator"@, false, None, None, true, s.messages.len() as int),
    )
}

/// The front page over the hub as it stands.
fn overview_report(hub: &Hub, pin: &str, ready: bool, db_bytes: u64, now: i64) -> (r: Result<OverviewResponse, u16>)
    requires
        hub.store@.wf(),
        hub.store@.agents.len() < i64::MAX,
        hub.store@.subs.len() < i64::MAX,
    ensures
        r matches Ok(o) && overview_is(hub.store@, hub.presence@, o, pin@, ready, db_bytes, now),
{
    let op = match operator_handle() {
        Ok(op) => op,
        Err(code) => {
            return Err(code);
        },
    };
    let stats = match hub.global_stats() {
        Ok(g) => g,
        Err(e) => {
            return Err(crate::web::err_status(&e));
        },
    };
    let agents = match hub.list_agents(now) {
        Ok(a) => a,
        Err(e) => {
            return Err(crate::web::err_status(&e));
        },
    };
    let channels = match hub.admin_channels() {
        Ok(c) => c,
        Err(e) => {
            return Err(crate::web::err_status(&e));
        },
    };
    let open_questions = hub.open_of_kind(MessageKind::Question, &op, false, None, None, true);
    let open_tasks = hub.open_of_kind(MessageKind::Task, &op, false, None, None, true);
    Ok(
        OverviewResponse {
            pin: crate::text::owned(pin),
            health: OverviewHealth { ok: true, ready },
            db_bytes,
            stats,
            agents,
            channels,
            open_questions,
            open_tasks,
        },
    )
}

/// The front page as of `now`, the operator made sure of with `op_hash`
/// as its stored hash (see `Hub::ensure_operator_from`): 500, with nothing
/// changed, exactly when the operator is missing and some agent holds
/// that hash.
pub fn overview_from(
    hub: &mut Hub,
    pin: &str,
    ready: bool,
    db_bytes: u64,
    op_hash: Vec<u8>,
    now: i64,
) -> (r: Result<OverviewResponse, u16>)
    requires
        old(hub).store@.wf(),
        old(hub).store@.agents.len() + 1 < i64::MAX,
        old(hub).store@.subs.len() < i64::MAX,
        op_hash@.len() == 32,
    ensures
        final(hub).store@.wf(),
        final(hub).presence == old(hub).presence,
        (r is Err) == (agent_index(old(hub).store@, "operator"@) is None && hash_held(old(hub).store@, op_hash@)),
        r is Err ==> r == Err::<OverviewResponse, u16>(INTERNAL_ERROR) && final(hub).store@ == old(
            hub,
        ).store@,
        r is Ok ==> operator_outcome(old(hub).store@, final(hub).store@, Ok(()), op_hash@, now),
        r matches Ok(o) ==> overview_is(final(hub).store@, final(hub).presence@, o, pin@, ready, db_bytes, now),
{
    let ghost h = op_hash@;
    match hub.ensure_operator_from(op_hash, now) {
        Ok(()) => overview_report(hub, pin, ready, db_bytes, now),
        Err(_) => Err(INTERNAL_ERROR),
    }
}

/// Everything the dashboard's front page shows, as of `now` (see
/// `overview_is`); the operator is made sure to exist first, its stored
/// hash 32 random bytes as `overview_from` takes them, 500 when no random
/// bytes could be had for a missing operator.
pub fn overview(hub: &mut Hub, pin: &str, ready: bool, db_bytes: u64, now: i64) -> (r: Result<OverviewResponse, u16>)
    requires
        old(hub).store@.wf(),
        old(hub).store@.agents.len() + 1 < i64::MAX,
        old(hub).store@.subs.len() < i64::MAX,
    ensures
        final(hub).store@.wf(),
        r is Ok ==> operator_ensured(old(hub).store@, final(hub).store@, now),
        r is Err ==> r == Err::<OverviewResponse, u16>(INTERNAL_ERROR) && final(hub).store@ == old(
            hub,
        ).store@ && agent_index(old(hub).store@, "operator"@) is None,
        r matches Ok(o) ==> overview_is(final(hub).store@, final(hub).presence@, o, pin@, ready, db_bytes, now),
{
    let ghost s0 = hub.store@;
    let ro = hub.ensure_operator(now);
    if let Err(e) = ro {
        let code = crate::web::err_status(&e);
        assert(operator_step(s0, hub.store@, ro, now));
        return Err(code);
    }
    overview_report(hub, pin, ready, db_bytes, now)
}

/// `provision` with the token made from `bytes` (see `Hub::provision_from`).
pub fn provision_from(
    hub: &mut Hub,
    owner: Option<&str>,
    caller: Option<&str>,
    body: &ProvisionRequest,
    bytes: &[u8],
    now: i64,
) -> (r: Result<ProvisionResponse, u16>)
    requires
        old(hub).store@.wf(),
        bytes@.len() == 32,
    ensures
        final(hub).store@.wf(),
        exists|rr: Result<(String, String), u16>|
            provision_outcome(
                old(hub).store@,
                final(hub).store@,
                rr,
                opt_str_view(owner),
                opt_str_view(caller),
                body.handle@,
                bytes@,
                now,
            ) && match rr {
                Ok(v) => r matches Ok(pr) && pr.handle@ == v.0@ && pr.token@ == v.1@,
                Err(c) => r == Err::<ProvisionResponse, u16>(c),
            },
{
    let rr = hub.provision_from(owner, caller, body.handle.as_str(), bytes, now);
    let ghost g = rr;
    match rr {
        Ok((handle, token)) => Ok(ProvisionResponse { handle, token }),
        Err(code) => Err(code),
    }
}

/// Provisions a new agent for the tailnet owner (see `Hub::provision`).
pub fn provision(
    hub: &mut Hub,
    owner: Option<&str>,
    caller: Option<&str>,
    body: &ProvisionRequest,
    now: i64,
) -> (r: Result<ProvisionResponse, u16>)
    requires
        old(hub).store@.wf(),
    ensures
        final(hub).store@.wf(),
        ({
            let s = old(hub).store@;
            let h = normalized_handle(body.handle@);
            if !(owner is Some && crate::web::or_empty(opt_str_view(caller)) == opt_str_view(owner)->0) {
                r == Err::<ProvisionResponse, u16>(crate::web::FORBIDDEN) && final(hub).store@ == s
            } else if !valid_handle(h) {
                r == Err::<ProvisionResponse, u16>(BAD_REQUEST) && final(hub).store@ == s
            } else if agent_index(s, h) is Some {
                r == Err::<ProvisionResponse, u16>(crate::web::CONFLICT) && final(hub).store@ == s
            } else {
                (r == Err::<ProvisionResponse, u16>(INTERNAL_ERROR) && final(hub).store@ == s) || (
                r matches Ok(v) && v.handle@ == h && is_token_text(v.token@) && final(hub).store@
                    == StoreV {
                    agents: s.agents.push(
                        AgentV {
                            handle: h,
                            kind: AgentKind::Agent,
                            token_hash: token_hash(v.token@),
                            token_revoked: None,
                            role: None,
                            last_seen_at: 0,
                            created_at: now,
                        },
                    ),
                    ..s
                })
            }
        }),
{
    match hub.provision(owner, caller, body.handle.as_str(), now) {
        Ok((handle, token)) => Ok(ProvisionResponse { handle, token }),
        Err(code) => Err(code),
    }
}

} // verus!
