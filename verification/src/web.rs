//! The perimeter's rules: which hosts count as this server, who may use
//! the operator's dashboard, the anti-forgery check on its writes, and what
//! status each refusal is answered with.
use crate::error::Error;
use crate::store::opt_view;
use crate::text::{owned, str_eq, trim_str, trimmed};
use crate::types::{message_kind_name, AgentKind, MessageKind};
use vstd::prelude::*;

verus! {

/// Index of the first `c` in `s` at or after `k`.
pub open spec fn find_char(s: Seq<char>, c: char, k: int) -> Option<int>
    decreases s.len() - k,
{
    if k < 0 || k >= s.len() {
        None
    } else if s[k] == c {
        Some(k)
    } else {
        find_char(s, c, k + 1)
    }
}

/// Index of the first `/`, `?` or `#` in `s` at or after `k`.
pub open spec fn find_path_start(s: Seq<char>, k: int) -> Option<int>
    decreases s.len() - k,
{
    if k < 0 || k >= s.len() {
        None
    } else if s[k] == '/' || s[k] == '?' || s[k] == '#' {
        Some(k)
    } else {
        find_path_start(s, k + 1)
    }
}

/// Index of the first `://` in `s` at or after `k`.
pub open spec fn find_scheme_end(s: Seq<char>, k: int) -> Option<int>
    decreases s.len() - k,
{
    if k < 0 || k + 3 > s.len() {
        None
    } else if s[k] == ':' && s[k + 1] == '/' && s[k + 2] == '/' {
        Some(k)
    } else {
        find_scheme_end(s, k + 1)
    }
}

/// Index of the last `c` among the first `k` characters of `s`.
pub open spec fn rfind_char(s: Seq<char>, c: char, k: int) -> Option<int>
    decreases k,
{
    if k <= 0 || k > s.len() {
        None
    } else if s[k - 1] == c {
        Some(k - 1)
    } else {
        rfind_char(s, c, k - 1)
    }
}

/// The host a Host header, an Origin or a configured name designates: the
/// text trimmed, without a scheme (up to `://`), a path, query or fragment,
/// and a port; an IPv6 address loses its brackets.
pub open spec fn host_of(value: Seq<char>) -> Seq<char> {
    let v = trimmed(value);
    let ws = match find_scheme_end(v, 0) {
        Some(i) => v.subrange(i + 3, v.len() as int),
        None => v,
    };
    let hp = match find_path_start(ws, 0) {
        Some(i) => ws.subrange(0, i),
        None => ws,
    };
    if hp.len() > 0 && hp[0] == '[' {
        let st = hp.drop_first();
        match find_char(st, ']', 0) {
            Some(i) => st.subrange(0, i),
            None => st,
        }
    } else {
        match rfind_char(hp, ':', hp.len() as int) {
            Some(i) => hp.subrange(0, i),
            None => hp,
        }
    }
}

/// The loopback names: `127.0.0.1`, `localhost` and `::1`.
pub open spec fn loopback(host: Seq<char>) -> bool {
    host == "127.0.0.1"@ || host == "localhost"@ || host == "::1"@
}

/// Whether `host` may reach the dashboard: a loopback name, or the host of
/// one of the configured names.
pub open spec fn allowed_host(host: Seq<char>, allowed: Seq<String>) -> bool {
    loopback(host) || exists|i: int| 0 <= i < allowed.len() && host_of(#[trigger] allowed[i]@) == host
}

/// The host part of a bind address: what comes before its last `:`.
pub open spec fn bind_host(bind: Seq<char>) -> Seq<char> {
    match rfind_char(bind, ':', bind.len() as int) {
        Some(i) => bind.subrange(0, i),
        None => bind,
    }
}

pub proof fn lemma_find_char_range(s: Seq<char>, c: char, k: int)
    ensures
        find_char(s, c, k) matches Some(i) ==> k <= i < s.len() && s[i] == c,
    decreases s.len() - k,
{
    if 0 <= k < s.len() && s[k] != c {
        lemma_find_char_range(s, c, k + 1);
    }
}

/// `find_char(s@, c, k)`, computed.
fn find_char_from(s: &str, c: char, k: usize) -> (r: Option<usize>)
    ensures
        match r {
            Some(i) => find_char(s@, c, k as int) == Some(i as int),
            None => find_char(s@, c, k as int) is None,
        },
{
    let n = s.unicode_len();
    let mut i = k;
    while i < n
        invariant
            n == s@.len(),
            k <= i,
            find_char(s@, c, k as int) == find_char(s@, c, i as int),
        decreases n - i,
    {
        if s.get_char(i) == c {
            return Some(i);
        }
        i = i + 1;
    }
    None
}

/// `find_path_start(s@, 0)`, computed.
fn find_path_start_of(s: &str) -> (r: Option<usize>)
    ensures
        match r {
            Some(i) => find_path_start(s@, 0) == Some(i as int) && i <= s@.len(),
            None => find_path_start(s@, 0) is None,
        },
{
    let n = s.unicode_len();
    let mut i: usize = 0;
    while i < n
        invariant
            n == s@.len(),
            i <= n,
            find_path_start(s@, 0) == find_path_start(s@, i as int),
        decreases n - i,
    {
        let c = s.get_char(i);
        if c == '/' || c == '?' || c == '#' {
            return Some(i);
        }
        i = i + 1;
    }
    None
}

/// `find_scheme_end(s@, 0)`, computed.
fn find_scheme_end_of(s: &str) -> (r: Option<usize>)
    ensures
        match r {
            Some(i) => find_scheme_end(s@, 0) == Some(i as int) && i + 3 <= s@.len(),
            None => find_scheme_end(s@, 0) is None,
        },
{
    let n = s.unicode_len();
    let mut i: usize = 0;
    while i < n && n - i >= 3
        invariant
            n == s@.len(),
            i <= n,
            find_scheme_end(s@, 0) == find_scheme_end(s@, i as int),
        decreases n - i,
    {
        if s.get_char(i) == ':' && s.get_char(i + 1) == '/' && s.get_char(i + 2) == '/' {
            return Some(i);
        }
        i = i + 1;
    }
    None
}

/// `rfind_char(s@, c, s@.len())`, computed.
fn rfind_char_of(s: &str, c: char) -> (r: Option<usize>)
    ensures
        match r {
            Some(i) => rfind_char(s@, c, s@.len() as int) == Some(i as int) && i < s@.len(),
            None => rfind_char(s@, c, s@.len() as int) is None,
        },
{
    let n = s.unicode_len();
    let mut k: usize = n;
    while k > 0
        invariant
            n == s@.len(),
            k <= n,
            rfind_char(s@, c, n as int) == rfind_char(s@, c, k as int),
        decreases k,
    {
        if s.get_char(k - 1) == c {
            return Some(k - 1);
        }
        k = k - 1;
    }
    None
}

/// The host `value` designates (see `host_of`).
pub fn host_only(value: &str) -> (r: String)
    ensures
        r@ == host_of(value@),
{
    let v = trim_str(value);
    let vn = v.unicode_len();
    let ws: &str = match find_scheme_end_of(v) {
        Some(i) => v.substring_char(i + 3, vn),
        None => v,
    };
    let wn = ws.unicode_len();
    let hp: &str = match find_path_start_of(ws) {
        Some(i) => ws.substring_char(0, i),
        None => ws,
    };
    let hn = hp.unicode_len();
    if hn > 0 && hp.get_char(0) == '[' {
        let st = hp.substring_char(1, hn);
        assert(st@ =~= hp@.drop_first());
        let sn = st.unicode_len();
        match find_char_from(st, ']', 0) {
            Some(i) => {
                proof {
                    lemma_find_char_range(st@, ']', 0);
                }
                owned(st.substring_char(0, i))
            },
            None => owned(st),
        }
    } else {
        match rfind_char_of(hp, ':') {
            Some(i) => owned(hp.substring_char(0, i)),
            None => owned(hp),
        }
    }
}

/// Whether `host` is a loopback name.
pub fn is_loopback(host: &str) -> (r: bool)
    ensures
        r == loopback(host@),
{
    str_eq(host, "127.0.0.1") || str_eq(host, "localhost") || str_eq(host, "::1")
}

/// Whether `host` may reach the dashboard (see `allowed_host`).
pub fn host_allowed(host: &str, allowed: &[String]) -> (r: bool)
    ensures
        r == allowed_host(host@, allowed@),
{
    if is_loopback(host) {
        return true;
    }
    let mut i: usize = 0;
    while i < allowed.len()
        invariant
            i <= allowed@.len(),
            forall|j: int| 0 <= j < i ==> host_of(#[trigger] allowed@[j]@) != host@,
        decreases allowed.len() - i,
    {
        let h = host_only(allowed[i].as_str());
        if str_eq(h.as_str(), host) {
            assert(host_of(allowed@[i as int]@) == host@);
            return true;
        }
        i = i + 1;
    }
    false
}

/// Whether a server bound to `bind` may run without authentication: only
/// when it listens on a loopback name.
pub fn dev_no_auth_allowed(bind: &str) -> (r: bool)
    ensures
        r == loopback(bind_host(bind@)),
{
    match rfind_char_of(bind, ':') {
        Some(i) => is_loopback(bind.substring_char(0, i)),
        None => is_loopback(bind),
    }
}

/// Whether `a` and `b` are the same text, comparing every byte whatever
/// the first difference.
pub fn ct_eq(a: &str, b: &str) -> (r: bool)
    ensures
        r == (a@ == b@),
{
    let x = a.as_bytes();
    let y = b.as_bytes();
    proof {
        vstd::utf8::encode_utf8_decode_utf8(a@);
        vstd::utf8::encode_utf8_decode_utf8(b@);
    }
    if x.len() != y.len() {
        return false;
    }
    let n = x.len();
    let mut acc: u8 = 0;
    let mut i: usize = 0;
    assert(x@.take(0) =~= y@.take(0));
    while i < n
        invariant
            n == x@.len(),
            n == y@.len(),
            i <= n,
            (acc == 0) == (x@.take(i as int) == y@.take(i as int)),
        decreases n - i,
    {
        let p = x[i];
        let q = y[i];
        let next = acc | (p ^ q);
        assert((next == 0) == (acc == 0 && p == q)) by (bit_vector)
            requires
                next == acc | (p ^ q),
        ;
        proof {
            assert(x@.take(i + 1) =~= x@.take(i as int).push(p));
            assert(y@.take(i + 1) =~= y@.take(i as int).push(q));
            if x@.take(i + 1) == y@.take(i + 1) {
                assert(x@.take(i + 1)[i as int] == y@.take(i + 1)[i as int]);
                assert(x@.take(i as int) =~= x@.take(i + 1).drop_last());
                assert(y@.take(i as int) =~= y@.take(i + 1).drop_last());
            }
        }
        acc = next;
        i = i + 1;
    }
    proof {
        assert(x@.take(n as int) =~= x@);
        assert(y@.take(n as int) =~= y@);
    }
    acc == 0
}


/// The status a refused request is answered with: bad request.
pub const BAD_REQUEST: u16 = 400;

/// The status a refused request is answered with: no valid credentials.
pub const UNAUTHORIZED: u16 = 401;

/// The status a refused request is answered with: not allowed.
pub const FORBIDDEN: u16 = 403;

/// The status a refused request is answered with: no such thing.
pub const NOT_FOUND: u16 = 404;

/// The status a refused request is answered with: already exists.
pub const CONFLICT: u16 = 409;

/// The status a refused request is answered with: the server failed.
pub const INTERNAL_ERROR: u16 = 500;

/// The value of cookie `name` in a `Cookie` header, looking at the
/// `;`-separated pairs from position `start` on: the first pair with an `=`
/// whose trimmed key is `name` gives its trimmed value.
pub open spec fn cookie_from(s: Seq<char>, name: Seq<char>, start: int) -> Option<Seq<char>>
    decreases s.len() - start,
{
    if start < 0 || start > s.len() {
        None
    } else {
        let end = match find_char(s, ';', start) {
            Some(i) => i,
            None => s.len() as int,
        };
        let seg = s.subrange(start, end);
        let here = match find_char(seg, '=', 0) {
            Some(e) => if trimmed(seg.subrange(0, e)) == name {
                Some(trimmed(seg.subrange(e + 1, seg.len() as int)))
            } else {
                None
            },
            None => None,
        };
        if here is Some {
            here
        } else if end < s.len() {
            proof {
                lemma_find_char_range(s, ';', start);
            }
            cookie_from(s, name, end + 1)
        } else {
            None
        }
    }
}

/// The text of an optional header, the empty text when it is absent.
pub open spec fn or_empty(o: Option<Seq<char>>) -> Seq<char> {
    match o {
        Some(x) => x,
        None => seq![],
    }
}

/// Whether a dashboard write passes the anti-forgery check: an Origin, when
/// sent, names an allowed host; and the `babylon_csrf` cookie and the
/// `x-babylon-csrf` header are both present, non-empty and equal.
pub open spec fn csrf_ok(
    origin: Option<Seq<char>>,
    cookie_header: Option<Seq<char>>,
    csrf_header: Option<Seq<char>>,
    allowed: Seq<String>,
) -> bool {
    let origin_ok = match origin {
        Some(o) => allowed_host(host_of(o), allowed),
        None => true,
    };
    let cookie = match cookie_header {
        Some(c) => or_empty(cookie_from(c, "babylon_csrf"@, 0)),
        None => seq![],
    };
    let tok = or_empty(csrf_header);
    origin_ok && cookie.len() > 0 && tok.len() > 0 && cookie == tok
}

/// Whether a dashboard request may proceed: an owner is configured and is
/// the caller, the Host is allowed, and a write passes the anti-forgery
/// check.
pub open spec fn dashboard_allows(
    owner: Option<Seq<char>>,
    caller: Option<Seq<char>>,
    host_header: Option<Seq<char>>,
    is_post: bool,
    origin: Option<Seq<char>>,
    cookie_header: Option<Seq<char>>,
    csrf_header: Option<Seq<char>>,
    allowed: Seq<String>,
) -> bool {
    let host = match host_header {
        Some(h) => host_of(h),
        None => seq![],
    };
    &&& owner is Some
    &&& or_empty(caller) == owner->0
    &&& allowed_host(host, allowed)
    &&& (is_post ==> csrf_ok(origin, cookie_header, csrf_header, allowed))
}

/// The status each refusal of the hub is answered with on the dashboard.
pub open spec fn status_of(e: Error) -> u16 {
    match e {
        Error::UnknownHandle(_) | Error::UnknownChannel(_) | Error::UnknownIssue(_) => NOT_FOUND,
        Error::HandleExists(_) | Error::ChannelExists(_) | Error::DuplicatePrefix(_) => CONFLICT,
        Error::NotAuthorized(_) | Error::NotAuthorizedToResolve(_) | Error::Unauthorized
        | Error::TokenRevoked => FORBIDDEN,
        Error::RandomUnavailable => INTERNAL_ERROR,
        _ => BAD_REQUEST,
    }
}

/// The value of cookie `name` in the `Cookie` header, if it has one.
pub fn cookie_value(cookie_header: Option<&str>, name: &str) -> (r: Option<String>)
    ensures
        opt_view(r) == match cookie_header {
            Some(c) => cookie_from(c@, name@, 0),
            None => None,
        },
{
    let raw = match cookie_header {
        Some(c) => c,
        None => {
            return None;
        },
    };
    let n = raw.unicode_len();
    let mut start: usize = 0;
    while start <= n
        invariant
            n == raw@.len(),
            opt_str_view(cookie_header) == Some(raw@),
            cookie_from(raw@, name@, 0) == cookie_from(raw@, name@, start as int),
        decreases n + 1 - start,
    {
        let end = match find_char_from(raw, ';', start) {
            Some(i) => i,
            None => n,
        };
        proof {
            lemma_find_char_range(raw@, ';', start as int);
        }
        let seg = raw.substring_char(start, end);
        assert(seg@ == raw@.subrange(start as int, end as int));
        assert(end == match find_char(raw@, ';', start as int) {
            Some(i) => i,
            None => raw@.len() as int,
        });
        let sn = seg.unicode_len();
        let ghost here = match find_char(seg@, '=', 0) {
            Some(e) => if trimmed(seg@.subrange(0, e)) == name@ {
                Some(trimmed(seg@.subrange(e + 1, seg@.len() as int)))
            } else {
                None
            },
            None => None,
        };
        match find_char_from(seg, '=', 0) {
            Some(e) => {
                proof {
                    lemma_find_char_range(seg@, '=', 0);
                }
                let key = trim_str(seg.substring_char(0, e));
                if str_eq(key, name) {
                    let v = owned(trim_str(seg.substring_char(e + 1, sn)));
                    assert(here == Some(v@));
                    assert(cookie_from(raw@, name@, start as int) == here);
                    return Some(v);
                }
            },
            None => {},
        }
        assert(here is None);
        if end < n {
            start = end + 1;
        } else {
            return None;
        }
    }
    None
}

/// The anti-forgery check of a dashboard write (see `csrf_ok`): refused
/// with 403.
pub fn check_csrf(
    origin: Option<&str>,
    cookie_header: Option<&str>,
    csrf_header: Option<&str>,
    allowed_hosts: &[String],
) -> (r: Result<(), u16>)
    ensures
        r == if csrf_ok(
            opt_str_view(origin),
            opt_str_view(cookie_header),
            opt_str_view(csrf_header),
            allowed_hosts@,
        ) {
            Ok::<(), u16>(())
        } else {
            Err(FORBIDDEN)
        },
{
    if let Some(o) = origin {
        let oh = host_only(o);
        if !host_allowed(oh.as_str(), allowed_hosts) {
            return Err(FORBIDDEN);
        }
    }
    let cookie = cookie_value(cookie_header, "babylon_csrf");
    proof {
        reveal_strlit("babylon_csrf");
    }
    let c: &str = match &cookie {
        Some(x) => x.as_str(),
        None => "",
    };
    let t: &str = match csrf_header {
        Some(x) => x,
        None => "",
    };
    proof {
        reveal_strlit("");
    }
    if c.unicode_len() == 0 || t.unicode_len() == 0 || !ct_eq(c, t) {
        return Err(FORBIDDEN);
    }
    Ok(())
}

/// The `Set-Cookie` value that hands the dashboard its anti-forgery token
/// for a day, to same-site requests over HTTPS only.
pub fn csrf_cookie(token: &str) -> (r: String)
    ensures
        r@ == "babylon_csrf="@ + token@ + "; SameSite=Strict; Secure; Path=/; Max-Age=86400"@,
{
    let head = crate::text::concat(owned("babylon_csrf="), token);
    crate::text::concat(head, "; SameSite=Strict; Secure; Path=/; Max-Age=86400")
}

/// The view of an optional text.
pub open spec fn opt_str_view(o: Option<&str>) -> Option<Seq<char>> {
    match o {
        Some(x) => Some(x@),
        None => None,
    }
}

/// Whether a dashboard request may proceed (see `dashboard_allows`):
/// refused with 403.
pub fn dashboard_access(
    owner: Option<&str>,
    caller: Option<&str>,
    host_header: Option<&str>,
    is_post: bool,
    origin: Option<&str>,
    cookie_header: Option<&str>,
    csrf_header: Option<&str>,
    allowed_hosts: &[String],
) -> (r: Result<(), u16>)
    ensures
        r == if dashboard_allows(
            opt_str_view(owner),
            opt_str_view(caller),
            opt_str_view(host_header),
            is_post,
            opt_str_view(origin),
            opt_str_view(cookie_header),
            opt_str_view(csrf_header),
            allowed_hosts@,
        ) {
            Ok::<(), u16>(())
        } else {
            Err(FORBIDDEN)
        },
{
    let o = match owner {
        Some(o) => o,
        None => {
            return Err(FORBIDDEN);
        },
    };
    let c: &str = match caller {
        Some(x) => x,
        None => "",
    };
    proof {
        reveal_strlit("");
    }
    assert(c@ == or_empty(opt_str_view(caller)));
    if !str_eq(c, o) {
        return Err(FORBIDDEN);
    }
    let host = match host_header {
        Some(h) => host_only(h),
        None => owned(""),
    };
    assert(host@ == match opt_str_view(host_header) {
        Some(h) => host_of(h),
        None => seq![],
    });
    if !host_allowed(host.as_str(), allowed_hosts) {
        return Err(FORBIDDEN);
    }
    if is_post {
        return check_csrf(origin, cookie_header, csrf_header, allowed_hosts);
    }
    Ok(())
}

/// The dashboard's status for refusal `e` (see `status_of`).
pub fn err_status(e: &Error) -> (r: u16)
    ensures
        r == status_of(*e),
{
    match e {
        Error::UnknownHandle(_) | Error::UnknownChannel(_) | Error::UnknownIssue(_) => NOT_FOUND,
        Error::HandleExists(_) | Error::ChannelExists(_) | Error::DuplicatePrefix(_) => CONFLICT,
        Error::NotAuthorized(_) | Error::NotAuthorizedToResolve(_) | Error::Unauthorized
        | Error::TokenRevoked => FORBIDDEN,
        Error::RandomUnavailable => INTERNAL_ERROR,
        _ => BAD_REQUEST,
    }
}

/// How many messages a dashboard history page asks for: 50 unless a
/// positive limit is given, and never more than 200.
pub open spec fn dashboard_limit(limit: Option<i64>) -> i64 {
    let l = match limit {
        Some(x) => if x > 0 {
            x
        } else {
            50
        },
        None => 50,
    };
    if l < 200 {
        l
    } else {
        200
    }
}

/// The channel and page size of a dashboard history request: 400 when no
/// channel, or an empty one, is named.
pub fn history_params(channel: Option<&str>, limit: Option<i64>) -> (r: Result<(String, i64), u16>)
    ensures
        match channel {
            Some(c) if c@.len() > 0 => r matches Ok(v) && v.0@ == c@ && v.1 == dashboard_limit(limit),
            _ => r == Err::<(String, i64), u16>(BAD_REQUEST),
        },
{
    let c = match channel {
        Some(c) => c,
        None => {
            return Err(BAD_REQUEST);
        },
    };
    if c.unicode_len() == 0 {
        return Err(BAD_REQUEST);
    }
    let l: i64 = match limit {
        Some(x) => if x > 0 {
            x
        } else {
            50
        },
        None => 50,
    };
    let l = if l < 200 {
        l
    } else {
        200
    };
    Ok((owned(c), l))
}

/// Whether the dashboard accepts a post of kind `kind`: a message kind, and
/// a task only with someone mentioned.
pub open spec fn post_request_ok(kind: Seq<char>, mentions: nat) -> bool {
    &&& exists|k: MessageKind| message_kind_name(k) == kind
    &&& !(kind == "task"@ && mentions == 0)
}

/// The dashboard's check of a post request (see `post_request_ok`):
/// refused with 400.
pub fn post_request_check(kind: &str, mentions: &[String]) -> (r: Result<(), u16>)
    ensures
        r == if post_request_ok(kind@, mentions@.len()) {
            Ok::<(), u16>(())
        } else {
            Err(BAD_REQUEST)
        },
{
    let k = match MessageKind::parse(kind) {
        Ok(k) => k,
        Err(_) => {
            return Err(BAD_REQUEST);
        },
    };
    proof {
        reveal_strlit("task");
        crate::types::lemma_message_kind_names_distinct(k, MessageKind::Task);
    }
    if str_eq(kind, "task") && mentions.len() == 0 {
        return Err(BAD_REQUEST);
    }
    Ok(())
}

/// The kind of agent a dashboard mint asks for: an operator only when it
/// says `operator`.
pub fn mint_kind(kind: Option<&str>) -> (r: AgentKind)
    ensures
        r == if opt_str_view(kind) == Some("operator"@) {
            AgentKind::Operator
        } else {
            AgentKind::Agent
        },
{
    match kind {
        Some(k) => if str_eq(k, "operator") {
            AgentKind::Operator
        } else {
            AgentKind::Agent
        },
        None => AgentKind::Agent,
    }
}

} // verus!
