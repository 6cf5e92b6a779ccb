//! The server's settings, how loosely written switches are read, and the
//! startup check on the public tunnel.
use crate::text::{ascii_lower, ascii_lowercase, owned, str_eq, trim_str, trimmed};
use vstd::prelude::*;

verus! {

/// Where the hub keeps its data and how the server listens.
pub struct Config {
    pub db_path: String,
    pub bind: String,
    pub dev_no_auth: bool,
    pub allow_funnel: bool,
}

/// The data file used when none is configured.
pub fn default_db() -> (r: String)
    ensures
        r@ == "babylon.db"@,
{
    owned("babylon.db")
}

/// The address the server listens on when none is configured.
pub fn default_bind() -> (r: String)
    ensures
        r@ == "127.0.0.1:8787"@,
{
    owned("127.0.0.1:8787")
}

/// A switch as written in a settings file or the environment.
pub enum LenientBool {
    Bool(bool),
    Int(i64),
    Str(String),
}

/// What a written switch means: a boolean as itself, a number as "not
/// zero", and a text (trimmed, case ignored) `1`, `true`, `yes` or `on` as
/// on and `0`, `false`, `no`, `off` or nothing as off; any other text is
/// refused, with the trimmed lower-cased text.
pub open spec fn lenient_meaning(raw: LenientBool) -> Result<bool, Seq<char>> {
    match raw {
        LenientBool::Bool(b) => Ok(b),
        LenientBool::Int(n) => Ok(n != 0),
        LenientBool::Str(s) => {
            let t = ascii_lower(trimmed(s@));
            if t == "1"@ || t == "true"@ || t == "yes"@ || t == "on"@ {
                Ok(true)
            } else if t == "0"@ || t == "false"@ || t == "no"@ || t == "off"@ || t == ""@ {
                Ok(false)
            } else {
                Err(t)
            }
        },
    }
}

/// Reads a written switch (see `lenient_meaning`).
pub fn lenient_bool(raw: &LenientBool) -> (r: Result<bool, String>)
    ensures
        match lenient_meaning(*raw) {
            Ok(b) => r == Ok::<bool, String>(b),
            Err(t) => r matches Err(x) && x@ == t,
        },
{
    match raw {
        LenientBool::Bool(b) => Ok(*b),
        LenientBool::Int(n) => Ok(*n != 0),
        LenientBool::Str(s) => {
            let t = ascii_lowercase(trim_str(s.as_str()));
            let ts = t.as_str();
            if str_eq(ts, "1") || str_eq(ts, "true") || str_eq(ts, "yes") || str_eq(ts, "on") {
                Ok(true)
            } else if str_eq(ts, "0") || str_eq(ts, "false") || str_eq(ts, "no") || str_eq(ts, "off")
                || str_eq(ts, "") {
                Ok(false)
            } else {
                Err(t)
            }
        },
    }
}

/// What starting the server does about the public tunnel.
pub enum FunnelCheck {
    /// Loopback development mode: the check is skipped.
    SkipDevMode,
    /// The operator allowed a public tunnel: the check is skipped.
    SkipAllowed,
    /// Ask the tunnel whether it is public, then decide with
    /// `check_funnel_prod`.
    Probe,
}

/// Why the server refuses to start.
pub enum FunnelRefusal {
    /// The tunnel is public.
    Active,
    /// Whether the tunnel is public cannot be told.
    Unknown,
}

/// What starting with settings `cfg` does about the public tunnel.
pub fn check_funnel(cfg: &Config) -> (r: FunnelCheck)
    ensures
        r == if cfg.dev_no_auth {
            FunnelCheck::SkipDevMode
        } else if cfg.allow_funnel {
            FunnelCheck::SkipAllowed
        } else {
            FunnelCheck::Probe
        },
{
    if cfg.dev_no_auth {
        FunnelCheck::SkipDevMode
    } else if cfg.allow_funnel {
        FunnelCheck::SkipAllowed
    } else {
        FunnelCheck::Probe
    }
}

/// Whether the server may start given what the tunnel said: `Some(true)`
/// when it is public, `None` when that could not be told.
pub fn check_funnel_prod(funnel_active: Option<bool>) -> (r: Result<(), FunnelRefusal>)
    ensures
        r == match funnel_active {
            Some(true) => Err(FunnelRefusal::Active),
            Some(false) => Ok(()),
            None => Err::<(), FunnelRefusal>(FunnelRefusal::Unknown),
        },
{
    match funnel_active {
        Some(true) => reject_funnel_active(),
        Some(false) => Ok(()),
        None => reject_funnel_unknown(),
    }
}

/// A JSON value, as far as the library reads one: a boolean, an object
/// with its members in order, or anything else.
pub enum JsonV {
    Bool(bool),
    Object(Vec<(String, JsonV)>),
    Other,
}

#[verifier::external_type_specification]
#[verifier::external_body]
pub struct ExJsonValue(serde_json::Value);

/// The JSON value `bytes` hold, `None` when they hold none.
pub uninterp spec fn json_parse(bytes: Seq<u8>) -> Option<JsonV>;

/// Calls `serde_json::from_slice` into a `serde_json::Value` and converts
/// what it gives to a `JsonV`; what it returns is named `json_parse`: it
/// depends on the bytes alone.
#[verifier::external_body]
fn parse_json(bytes: &[u8]) -> (r: Option<JsonV>)
    ensures
        r == json_parse(bytes@),
{
    match serde_json::from_slice::<serde_json::Value>(bytes) {
        Ok(v) => Some(json_model(v)),
        Err(_) => None,
    }
}

/// Converts a `serde_json::Value` to a `JsonV`, one variant for one, an
/// object member by member.
#[verifier::external_body]
fn json_model(v: serde_json::Value) -> JsonV {
    match v {
        serde_json::Value::Bool(b) => JsonV::Bool(b),
        serde_json::Value::Object(m) => {
            let mut members = Vec::new();
            for (k, x) in m {
                members.push((k, json_model(x)));
            }
            JsonV::Object(members)
        },
        serde_json::Value::Null => JsonV::Other,
        serde_json::Value::Number(_) => JsonV::Other,
        serde_json::Value::String(_) => JsonV::Other,
        serde_json::Value::Array(_) => JsonV::Other,
    }
}

/// The value of the first member named `key` among `members` from `k` on.
pub open spec fn member_from(members: Seq<(String, JsonV)>, key: Seq<char>, k: int) -> Option<JsonV>
    decreases members.len() - k,
{
    if k < 0 || k >= members.len() {
        None
    } else if members[k].0@ == key {
        Some(members[k].1)
    } else {
        member_from(members, key, k + 1)
    }
}

/// Whether the answer of `tailscale serve status --json` says the tunnel is
/// public: it is an object whose `AllowFunnel` member is an object with
/// some member `true`.
pub open spec fn funnel_on(v: JsonV) -> bool {
    match v {
        JsonV::Object(members) => match member_from(members@, "AllowFunnel"@, 0) {
            Some(JsonV::Object(flags)) => exists|i: int|
                0 <= i < flags@.len() && flags@[i].1 == JsonV::Bool(true),
            _ => false,
        },
        _ => false,
    }
}

/// The member named `key` of `members`, if any.
fn member<'a>(members: &'a Vec<(String, JsonV)>, key: &str) -> (r: Option<&'a JsonV>)
    ensures
        match r {
            Some(v) => member_from(members@, key@, 0) == Some(*v),
            None => member_from(members@, key@, 0) is None,
        },
{
    let mut k: usize = 0;
    while k < members.len()
        invariant
            k <= members@.len(),
            member_from(members@, key@, 0) == member_from(members@, key@, k as int),
        decreases members.len() - k,
    {
        if str_eq(members[k].0.as_str(), key) {
            return Some(&members[k].1);
        }
        k = k + 1;
    }
    None
}

/// Whether some member of `flags` is `true`.
fn some_true(flags: &Vec<(String, JsonV)>) -> (r: bool)
    ensures
        r == exists|i: int| 0 <= i < flags@.len() && flags@[i].1 == JsonV::Bool(true),
{
    let mut i: usize = 0;
    while i < flags.len()
        invariant
            i <= flags@.len(),
            forall|j: int| 0 <= j < i ==> flags@[j].1 != JsonV::Bool(true),
        decreases flags.len() - i,
    {
        if let JsonV::Bool(true) = &flags[i].1 {
            assert(flags@[i as int].1 == JsonV::Bool(true));
            return true;
        }
        i = i + 1;
    }
    false
}

/// Whether the tunnel is public, as told by a run of `tailscale serve
/// status --json` that `success`fully wrote `stdout`: `None` when the run
/// failed or its answer is not JSON, else whether the answer's
/// `AllowFunnel` object holds some `true` (see `funnel_on`).
pub fn funnel_active_from_status(success: bool, stdout: &[u8]) -> (r: Option<bool>)
    ensures
        r == if !success {
            None
        } else {
            match json_parse(stdout@) {
                None => None,
                Some(v) => Some(funnel_on(v)),
            }
        },
{
    if !success {
        return None;
    }
    let v = match parse_json(stdout) {
        Some(v) => v,
        None => {
            return None;
        },
    };
    proof {
        reveal_strlit("AllowFunnel");
    }
    match &v {
        JsonV::Object(members) => match member(members, "AllowFunnel") {
            Some(JsonV::Object(flags)) => Some(some_true(flags)),
            _ => Some(false),
        },
        _ => Some(false),
    }
}

/// The refusal when the tunnel is public.
pub fn reject_funnel_active() -> (r: Result<(), FunnelRefusal>)
    ensures
        r == Err::<(), FunnelRefusal>(FunnelRefusal::Active),
{
    Err(FunnelRefusal::Active)
}

/// The refusal when the tunnel's state cannot be told.
pub fn reject_funnel_unknown() -> (r: Result<(), FunnelRefusal>)
    ensures
        r == Err::<(), FunnelRefusal>(FunnelRefusal::Unknown),
{
    Err(FunnelRefusal::Unknown)
}

impl FunnelRefusal {
    /// What the refusal tells the operator.
    pub fn message(&self) -> (r: String)
        ensures
            r@ == match self {
                FunnelRefusal::Active => "tailscale Funnel is active; set BABYLON_ALLOW_FUNNEL=1 to override or disable Funnel"@,
                FunnelRefusal::Unknown => "cannot verify tailscale funnel status (CLI missing or parse failure); set BABYLON_ALLOW_FUNNEL=1 to skip"@,
            },
    {
        match self {
            FunnelRefusal::Active => owned(
                "tailscale Funnel is active; set BABYLON_ALLOW_FUNNEL=1 to override or disable Funnel",
            ),
            FunnelRefusal::Unknown => owned(
                "cannot verify tailscale funnel status (CLI missing or parse failure); set BABYLON_ALLOW_FUNNEL=1 to skip",
            ),
        }
    }
}

} // verus!
