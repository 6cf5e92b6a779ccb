//! The hub: the tables, who is present, and how many long-polls each agent
//! has open.
use crate::presence::{Presence, WaitCounts};
use crate::store::Store;
use vstd::prelude::*;

verus! {

/// How long an agent counts as online after it was last seen.
pub const PRESENCE_WINDOW_SECS: u64 = 90;

pub struct Hub {
    pub store: Store,
    pub presence: Presence,
    pub waits: WaitCounts,
}

#[verifier::external_type_specification]
#[verifier::external_body]
pub struct ExSystemTime(std::time::SystemTime);

/// Calls std's `SystemTime::now`.  Nothing is claimed of the value: it is
/// whatever the machine's clock says.
#[verifier::external_body]
fn system_now() -> std::time::SystemTime {
    std::time::SystemTime::now()
}

/// Calls std's `SystemTime::duration_since` with `UNIX_EPOCH`: the time
/// since the Unix epoch, `None` when `t` is before it.  Nothing is claimed
/// of the value, which depends on the clock.
#[verifier::external_body]
fn since_epoch(t: &std::time::SystemTime) -> Option<std::time::Duration> {
    t.duration_since(std::time::UNIX_EPOCH).ok()
}

/// Calls std's `Duration::as_millis`: the whole milliseconds in `d`.
/// Nothing is claimed of the value: `Duration` is opaque here.
#[verifier::external_body]
fn whole_millis(d: &std::time::Duration) -> u128 {
    d.as_millis()
}

impl Hub {
    /// An empty hub, held in memory.
    pub fn new_in_memory() -> (r: Hub)
        ensures
            r.store@.wf(),
            r.store@.agents.len() == 0,
            r.store@.channels.len() == 0,
            r.store@.subs.len() == 0,
            r.store@.messages.len() == 0,
            r.store@.issues.len() == 0,
            r.presence@ == Map::<Seq<char>, (bool, i64)>::empty(),
            r.waits@ == Map::<Seq<char>, u32>::empty(),
    {
        Hub { store: Store::new(), presence: Presence::new(), waits: WaitCounts::new() }
    }

    /// The current time in milliseconds since the Unix epoch: 0 when the
    /// clock is before the epoch, `i64::MAX` when it is past what fits.
    pub fn now_ms(&self) -> (r: i64)
        ensures
            r >= 0,
    {
        match since_epoch(&system_now()) {
            Some(d) => {
                let ms = whole_millis(&d);
                if ms > i64::MAX as u128 {
                    i64::MAX
                } else {
                    ms as i64
                }
            },
            None => 0,
        }
    }
}

} // verus!
