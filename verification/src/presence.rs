//! Who is present: per handle, whether it is live and when it was last
//! seen; and per handle, how many long-polls it holds open.
use crate::error::Error;
use crate::text::owned;
use dashmap::DashMap;
use vstd::prelude::*;

verus! {

#[verifier::external_type_specification]
#[verifier::external_body]
#[verifier::reject_recursive_types(K)]
#[verifier::reject_recursive_types(V)]
#[verifier::reject_recursive_types(S)]
pub struct ExDashMap<K, V, S>(DashMap<K, V, S>);

/// The entries of a presence map: handle to (live, last seen in ms).
pub uninterp spec fn presence_entries(m: DashMap<String, (bool, i64)>) -> Map<Seq<char>, (bool, i64)>;

/// The entries of a wait-count map: handle to open long-polls.
pub uninterp spec fn wait_entries(m: DashMap<String, u32>) -> Map<Seq<char>, u32>;

/// `DashMap::new`: an empty map.
#[verifier::external_body]
fn presence_map_new() -> (r: DashMap<String, (bool, i64)>)
    ensures
        presence_entries(r) =~= Map::empty(),
{
    DashMap::new()
}

/// `DashMap::get`, copying the value out: the entry for `k`, if any.
#[verifier::external_body]
fn presence_map_get(m: &DashMap<String, (bool, i64)>, k: &str) -> (r: Option<(bool, i64)>)
    ensures
        r == (if presence_entries(*m).contains_key(k@) {
            Some(presence_entries(*m)[k@])
        } else {
            None
        }),
{
    m.get(k).map(|e| *e.value())
}

/// `DashMap::insert`: the entry for `k` set to `v`.
#[verifier::external_body]
fn presence_map_insert(m: &mut DashMap<String, (bool, i64)>, k: String, v: (bool, i64))
    ensures
        presence_entries(*final(m)) == presence_entries(*old(m)).insert(k@, v),
{
    m.insert(k, v);
}

/// `DashMap::new`: an empty map.
#[verifier::external_body]
fn wait_map_new() -> (r: DashMap<String, u32>)
    ensures
        wait_entries(r) =~= Map::empty(),
{
    DashMap::new()
}

/// `DashMap::get`, copying the value out: the entry for `k`, if any.
#[verifier::external_body]
fn wait_map_get(m: &DashMap<String, u32>, k: &str) -> (r: Option<u32>)
    ensures
        r == (if wait_entries(*m).contains_key(k@) {
            Some(wait_entries(*m)[k@])
        } else {
            None
        }),
{
    m.get(k).map(|e| *e.value())
}

/// `DashMap::insert`: the entry for `k` set to `v`.
#[verifier::external_body]
fn wait_map_insert(m: &mut DashMap<String, u32>, k: String, v: u32)
    ensures
        wait_entries(*final(m)) == wait_entries(*old(m)).insert(k@, v),
{
    m.insert(k, v);
}

/// Whether the entry says online at `now`: live and seen no more than
/// `window_secs` whole seconds ago (a time after `now` counts as now).
pub open spec fn entry_online(e: (bool, i64), window_secs: u64, now: i64) -> bool {
    let elapsed_ms: int = if now >= e.1 {
        now - e.1
    } else {
        0
    };
    e.0 && elapsed_ms / 1000 <= window_secs
}

/// Presence of agents: live flag and last-seen time per handle.
pub struct Presence {
    pub map: DashMap<String, (bool, i64)>,
}

impl View for Presence {
    type V = Map<Seq<char>, (bool, i64)>;

    open spec fn view(&self) -> Map<Seq<char>, (bool, i64)> {
        presence_entries(self.map)
    }
}

/// Whether `m` marks `h` live.
pub open spec fn live_in(m: Map<Seq<char>, (bool, i64)>, h: Seq<char>) -> bool {
    m.contains_key(h) && m[h].0
}

impl Presence {
    pub fn new() -> (r: Presence)
        ensures
            r@ == Map::<Seq<char>, (bool, i64)>::empty(),
    {
        Presence { map: presence_map_new() }
    }

    /// Marks `h` seen at `now`, keeping whether it is live.
    pub fn touch(&mut self, handle: &str, now: i64)
        ensures
            final(self)@ == old(self)@.insert(handle@, (live_in(old(self)@, handle@), now)),
    {
        let l = self.live(handle);
        presence_map_insert(&mut self.map, owned(handle), (l, now));
    }

    /// Sets whether `h` is live; an unknown handle is recorded as seen now.
    pub fn set_live(&mut self, handle: &str, live: bool, now: i64)
        ensures
            final(self)@ == old(self)@.insert(
                handle@,
                if old(self)@.contains_key(handle@) {
                    (live, old(self)@[handle@].1)
                } else {
                    (live, now)
                },
            ),
    {
        match presence_map_get(&self.map, handle) {
            Some((_, seen)) => presence_map_insert(&mut self.map, owned(handle), (live, seen)),
            None => presence_map_insert(&mut self.map, owned(handle), (live, now)),
        }
    }

    /// Whether `h` is live.
    pub fn live(&self, handle: &str) -> (r: bool)
        ensures
            r == live_in(self@, handle@),
    {
        match presence_map_get(&self.map, handle) {
            Some((l, _)) => l,
            None => false,
        }
    }

    /// Whether `h` is live and was seen within the last `window_secs`.
    pub fn online(&self, handle: &str, window_secs: u64, now: i64) -> (r: bool)
        ensures
            r == (self@.contains_key(handle@) && entry_online(self@[handle@], window_secs, now)),
    {
        match presence_map_get(&self.map, handle) {
            Some((l, seen)) => {
                let elapsed_ms: u64 = if now >= seen {
                    (now as i128 - seen as i128) as u64
                } else {
                    0
                };
                l && elapsed_ms / 1000 <= window_secs
            },
            None => false,
        }
    }
}

/// Open long-polls per handle.
pub struct WaitCounts {
    pub map: DashMap<String, u32>,
}

impl View for WaitCounts {
    type V = Map<Seq<char>, u32>;

    open spec fn view(&self) -> Map<Seq<char>, u32> {
        wait_entries(self.map)
    }
}

/// The most long-polls one agent may hold at once.
pub const MAX_WAITS_PER_HANDLE: u32 = 2;

/// How many long-polls `h` holds open.
pub open spec fn wait_count(m: Map<Seq<char>, u32>, h: Seq<char>) -> u32 {
    if m.contains_key(h) {
        m[h]
    } else {
        0
    }
}

/// The counts after `h` asks for one more long-poll: one more unless it
/// holds the most allowed already.
pub open spec fn begun(m: Map<Seq<char>, u32>, h: Seq<char>) -> Map<Seq<char>, u32> {
    let cur = wait_count(m, h);
    if cur >= MAX_WAITS_PER_HANDLE {
        m.insert(h, cur)
    } else {
        m.insert(h, (cur + 1) as u32)
    }
}

/// The counts after `h` ends a long-poll: one fewer, never below zero.
pub open spec fn ended(m: Map<Seq<char>, u32>, h: Seq<char>) -> Map<Seq<char>, u32> {
    if m.contains_key(h) {
        m.insert(
            h,
            if m[h] > 0 {
                (m[h] - 1) as u32
            } else {
                0
            },
        )
    } else {
        m
    }
}

impl WaitCounts {
    pub fn new() -> (r: WaitCounts)
        ensures
            r@ == Map::<Seq<char>, u32>::empty(),
    {
        WaitCounts { map: wait_map_new() }
    }

    /// Admits one more long-poll for `h` unless it already holds the most
    /// allowed; `h` gets an entry (of 0) either way.
    pub fn begin(&mut self, handle: &str) -> (r: Result<(), Error>)
        ensures
            final(self)@ == begun(old(self)@, handle@),
            if wait_count(old(self)@, handle@) >= MAX_WAITS_PER_HANDLE {
                r matches Err(Error::TooLarge(x)) && x@ == "wait_for concurrency"@
            } else {
                r is Ok
            },
    {
        let cur = match wait_map_get(&self.map, handle) {
            Some(n) => n,
            None => 0,
        };
        if cur >= MAX_WAITS_PER_HANDLE {
            wait_map_insert(&mut self.map, owned(handle), cur);
            return Err(Error::TooLarge(owned("wait_for concurrency")));
        }
        wait_map_insert(&mut self.map, owned(handle), cur + 1);
        Ok(())
    }

    /// Releases one long-poll of `h`, never below zero.
    pub fn end(&mut self, handle: &str)
        ensures
            final(self)@ == ended(old(self)@, handle@),
    {
        if let Some(n) = wait_map_get(&self.map, handle) {
            let next = if n > 0 {
                n - 1
            } else {
                0
            };
            wait_map_insert(&mut self.map, owned(handle), next);
        }
    }
}

} // verus!
