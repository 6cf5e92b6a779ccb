//! Telling whether tables read back from disk hold together.
use crate::store::{
    bytes_eq, channel_lower, agents_wf, channels_wf, issues_wf, messages_wf, names_view, sorted_names, subs_wf, Store, StoreV,
};
use crate::text::{ascii_lowercase, seq_le, str_compare, str_eq};
use crate::types::{is_valid_handle, valid_handle};
use vstd::prelude::*;

verus! {

/// Whether `v` is in ascending order.
fn names_sorted(v: &Vec<String>) -> (r: bool)
    ensures
        r == sorted_names(names_view(v@)),
{
    let ghost s = names_view(v@);
    let n = v.len();
    let mut i: usize = 0;
    while i < n
        invariant
            n == v@.len(),
            s == names_view(v@),
            i <= n,
            forall|a: int, b: int| 0 <= a < b < n && a < i ==> seq_le(#[trigger] s[a], #[trigger] s[b]),
        decreases n - i,
    {
        let mut j: usize = i + 1;
        while j < n
            invariant
                n == v@.len(),
                s == names_view(v@),
                i < j <= n,
                forall|a: int, b: int| 0 <= a < b < n && a < i ==> seq_le(#[trigger] s[a], #[trigger] s[b]),
                forall|b: int| i < b < j ==> seq_le(s[i as int], #[trigger] s[b]),
            decreases n - j,
        {
            if str_compare(v[i].as_str(), v[j].as_str()) > 0 {
                assert(!seq_le(s[i as int], s[j as int]));
                return false;
            }
            j = j + 1;
        }
        i = i + 1;
    }
    true
}

impl Store {
    fn agents_ok(&self) -> (r: bool)
        ensures
            r == agents_wf(self@.agents),
    {
        let ghost s = self@;
        let n = self.agents.len();
        let mut k: usize = 0;
        while k < n
            invariant
                s == self@,
                n == s.agents.len(),
                k <= n,
                forall|a: int| 0 <= a < k ==> valid_handle(#[trigger] s.agents[a].handle),
            decreases n - k,
        {
            if !is_valid_handle(self.agents[k].handle.as_str()) {
                assert(!valid_handle(s.agents[k as int].handle));
                return false;
            }
            k = k + 1;
        }
        let mut i: usize = 0;
        while i < n
            invariant
                s == self@,
                n == s.agents.len(),
                i <= n,
                forall|a: int| 0 <= a < n ==> valid_handle(#[trigger] s.agents[a].handle),
                forall|a: int, b: int|
                    0 <= a < b < n && a < i ==> #[trigger] s.agents[a].handle != #[trigger] s.agents[b].handle,
                forall|a: int, b: int|
                    0 <= a < b < n && a < i ==> #[trigger] s.agents[a].token_hash
                        != #[trigger] s.agents[b].token_hash,
            decreases n - i,
        {
            let mut j: usize = i + 1;
            while j < n
                invariant
                    s == self@,
                    n == s.agents.len(),
                    i < j <= n,
                    forall|a: int, b: int|
                        0 <= a < b < n && a < i ==> #[trigger] s.agents[a].handle
                            != #[trigger] s.agents[b].handle,
                    forall|b: int| i < b < j ==> s.agents[i as int].handle != #[trigger] s.agents[b].handle,
                    forall|a: int| 0 <= a < n ==> valid_handle(#[trigger] s.agents[a].handle),
                    forall|a: int, b: int|
                        0 <= a < b < n && a < i ==> #[trigger] s.agents[a].token_hash
                            != #[trigger] s.agents[b].token_hash,
                    forall|b: int| i < b < j ==> s.agents[i as int].token_hash
                        != #[trigger] s.agents[b].token_hash,
                decreases n - j,
            {
                if str_eq(self.agents[i].handle.as_str(), self.agents[j].handle.as_str()) {
                    assert(s.agents[i as int].handle == s.agents[j as int].handle);
                    return false;
                }
                if bytes_eq(self.agents[i].token_hash.as_slice(), self.agents[j].token_hash.as_slice()) {
                    assert(s.agents[i as int].token_hash == s.agents[j as int].token_hash);
                    return false;
                }
                j = j + 1;
            }
            i = i + 1;
        }
        true
    }

    fn channels_ok(&self) -> (r: bool)
        ensures
            r == channels_wf(self@.channels),
    {
        let ghost s = self@;
        let n = self.channels.len();
        let mut k: usize = 0;
        while k < n
            invariant
                s == self@,
                n == s.channels.len(),
                k <= n,
                forall|a: int| 0 <= a < k ==> channel_lower(#[trigger] s.channels[a]),
            decreases n - k,
        {
            let c = &self.channels[k];
            assert(c@ == s.channels[k as int]);
            let name = c.name.as_str();
            if !str_eq(ascii_lowercase(name).as_str(), name) {
                assert(!channel_lower(s.channels[k as int]));
                return false;
            }
            if let Some(p) = &c.issue_prefix {
                if !str_eq(ascii_lowercase(p.as_str()).as_str(), p.as_str()) {
                    assert(!channel_lower(s.channels[k as int]));
                    return false;
                }
            }
            k = k + 1;
        }
        let mut i: usize = 0;
        while i < n
            invariant
                s == self@,
                n == s.channels.len(),
                i <= n,
                forall|a: int, b: int|
                    0 <= a < b < n && a < i ==> #[trigger] s.channels[a].name != #[trigger] s.channels[b].name,
                forall|a: int| 0 <= a < i ==> sorted_names(#[trigger] s.channels[a].members),
                forall|a: int| 0 <= a < n ==> channel_lower(#[trigger] s.channels[a]),
            decreases n - i,
        {
            if !names_sorted(&self.channels[i].members) {
                assert(!sorted_names(s.channels[i as int].members));
                return false;
            }
            let mut j: usize = i + 1;
            while j < n
                invariant
                    s == self@,
                    n == s.channels.len(),
                    i < j <= n,
                    forall|a: int, b: int|
                        0 <= a < b < n && a < i ==> #[trigger] s.channels[a].name
                            != #[trigger] s.channels[b].name,
                    forall|b: int| i < b < j ==> s.channels[i as int].name != #[trigger] s.channels[b].name,
                    forall|a: int| 0 <= a < n ==> channel_lower(#[trigger] s.channels[a]),
                    forall|a: int| 0 <= a < i ==> sorted_names(#[trigger] s.channels[a].members),
                decreases n - j,
            {
                if str_eq(self.channels[i].name.as_str(), self.channels[j].name.as_str()) {
                    assert(s.channels[i as int].name == s.channels[j as int].name);
                    return false;
                }
                j = j + 1;
            }
            i = i + 1;
        }
        true
    }

    fn subs_ok(&self) -> (r: bool)
        ensures
            r == subs_wf(self@.subs, self@.channels.len()),
    {
        let ghost s = self@;
        let n = self.subs.len();
        let nc = self.channels.len();
        let mut i: usize = 0;
        while i < n
            invariant
                s == self@,
                n == s.subs.len(),
                nc == s.channels.len(),
                i <= n,
                forall|a: int, b: int|
                    0 <= a < b < n && a < i ==> !(#[trigger] s.subs[a].handle == #[trigger] s.subs[b].handle
                        && s.subs[a].channel_id == s.subs[b].channel_id),
                forall|a: int| 0 <= a < i ==> 1 <= #[trigger] s.subs[a].channel_id <= nc,
            decreases n - i,
        {
            let c = self.subs[i].channel_id;
            if c < 1 || (c as u64) > (nc as u64) {
                assert(!(1 <= s.subs[i as int].channel_id <= nc));
                return false;
            }
            let mut j: usize = i + 1;
            while j < n
                invariant
                    s == self@,
                    n == s.subs.len(),
                    i < j <= n,
                    forall|a: int, b: int|
                        0 <= a < b < n && a < i ==> !(#[trigger] s.subs[a].handle
                            == #[trigger] s.subs[b].handle && s.subs[a].channel_id
                            == s.subs[b].channel_id),
                    forall|b: int|
                        i < b < j ==> !(s.subs[i as int].handle == #[trigger] s.subs[b].handle
                            && s.subs[i as int].channel_id == s.subs[b].channel_id),
                decreases n - j,
            {
                if self.subs[i].channel_id == self.subs[j].channel_id && str_eq(
                    self.subs[i].handle.as_str(),
                    self.subs[j].handle.as_str(),
                ) {
                    assert(s.subs[i as int].handle == s.subs[j as int].handle
                        && s.subs[i as int].channel_id == s.subs[j as int].channel_id);
                    return false;
                }
                j = j + 1;
            }
            i = i + 1;
        }
        true
    }

    fn messages_ok(&self) -> (r: bool)
        ensures
            r == messages_wf(self@.messages, self@.channels.len()),
    {
        let ghost s = self@;
        let n = self.messages.len();
        let nc = self.channels.len();
        let mut i: usize = 0;
        while i < n
            invariant
                s == self@,
                n == s.messages.len(),
                nc == s.channels.len(),
                i <= n,
                forall|a: int|
                    0 <= a < i ==> {
                        &&& 1 <= #[trigger] s.messages[a].channel_id <= nc
                        &&& (s.messages[a].resolved_at is Some <==> s.messages[a].resolved_by is Some)
                        &&& sorted_names(s.messages[a].mentions)
                    },
            decreases n - i,
        {
            let m = &self.messages[i];
            assert(s.messages[i as int] == m@);
            assert(s.messages[i as int].channel_id == m.channel_id);
            if m.channel_id < 1 || (m.channel_id as u64) > (nc as u64) {
                return false;
            }
            if m.resolved_at.is_some() != m.resolved_by.is_some() {
                return false;
            }
            if !names_sorted(&m.mentions) {
                return false;
            }
            i = i + 1;
        }
        true
    }

    fn issues_ok(&self) -> (r: bool)
        ensures
            r == issues_wf(self@.issues, self@.channels.len(), self@.messages.len()),
    {
        let ghost s = self@;
        let n = self.issues.len();
        let nc = self.channels.len();
        let nm = self.messages.len();
        let mut i: usize = 0;
        while i < n
            invariant
                s == self@,
                n == s.issues.len(),
                nc == s.channels.len(),
                nm == s.messages.len(),
                i <= n,
                forall|a: int|
                    0 <= a < i ==> {
                        &&& 1 <= #[trigger] s.issues[a].channel_id <= nc
                        &&& 1 <= s.issues[a].message_id <= nm
                        &&& 1 <= s.issues[a].number <= a + 1
                    },
            decreases n - i,
        {
            let row = &self.issues[i];
            assert(s.issues[i as int] == row@);
            assert(s.issues[i as int].channel_id == row.channel_id);
            if row.channel_id < 1 || (row.channel_id as u64) > (nc as u64) {
                return false;
            }
            if row.message_id < 1 || (row.message_id as u64) > (nm as u64) {
                return false;
            }
            if row.number < 1 || (row.number as u64) > (i as u64) + 1 {
                return false;
            }
            i = i + 1;
        }
        true
    }

    /// Whether the tables hold together (see `StoreV::wf`); tables read back
    /// from disk are used only when they do.
    pub fn is_well_formed(&self) -> (r: bool)
        ensures
            r == self@.wf(),
    {
        (self.channels.len() as u64) < (i64::MAX as u64) && (self.messages.len() as u64) < (
        i64::MAX as u64) && self.agents_ok() && self.channels_ok() && self.subs_ok()
            && self.messages_ok() && self.issues_ok()
    }
}

} // verus!
