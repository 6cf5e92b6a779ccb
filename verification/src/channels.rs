//! Creating, joining, leaving and archiving channels.
use crate::error::Error;
use crate::hub::Hub;
use crate::store::{
    channel_index, channel_max_id, lemma_wf_channel_update, lemma_wf_sub_update, sub_index, upsert_sub, ChannelRow, ChannelV, StoreV, SubV,
};
use crate::text::owned;
use crate::types::{normalized_handle, valid_handle, ChannelKind, Handle};
use vstd::prelude::*;

verus! {

/// Names that begin `dm:` are reserved for direct-message channels.
pub open spec fn starts_with_dm(s: Seq<char>) -> bool {
    s.len() >= 3 && s[0] == 'd' && s[1] == 'm' && s[2] == ':'
}

pub fn has_dm_prefix(s: &str) -> (r: bool)
    ensures
        r == starts_with_dm(s@),
{
    let n = s.unicode_len();
    n >= 3 && s.get_char(0) == 'd' && s.get_char(1) == 'm' && s.get_char(2) == ':'
}

/// The longest topic a channel may have, in bytes.
pub const MAX_TOPIC: usize = 1024;

/// `s` with channel `ci` replaced by `c`.
pub open spec fn with_channel(s: StoreV, ci: int, c: ChannelV) -> StoreV {
    StoreV { channels: s.channels.update(ci, c), ..s }
}

/// What joining channel `name` leaves: `h` subscribed, from the channel's
/// newest message on when it had no row there before.
pub open spec fn joined(s: StoreV, h: Seq<char>, ci: int) -> StoreV {
    upsert_sub(s, h, ci + 1, channel_max_id(s, ci + 1))
}

/// What leaving channel `name` leaves: `h`'s row there, if any, inactive
/// with its cursor kept.
pub open spec fn left(s: StoreV, h: Seq<char>, name: Seq<char>) -> StoreV {
    match channel_index(s, name) {
        None => s,
        Some(ci) => match sub_index(s, h, ci + 1) {
            None => s,
            Some(i) => StoreV { subs: s.subs.update(i, SubV { active: false, ..s.subs[i] }), ..s },
        },
    }
}

/// What creating public channel `name` with `topic` does to tables `s`,
/// leaving `t`, with result `r`: each refusal leaves the tables as they were.
pub open spec fn create_outcome(
    s: StoreV,
    t: StoreV,
    r: Result<bool, Error>,
    by: Seq<char>,
    name: Seq<char>,
    topic: Seq<char>,
    topic_bytes: nat,
    now: i64,
) -> bool {
    let nm = normalized_handle(name);
    if starts_with_dm(name) || !valid_handle(nm) {
        r matches Err(Error::BadName(x)) && x@ == name && t == s
    } else if topic_bytes == 0 || topic_bytes > MAX_TOPIC {
        r matches Err(Error::TooLarge(x)) && x@ == "topic"@ && t == s
    } else if channel_index(s, nm) is Some {
        r matches Err(Error::ChannelExists(x)) && x@ == nm && t == s
    } else {
        r matches Ok(true) && t == StoreV {
            channels: s.channels.push(
                ChannelV {
                    name: nm,
                    topic: topic,
                    kind: ChannelKind::Channel,
                    created_by: by,
                    created_at: now,
                    archived_at: None,
                    issue_prefix: None,
                    members: seq![],
                },
            ),
            ..s
        }
    }
}

/// What `h` joining channel `name` does to tables `s`, leaving `t`, with
/// result `r`.
pub open spec fn join_outcome(s: StoreV, t: StoreV, r: Result<(), Error>, h: Seq<char>, name: Seq<char>) -> bool {
    match channel_index(s, name) {
        None => r matches Err(Error::UnknownChannel(x)) && x@ == name
            && t == s,
        Some(ci) => if s.channels[ci].kind == ChannelKind::Dm
            && !s.channels[ci].members.contains(h) {
            r matches Err(Error::NotAMember(x)) && x@ == name && t == s
        } else {
            r is Ok && t == joined(s, h, ci)
        },
    }
}

/// The tables with channel `name`, if there is one, archived at `now`.
pub open spec fn archived(s: StoreV, name: Seq<char>, now: i64) -> StoreV {
    match channel_index(s, name) {
        None => s,
        Some(ci) => with_channel(s, ci, ChannelV { archived_at: Some(now), ..s.channels[ci] }),
    }
}

impl Hub {
    /// Creates public channel `name` (normalized as a handle is) with `topic`.
    pub fn create_channel(&mut self, by: &Handle, name: &str, topic: &str, now: i64) -> (r: Result<
        bool,
        Error,
    >)
        requires
            old(self).store@.wf(),
            old(self).store@.channels.len() + 1 < i64::MAX,
        ensures
            final(self).store@.wf(),
            create_outcome(
                old(self).store@,
                final(self).store@,
                r,
                by@,
                name@,
                topic@,
                topic.len() as nat,
                now,
            ),
    {
        if has_dm_prefix(name) {
            return Err(Error::BadName(owned(name)));
        }
        let nm = match Handle::parse(name) {
            Ok(h) => h.into_string(),
            Err(_) => {
                return Err(Error::BadName(owned(name)));
            },
        };
        if topic.len() == 0 || topic.len() > MAX_TOPIC {
            return Err(Error::TooLarge(owned("topic")));
        }
        if self.store.find_channel(nm.as_str()).is_some() {
            return Err(Error::ChannelExists(nm));
        }
        let ghost s = self.store@;
        let row = ChannelRow {
            name: nm,
            topic: owned(topic),
            kind: ChannelKind::Channel,
            created_by: owned(by.as_str()),
            created_at: now,
            archived_at: None,
            issue_prefix: None,
            members: Vec::new(),
        };
        self.store.channels.push(row);
        proof {
            assert(row@.members =~= seq![]);
            crate::types::lemma_valid_handle_lower(row@.name);
            assert(self.store@.channels =~= s.channels.push(row@));
            assert forall|i: int, j: int|
                0 <= i < j < self.store@.channels.len() implies #[trigger] self.store@.channels[i].name
                != #[trigger] self.store@.channels[j].name by {
                if j == s.channels.len() {
                    assert(s.channels[i].name != row@.name);
                }
            }
            assert(self.store@ =~= StoreV { channels: s.channels.push(row@), ..s });
        }
        Ok(true)
    }

    /// Subscribes `h` to channel `name` from its newest message on, or
    /// re-activates `h`'s earlier subscription with its cursor.  A direct
    /// channel admits only its members.
    pub fn join_channel(&mut self, h: &Handle, name: &str) -> (r: Result<(), Error>)
        requires
            old(self).store@.wf(),
        ensures
            final(self).store@.wf(),
            join_outcome(old(self).store@, final(self).store@, r, h@, name@),
    {
        let ci = match self.store.find_channel(name) {
            Some(ci) => ci,
            None => {
                return Err(Error::UnknownChannel(owned(name)));
            },
        };
        if self.store.channels[ci].kind == ChannelKind::Dm && !self.store.is_member(ci, h.as_str()) {
            return Err(Error::NotAMember(owned(name)));
        }
        let cid = ci as i64 + 1;
        let max_id = self.store.channel_max(cid);
        self.store.upsert_sub(h.as_str(), cid, max_id);
        Ok(())
    }

    /// Makes `h`'s subscription to `name` inactive; its cursor is kept for a
    /// later join.  Unknown channels and absent subscriptions change nothing.
    pub fn leave_channel(&mut self, h: &Handle, name: &str) -> (r: Result<(), Error>)
        requires
            old(self).store@.wf(),
        ensures
            final(self).store@.wf(),
            r is Ok,
            final(self).store@ == left(old(self).store@, h@, name@),
    {
        let ghost s = self.store@;
        if let Some(ci) = self.store.find_channel(name) {
            let cid = ci as i64 + 1;
            if let Some(i) = self.store.find_sub(h.as_str(), cid) {
                self.store.subs[i].active = false;
                proof {
                    lemma_wf_sub_update(s, i as int, SubV { active: false, ..s.subs[i as int] });
                }
                assert(self.store@ =~= StoreV {
                    subs: s.subs.update(i as int, SubV { active: false, ..s.subs[i as int] }),
                    ..s
                });
            }
        }
        Ok(())
    }

    /// Marks channel `name` archived at `now`; it keeps its history.
    /// Unknown channels change nothing.
    pub fn archive_channel(&mut self, by: &Handle, name: &str, now: i64) -> (r: Result<(), Error>)
        requires
            old(self).store@.wf(),
        ensures
            final(self).store@.wf(),
            r is Ok,
            final(self).store@ == archived(old(self).store@, name@, now),
    {
        let ghost s = self.store@;
        if let Some(ci) = self.store.find_channel(name) {
            self.store.channels[ci].archived_at = Some(now);
            proof {
                lemma_wf_channel_update(
                    s,
                    ci as int,
                    ChannelV { archived_at: Some(now), ..s.channels[ci as int] },
                );
            }
            assert(self.store@ =~= with_channel(
                s,
                ci as int,
                ChannelV { archived_at: Some(now), ..s.channels[ci as int] },
            ));
        }
        Ok(())
    }
}

} // verus!
