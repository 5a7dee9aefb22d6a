//! The admin surface's reads and writes of the server state; the HTTP
//! server around them is the application's.
use vstd::prelude::*;

use crate::state::{Client, ServerState, VoiceTarget};

verus! {

/// Whether a user's audio is dropped.
pub struct Mute {
    pub mute: bool,
    pub user: String,
}

/// Whether a user is deafened.
pub struct Deaf {
    pub deaf: bool,
    pub user: String,
}

/// A whisper slot as the status report shows it.
pub struct MumbleTarget {
    pub sessions: Vec<u32>,
    pub channels: Vec<u32>,
}

/// A client as the status report shows it.
pub struct MumbleClient {
    pub name: String,
    pub session_id: u32,
    pub channel: Option<String>,
    pub mute: bool,
    pub good: u32,
    pub late: u32,
    pub lost: u32,
    pub resync: u32,
    /// Milliseconds since the last good datagram.
    pub last_good_duration: u64,
    pub targets: Vec<MumbleTarget>,
}

fn copy_ids(v: &Vec<u32>) -> (r: Vec<u32>)
    ensures
        r@ == v@,
{
    let mut r: Vec<u32> = Vec::new();
    let mut i: usize = 0;
    while i < v.len()
        invariant
            i <= v@.len(),
            r@ == v@.subrange(0, i as int),
        decreases v@.len() - i,
    {
        r.push(v[i]);
        i = i + 1;
        assert(r@ =~= v@.subrange(0, i as int));
    }
    r
}

fn target_report(t: &VoiceTarget) -> (r: MumbleTarget)
    ensures
        r.sessions@ == t.sessions@,
        r.channels@ == t.channels@,
{
    MumbleTarget { sessions: copy_ids(&t.sessions), channels: copy_ids(&t.channels) }
}

impl ServerState {
    /// Sets the mute of the user named `m.user`; false where there is none.
    pub fn post_mute(&mut self, m: &Mute) -> (r: bool)
        requires
            old(self).wf(),
        ensures
            final(self).wf(),
            r == exists|i: int| 0 <= i < old(self).clients@.len() && (#[trigger] old(self).clients@[i]).name@ == m.user@,
            final(self).clients@.len() == old(self).clients@.len(),
            final(self).channels == old(self).channels,
            r ==> exists|i: int| 0 <= i < final(self).clients@.len() && (#[trigger] final(self).clients@[i]).name@ == m.user@
                && final(self).clients@[i] == (Client { mute: m.mute, ..old(self).clients@[i] })
                && forall|k: int| 0 <= k < final(self).clients@.len() && k != i ==> #[trigger] final(self).clients@[k] == old(self).clients@[k],
            !r ==> *final(self) == *old(self),
    {
        let mut i: usize = 0;
        while i < self.clients.len()
            invariant
                *self == *old(self),
                self.wf(),
                i <= self.clients@.len(),
                forall|k: int| 0 <= k < i ==> (#[trigger] self.clients@[k]).name@ != m.user@,
            decreases self.clients@.len() - i,
        {
            if self.clients[i].name == m.user {
                let ghost before = self.clients@;
                self.clients[i].mute = m.mute;
                proof {
                    self.lemma_wf_after_update(before, i as int);
                    assert(self.clients@[i as int].name == before[i as int].name);
                }
                return true;
            }
            i = i + 1;
        }
        false
    }

    /// The mute of the user named `user`.
    pub fn get_mute(&self, user: &String) -> (r: Option<Mute>)
        ensures
            r is None == forall|i: int| 0 <= i < self.clients@.len() ==> (#[trigger] self.clients@[i]).name@ != user@,
            r matches Some(m) ==> m.user@ == user@ && exists|i: int| 0 <= i < self.clients@.len()
                && (#[trigger] self.clients@[i]).name@ == user@ && self.clients@[i].mute == m.mute,
    {
        let mut i: usize = 0;
        while i < self.clients.len()
            invariant
                i <= self.clients@.len(),
                forall|k: int| 0 <= k < i ==> (#[trigger] self.clients@[k]).name@ != user@,
            decreases self.clients@.len() - i,
        {
            if self.clients[i].name == *user {
                return Some(Mute { mute: self.clients[i].mute, user: user.clone() });
            }
            i = i + 1;
        }
        None
    }

    /// Sets the deafness of the user named `d.user`; false where there is none.
    pub fn post_deaf(&mut self, d: &Deaf) -> (r: bool)
        requires
            old(self).wf(),
        ensures
            final(self).wf(),
            r == exists|i: int| 0 <= i < old(self).clients@.len() && (#[trigger] old(self).clients@[i]).name@ == d.user@,
            final(self).clients@.len() == old(self).clients@.len(),
            final(self).channels == old(self).channels,
            r ==> exists|i: int| 0 <= i < final(self).clients@.len() && (#[trigger] final(self).clients@[i]).name@ == d.user@
                && final(self).clients@[i] == (Client { deaf: d.deaf, ..old(self).clients@[i] })
                && forall|k: int| 0 <= k < final(self).clients@.len() && k != i ==> #[trigger] final(self).clients@[k] == old(self).clients@[k],
            !r ==> *final(self) == *old(self),
    {
        let mut i: usize = 0;
        while i < self.clients.len()
            invariant
                *self == *old(self),
                self.wf(),
                i <= self.clients@.len(),
                forall|k: int| 0 <= k < i ==> (#[trigger] self.clients@[k]).name@ != d.user@,
            decreases self.clients@.len() - i,
        {
            if self.clients[i].name == d.user {
                let ghost before = self.clients@;
                self.clients[i].deaf = d.deaf;
                proof {
                    self.lemma_wf_after_update(before, i as int);
                    assert(self.clients@[i as int].name == before[i as int].name);
                }
                return true;
            }
            i = i + 1;
        }
        false
    }

    /// The deafness of the user named `user`.
    pub fn get_deaf(&self, user: &String) -> (r: Option<Deaf>)
        ensures
            r is None == forall|i: int| 0 <= i < self.clients@.len() ==> (#[trigger] self.clients@[i]).name@ != user@,
            r matches Some(d) ==> d.user@ == user@ && exists|i: int| 0 <= i < self.clients@.len()
                && (#[trigger] self.clients@[i]).name@ == user@ && self.clients@[i].deaf == d.deaf,
    {
        let mut i: usize = 0;
        while i < self.clients.len()
            invariant
                i <= self.clients@.len(),
                forall|k: int| 0 <= k < i ==> (#[trigger] self.clients@[k]).name@ != user@,
            decreases self.clients@.len() - i,
        {
            if self.clients[i].name == *user {
                return Some(Deaf { deaf: self.clients[i].deaf, user: user.clone() });
            }
            i = i + 1;
        }
        None
    }

    /// The status report at `now`: one entry per client, in order, with its
    /// channel's name, crypt counters, time since its last good datagram
    /// (0 where that lies ahead of `now`) and whisper slots.
    pub fn get_status(&self, now: u64) -> (r: Vec<MumbleClient>)
        ensures
            r@.len() == self.clients@.len(),
            forall|k: int| 0 <= k < r@.len() ==> {
                let m = #[trigger] r@[k];
                let c = self.clients@[k];
                &&& m.name@ == c.name@
                &&& m.session_id == c.session_id
                &&& m.mute == c.mute
                &&& m.good == c.crypt_state.good && m.late == c.crypt_state.late
                &&& m.lost == c.crypt_state.lost && m.resync == c.crypt_state.resync
                &&& m.last_good_duration == (if now >= c.crypt_state.last_good { (now - c.crypt_state.last_good) as u64 } else { 0 })
                &&& m.targets@.len() == c.targets@.len()
                &&& (m.channel is None <==> forall|j: int| 0 <= j < self.channels@.len() ==> (#[trigger] self.channels@[j]).id != c.channel_id)
                    &&& (m.channel matches Some(n) ==> exists|j: int| 0 <= j < self.channels@.len() && (#[trigger] self.channels@[j]).id == c.channel_id
                        && self.channels@[j].name@ == n@)
                    &&& forall|t: int| 0 <= t < m.targets@.len() ==> (#[trigger] m.targets@[t]).sessions@ == c.targets@[t].sessions@
                        && m.targets@[t].channels@ == c.targets@[t].channels@
            },
    {
        let mut out: Vec<MumbleClient> = Vec::new();
        let mut k: usize = 0;
        while k < self.clients.len()
            invariant
                k <= self.clients@.len(),
                out@.len() == k,
                forall|q: int| 0 <= q < k ==> {
                    let m = #[trigger] out@[q];
                    let c = self.clients@[q];
                    &&& m.name@ == c.name@
                    &&& m.session_id == c.session_id
                    &&& m.mute == c.mute
                    &&& m.good == c.crypt_state.good && m.late == c.crypt_state.late
                    &&& m.lost == c.crypt_state.lost && m.resync == c.crypt_state.resync
                    &&& m.last_good_duration == (if now >= c.crypt_state.last_good { (now - c.crypt_state.last_good) as u64 } else { 0 })
                    &&& m.targets@.len() == c.targets@.len()
                    &&& (m.channel is None <==> forall|j: int| 0 <= j < self.channels@.len() ==> (#[trigger] self.channels@[j]).id != c.channel_id)
                    &&& (m.channel matches Some(n) ==> exists|j: int| 0 <= j < self.channels@.len() && (#[trigger] self.channels@[j]).id == c.channel_id
                        && self.channels@[j].name@ == n@)
                    &&& forall|t: int| 0 <= t < m.targets@.len() ==> (#[trigger] m.targets@[t]).sessions@ == c.targets@[t].sessions@
                        && m.targets@[t].channels@ == c.targets@[t].channels@
                },
            decreases self.clients@.len() - k,
        {
            let c = &self.clients[k];
            let mut channel: Option<String> = None;
            let mut j: usize = 0;
            while j < self.channels.len()
                invariant
                    j <= self.channels@.len(),
                    channel is None <==> forall|q: int| 0 <= q < j ==> (#[trigger] self.channels@[q]).id != c.channel_id,
                    channel matches Some(n) ==> exists|q: int| 0 <= q < self.channels@.len() && (#[trigger] self.channels@[q]).id == c.channel_id
                        && self.channels@[q].name@ == n@,
                decreases self.channels@.len() - j,
            {
                if channel.is_none() && self.channels[j].id == c.channel_id {
                    channel = Some(self.channels[j].name.clone());
                }
                j = j + 1;
            }
            let mut targets: Vec<MumbleTarget> = Vec::new();
            let mut t: usize = 0;
            while t < c.targets.len()
                invariant
                    t <= c.targets@.len(),
                    targets@.len() == t,
                    forall|q: int| 0 <= q < t ==> (#[trigger] targets@[q]).sessions@ == c.targets@[q].sessions@
                        && targets@[q].channels@ == c.targets@[q].channels@,
                decreases c.targets@.len() - t,
            {
                targets.push(target_report(&c.targets[t]));
                t = t + 1;
            }
            let last_good = c.crypt_state.last_good;
            out.push(MumbleClient {
                name: c.name.clone(),
                session_id: c.session_id,
                channel,
                mute: c.mute,
                good: c.crypt_state.good,
                late: c.crypt_state.late,
                lost: c.crypt_state.lost,
                resync: c.crypt_state.resync,
                last_good_duration: if now >= last_good { now - last_good } else { 0 },
                targets,
            });
            k = k + 1;
        }
        out
    }
}

} // verus!
