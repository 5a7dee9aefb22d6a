//! What the server does with each control message a client sends.
use vstd::prelude::*;

use crate::error::MumbleError;
use crate::proto::{ChannelState, Ping, ServerMessage, UserState, VoiceTargetMsg};
use crate::state::{remove_all, sessions_of, Client, ClientMessage, Effects, Outbound, ServerState, TARGET_SLOTS};
use crate::voice::{decode_voice_packet, packet_decode, stamped, Clientbound, PacketView, Serverbound, VoicePacket};

verus! {

/// The permissions granted on every channel: traverse, enter, speak, whisper,
/// text messages, temporary channels, listen, mute/deafen, move, kick and ban.
pub const PERM_ADMIN: u32 = 0x2 | 0x4 | 0x8 | 0x100 | 0x200 | 0x400 | 0x800 | 0x10 | 0x20 | 0x10000
    | 0x20000;

/// A control message as received from a client.
pub enum ControlMessage {
    Version,
    Authenticate { tokens: Vec<String> },
    Ping(Ping),
    CryptSetup { client_nonce: Option<Vec<u8>> },
    PermissionQuery { channel_id: Option<u32> },
    UserState(UserState),
    VoiceTarget(VoiceTargetMsg),
    ChannelState(ChannelState),
    /// A voice packet tunnelled through the control connection.
    UdpTunnel(Vec<u8>),
    /// A kind that the server does not handle.
    Other,
}

/// Dispatches control messages to their handlers.
pub struct MessageHandler;

fn send_to(effects: &mut Effects, session_id: u32, message: ServerMessage)
    ensures
        final(effects).broadcast == old(effects).broadcast,
        final(effects).direct@.len() == old(effects).direct@.len() + 1,
        final(effects).direct@.subrange(0, old(effects).direct@.len() as int) == old(effects).direct@,
        final(effects).direct@.last().session_id == session_id,
        final(effects).direct@.last().message == ClientMessage::SendMessage(message),
{
    effects.direct.push(Outbound { session_id, message: ClientMessage::SendMessage(message) });
    assert(effects.direct@.subrange(0, old(effects).direct@.len() as int) =~= old(effects).direct@);
}

impl ServerState {
    /// A ping from client `i`: records the time and answers with the same
    /// timestamp and the client's crypt counters.
    pub fn handle_ping(&mut self, i: usize, ping: &Ping, now: u64, effects: &mut Effects)
        requires
            old(self).wf(),
            i < old(self).clients@.len(),
        ensures
            final(self).wf(),
            ping_done(*old(self), *final(self), i as int, *ping, now, *old(effects), *final(effects)),
    {
        let ghost before = self.clients@;
        self.clients[i].last_ping = now;
        proof {
            self.lemma_wf_after_update(before, i as int);
        }
        let c = &self.clients[i];
        let reply = Ping {
            timestamp: ping.timestamp,
            good: c.crypt_state.good,
            late: c.crypt_state.late,
            lost: c.crypt_state.lost,
            resync: c.crypt_state.resync,
        };
        send_to(effects, c.session_id, ServerMessage::Ping(reply));
    }

    /// A crypt setup from client `i`: with a nonce, resynchronises the decrypt
    /// nonce; without one, sends the current setup back. A nonce that is not
    /// 16 bytes long cannot be parsed.
    pub fn handle_crypt_setup(
        &mut self,
        i: usize,
        client_nonce: &Option<Vec<u8>>,
        effects: &mut Effects,
    ) -> (r: Result<(), MumbleError>)
        requires
            old(self).wf(),
            i < old(self).clients@.len(),
        ensures
            final(self).wf(),
            crypt_setup_done(*old(self), *final(self), i as int, *client_nonce, *old(effects), *final(effects), r),
    {
        match client_nonce {
            Some(n) => {
                if n.len() != 16 {
                    return Err(MumbleError::Parse);
                }
                let ghost before = self.clients@;
                self.clients[i].crypt_state.set_decrypt_nonce(n.as_slice());
                proof {
                    self.lemma_wf_after_update(before, i as int);
                }
                Ok(())
            },
            None => {
                let setup = self.clients[i].crypt_state.get_crypt_setup();
                send_to(effects, self.clients[i].session_id, ServerMessage::CryptSetup(setup));
                Ok(())
            },
        }
    }

    /// A permission query from client `i`: every channel grants `PERM_ADMIN`.
    pub fn handle_permission_query(&self, i: usize, channel_id: Option<u32>, effects: &mut Effects)
        requires
            i < self.clients@.len(),
        ensures
            final(effects).broadcast == old(effects).broadcast,
            final(effects).direct@.len() == old(effects).direct@.len() + 1,
            final(effects).direct@.subrange(0, old(effects).direct@.len() as int) == old(effects).direct@,
            final(effects).direct@.last().session_id == self.clients@[i as int].session_id,
            final(effects).direct@.last().message == ClientMessage::SendMessage(
                ServerMessage::PermissionQuery { channel_id, permissions: PERM_ADMIN },
            ),
    {
        send_to(
            effects,
            self.clients[i].session_id,
            ServerMessage::PermissionQuery { channel_id, permissions: PERM_ADMIN },
        );
    }

    /// New authentication tokens from client `i`.
    pub fn handle_authenticate(&mut self, i: usize, tokens: Vec<String>)
        requires
            old(self).wf(),
            i < old(self).clients@.len(),
        ensures
            final(self).wf(),
            authenticate_done(*old(self), *final(self), i as int, tokens),
    {
        let ghost before = self.clients@;
        self.clients[i].tokens = tokens;
        proof {
            self.lemma_wf_after_update(before, i as int);
        }
    }

    /// A voice target request from client `i`: slot `id` (1 to 30) becomes the
    /// sessions and channels that the request lists; other ids are ignored.
    pub fn handle_voice_target(&mut self, i: usize, msg: &VoiceTargetMsg)
        requires
            old(self).wf(),
            i < old(self).clients@.len(),
        ensures
            final(self).wf(),
            voice_target_done(*old(self), *final(self), i as int, *msg),
    {
        let id = match msg.id {
            Some(id) => id,
            None => {
                return;
            },
        };
        if id < 1 || id > 30 {
            return;
        }
        let mut sessions: Vec<u32> = Vec::new();
        let mut channels: Vec<u32> = Vec::new();
        let mut k: usize = 0;
        while k < msg.targets.len()
            invariant
                k <= msg.targets@.len(),
                forall|s: u32| sessions@.contains(s) <==> exists|m: int|
                    0 <= m < k && #[trigger] msg.targets@[m].sessions@.contains(s),
                forall|c: u32| channels@.contains(c) <==> exists|m: int|
                    0 <= m < k && #[trigger] msg.targets@[m].channel_id == Some(c),
            decreases msg.targets@.len() - k,
        {
            let item = &msg.targets[k];
            let ghost before_s = sessions@;
            let ghost before_c = channels@;
            let mut q: usize = 0;
            while q < item.sessions.len()
                invariant
                    k < msg.targets@.len(),
                    item == &msg.targets@[k as int],
                    q <= item.sessions@.len(),
                    forall|s: u32| sessions@.contains(s) <==> (exists|m: int|
                        0 <= m < k && #[trigger] msg.targets@[m].sessions@.contains(s)) || (exists|w: int|
                        0 <= w < q && #[trigger] item.sessions@[w] == s),
                decreases item.sessions@.len() - q,
            {
                let ghost prev = sessions@;
                sessions.push(item.sessions[q]);
                q = q + 1;
                assert forall|s: u32| sessions@.contains(s) <==> (exists|m: int|
                    0 <= m < k && #[trigger] msg.targets@[m].sessions@.contains(s)) || (exists|w: int|
                    0 <= w < q && #[trigger] item.sessions@[w] == s) by {
                    if sessions@.contains(s) {
                        let m = choose|m: int| 0 <= m < sessions@.len() && sessions@[m] == s;
                        if m < prev.len() {
                            assert(prev[m] == s);
                            assert(prev.contains(s));
                        } else {
                            assert(item.sessions@[q - 1] == s);
                        }
                    }
                    if exists|w: int| 0 <= w < q && #[trigger] item.sessions@[w] == s {
                        let w = choose|w: int| 0 <= w < q && #[trigger] item.sessions@[w] == s;
                        if w < q - 1 {
                            assert(prev.contains(s));
                            let m = choose|m: int| 0 <= m < prev.len() && prev[m] == s;
                            assert(sessions@[m] == s);
                        } else {
                            assert(sessions@[prev.len() as int] == s);
                        }
                    }
                    if exists|m: int| 0 <= m < k && #[trigger] msg.targets@[m].sessions@.contains(s) {
                        assert(prev.contains(s));
                        let m = choose|m: int| 0 <= m < prev.len() && prev[m] == s;
                        assert(sessions@[m] == s);
                    }
                }
            }
            match item.channel_id {
                Some(c) => {
                    channels.push(c);
                },
                None => {},
            }
            k = k + 1;
            assert forall|s: u32| sessions@.contains(s) <==> exists|m: int|
                0 <= m < k && #[trigger] msg.targets@[m].sessions@.contains(s) by {
                if sessions@.contains(s) {
                    if exists|w: int| 0 <= w < item.sessions@.len() && #[trigger] item.sessions@[w] == s {
                        let w = choose|w: int| 0 <= w < item.sessions@.len() && #[trigger] item.sessions@[w] == s;
                        assert(msg.targets@[k - 1].sessions@[w] == s);
                        assert(msg.targets@[k - 1].sessions@.contains(s));
                    }
                }
                if exists|m: int| 0 <= m < k && #[trigger] msg.targets@[m].sessions@.contains(s) {
                    let m = choose|m: int| 0 <= m < k && #[trigger] msg.targets@[m].sessions@.contains(s);
                    if m == k - 1 {
                        let w = choose|w: int| 0 <= w < msg.targets@[m].sessions@.len() && msg.targets@[m].sessions@[w] == s;
                        assert(item.sessions@[w] == s);
                    }
                }
            }
            assert forall|c: u32| channels@.contains(c) <==> exists|m: int|
                0 <= m < k && #[trigger] msg.targets@[m].channel_id == Some(c) by {
                if channels@.contains(c) && !before_c.contains(c) {
                    let m = choose|m: int| 0 <= m < channels@.len() && channels@[m] == c;
                    if m < before_c.len() {
                        assert(before_c[m] == c);
                    }
                    assert(msg.targets@[k - 1].channel_id == Some(c));
                }
                if before_c.contains(c) {
                    let m = choose|m: int| 0 <= m < before_c.len() && before_c[m] == c;
                    assert(channels@[m] == c);
                }
                if exists|m: int| 0 <= m < k && #[trigger] msg.targets@[m].channel_id == Some(c) {
                    let m = choose|m: int| 0 <= m < k && #[trigger] msg.targets@[m].channel_id == Some(c);
                    if m == k - 1 {
                        assert(channels@[channels@.len() - 1] == c);
                    }
                }
            }
        }
        let ghost before = self.clients@;
        let slot = (id - 1) as usize;
        assert(self.clients@[i as int].targets@.len() == TARGET_SLOTS);
        self.clients[i].targets[slot].sessions = sessions;
        self.clients[i].targets[slot].channels = channels;
        proof {
            self.lemma_wf_after_update(before, i as int);
        }
    }

}

/// Puts `x` into `v` unless it is there.
fn insert_u32(v: &mut Vec<u32>, x: u32)
    ensures
        forall|y: u32| final(v)@.contains(y) <==> old(v)@.contains(y) || y == x,
{
    let mut i: usize = 0;
    while i < v.len()
        invariant
            *v == *old(v),
            i <= v@.len(),
            forall|k: int| 0 <= k < i ==> v@[k] != x,
        decreases v@.len() - i,
    {
        if v[i] == x {
            assert forall|y: u32| v@.contains(y) <==> old(v)@.contains(y) || y == x by {
                if y == x {
                    assert(v@[i as int] == x);
                }
            }
            return;
        }
        i = i + 1;
    }
    let ghost prev = v@;
    v.push(x);
    assert forall|y: u32| v@.contains(y) <==> prev.contains(y) || y == x by {
        if v@.contains(y) {
            let k = choose|k: int| 0 <= k < v@.len() && v@[k] == y;
            if k < prev.len() {
                assert(prev[k] == y);
            }
        }
        if prev.contains(y) {
            let k = choose|k: int| 0 <= k < prev.len() && prev[k] == y;
            assert(v@[k] == y);
        }
        if y == x {
            assert(v@[prev.len() as int] == x);
        }
    }
}

impl ServerState {
    /// Adds (`add`) or takes away the session of client `i` as a listener of
    /// each existing channel in `ids`.
    fn update_listening(&mut self, i: usize, ids: &Vec<u32>, add: bool)
        requires
            old(self).wf(),
            i < old(self).clients@.len(),
        ensures
            final(self).wf(),
            final(self).clients == old(self).clients,
            final(self).codec_state == old(self).codec_state,
            final(self).channels@.len() == old(self).channels@.len(),
            forall|j: int| 0 <= j < final(self).channels@.len() ==> (#[trigger] final(self).channels@[j]).id == old(self).channels@[j].id
                && final(self).channels@[j].parent_id == old(self).channels@[j].parent_id
                && final(self).channels@[j].temporary == old(self).channels@[j].temporary
                && final(self).channels@[j].name == old(self).channels@[j].name,
            forall|j: int| 0 <= j < final(self).channels@.len() ==> ({
                let c = #[trigger] final(self).channels@[j];
                let s = old(self).clients@[i as int].session_id;
                if ids@.contains(c.id) {
                    c.listeners@.contains(s) == add
                } else {
                    c.listeners == old(self).channels@[j].listeners
                }
            }),
    {
        let session = self.clients[i].session_id;
        let mut k: usize = 0;
        while k < ids.len()
            invariant
                k <= ids@.len(),
                i < self.clients@.len(),
                self.wf(),
                session == old(self).clients@[i as int].session_id,
                self.clients == old(self).clients,
                self.codec_state == old(self).codec_state,
                self.channels@.len() == old(self).channels@.len(),
                forall|j: int| 0 <= j < self.channels@.len() ==> (#[trigger] self.channels@[j]).id == old(self).channels@[j].id
                    && self.channels@[j].parent_id == old(self).channels@[j].parent_id
                    && self.channels@[j].temporary == old(self).channels@[j].temporary
                    && self.channels@[j].name == old(self).channels@[j].name,
                forall|j: int| 0 <= j < self.channels@.len() ==> ({
                    let c = #[trigger] self.channels@[j];
                    if ids@.subrange(0, k as int).contains(c.id) {
                        c.listeners@.contains(session) == add
                    } else {
                        c.listeners == old(self).channels@[j].listeners
                    }
                }),
            decreases ids@.len() - k,
        {
            let c = ids[k];
            let ghost prev_state = *self;
            match self.channel_index(c) {
                Some(j) => {
                    if add {
                        insert_u32(&mut self.channels[j].listeners, session);
                    } else {
                        remove_all(&mut self.channels[j].listeners, session);
                    }
                    proof {
                        self.lemma_wf_channels_kept(prev_state);
                    }
                },
                None => {},
            }
            k = k + 1;
            assert forall|j: int| 0 <= j < self.channels@.len() implies ({
                let ch = #[trigger] self.channels@[j];
                if ids@.subrange(0, k as int).contains(ch.id) {
                    ch.listeners@.contains(session) == add
                } else {
                    ch.listeners == old(self).channels@[j].listeners
                }
            }) by {
                let ch = self.channels@[j];
                assert(ids@.subrange(0, k as int).contains(ch.id) <==> ids@.subrange(0, k - 1).contains(ch.id) || ch.id == c) by {
                    if ids@.subrange(0, k as int).contains(ch.id) {
                        let w = choose|w: int| 0 <= w < k && #[trigger] ids@.subrange(0, k as int)[w] == ch.id;
                        if w < k - 1 {
                            assert(ids@.subrange(0, k - 1)[w] == ch.id);
                        }
                    }
                    if ids@.subrange(0, k - 1).contains(ch.id) {
                        let w = choose|w: int| 0 <= w < k - 1 && #[trigger] ids@.subrange(0, k - 1)[w] == ch.id;
                        assert(ids@.subrange(0, k as int)[w] == ch.id);
                    }
                    if ch.id == c {
                        assert(ids@.subrange(0, k as int)[k - 1] == c);
                    }
                }
                if ch.id == c {
                    assert(self.has_channel(c));
                }
            }
        }
        assert(ids@.subrange(0, k as int) =~= ids@);
    }

    /// A user state from client `i` about itself: updates mute and deaf where
    /// given, moves the client where a channel that exists is given, then adds
    /// and removes it as a listener. Returns the channel that the move removed.
    /// A state about another session is ignored.
    pub fn handle_user_state(&mut self, i: usize, msg: &UserState, effects: &mut Effects) -> (r: Option<u32>)
        requires
            old(self).wf(),
            i < old(self).clients@.len(),
        ensures
            final(self).wf(),
            user_state_done(*old(self), *final(self), i as int, *msg, *old(effects), *final(effects)),
            msg.session != Some(old(self).clients@[i as int].session_id) ==> r is None,
    {
        let session = self.clients[i].session_id;
        if msg.session != Some(session) {
            return None;
        }
        let ghost before = self.clients@;
        self.clients[i].update(msg);
        proof {
            self.lemma_wf_after_update(before, i as int);
        }
        let ghost mid = *self;
        let mut removed: Option<u32> = None;
        match msg.channel_id {
            Some(c) => {
                if self.channel_index(c).is_some() {
                    removed = self.set_client_channel(i, c, effects);
                }
            },
            None => {},
        }
        self.update_listening(i, &msg.listening_channel_add, true);
        let ghost after_add = *self;
        self.update_listening(i, &msg.listening_channel_remove, false);
        assert forall|j: int| 0 <= j < self.channels@.len() && msg.listening_channel_add@.contains(
            (#[trigger] self.channels@[j]).id) && !msg.listening_channel_remove@.contains(
            self.channels@[j].id) implies self.channels@[j].listeners@.contains(session) by {
            assert(self.channels@[j].listeners == after_add.channels@[j].listeners);
            assert(after_add.channels@[j].id == self.channels@[j].id);
        }
        removed
    }
}

impl ServerState {
    /// A channel creation request from client `i`. Only new temporary
    /// channels with a parent that exists and a name are created; where a
    /// channel of that name exists the requester is sent its description
    /// instead. Either way the requester then moves into the channel, and
    /// the channel it left is evaluated, whose id is returned where it went.
    pub fn handle_channel_state(&mut self, i: usize, msg: &ChannelState, effects: &mut Effects) -> (r: Option<u32>)
        requires
            old(self).wf(),
            i < old(self).clients@.len(),
        ensures
            final(self).wf(),
            channel_state_done(*old(self), *final(self), i as int, *msg, *old(effects), *final(effects)),
            !(msg.channel_id is None && msg.temporary == Some(true) && (msg.parent matches Some(p) && old(self).has_channel(p))
                && msg.name is Some) ==> r is None,
    {
        if msg.channel_id.is_some() {
            return None;
        }
        let parent = match msg.parent {
            Some(p) => p,
            None => {
                return None;
            },
        };
        let name = match &msg.name {
            Some(n) => n,
            None => {
                return None;
            },
        };
        if msg.temporary != Some(true) {
            return None;
        }
        if self.channel_index(parent).is_none() {
            return None;
        }
        let target = match self.get_channel_by_name(name) {
            Some(id) => {
                let j = self.channel_index(id).unwrap();
                let state = self.channels[j].get_channel_state();
                send_to(effects, self.clients[i].session_id, ServerMessage::ChannelState(state));
                id
            },
            None => {
                let description = match &msg.description {
                    Some(d) => d.clone(),
                    None => String::new(),
                };
                match self.add_channel(parent, name.clone(), description, true) {
                    Some(id) => {
                        let j = self.channels.len() - 1;
                        let state = self.channels[j].get_channel_state();
                        let ghost sent = state;
                        effects.broadcast.push(ServerMessage::ChannelState(state));
                        assert(effects.broadcast@[old(effects).broadcast@.len() as int] == ServerMessage::ChannelState(sent));
                        id
                    },
                    None => {
                        return None;
                    },
                }
            },
        };
        let ghost mid = *self;
        assert(exists|j: int| 0 <= j < mid.channels@.len() && #[trigger] mid.channels@[j].id == target
            && mid.channels@[j].name@ == name@);
        let r = self.set_client_channel(i, target, effects);
        proof {
            let j = choose|j: int| 0 <= j < mid.channels@.len() && #[trigger] mid.channels@[j].id == target
                && mid.channels@[j].name@ == name@;
            if self.channels@ != mid.channels@ {
                let j0 = choose|j0: int| 0 <= j0 < mid.channels@.len() && self.channels@ == mid.channels@.remove(j0)
                    && mid.channels@[j0].id != target;
                let nj = if j < j0 { j } else { j - 1 };
                assert(self.channels@[nj] == mid.channels@[j]);
            } else {
                assert(self.channels@[j] == mid.channels@[j]);
            }
        }
        r
    }
}

fn append_outbound(effects: &mut Effects, more: Vec<Outbound>)
    ensures
        final(effects).broadcast == old(effects).broadcast,
        final(effects).direct@ == old(effects).direct@ + more@,
{
    let mut more = more;
    let ghost m = more@;
    let mut rest: Vec<Outbound> = Vec::new();
    while more.len() > 0
        invariant
            rest@.len() + more@.len() == m.len(),
            more@ == m.subrange(0, more@.len() as int),
            forall|k: int| 0 <= k < rest@.len() ==> #[trigger] rest@[k] == m[m.len() - 1 - k],
        decreases more@.len(),
    {
        let o = more.pop().unwrap();
        rest.push(o);
    }
    while rest.len() > 0
        invariant
            effects.broadcast == old(effects).broadcast,
            rest@.len() <= m.len(),
            effects.direct@ == old(effects).direct@ + m.subrange(0, m.len() - rest@.len()),
            forall|k: int| 0 <= k < rest@.len() ==> #[trigger] rest@[k] == m[m.len() - 1 - k],
        decreases rest@.len(),
    {
        let o = rest.pop().unwrap();
        effects.direct.push(o);
        assert(effects.direct@ =~= old(effects).direct@ + m.subrange(0, m.len() - rest@.len()));
    }
    assert(m.subrange(0, m.len() as int) =~= m);
}

impl MessageHandler {
    /// A voice packet from client `session`: routed to its recipients, each
    /// of which is told to send it on.
    pub fn handle_voice(state: &ServerState, session: u32, packet: &VoicePacket<Clientbound>, effects: &mut Effects)
        requires
            state.wf(),
        ensures
            voice_routed(*state, session, packet@, *old(effects), *final(effects)),
    {
        let out = state.route_voice_packet(session, packet);
        let ghost o = out@;
        append_outbound(effects, out);
        assert(final(effects).direct@.subrange(old(effects).direct@.len() as int, final(effects).direct@.len() as int) =~= o);
        assert(final(effects).direct@.subrange(0, old(effects).direct@.len() as int) =~= old(effects).direct@);
        assert(sessions_of(o) =~= o.map_values(|x: Outbound| x.session_id));
        proof {
            match packet@ {
                PacketView::Audio { target, .. } => {
                    match state.client_index_spec(session) {
                        Some(i) => {
                            assert(o.map_values(|x: Outbound| x.session_id).no_duplicates());
                            assert(sessions_of(o).no_duplicates());
                            sessions_of(o).unique_seq_to_set();
                        },
                        None => {
                            assert(sessions_of(o) =~= Seq::<u32>::empty());
                        },
                    }
                },
                PacketView::Ping { .. } => {
                    assert(sessions_of(o) =~= Seq::<u32>::empty());
                },
            }
        }
    }

    /// Handles one control message from client `session`. Messages from a
    /// session that is not connected are ignored; the only error is a crypt
    /// setup whose nonce is not 16 bytes long.
    #[verifier::rlimit(100)]
    #[verifier::spinoff_prover]
    pub fn handle(state: &mut ServerState, session: u32, msg: ControlMessage, now: u64, effects: &mut Effects) -> (r: Result<(), MumbleError>)
        requires
            old(state).wf(),
        ensures
            final(state).wf(),
            r matches Err(e) ==> e == MumbleError::Parse && msg is CryptSetup,
            !old(state).has_client(session) ==> r is Ok && *final(state) == *old(state) && *final(effects) == *old(effects),
            (msg is Version || msg is Other) ==> r is Ok && *final(state) == *old(state) && *final(effects) == *old(effects),
            msg is PermissionQuery ==> *final(state) == *old(state),
            old(state).has_client(session) ==> {
                let i = old(state).client_index_spec(session)->0;
                match msg {
                    ControlMessage::Version => true,
                    ControlMessage::Other => true,
                    ControlMessage::Authenticate { tokens } => r is Ok && *final(effects) == *old(effects)
                        && authenticate_done(*old(state), *final(state), i, tokens),
                    ControlMessage::Ping(p) => r is Ok && ping_done(*old(state), *final(state), i, p, now, *old(effects), *final(effects)),
                    ControlMessage::CryptSetup { client_nonce } => crypt_setup_done(
                        *old(state), *final(state), i, client_nonce, *old(effects), *final(effects), r),
                    ControlMessage::PermissionQuery { channel_id } => {
                        &&& r is Ok
                        &&& final(effects).broadcast == old(effects).broadcast
                        &&& final(effects).direct@.len() == old(effects).direct@.len() + 1
                        &&& final(effects).direct@.subrange(0, old(effects).direct@.len() as int) == old(effects).direct@
                        &&& final(effects).direct@.last().session_id == session
                        &&& final(effects).direct@.last().message == ClientMessage::SendMessage(
                            ServerMessage::PermissionQuery { channel_id, permissions: PERM_ADMIN })
                    },
                    ControlMessage::UserState(u) => r is Ok && user_state_done(*old(state), *final(state), i, u, *old(effects), *final(effects)),
                    ControlMessage::VoiceTarget(v) => r is Ok && *final(effects) == *old(effects)
                        && voice_target_done(*old(state), *final(state), i, v),
                    ControlMessage::ChannelState(c) => r is Ok && channel_state_done(*old(state), *final(state), i, c, *old(effects), *final(effects)),
                    ControlMessage::UdpTunnel(bytes) => r is Ok && *final(state) == *old(state) && match packet_decode(bytes@, false) {
                        Ok(p) => voice_routed(*old(state), session, stamped(p, session), *old(effects), *final(effects)),
                        Err(_) => *final(effects) == *old(effects),
                    },
                }
            },
    {
        let i = match state.client_index(session) {
            None => {
                return Ok(());
            },
            Some(i) => i,
        };
        proof {
            state.lemma_client_index_spec(session, i as int);
        }
        match msg {
            ControlMessage::Version => Ok(()),
            ControlMessage::Other => Ok(()),
            ControlMessage::Authenticate { tokens } => {
                let ghost tk = tokens;
                state.handle_authenticate(i, tokens);
                assert(authenticate_done(*old(state), *state, i as int, tk));
                Ok(())
            },
            ControlMessage::Ping(p) => {
                state.handle_ping(i, &p, now, effects);
                assert(ping_done(*old(state), *state, i as int, p, now, *old(effects), *effects));
                Ok(())
            },
            ControlMessage::CryptSetup { client_nonce } => {
                let r = state.handle_crypt_setup(i, &client_nonce, effects);
                assert(crypt_setup_done(*old(state), *state, i as int, client_nonce, *old(effects), *effects, r));
                r
            },
            ControlMessage::PermissionQuery { channel_id } => {
                state.handle_permission_query(i, channel_id, effects);
                Ok(())
            },
            ControlMessage::UserState(u) => {
                let rr = state.handle_user_state(i, &u, effects);
                proof {
                    assert(user_state_done(*old(state), *state, i as int, u, *old(effects), *effects));
                }
                Ok(())
            },
            ControlMessage::VoiceTarget(v) => {
                state.handle_voice_target(i, &v);
                assert(voice_target_done(*old(state), *state, i as int, v));
                Ok(())
            },
            ControlMessage::ChannelState(c) => {
                let rr = state.handle_channel_state(i, &c, effects);
                proof {
                    assert(channel_state_done(*old(state), *state, i as int, c, *old(effects), *effects));
                }
                Ok(())
            },
            ControlMessage::UdpTunnel(bytes) => {
                match decode_voice_packet::<Serverbound>(bytes.as_slice()) {
                    Ok(packet) => {
                        let ghost pv = packet@;
                        let packet = packet.into_client_bound(session);
                        MessageHandler::handle_voice(state, session, &packet, effects);
                        assert(packet_decode(bytes@, false) == Ok::<PacketView, crate::error::DecryptError>(pv));
                    },
                    Err(_) => {},
                }
                Ok(())
            },
        }
    }
}

/// Effects `e1` are `e0` with packet `p` from `session` queued once for each
/// of its recipients, and nothing else.
pub open spec fn voice_routed(st: ServerState, session: u32, p: PacketView, e0: Effects, e1: Effects) -> bool {
    let added = e1.direct@.subrange(e0.direct@.len() as int, e1.direct@.len() as int);
    &&& e1.broadcast == e0.broadcast
    &&& e1.direct@.len() >= e0.direct@.len()
    &&& e1.direct@.subrange(0, e0.direct@.len() as int) == e0.direct@
    &&& forall|k: int| 0 <= k < added.len() ==> ((#[trigger] added[k]).message matches ClientMessage::SendVoicePacket(q) && q@ == p)
    &&& sessions_of(added).no_duplicates()
    &&& match p {
        PacketView::Audio { target, .. } => match st.client_index_spec(session) {
            Some(i) => sessions_of(added).to_set() == st.recipients(i, target) && added.len() == st.recipients(i, target).len(),
            None => added.len() == 0,
        },
        PacketView::Ping { .. } => added.len() == 0,
    }
}

/// What a ping from client `i` does.
pub open spec fn ping_done(s0: ServerState, s1: ServerState, i: int, ping: Ping, now: u64, e0: Effects, e1: Effects) -> bool {
    &&& (s1.clients@.len() == s0.clients@.len())
    &&& (s1.clients@[i].last_ping == now)
    &&& (s1.channels == s0.channels)
    &&& (e1.broadcast == e0.broadcast)
    &&& (e1.direct@.len() == e0.direct@.len() + 1)
    &&& (({
                    let c = s0.clients@[i];
                    let o = e1.direct@.last();
                    o.session_id == c.session_id && o.message == ClientMessage::SendMessage(
                        ServerMessage::Ping(
                            Ping {
                                timestamp: ping.timestamp,
                                good: c.crypt_state.good,
                                late: c.crypt_state.late,
                                lost: c.crypt_state.lost,
                                resync: c.crypt_state.resync,
                            },
                        ),
                    )
                }))
}

/// What a crypt setup from client `i` does.
pub open spec fn crypt_setup_done(s0: ServerState, s1: ServerState, i: int, client_nonce: Option<Vec<u8>>, e0: Effects, e1: Effects, r: Result<(), MumbleError>) -> bool {
    &&& (s1.clients@.len() == s0.clients@.len())
    &&& (s1.channels == s0.channels)
    &&& (e1.broadcast == e0.broadcast)
    &&& (match client_nonce {
                    Some(n) => if n@.len() == 16 {
                        &&& r is Ok
                        &&& s1.clients@[i].crypt_state.decrypt_nonce == crate::crypt::be16(n@.reverse())
                        &&& s1.clients@[i].crypt_state.resync == s0.clients@[i].crypt_state.resync.wrapping_add(1)
                        &&& e1.direct == e0.direct
                    } else {
                        r == Err::<(), MumbleError>(MumbleError::Parse) && s1 == s0 && e1 == e0
                    },
                    None => {
                        &&& r is Ok
                        &&& s1 == s0
                        &&& e1.direct@.len() == e0.direct@.len() + 1
                        &&& e1.direct@.last().session_id == s0.clients@[i].session_id
                        &&& e1.direct@.last().message matches ClientMessage::SendMessage(ServerMessage::CryptSetup(cs))
                        &&& cs.client_nonce@ == crate::crypt::to_le16(s0.clients@[i].crypt_state.decrypt_nonce)
                        &&& cs.server_nonce@ == crate::crypt::to_le16(s0.clients@[i].crypt_state.encrypt_nonce)
                    },
                })
}

/// What new tokens from client `i` do.
pub open spec fn authenticate_done(s0: ServerState, s1: ServerState, i: int, tokens: Vec<String>) -> bool {
    &&& (s1.clients@.len() == s0.clients@.len())
    &&& (s1.clients@[i].tokens == tokens)
    &&& (s1.channels == s0.channels)
}

/// What a voice target request from client `i` does.
pub open spec fn voice_target_done(s0: ServerState, s1: ServerState, i: int, msg: VoiceTargetMsg) -> bool {
    &&& (s1.clients@.len() == s0.clients@.len())
    &&& (s1.channels == s0.channels)
    &&& (forall|k: int| 0 <= k < s0.clients@.len() && k != i ==> #[trigger] s1.clients@[k] == s0.clients@[k])
    &&& (match msg.id {
                    Some(id) => if 1 <= id <= 30 {
                        let slot = s1.clients@[i].targets@[id - 1];
                        &&& forall|s: u32| slot.sessions@.contains(s) <==> exists|k: int|
                            0 <= k < msg.targets@.len() && #[trigger] msg.targets@[k].sessions@.contains(s)
                        &&& forall|c: u32| slot.channels@.contains(c) <==> exists|k: int|
                            0 <= k < msg.targets@.len() && #[trigger] msg.targets@[k].channel_id == Some(c)
                    } else {
                        s1 == s0
                    },
                    None => s1 == s0,
                })
    &&& (match msg.id {
        Some(id) => 1 <= id <= 30 ==> {
            &&& s1.clients@[i] == (Client { targets: s1.clients@[i].targets, ..s0.clients@[i] })
            &&& s1.clients@[i].targets@.len() == s0.clients@[i].targets@.len()
            &&& forall|t: int| 0 <= t < s0.clients@[i].targets@.len() && t != id - 1
                ==> #[trigger] s1.clients@[i].targets@[t] == s0.clients@[i].targets@[t]
        },
        None => true,
    })
}

/// What a user state from client `i` does.
pub open spec fn user_state_done(s0: ServerState, s1: ServerState, i: int, msg: UserState, e0: Effects, e1: Effects) -> bool {
    &&& (msg.session != Some(s0.clients@[i].session_id) ==> s1 == s0
                    && e1 == e0)
    &&& (msg.session == Some(s0.clients@[i].session_id) ==> {
                    let c = s1.clients@[i];
                    &&& s1.clients@.len() == s0.clients@.len()
                    &&& c.session_id == s0.clients@[i].session_id
                    &&& c.mute == (match msg.mute { Some(m) => m, None => s0.clients@[i].mute })
                    &&& c.deaf == (match msg.deaf { Some(d) => d, None => s0.clients@[i].deaf })
                    &&& c.channel_id == (match msg.channel_id {
                        Some(ch) => if s0.has_channel(ch) { ch } else { s0.clients@[i].channel_id },
                        None => s0.clients@[i].channel_id,
                    })
                    &&& forall|j: int| 0 <= j < s1.channels@.len() && msg.listening_channel_remove@.contains(
                        (#[trigger] s1.channels@[j]).id) ==> !s1.channels@[j].listeners@.contains(c.session_id)
                    &&& forall|j: int| 0 <= j < s1.channels@.len() && msg.listening_channel_add@.contains(
                        (#[trigger] s1.channels@[j]).id) && !msg.listening_channel_remove@.contains(
                        s1.channels@[j].id) ==> s1.channels@[j].listeners@.contains(c.session_id)
                })
}

/// What a channel creation request from client `i` does.
pub open spec fn channel_state_done(s0: ServerState, s1: ServerState, i: int, msg: ChannelState, e0: Effects, e1: Effects) -> bool {
    &&& (({
                    let accepted = msg.channel_id is None && msg.temporary == Some(true)
                        && (msg.parent matches Some(p) && s0.has_channel(p)) && msg.name is Some;
                    &&& !accepted ==> s1 == s0 && e1 == e0
                    &&& accepted ==> (s1.clients@.len() == s0.clients@.len()
                        && s1.clients@[i].session_id == s0.clients@[i].session_id
                        && (exists|j: int| 0 <= j < s1.channels@.len()
                            && #[trigger] s1.channels@[j].id == s1.clients@[i].channel_id
                            && s1.channels@[j].name@ == msg.name->0@))
                        || (s1 == s0 && forall|x: u32| 0 < x < u32::MAX ==> #[trigger] s0.has_channel(x))
                    &&& accepted && (exists|j: int| 0 <= j < s0.channels@.len() && (#[trigger] s0.channels@[j]).name@ == msg.name->0@)
                        ==> e1.direct@.len() == e0.direct@.len() + 1
                        && e1.direct@.last().session_id == s0.clients@[i].session_id
                        && (e1.direct@.last().message matches ClientMessage::SendMessage(ServerMessage::ChannelState(c))
                        && c.name matches Some(n) && n@ == msg.name->0@)
                    &&& accepted && (forall|j: int| 0 <= j < s0.channels@.len() ==> (#[trigger] s0.channels@[j]).name@ != msg.name->0@)
                        && s1 != s0
                        ==> e1.direct == e0.direct
                        && (e1.broadcast@[e0.broadcast@.len() as int] matches ServerMessage::ChannelState(c)
                        && c.parent == msg.parent && c.temporary == Some(true) && (c.name matches Some(n) && n@ == msg.name->0@)
                        && (c.channel_id matches Some(id) && !s0.has_channel(id)))
                }))
    &&& (msg.channel_id is None && msg.temporary == Some(true) && (msg.parent matches Some(p) && s0.has_channel(p))
        && msg.name is Some && (forall|j: int| 0 <= j < s0.channels@.len() ==> (#[trigger] s0.channels@[j]).name@ != msg.name->0@)
        && s1 != s0 ==> {
        let id = s1.clients@[i].channel_id;
        &&& e1.broadcast@[e0.broadcast@.len() as int] matches ServerMessage::ChannelState(c) && c.channel_id == Some(id)
        &&& 0 < id && !s0.has_channel(id)
        &&& forall|x: u32| 0 < x < id ==> #[trigger] s0.has_channel(x)
        &&& exists|j: int| 0 <= j < s1.channels@.len() && (#[trigger] s1.channels@[j]).id == id
            && s1.channels@[j].parent_id == msg.parent && s1.channels@[j].temporary
            && s1.channels@[j].listeners@.len() == 0 && s1.channels@[j].name@ == msg.name->0@
    })
}

} // verus!
