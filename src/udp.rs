//! Decisions of the UDP voice receiver: anonymous pings, decryption with the
//! sending client's crypt state, binding unknown peers, and what to do with
//! the packets that decrypt.
use vstd::prelude::*;

use crate::crypt::{
    check_nonce, crypt_header, decrypt_refused, decrypt_result, decrypt_step, ocb_encrypt_spec, to_le16, CryptState,
    NonceCheck,
};
use crate::error::DecryptError;
use crate::proto::ServerMessage;
use crate::state::{Client, ClientMessage, Effects, Outbound, PeerAddr, ServerState};
use crate::proto::{frame, tunnel_frame};
use crate::voice::{packet_encode, stamped, Clientbound, PacketView, Serverbound, VoicePacket};

verus! {

/// How long a peer that matched no client is ignored, in milliseconds.
pub const DEAD_PEER_MS: u64 = 20_000;

/// How long a client may go without a good datagram before a failed probe
/// resets its crypt state, in milliseconds.
pub const PROBE_RESET_MS: u64 = 5_000;

/// The big-endian bytes of a `u32`.
pub open spec fn be32(x: u32) -> Seq<u8> {
    seq![(x >> 24u32) as u8, (x >> 16u32) as u8, (x >> 8u32) as u8, x as u8]
}

/// An anonymous ping: 12 bytes, the first four zero.
pub open spec fn is_anonymous_ping(buf: Seq<u8>) -> bool {
    buf.len() == 12 && buf[0] == 0 && buf[1] == 0 && buf[2] == 0 && buf[3] == 0
}

/// The answer to an anonymous ping: the protocol version, the ping's
/// timestamp bytes, 0 users, at most 250 users and 72000 bit/s.
pub open spec fn anonymous_ping_answer(protocol_version: u32, buf: Seq<u8>) -> Seq<u8> {
    be32(protocol_version) + buf.subrange(4, 12) + be32(0) + be32(250) + be32(72000)
}

fn push_be32(out: &mut Vec<u8>, x: u32)
    ensures
        final(out)@ == old(out)@ + be32(x),
{
    out.push(#[verifier::truncate] ((x >> 24u32) as u8));
    out.push(#[verifier::truncate] ((x >> 16u32) as u8));
    out.push(#[verifier::truncate] ((x >> 8u32) as u8));
    out.push(#[verifier::truncate] (x as u8));
    assert(final(out)@ =~= old(out)@ + be32(x));
}

/// The answer to `buf` where it is an anonymous ping.
pub fn anonymous_ping_reply(buf: &[u8], protocol_version: u32) -> (r: Option<Vec<u8>>)
    ensures
        is_anonymous_ping(buf@) ==> (r matches Some(a) && a@ == anonymous_ping_answer(protocol_version, buf@)),
        !is_anonymous_ping(buf@) ==> r is None,
{
    if buf.len() != 12 || buf[0] != 0 || buf[1] != 0 || buf[2] != 0 || buf[3] != 0 {
        return None;
    }
    let mut out: Vec<u8> = Vec::new();
    push_be32(&mut out, protocol_version);
    let mut i: usize = 4;
    while i < 12
        invariant
            4 <= i <= 12,
            buf@.len() == 12,
            out@ == be32(protocol_version) + buf@.subrange(4, i as int),
        decreases 12 - i,
    {
        out.push(buf[i]);
        i = i + 1;
        assert(out@ =~= be32(protocol_version) + buf@.subrange(4, i as int));
    }
    push_be32(&mut out, 0);
    push_be32(&mut out, 250);
    push_be32(&mut out, 72000);
    Some(out)
}

/// Whether a decrypt error from a bound client resets its crypt state and
/// unbinds its peer: a replay never does, a late datagram once the client
/// has had more than 100 late ones, any other error always.
pub fn should_reset_crypt(err: DecryptError, late: u32) -> (r: bool)
    ensures
        r == resets(err, late),
{
    match err {
        DecryptError::Repeat => false,
        DecryptError::Late => late > 100,
        _ => true,
    }
}

/// Peers that matched no client, with when they were seen.
pub struct DeadPeers {
    pub peers: Vec<(PeerAddr, u64)>,
}

impl DeadPeers {
    pub fn new() -> (r: Self)
        ensures
            r.peers@.len() == 0,
    {
        DeadPeers { peers: Vec::new() }
    }

    /// `peer` was seen dead less than `DEAD_PEER_MS` before `now`.
    pub open spec fn dead_at(&self, peer: PeerAddr, now: u64) -> bool {
        exists|k: int|
            0 <= k < self.peers@.len() && (#[trigger] self.peers@[k]).0 == peer && now >= self.peers@[k].1
                && now - self.peers@[k].1 < DEAD_PEER_MS
    }

    pub fn is_dead(&self, peer: PeerAddr, now: u64) -> (r: bool)
        ensures
            r == self.dead_at(peer, now),
    {
        let mut k: usize = 0;
        while k < self.peers.len()
            invariant
                k <= self.peers@.len(),
                forall|m: int|
                    0 <= m < k ==> !((#[trigger] self.peers@[m]).0 == peer && now >= self.peers@[m].1
                        && now - self.peers@[m].1 < DEAD_PEER_MS),
            decreases self.peers@.len() - k,
        {
            let (p, t) = self.peers[k];
            if p == peer && now >= t && now - t < DEAD_PEER_MS {
                return true;
            }
            k = k + 1;
        }
        false
    }

    /// Forgets `peer`; the entries of other peers stay.
    pub fn forget(&mut self, peer: PeerAddr)
        ensures
            forall|k: int| 0 <= k < final(self).peers@.len() ==> (#[trigger] final(self).peers@[k]).0 != peer,
            forall|k: int| 0 <= k < old(self).peers@.len() && (#[trigger] old(self).peers@[k]).0 != peer
                ==> final(self).peers@.contains(old(self).peers@[k]),
    {
        let mut kept: Vec<(PeerAddr, u64)> = Vec::new();
        let mut k: usize = 0;
        while k < self.peers.len()
            invariant
                k <= self.peers@.len(),
                *self == *old(self),
                forall|m: int| 0 <= m < kept@.len() ==> (#[trigger] kept@[m]).0 != peer,
                forall|m: int| 0 <= m < k && (#[trigger] self.peers@[m]).0 != peer ==> kept@.contains(self.peers@[m]),
            decreases self.peers@.len() - k,
        {
            let e = self.peers[k];
            let ghost before = kept@;
            if e.0 != peer {
                kept.push(e);
                assert(kept@[kept@.len() - 1] == e);
            }
            k = k + 1;
            assert forall|m: int| 0 <= m < k && (#[trigger] self.peers@[m]).0 != peer implies kept@.contains(self.peers@[m]) by {
                if m < k - 1 {
                    let w = choose|w: int| 0 <= w < before.len() && before[w] == self.peers@[m];
                    assert(kept@[w] == self.peers@[m]);
                }
            }
        }
        self.peers = kept;
    }

    /// Records that `peer` matched no client at `now`.
    pub fn mark(&mut self, peer: PeerAddr, now: u64)
        ensures
            final(self).dead_at(peer, now),
    {
        self.forget(peer);
        self.peers.push((peer, now));
        assert(self.peers@[self.peers@.len() - 1] == (peer, now));
    }
}

impl ServerState {
    /// The first client bound to UDP peer `peer`.
    pub fn client_index_by_peer(&self, peer: PeerAddr) -> (r: Option<usize>)
        ensures
            r matches Some(k) ==> k < self.clients@.len() && self.clients@[k as int].udp_peer == Some(peer)
                && forall|j: int| 0 <= j < k ==> (#[trigger] self.clients@[j]).udp_peer != Some(peer),
            r is None ==> forall|j: int| 0 <= j < self.clients@.len() ==> (#[trigger] self.clients@[j]).udp_peer != Some(peer),
    {
        let mut k: usize = 0;
        while k < self.clients.len()
            invariant
                k <= self.clients@.len(),
                forall|j: int| 0 <= j < k ==> (#[trigger] self.clients@[j]).udp_peer != Some(peer),
            decreases self.clients@.len() - k,
        {
            if self.clients[k].udp_peer == Some(peer) {
                return Some(k);
            }
            k = k + 1;
        }
        None
    }

    /// Starts client `k`'s crypt state afresh, sends it the new setup, and
    /// unbinds its UDP peer.
    pub fn reset_crypt(&mut self, k: usize, now: u64, effects: &mut Effects)
        requires
            old(self).wf(),
            k < old(self).clients@.len(),
        ensures
            final(self).wf(),
            final(self).channels == old(self).channels,
            final(self).codec_state == old(self).codec_state,
            final(self).clients@.len() == old(self).clients@.len(),
            forall|j: int| 0 <= j < old(self).clients@.len() && j != k ==> #[trigger] final(self).clients@[j] == old(self).clients@[j],
            reset_client(old(self).clients@[k as int], final(self).clients@[k as int], now),
            final(effects).broadcast == old(effects).broadcast,
            final(effects).direct@.len() == old(effects).direct@.len() + 1,
            final(effects).direct@.subrange(0, old(effects).direct@.len() as int) == old(effects).direct@,
            crypt_setup_sent(final(effects).direct@.last(), final(self).clients@[k as int]),
    {
        let ghost before = self.clients@;
        self.clients[k].crypt_state.reset(now);
        self.clients[k].udp_peer = None;
        proof {
            self.lemma_wf_after_update(before, k as int);
        }
        let setup = self.clients[k].crypt_state.get_crypt_setup();
        effects.direct.push(
            Outbound {
                session_id: self.clients[k].session_id,
                message: ClientMessage::SendMessage(ServerMessage::CryptSetup(setup)),
            },
        );
        assert(effects.direct@.subrange(0, old(effects).direct@.len() as int) =~= old(effects).direct@);
    }

    /// Tries datagram `buf` against each client's crypt state in turn and
    /// returns the first client that decrypts it, with its packet. Each client
    /// tried before it is left as its failed decrypt left it, and reset, sent
    /// its new setup and unbound where its last good datagram is more than
    /// `PROBE_RESET_MS` old; the clients after it are untouched.
    pub fn find_client_for_packet(&mut self, buf: &[u8], now: u64, effects: &mut Effects) -> (r: Option<(usize, VoicePacket<Serverbound>)>)
        requires
            old(self).wf(),
        ensures
            final(self).wf(),
            final(self).channels == old(self).channels,
            final(self).codec_state == old(self).codec_state,
            final(self).clients@.len() == old(self).clients@.len(),
            final(effects).broadcast == old(effects).broadcast,
            final(effects).direct@.len() >= old(effects).direct@.len(),
            final(effects).direct@.subrange(0, old(effects).direct@.len() as int) == old(effects).direct@,
            forall|m: int| old(effects).direct@.len() <= m < final(effects).direct@.len() ==>
                (#[trigger] final(effects).direct@[m]).message matches ClientMessage::SendMessage(ServerMessage::CryptSetup(_)),
            match r {
                Some((k, p)) => {
                    &&& k < old(self).clients@.len()
                    &&& decrypt_result(old(self).clients@[k as int].crypt_state, buf@, false) == Ok::<PacketView, DecryptError>(p@)
                    &&& decrypt_step(old(self).clients@[k as int].crypt_state, final(self).clients@[k as int].crypt_state, buf@, now)
                    &&& final(self).clients@[k as int] == (Client { crypt_state: final(self).clients@[k as int].crypt_state, ..old(self).clients@[k as int] })
                    &&& forall|j: int| 0 <= j < k ==> (#[trigger] decrypt_result(old(self).clients@[j].crypt_state, buf@, false)) is Err
                        && probe_failed(old(self).clients@[j], final(self).clients@[j], buf@, now)
                    &&& forall|j: int| k < j < old(self).clients@.len() ==> #[trigger] final(self).clients@[j] == old(self).clients@[j]
                },
                None => forall|j: int| 0 <= j < old(self).clients@.len() ==> (#[trigger] decrypt_result(old(self).clients@[j].crypt_state, buf@, false)) is Err
                    && probe_failed(old(self).clients@[j], final(self).clients@[j], buf@, now),
            },
    {
        let mut k: usize = 0;
        while k < self.clients.len()
            invariant
                self.wf(),
                k <= self.clients@.len(),
                self.channels == old(self).channels,
                self.codec_state == old(self).codec_state,
                self.clients@.len() == old(self).clients@.len(),
                effects.broadcast == old(effects).broadcast,
                effects.direct@.len() >= old(effects).direct@.len(),
                effects.direct@.subrange(0, old(effects).direct@.len() as int) == old(effects).direct@,
                forall|m: int| old(effects).direct@.len() <= m < effects.direct@.len() ==>
                    (#[trigger] effects.direct@[m]).message matches ClientMessage::SendMessage(ServerMessage::CryptSetup(_)),
                forall|j: int| 0 <= j < k ==> (#[trigger] decrypt_result(old(self).clients@[j].crypt_state, buf@, false)) is Err
                    && probe_failed(old(self).clients@[j], self.clients@[j], buf@, now),
                forall|j: int| k <= j < self.clients@.len() ==> #[trigger] self.clients@[j] == old(self).clients@[j],
            decreases self.clients@.len() - k,
        {
            let ghost before = self.clients@;
            let ghost e_before = *effects;
            let res = self.clients[k].crypt_state.decrypt::<Serverbound>(buf, now);
            proof {
                self.lemma_wf_after_update(before, k as int);
            }
            match res {
                Ok(p) => {
                    assert(self.clients@[k as int] == (Client { crypt_state: self.clients@[k as int].crypt_state, ..old(self).clients@[k as int] }));
                    return Some((k, p));
                },
                Err(_) => {
                    let ghost mid = self.clients@;
                    let last_good = self.clients[k].crypt_state.last_good;
                    if now >= last_good && now - last_good > PROBE_RESET_MS {
                        self.reset_crypt(k, now, effects);
                        assert forall|m: int| old(effects).direct@.len() <= m < effects.direct@.len() implies
                            (#[trigger] effects.direct@[m]).message matches ClientMessage::SendMessage(ServerMessage::CryptSetup(_)) by {
                            if m < e_before.direct@.len() {
                                assert(effects.direct@.subrange(0, e_before.direct@.len() as int)[m] == e_before.direct@[m]);
                            }
                        }
                        assert(effects.direct@.subrange(0, old(effects).direct@.len() as int) =~= old(effects).direct@) by {
                            assert forall|m: int| 0 <= m < old(effects).direct@.len() implies effects.direct@[m] == old(effects).direct@[m] by {
                                assert(effects.direct@.subrange(0, e_before.direct@.len() as int)[m] == e_before.direct@[m]);
                                assert(e_before.direct@.subrange(0, old(effects).direct@.len() as int)[m] == old(effects).direct@[m]);
                            }
                        }
                    }
                    assert(self.clients@[k as int] == mid[k as int] || reset_client(mid[k as int], self.clients@[k as int], now));
                },
            }
            k = k + 1;
        }
        None
    }

    /// A packet that client `k`'s datagram decrypted to: a ping is encrypted
    /// back to the peer, audio is queued for routing in the client's session.
    fn deliver(&mut self, k: usize, packet: VoicePacket<Serverbound>, effects: &mut Effects) -> (r: Option<Vec<u8>>)
        requires
            old(self).wf(),
            k < old(self).clients@.len(),
        ensures
            final(self).wf(),
            final(self).channels == old(self).channels,
            final(self).codec_state == old(self).codec_state,
            final(self).clients@.len() == old(self).clients@.len(),
            forall|j: int| 0 <= j < old(self).clients@.len() && j != k ==> #[trigger] final(self).clients@[j] == old(self).clients@[j],
            final(self).clients@[k as int] == (Client { crypt_state: final(self).clients@[k as int].crypt_state, ..old(self).clients@[k as int] }),
            delivered(old(self).clients@[k as int], final(self).clients@[k as int].crypt_state, packet@, *old(effects), *final(effects), r),
    {
        let session = self.clients[k].session_id;
        let cp = packet.into_client_bound(session);
        match cp {
            VoicePacket::Ping { .. } => {
                let ghost before = self.clients@;
                let bytes = self.clients[k].crypt_state.encrypt(&cp);
                proof {
                    self.lemma_wf_after_update(before, k as int);
                }
                Some(bytes)
            },
            VoicePacket::Audio { .. } => {
                effects.direct.push(Outbound { session_id: session, message: ClientMessage::RouteVoicePacket(cp) });
                assert(effects.direct@.subrange(0, old(effects).direct@.len() as int) =~= old(effects).direct@);
                None
            },
        }
    }
}

/// `cs` is a fresh crypt state under `key` at `now`.
pub open spec fn fresh_crypt(cs: CryptState, key: Seq<u8>, now: u64) -> bool {
    &&& cs.wf()
    &&& cs.key@ == key
    &&& cs.encrypt_nonce == 0
    &&& cs.decrypt_nonce == 1u128 << 127u128
    &&& cs.decrypt_history@ == Seq::new(256, |i: int| 0u8)
    &&& cs.good == 0 && cs.late == 0 && cs.lost == 0 && cs.resync == 0
    &&& cs.last_good == now
}

/// `c1` is client `c0` with its crypt state started afresh and its UDP peer unbound.
pub open spec fn reset_client(c0: Client, c1: Client, now: u64) -> bool {
    &&& c1 == (Client { crypt_state: c1.crypt_state, udp_peer: None, ..c0 })
    &&& fresh_crypt(c1.crypt_state, c0.crypt_state.key@, now)
}

/// `o` sends client `c` its crypt setup: the key and both nonces.
pub open spec fn crypt_setup_sent(o: Outbound, c: Client) -> bool {
    &&& o.session_id == c.session_id
    &&& o.message matches ClientMessage::SendMessage(ServerMessage::CryptSetup(cs))
    &&& cs.key@ == c.crypt_state.key@
    &&& cs.client_nonce@ == to_le16(c.crypt_state.decrypt_nonce)
    &&& cs.server_nonce@ == to_le16(c.crypt_state.encrypt_nonce)
}

/// A client the probe tried without success: as its refused datagram left it,
/// and reset where its last good datagram is more than `PROBE_RESET_MS` old;
/// where the datagram got past the window and tag but did not decode, its
/// window moved as the decrypt says.
pub open spec fn probe_failed(c0: Client, c1: Client, buf: Seq<u8>, now: u64) -> bool {
    if decrypt_refused(c0.crypt_state, buf) {
        if now >= c0.crypt_state.last_good && now - c0.crypt_state.last_good > PROBE_RESET_MS {
            reset_client(c0, c1, now)
        } else {
            c1 == c0
        }
    } else {
        decrypt_step(c0.crypt_state, c1.crypt_state, buf, now) && c1 == (Client { crypt_state: c1.crypt_state, ..c0 })
    }
}

/// What delivering packet `p` that client `c` sent does: a ping goes back
/// encrypted under the next encrypt nonce (`cs` is the crypt state after),
/// audio is queued once for routing in the client's session.
pub open spec fn delivered(c: Client, cs: CryptState, p: PacketView, e0: Effects, e1: Effects, r: Option<Vec<u8>>) -> bool {
    &&& delivered_out(c, p, e0, e1, r)
    &&& cs == match stamped(p, c.session_id) {
        PacketView::Ping { .. } => CryptState { encrypt_nonce: c.crypt_state.encrypt_nonce.wrapping_add(1), ..c.crypt_state },
        PacketView::Audio { .. } => c.crypt_state,
    }
}

/// The UDP receiver: the protocol version that anonymous pings report and
/// the peers that are ignored for a while.
pub struct UdpServer {
    pub protocol_version: u32,
    pub dead: DeadPeers,
}

impl UdpServer {
    pub fn new(protocol_version: u32) -> (r: Self)
        ensures
            r.protocol_version == protocol_version,
            r.dead.peers@.len() == 0,
    {
        UdpServer { protocol_version, dead: DeadPeers::new() }
    }

    /// Handles datagram `buf` from `peer` at `now`, returning what to send
    /// back to the peer. An anonymous ping is answered; a peer marked dead is
    /// ignored. A datagram from the client bound to `peer` is decrypted with
    /// its crypt state: a packet is delivered, a replay or a late datagram
    /// (while the client has had at most 100) is dropped, and any other error
    /// resets the client's crypt state, sends it the new setup and unbinds
    /// the peer. A datagram from an unknown peer is tried against every
    /// client: the first that decrypts it is bound to the peer and its packet
    /// delivered; where none does, the peer is ignored for `DEAD_PEER_MS`.
    #[verifier::rlimit(80)]
    pub fn receive(
        &mut self,
        state: &mut ServerState,
        peer: PeerAddr,
        buf: &[u8],
        now: u64,
        effects: &mut Effects,
    ) -> (r: Option<Vec<u8>>)
        requires
            old(state).wf(),
        ensures
            final(state).wf(),
            final(state).channels == old(state).channels,
            final(state).clients@.len() == old(state).clients@.len(),
            is_anonymous_ping(buf@) ==> *final(state) == *old(state) && *final(effects) == *old(effects) && (r matches Some(a) && a@
                == anonymous_ping_answer(old(self).protocol_version, buf@)),
            !is_anonymous_ping(buf@) && old(self).dead.dead_at(peer, now) ==> r is None
                && *final(state) == *old(state) && *final(effects) == *old(effects),
            !is_anonymous_ping(buf@) && !old(self).dead.dead_at(peer, now) ==> forall|k: int|
                0 <= k < old(state).clients@.len() && (#[trigger] old(state).clients@[k]).udp_peer == Some(peer)
                ==> bound_outcome(old(state).clients@[k], *final(state), k, buf@, now, *old(effects), *final(effects), r, peer)
                && forall|j: int| 0 <= j < old(state).clients@.len() && j != k ==> #[trigger] final(state).clients@[j] == old(state).clients@[j],
            !is_anonymous_ping(buf@) && !old(self).dead.dead_at(peer, now) && (forall|j: int|
                0 <= j < old(state).clients@.len() ==> (#[trigger] old(state).clients@[j]).udp_peer != Some(peer)) ==> {
                ||| (exists|k: int|
                    0 <= k < old(state).clients@.len()
                    && (#[trigger] decrypt_result(old(state).clients@[k].crypt_state, buf@, false)) is Ok
                    && (forall|j: int| 0 <= j < k ==> (#[trigger] decrypt_result(old(state).clients@[j].crypt_state, buf@, false)) is Err)
                    && final(state).clients@[k].udp_peer == Some(peer)
                    && (forall|j: int| 0 <= j < final(state).clients@.len() && j != k ==> (#[trigger] final(state).clients@[j]).udp_peer != Some(peer))
                    && (exists|e: Effects| delivered_out(old(state).clients@[k], decrypt_result(old(state).clients@[k].crypt_state, buf@, false)->Ok_0, e, *final(effects), r)))
                ||| (r is None && final(self).dead.dead_at(peer, now) && forall|j: int| 0 <= j < old(state).clients@.len()
                    ==> (#[trigger] decrypt_result(old(state).clients@[j].crypt_state, buf@, false)) is Err
                    && probe_failed(old(state).clients@[j], final(state).clients@[j], buf@, now))
            },
    {
        match anonymous_ping_reply(buf, self.protocol_version) {
            Some(a) => {
                return Some(a);
            },
            None => {},
        }
        if self.dead.is_dead(peer, now) {
            return None;
        }
        match state.client_index_by_peer(peer) {
            Some(k) => {
                proof {
                    assert forall|j: int| 0 <= j < old(state).clients@.len() && (#[trigger] old(state).clients@[j]).udp_peer == Some(peer) implies j == k by {
                        if j < k {
                        } else if j > k {
                            assert(old(state).clients@[k as int].udp_peer != old(state).clients@[j].udp_peer);
                        }
                    }
                    lemma_refusals(old(state).clients@[k as int].crypt_state, buf@);
                }
                let ghost before = state.clients@;
                let res = state.clients[k].crypt_state.decrypt::<Serverbound>(buf, now);
                proof {
                    state.lemma_wf_after_update(before, k as int);
                }
                match res {
                    Err(e) => {
                        if should_reset_crypt(e, state.clients[k].crypt_state.late) {
                            state.reset_crypt(k, now, effects);
                            proof {
                                assert forall|j: int| 0 <= j < state.clients@.len() implies (#[trigger] state.clients@[j]).udp_peer != Some(peer) by {
                                    if j != k {
                                        assert(old(state).clients@[j].udp_peer != Some(peer));
                                    }
                                }
                            }
                        }
                        None
                    },
                    Ok(p) => {
                        self.dead.forget(peer);
                        state.deliver(k, p, effects)
                    },
                }
            },
            None => {
                match state.find_client_for_packet(buf, now, effects) {
                    Some((k, p)) => {
                        let ghost e_mid = *effects;
                        state.set_client_socket(k, peer);
                        self.dead.forget(peer);
                        let ghost bound = *state;
                        let r = state.deliver(k, p, effects);
                        proof {
                            assert(delivered_out(old(state).clients@[k as int], p@, e_mid, *effects, r));
                            assert(state.clients@[k as int].udp_peer == Some(peer));
                            assert forall|j: int| 0 <= j < state.clients@.len() && j != k implies (#[trigger] state.clients@[j]).udp_peer != Some(peer) by {
                                assert(state.clients@[j] == bound.clients@[j]);
                            }
                            assert(decrypt_result(old(state).clients@[k as int].crypt_state, buf@, false)->Ok_0 == p@);
                        }
                        return r;
                    },
                    None => {},
                }
                self.dead.mark(peer, now);
                let r: Option<Vec<u8>> = None;
                r
            },
        }
    }
}

/// The decoder never reports a replay or a late datagram, so those come
/// from the window alone and leave the state as it was.
proof fn lemma_refusals(s: CryptState, buf: Seq<u8>)
    ensures
        decrypt_result(s, buf, false) matches Err(e) && (e == DecryptError::Repeat || e == DecryptError::Late)
            ==> decrypt_refused(s, buf),
{
}

/// Whether an error from the bound client resets it, given its late count.
pub open spec fn resets(e: DecryptError, late: u32) -> bool {
    match e {
        DecryptError::Repeat => false,
        DecryptError::Late => late > 100,
        _ => true,
    }
}

/// What a datagram from client `c`, bound to `peer` and at index `k`, does to
/// the state `t` after it, the effects and the answer `r`.
pub open spec fn bound_outcome(
    c: Client,
    t: ServerState,
    k: int,
    buf: Seq<u8>,
    now: u64,
    e0: Effects,
    e1: Effects,
    r: Option<Vec<u8>>,
    peer: PeerAddr,
) -> bool {
    match decrypt_result(c.crypt_state, buf, false) {
        Ok(p) => delivered_out(c, p, e0, e1, r) && t.clients@[k].udp_peer == Some(peer),
        Err(e) => if resets(e, c.crypt_state.late) {
            &&& r is None
            &&& reset_client(c, t.clients@[k], now)
            &&& e1.broadcast == e0.broadcast
            &&& e1.direct@.len() == e0.direct@.len() + 1
            &&& e1.direct@.subrange(0, e0.direct@.len() as int) == e0.direct@
            &&& crypt_setup_sent(e1.direct@.last(), t.clients@[k])
            &&& forall|j: int| 0 <= j < t.clients@.len() ==> (#[trigger] t.clients@[j]).udp_peer != Some(peer)
        } else {
            r is None && t.clients@[k] == c && e1 == e0
        },
    }
}

/// The answer and effects of delivering packet `p` from client `c`.
pub open spec fn delivered_out(c: Client, p: PacketView, e0: Effects, e1: Effects, r: Option<Vec<u8>>) -> bool {
    let cp = stamped(p, c.session_id);
    match cp {
        PacketView::Ping { .. } => {
            let n = c.crypt_state.encrypt_nonce.wrapping_add(1);
            let (ct, tag) = ocb_encrypt_spec(c.crypt_state.key@, n, packet_encode(cp, true));
            e1 == e0 && (r matches Some(b) && b@ == crypt_header(n, tag) + ct)
        },
        PacketView::Audio { .. } => {
            &&& r is None
            &&& e1.broadcast == e0.broadcast
            &&& e1.direct@.len() == e0.direct@.len() + 1
            &&& e1.direct@.subrange(0, e0.direct@.len() as int) == e0.direct@
            &&& e1.direct@.last().session_id == c.session_id
            &&& e1.direct@.last().message matches ClientMessage::RouteVoicePacket(q) && q@ == cp
        },
    }
}

/// How a voice packet goes to a client.
pub enum VoiceOut {
    /// Encrypted, to the client's UDP peer.
    Udp(PeerAddr, Vec<u8>),
    /// Framed, on the client's control connection.
    Tunnel(Vec<u8>),
    /// Not sent: no such client, or a packet too long for a frame.
    Dropped,
}

impl ServerState {
    /// Sends voice packet `packet` to client `session`: encrypted under its
    /// next encrypt nonce to its UDP peer where it has one, otherwise framed
    /// as a tunnelled voice message on its control connection.
    pub fn send_voice_packet(&mut self, session: u32, packet: &VoicePacket<Clientbound>) -> (r: VoiceOut)
        requires
            old(self).wf(),
        ensures
            final(self).wf(),
            final(self).channels == old(self).channels,
            final(self).clients@.len() == old(self).clients@.len(),
            match old(self).client_index_spec(session) {
                None => r is Dropped && *final(self) == *old(self),
                Some(i) => {
                    let c = old(self).clients@[i];
                    &&& forall|j: int| 0 <= j < old(self).clients@.len() && j != i ==> #[trigger] final(self).clients@[j] == old(self).clients@[j]
                    &&& match c.udp_peer {
                        Some(peer) => {
                            let n = c.crypt_state.encrypt_nonce.wrapping_add(1);
                            let (ct, tag) = ocb_encrypt_spec(c.crypt_state.key@, n, packet_encode(packet@, true));
                            &&& r matches VoiceOut::Udp(a, b) && a == peer && b@ == crypt_header(n, tag) + ct
                            &&& final(self).clients@[i] == (Client { crypt_state: CryptState { encrypt_nonce: n, ..c.crypt_state }, ..c })
                        },
                        None => {
                            &&& final(self).clients@[i] == c
                            &&& packet_encode(packet@, true).len() <= u32::MAX ==> (r matches VoiceOut::Tunnel(f) && f@ == frame(1, packet_encode(packet@, true)))
                            &&& packet_encode(packet@, true).len() > u32::MAX ==> r is Dropped
                        },
                    }
                },
            },
    {
        let i = match self.client_index(session) {
            None => {
                return VoiceOut::Dropped;
            },
            Some(i) => i,
        };
        proof {
            self.lemma_client_index_spec(session, i as int);
        }
        match self.clients[i].udp_peer {
            Some(peer) => {
                let ghost before = self.clients@;
                let bytes = self.clients[i].crypt_state.encrypt(packet);
                proof {
                    self.lemma_wf_after_update(before, i as int);
                }
                VoiceOut::Udp(peer, bytes)
            },
            None => match tunnel_frame(packet) {
                Some(f) => VoiceOut::Tunnel(f),
                None => VoiceOut::Dropped,
            },
        }
    }
}

} // verus!
