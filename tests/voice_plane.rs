use std::marker::PhantomData;

use zumble::clean::PING_TIMEOUT_MS;
use zumble::crypt::CryptState;
use zumble::error::{DecryptError, IoError, MumbleError};
use zumble::handler::{ControlMessage, MessageHandler, PERM_ADMIN};
use zumble::http::{Deaf, Mute};
use zumble::proto::{ChannelState, MessageKind, Ping, ServerMessage, UserState, VoiceTargetItem, VoiceTargetMsg};
use zumble::state::{ClientMessage, Effects, PeerAddr, ServerState};
use zumble::udp::{anonymous_ping_reply, should_reset_crypt, UdpServer, VoiceOut};
use zumble::varint::{read_varint_at, write_varint_to, BufMutExt, ByteReader, ReadExt, WriteExt};
use zumble::voice::{
    decode_voice_packet, encode_voice_packet, Clientbound, Serverbound, VoicePacket, VoicePacketPayload,
};

fn key() -> [u8; 16] {
    [7, 1, 2, 3, 4, 5, 6, 7, 8, 9, 10, 11, 12, 13, 14, 15]
}

fn audio<D>(target: u8, session_id: u32, payload: VoicePacketPayload, pos: Option<Vec<u8>>) -> VoicePacket<D> {
    VoicePacket::Audio { _dst: PhantomData, target, session_id, seq_num: 42, payload, position_info: pos }
}

fn add(state: &mut ServerState, name: &str, now: u64) -> u32 {
    state
        .add_client(name.to_string(), Vec::new(), true, vec![-2147483637], CryptState::new(key(), now), now)
        .unwrap()
}

fn index(state: &ServerState, session: u32) -> usize {
    state.client_index(session).unwrap()
}

fn voice_recipients(effects: &Effects) -> Vec<u32> {
    let mut v: Vec<u32> = effects
        .direct
        .iter()
        .filter(|o| matches!(o.message, ClientMessage::SendVoicePacket(_)))
        .map(|o| o.session_id)
        .collect();
    v.sort();
    v
}

#[test]
fn varint_round_trip_boundaries() {
    let values: Vec<u64> = vec![
        0,
        0x7f,
        0x80,
        0x3fff,
        0x4000,
        0x1f_ffff,
        0x20_0000,
        0x0fff_ffff,
        0x1000_0000,
        0xffff_ffff,
        0x1_0000_0000,
        1 << 63,
        u64::MAX,
        u64::MAX - 3,
        u64::MAX - 4,
    ];
    for v in values {
        let mut buf = Vec::new();
        write_varint_to(&mut buf, v);
        buf.push(0xaa);
        let (read, pos) = read_varint_at(&buf, 0).unwrap();
        assert_eq!(read, v);
        assert_eq!(pos, buf.len() - 1);
    }
}

#[test]
fn varint_exact_bytes() {
    let mut buf = Vec::new();
    buf.write_varint(0x80);
    assert_eq!(buf, vec![0x80, 0x80]);
    let mut buf = Vec::new();
    buf.write_varint(u64::MAX);
    assert_eq!(buf, vec![0xfc | 0x00]);
    let mut buf = Vec::new();
    buf.write_varint(0x1_0000_0000);
    assert_eq!(buf, vec![0xf4, 0, 0, 0, 1, 0, 0, 0, 0]);
}

#[test]
fn varint_short_read() {
    assert_eq!(read_varint_at(&[0x80], 0), Err(IoError::UnexpectedEof));
    assert_eq!(read_varint_at(&[], 0), Err(IoError::UnexpectedEof));
}

fn round_trip_clientbound(p: VoicePacket<Clientbound>) {
    let mut buf = Vec::new();
    encode_voice_packet(&p, &mut buf);
    let back: VoicePacket<Clientbound> = decode_voice_packet(&buf).unwrap();
    assert_eq!(back, p);
}

fn round_trip_serverbound(p: VoicePacket<Serverbound>) {
    let mut buf = Vec::new();
    encode_voice_packet(&p, &mut buf);
    let back: VoicePacket<Serverbound> = decode_voice_packet(&buf).unwrap();
    assert_eq!(back, p);
}

#[test]
fn voice_frame_round_trip_all_kinds() {
    let frames = vec![vec![1, 2, 3], vec![4; 127], vec![5]];
    for pos in [None, Some(vec![9, 9, 9, 9])] {
        round_trip_clientbound(audio(3, 77, VoicePacketPayload::CeltAlpha(frames.clone()), pos.clone()));
        round_trip_clientbound(audio(31, 77, VoicePacketPayload::CeltBeta(frames.clone()), pos.clone()));
        round_trip_clientbound(audio(0, 77, VoicePacketPayload::Speex(frames.clone()), pos.clone()));
        round_trip_clientbound(audio(1, 77, VoicePacketPayload::Opus(vec![6; 300], true), pos.clone()));
        round_trip_serverbound(audio(3, 0, VoicePacketPayload::CeltAlpha(frames.clone()), pos.clone()));
        round_trip_serverbound(audio(0, 0, VoicePacketPayload::Speex(frames.clone()), pos.clone()));
        round_trip_serverbound(audio(30, 0, VoicePacketPayload::Opus(vec![6; 3], false), pos.clone()));
    }
    round_trip_clientbound(VoicePacket::Ping { timestamp: 0x1122_3344 });
    round_trip_serverbound(VoicePacket::Ping { timestamp: 5 });
}

#[test]
fn voice_frame_exact_bytes() {
    let p: VoicePacket<Clientbound> = audio(2, 5, VoicePacketPayload::Opus(vec![0xab], true), None);
    let mut buf = Vec::new();
    encode_voice_packet(&p, &mut buf);
    assert_eq!(buf, vec![0x82, 5, 42, 0xa0, 0x01, 0xab]);
    let s: VoicePacket<Serverbound> = audio(2, 0, VoicePacketPayload::Opus(vec![0xab], true), None);
    let mut buf = Vec::new();
    encode_voice_packet(&s, &mut buf);
    assert_eq!(buf, vec![0x82, 42, 0xa0, 0x01, 0xab]);
}

#[test]
fn voice_decode_errors() {
    let r: Result<VoicePacket<Serverbound>, DecryptError> = decode_voice_packet(&[0xa0, 1]);
    assert_eq!(r.unwrap_err(), DecryptError::Io(IoError::InvalidData));
    let r: Result<VoicePacket<Serverbound>, DecryptError> = decode_voice_packet(&[0x00, 1, 0x05, 1]);
    assert_eq!(r.unwrap_err(), DecryptError::Eof);
    let r: Result<VoicePacket<Serverbound>, DecryptError> = decode_voice_packet(&[]);
    assert_eq!(r.unwrap_err(), DecryptError::Io(IoError::UnexpectedEof));
}

fn mirrored() -> (CryptState, CryptState) {
    let sender = CryptState::new(key(), 0);
    let mut receiver = CryptState::new(key(), 0);
    receiver.set_decrypt_nonce(&sender.get_encrypt_nonce());
    (sender, receiver)
}

#[test]
fn ocb_round_trip() {
    let (mut sender, mut receiver) = mirrored();
    for len in [0usize, 1, 15, 16, 17, 32, 33, 100] {
        let p: VoicePacket<Serverbound> = audio(0, 0, VoicePacketPayload::Opus(vec![len as u8; len], false), None);
        let bytes = sender.encrypt(&p);
        let back: VoicePacket<Serverbound> = receiver.decrypt(&bytes, 10).unwrap();
        assert_eq!(back, p);
        assert_eq!(receiver.decrypt_nonce, sender.encrypt_nonce);
    }
    assert_eq!(receiver.good, 8);
}

#[test]
fn ciphertext_differs_from_plaintext() {
    let (mut sender, _) = mirrored();
    let p: VoicePacket<Serverbound> = audio(0, 0, VoicePacketPayload::Opus(vec![0; 40], false), None);
    let mut plain = Vec::new();
    encode_voice_packet(&p, &mut plain);
    let bytes = sender.encrypt(&p);
    assert_eq!(bytes.len(), plain.len() + 4);
    assert_ne!(&bytes[4..], &plain[..]);
    assert_eq!(bytes[0], 1);
}

#[test]
fn replay_is_rejected() {
    let (mut sender, mut receiver) = mirrored();
    let p: VoicePacket<Serverbound> = VoicePacket::Ping { timestamp: 1 };
    let bytes = sender.encrypt(&p);
    receiver.decrypt::<Serverbound>(&bytes, 0).unwrap();
    let nonce = receiver.decrypt_nonce;
    assert_eq!(receiver.decrypt::<Serverbound>(&bytes, 0).unwrap_err(), DecryptError::Repeat);
    assert_eq!(receiver.decrypt_nonce, nonce);
}

#[test]
fn late_window() {
    let (mut sender, mut receiver) = mirrored();
    sender.encrypt_nonce = 0x1000;
    receiver.set_decrypt_nonce(&sender.get_encrypt_nonce());
    let p: VoicePacket<Serverbound> = VoicePacket::Ping { timestamp: 1 };
    let sent: Vec<Vec<u8>> = (0..31).map(|_| sender.encrypt(&p)).collect();
    receiver.decrypt::<Serverbound>(&sent[30], 0).unwrap();
    let nonce = receiver.decrypt_nonce;
    let good = receiver.good;
    receiver.decrypt::<Serverbound>(&sent[1], 0).unwrap();
    assert_eq!(receiver.late, 1);
    assert_eq!(receiver.good, good + 1);
    assert_eq!(receiver.decrypt_nonce, nonce);
    assert_eq!(receiver.decrypt::<Serverbound>(&sent[1], 0).unwrap_err(), DecryptError::Repeat);
    assert_eq!(receiver.decrypt::<Serverbound>(&sent[0], 0).unwrap_err(), DecryptError::Late);
    assert_eq!(receiver.good, good + 1);
    assert_eq!(receiver.decrypt_nonce, nonce);
}

#[test]
fn mac_mismatch() {
    let (mut sender, mut receiver) = mirrored();
    let p: VoicePacket<Serverbound> = VoicePacket::Ping { timestamp: 1 };
    let bytes = sender.encrypt(&p);
    for i in 1..4 {
        let mut bad = bytes.clone();
        bad[i] ^= 0x01;
        assert_eq!(receiver.decrypt::<Serverbound>(&bad, 0).unwrap_err(), DecryptError::Mac);
        assert_eq!(receiver.good, 0);
        assert_eq!(receiver.decrypt_nonce, 0);
    }
    assert_eq!(receiver.decrypt::<Serverbound>(&bytes[..3], 0).unwrap_err(), DecryptError::Eof);
}

#[test]
fn crypt_setup_and_reset() {
    let mut c = CryptState::new(key(), 5);
    let setup = c.get_crypt_setup();
    assert_eq!(setup.key, key().to_vec());
    let mut dn = vec![0u8; 16];
    dn[15] = 0x80;
    assert_eq!(setup.client_nonce, dn);
    assert_eq!(setup.server_nonce, vec![0u8; 16]);
    c.set_decrypt_nonce(&[1, 0, 0, 0, 0, 0, 0, 0, 0, 0, 0, 0, 0, 0, 0, 0]);
    assert_eq!(c.decrypt_nonce, 1);
    assert_eq!(c.resync, 1);
    c.reset(9);
    assert_eq!(c.decrypt_nonce, 1u128 << 127);
    assert_eq!(c.resync, 0);
    assert_eq!(c.last_good, 9);
    assert_eq!(c.key, key());
}

#[test]
fn session_ids_are_lowest_free() {
    let mut state = ServerState::new();
    assert_eq!(add(&mut state, "a", 0), 1);
    assert_eq!(add(&mut state, "b", 0), 2);
    assert_eq!(add(&mut state, "c", 0), 3);
    let mut effects = Effects::new();
    state.disconnect(2, &mut effects);
    assert!(matches!(effects.broadcast[0], ServerMessage::UserRemove { session: 2, .. }));
    assert_eq!(add(&mut state, "d", 0), 2);
    assert_eq!(add(&mut state, "e", 0), 4);
}

fn create_channel(state: &mut ServerState, session: u32, name: &str, effects: &mut Effects) {
    let i = index(state, session);
    let msg = ChannelState {
        channel_id: None,
        parent: Some(0),
        name: Some(name.to_string()),
        description: None,
        temporary: Some(true),
        position: None,
    };
    state.handle_channel_state(i, &msg, effects);
}

fn move_to(state: &mut ServerState, session: u32, channel: u32, effects: &mut Effects) -> Option<u32> {
    let i = index(state, session);
    let msg = UserState {
        session: Some(session),
        user_id: None,
        name: None,
        channel_id: Some(channel),
        mute: None,
        deaf: None,
        listening_channel_add: Vec::new(),
        listening_channel_remove: Vec::new(),
    };
    state.handle_user_state(i, &msg, effects)
}

#[test]
fn temporary_channel_is_removed_when_left() {
    let mut state = ServerState::new();
    let a = add(&mut state, "a", 0);
    let mut effects = Effects::new();
    create_channel(&mut state, a, "Ops", &mut effects);
    let ops = state.get_channel_by_name(&"Ops".to_string()).unwrap();
    assert_eq!(ops, 1);
    assert_eq!(state.clients[index(&state, a)].channel_id, ops);
    assert!(matches!(&effects.broadcast[0], ServerMessage::ChannelState(c) if c.channel_id == Some(1)));
    assert_eq!(state.channel_index(0), Some(0));
    let mut effects = Effects::new();
    assert_eq!(move_to(&mut state, a, 0, &mut effects), Some(ops));
    assert!(state.channel_index(ops).is_none());
    assert!(matches!(effects.broadcast.last(), Some(ServerMessage::ChannelRemove { channel_id: 1 })));
}

#[test]
fn temporary_channel_with_member_or_child_is_kept() {
    let mut state = ServerState::new();
    let a = add(&mut state, "a", 0);
    let b = add(&mut state, "b", 0);
    let mut effects = Effects::new();
    create_channel(&mut state, a, "Ops", &mut effects);
    create_channel(&mut state, b, "Ops", &mut effects);
    assert_eq!(state.clients[index(&state, b)].channel_id, 1);
    assert_eq!(move_to(&mut state, a, 0, &mut effects), None);
    assert!(state.channel_index(1).is_some());
    state.add_channel(1, "Child".to_string(), String::new(), true);
    assert_eq!(move_to(&mut state, b, 0, &mut effects), None);
    assert!(state.channel_index(1).is_some());
}

#[test]
fn disconnect_removes_temporary_channel() {
    let mut state = ServerState::new();
    let a = add(&mut state, "a", 0);
    let mut effects = Effects::new();
    create_channel(&mut state, a, "Ops", &mut effects);
    let mut effects = Effects::new();
    assert_eq!(state.disconnect(a, &mut effects), Some(1));
    assert!(state.channel_index(1).is_none());
    assert!(state.channel_index(0).is_some());
    assert!(matches!(effects.broadcast[0], ServerMessage::UserRemove { session: 1, .. }));
    assert!(matches!(effects.broadcast[1], ServerMessage::ChannelRemove { channel_id: 1 }));
}

fn send_audio(state: &mut ServerState, from: u32, target: u8) -> Effects {
    let mut effects = Effects::new();
    let packet: VoicePacket<Clientbound> = audio(target, from, VoicePacketPayload::Opus(vec![1, 2], false), None);
    MessageHandler::handle_voice(state, from, &packet, &mut effects);
    for o in &effects.direct {
        if let ClientMessage::SendVoicePacket(p) = &o.message {
            assert_eq!(p, &packet);
        }
    }
    effects
}

#[test]
fn channel_talk_reaches_channel_but_not_sender() {
    let mut state = ServerState::new();
    let a = add(&mut state, "a", 0);
    let b = add(&mut state, "b", 0);
    let effects = send_audio(&mut state, a, 0);
    assert_eq!(voice_recipients(&effects), vec![b]);
}

#[test]
fn channel_talk_reaches_listeners() {
    let mut state = ServerState::new();
    let a = add(&mut state, "a", 0);
    let b = add(&mut state, "b", 0);
    let c = add(&mut state, "c", 0);
    let mut effects = Effects::new();
    create_channel(&mut state, c, "Side", &mut effects);
    let i = index(&state, b);
    let msg = UserState {
        session: Some(b),
        user_id: None,
        name: None,
        channel_id: None,
        mute: None,
        deaf: None,
        listening_channel_add: vec![1],
        listening_channel_remove: Vec::new(),
    };
    state.handle_user_state(i, &msg, &mut effects);
    let effects = send_audio(&mut state, c, 0);
    assert_eq!(voice_recipients(&effects), vec![b]);
    let effects = send_audio(&mut state, a, 0);
    assert_eq!(voice_recipients(&effects), vec![b]);
}

#[test]
fn whisper_reaches_target_only() {
    let mut state = ServerState::new();
    let a = add(&mut state, "a", 0);
    let b = add(&mut state, "b", 0);
    let _c = add(&mut state, "c", 0);
    let i = index(&state, a);
    let msg = VoiceTargetMsg { id: Some(1), targets: vec![VoiceTargetItem { sessions: vec![b], channel_id: None }] };
    state.handle_voice_target(i, &msg);
    let effects = send_audio(&mut state, a, 1);
    assert_eq!(voice_recipients(&effects), vec![b]);
    let effects = send_audio(&mut state, a, 2);
    assert_eq!(voice_recipients(&effects), Vec::<u32>::new());
}

#[test]
fn whisper_to_channel_excludes_sender() {
    let mut state = ServerState::new();
    let a = add(&mut state, "a", 0);
    let b = add(&mut state, "b", 0);
    let c = add(&mut state, "c", 0);
    let i = index(&state, a);
    let msg = VoiceTargetMsg { id: Some(30), targets: vec![VoiceTargetItem { sessions: vec![], channel_id: Some(0) }] };
    state.handle_voice_target(i, &msg);
    let effects = send_audio(&mut state, a, 30);
    assert_eq!(voice_recipients(&effects), vec![b, c]);
}

#[test]
fn muted_client_reaches_nobody_but_loopback() {
    let mut state = ServerState::new();
    let a = add(&mut state, "A", 0);
    let _b = add(&mut state, "B", 0);
    assert!(state.post_mute(&Mute { mute: true, user: "A".to_string() }));
    assert!(state.get_mute(&"A".to_string()).unwrap().mute);
    assert!(!state.post_mute(&Mute { mute: true, user: "nobody".to_string() }));
    let effects = send_audio(&mut state, a, 0);
    assert_eq!(voice_recipients(&effects), Vec::<u32>::new());
    let effects = send_audio(&mut state, a, 31);
    assert_eq!(voice_recipients(&effects), vec![a]);
}

#[test]
fn ping_timeout_disconnects() {
    let mut state = ServerState::new();
    let a = add(&mut state, "a", 0);
    let b = add(&mut state, "b", 0);
    let mut effects = Effects::new();
    let i = index(&state, b);
    state.handle_ping(i, &Ping { timestamp: 3, good: 0, late: 0, lost: 0, resync: 0 }, 30_000, &mut effects);
    assert!(matches!(&effects.direct[0].message, ClientMessage::SendMessage(ServerMessage::Ping(p)) if p.timestamp == 3));
    let out = state.clean_run(PING_TIMEOUT_MS + 1);
    assert_eq!(out.len(), 1);
    assert_eq!(out[0].session_id, a);
    assert!(matches!(out[0].message, ClientMessage::Disconnect));
    assert_eq!(state.clean_run(PING_TIMEOUT_MS).len(), 0);
}

#[test]
fn anonymous_ping() {
    let mut buf = vec![0, 0, 0, 0];
    buf.extend_from_slice(&0x1122334455667788u64.to_le_bytes());
    let reply = anonymous_ping_reply(&buf, 0x0001_0204).unwrap();
    assert_eq!(reply.len(), 24);
    assert_eq!(&reply[0..4], &[0, 1, 2, 4]);
    assert_eq!(u64::from_le_bytes(reply[4..12].try_into().unwrap()), 0x1122334455667788);
    assert_eq!(u32::from_be_bytes(reply[12..16].try_into().unwrap()), 0);
    assert_eq!(u32::from_be_bytes(reply[16..20].try_into().unwrap()), 250);
    assert_eq!(u32::from_be_bytes(reply[20..24].try_into().unwrap()), 72000);
    buf[0] = 1;
    assert!(anonymous_ping_reply(&buf, 1).is_none());
    assert!(anonymous_ping_reply(&buf[..11], 1).is_none());
}

#[test]
fn decrypt_error_policy() {
    assert!(!should_reset_crypt(DecryptError::Repeat, 500));
    assert!(!should_reset_crypt(DecryptError::Late, 100));
    assert!(should_reset_crypt(DecryptError::Late, 101));
    assert!(should_reset_crypt(DecryptError::Mac, 0));
    assert!(should_reset_crypt(DecryptError::Eof, 0));
}

#[test]
fn udp_binds_peer_and_routes_audio() {
    let mut state = ServerState::new();
    let a = add(&mut state, "a", 0);
    let peer = PeerAddr { ip: 0xffff_7f00_0001, port: 4000 };
    let mut client_side = CryptState::new(key(), 0);
    client_side.set_decrypt_nonce(&state.clients[0].crypt_state.get_encrypt_nonce());
    let i = index(&state, a);
    state.clients[i].crypt_state.set_decrypt_nonce(&client_side.get_encrypt_nonce());
    let mut udp = UdpServer::new(0x10204);
    let p: VoicePacket<Serverbound> = audio(0, 0, VoicePacketPayload::Speex(vec![vec![1, 2, 3]]), None);
    let bytes = client_side.encrypt(&p);
    let mut effects = Effects::new();
    assert!(udp.receive(&mut state, peer, &bytes, 1, &mut effects).is_none());
    assert_eq!(state.clients[i].udp_peer, Some(peer));
    assert!(matches!(&effects.direct[0].message, ClientMessage::RouteVoicePacket(VoicePacket::Audio { session_id, .. }) if *session_id == a));
    let ping: VoicePacket<Serverbound> = VoicePacket::Ping { timestamp: 99 };
    let bytes = client_side.encrypt(&ping);
    let reply = udp.receive(&mut state, peer, &bytes, 2, &mut effects).unwrap();
    let echoed: VoicePacket<Clientbound> = client_side.decrypt(&reply, 2).unwrap();
    assert_eq!(echoed, VoicePacket::Ping { timestamp: 99 });
}

#[test]
fn udp_late_with_many_late_resets_and_unbinds() {
    let mut state = ServerState::new();
    let a = add(&mut state, "a", 0);
    let i = index(&state, a);
    let peer = PeerAddr { ip: 1, port: 2 };
    state.clients[i].udp_peer = Some(peer);
    state.clients[i].crypt_state.late = 101;
    state.clients[i].crypt_state.decrypt_nonce = 100;
    let mut datagram = vec![100 - 40, 0, 0, 0];
    datagram.extend_from_slice(&[1, 2, 3]);
    let mut udp = UdpServer::new(1);
    let mut effects = Effects::new();
    assert!(udp.receive(&mut state, peer, &datagram, 10, &mut effects).is_none());
    assert_eq!(state.clients[i].udp_peer, None);
    assert_eq!(state.clients[i].crypt_state.late, 0);
    assert_eq!(state.clients[i].crypt_state.decrypt_nonce, 1u128 << 127);
    assert!(matches!(&effects.direct.last().unwrap().message, ClientMessage::SendMessage(ServerMessage::CryptSetup(_))));
    assert_eq!(effects.direct.last().unwrap().session_id, a);
}

#[test]
fn udp_unknown_peer_is_ignored_for_a_while() {
    let mut state = ServerState::new();
    let _a = add(&mut state, "a", 0);
    let peer = PeerAddr { ip: 9, port: 9 };
    let mut udp = UdpServer::new(1);
    let mut effects = Effects::new();
    assert!(udp.receive(&mut state, peer, &[1, 2, 3, 4, 5], 10_000, &mut effects).is_none());
    assert!(udp.dead.is_dead(peer, 10_000 + 19_999));
    assert!(!udp.dead.is_dead(peer, 10_000 + 20_000));
    assert_eq!(effects.direct.len(), 1);
    assert!(matches!(&effects.direct[0].message, ClientMessage::SendMessage(ServerMessage::CryptSetup(_))));
    assert!(udp.receive(&mut state, peer, &[1, 2, 3, 4, 5], 10_001, &mut effects).is_none());
    assert_eq!(effects.direct.len(), 1);
}

#[test]
fn message_kinds() {
    assert_eq!(MessageKind::try_from(0).unwrap(), MessageKind::Version);
    assert_eq!(MessageKind::try_from(25).unwrap(), MessageKind::SuggestConfig);
    assert_eq!(MessageKind::try_from(26).unwrap_err(), MumbleError::UnexpectedMessageKind(26));
    assert_eq!(MessageKind::UserState.code(), 9);
    assert_eq!(MessageKind::UDPTunnel.name(), "UDPTunnel");
}

#[test]
fn control_messages() {
    let mut state = ServerState::new();
    let a = add(&mut state, "a", 0);
    let mut effects = Effects::new();
    MessageHandler::handle(&mut state, a, ControlMessage::PermissionQuery { channel_id: Some(0) }, 0, &mut effects)
        .unwrap();
    assert!(matches!(
        effects.direct[0].message,
        ClientMessage::SendMessage(ServerMessage::PermissionQuery { channel_id: Some(0), permissions: PERM_ADMIN })
    ));
    assert_eq!(PERM_ADMIN, 0x30f3e);
    let r = MessageHandler::handle(&mut state, a, ControlMessage::CryptSetup { client_nonce: Some(vec![1, 2]) }, 0, &mut effects);
    assert_eq!(r, Err(MumbleError::Parse));
    MessageHandler::handle(&mut state, a, ControlMessage::CryptSetup { client_nonce: None }, 0, &mut effects).unwrap();
    assert!(matches!(effects.direct[1].message, ClientMessage::SendMessage(ServerMessage::CryptSetup(_))));
    let tunnel = vec![0x00, 42, 0x02, 7, 8];
    let b = add(&mut state, "b", 0);
    let mut effects = Effects::new();
    MessageHandler::handle(&mut state, a, ControlMessage::UdpTunnel(tunnel), 0, &mut effects).unwrap();
    assert_eq!(voice_recipients(&effects), vec![b]);
}

#[test]
fn codec_state_versions() {
    let state = ServerState::new();
    let c = state.codec_state.get_codec_version();
    assert!(c.opus);
    assert_eq!(state.codec_state.get_version(), 0);
}

#[test]
fn status_report() {
    let mut state = ServerState::new();
    let _a = add(&mut state, "a", 100);
    let s = state.get_status(350);
    assert_eq!(s.len(), 1);
    assert_eq!(s[0].channel.as_deref(), Some("Root"));
    assert_eq!(s[0].last_good_duration, 250);
    assert_eq!(s[0].targets.len(), 30);
}

#[test]
fn codec_switches_to_most_common_version() {
    let mut state = ServerState::new();
    let mut effects = Effects::new();
    let key = key();
    state.add_client("a".to_string(), Vec::new(), true, vec![-2147483637, 7], CryptState::new(key, 0), 0);
    state.add_client("b".to_string(), Vec::new(), true, vec![7], CryptState::new(key, 0), 0);
    assert!(state.check_codec(&mut effects).is_none());
    assert!(state.codec_state.prefer_alpha);
    assert_eq!(state.codec_state.alpha, 7);
    assert_eq!(state.codec_state.get_version(), 7);
    assert!(matches!(effects.broadcast[0], ServerMessage::CodecVersion(c) if c.alpha == 7 && c.prefer_alpha));
    let again = state.check_codec(&mut effects).unwrap();
    assert_eq!(again.alpha, 7);
    assert_eq!(effects.broadcast.len(), 1);
}

#[test]
fn join_sends_welcome() {
    let mut state = ServerState::new();
    let mut effects = Effects::new();
    let id = state
        .join("a".to_string(), Vec::new(), true, Vec::new(), CryptState::new(key(), 0), 0, &mut effects)
        .unwrap();
    assert_eq!(id, 1);
    let kinds: Vec<MessageKind> = effects
        .direct
        .iter()
        .map(|o| match &o.message {
            ClientMessage::SendMessage(m) => m.kind(),
            _ => panic!("unexpected message"),
        })
        .collect();
    assert_eq!(
        kinds,
        vec![
            MessageKind::CodecVersion,
            MessageKind::ChannelState,
            MessageKind::UserState,
            MessageKind::UserState,
            MessageKind::ServerSync,
            MessageKind::ServerConfig,
        ]
    );
    assert!(matches!(effects.broadcast.last(), Some(ServerMessage::UserState(u)) if u.session == Some(1)));
}

#[test]
fn control_frames() {
    let f = zumble::proto::message_to_bytes(MessageKind::UserState, &[1, 2, 3]);
    assert_eq!(f, vec![0, 9, 0, 0, 0, 3, 1, 2, 3]);
    assert_eq!(zumble::proto::read_frame_header(&f), Some((9, 3)));
    assert_eq!(zumble::proto::read_frame_header(&f[..5]), None);
    let p: VoicePacket<Clientbound> = VoicePacket::Ping { timestamp: 3 };
    assert_eq!(zumble::proto::tunnel_frame(&p).unwrap(), vec![0, 1, 0, 0, 0, 2, 0x20, 3]);
}

#[test]
fn byte_reader_reads_in_turn() {
    let mut data = Vec::new();
    data.put_varint(300);
    data.put_varint(5);
    let mut r = ByteReader { data, pos: 0 };
    assert_eq!(r.read_varint(), Ok(300));
    assert_eq!(r.read_varint(), Ok(5));
    assert_eq!(r.read_varint(), Err(IoError::UnexpectedEof));
}

#[test]
fn scenario_temporary_channel_lifecycle() {
    let mut state = ServerState::new();
    let a = add(&mut state, "A", 0);
    let mut effects = Effects::new();
    create_channel(&mut state, a, "Ops", &mut effects);
    let ops = match &effects.broadcast[0] {
        ServerMessage::ChannelState(c) => c.channel_id.unwrap(),
        _ => panic!("expected a channel state"),
    };
    assert_ne!(ops, 0);
    assert_eq!(state.clients[index(&state, a)].channel_id, ops);
    assert!(state.channel_index(0).is_some());
    let mut effects = Effects::new();
    state.disconnect(a, &mut effects);
    assert!(state.channel_index(ops).is_none());
    assert!(state.channel_index(0).is_some());
    assert!(effects
        .broadcast
        .iter()
        .any(|m| matches!(m, ServerMessage::ChannelRemove { channel_id } if *channel_id == ops)));
}

#[test]
fn generated_keys_differ() {
    let a = CryptState::generate(0).unwrap();
    let b = CryptState::generate(0).unwrap();
    assert_ne!(a.key, b.key);
    assert_eq!(a.decrypt_nonce, 1u128 << 127);
}

#[test]
fn s2_doubles_in_gf128() {
    assert_eq!(zumble::crypt::s2(1), 2);
    assert_eq!(zumble::crypt::s2(1u128 << 127), 0x87);
}

#[test]
fn deaf_and_user_state_updates() {
    let mut state = ServerState::new();
    let a = add(&mut state, "A", 0);
    let b = add(&mut state, "B", 0);
    assert!(state.post_deaf(&Deaf { deaf: true, user: "B".to_string() }));
    assert!(state.get_deaf(&"B".to_string()).unwrap().deaf);
    assert!(state.get_deaf(&"C".to_string()).is_none());
    let mut effects = Effects::new();
    let i = index(&state, a);
    let about_b = UserState {
        session: Some(b),
        user_id: None,
        name: None,
        channel_id: None,
        mute: Some(true),
        deaf: None,
        listening_channel_add: Vec::new(),
        listening_channel_remove: Vec::new(),
    };
    assert_eq!(state.handle_user_state(i, &about_b, &mut effects), None);
    assert!(!state.clients[index(&state, b)].mute);
    let about_a = UserState { session: Some(a), mute: Some(true), deaf: Some(true), ..about_b };
    state.handle_user_state(i, &about_a, &mut effects);
    assert!(state.clients[i].mute);
    assert!(state.clients[i].deaf);
    assert_eq!(move_to(&mut state, a, 77, &mut effects), None);
    assert_eq!(state.clients[i].channel_id, 0);
}

#[test]
fn disconnect_clears_listeners_and_targets() {
    let mut state = ServerState::new();
    let a = add(&mut state, "a", 0);
    let b = add(&mut state, "b", 0);
    let i = index(&state, a);
    let msg = VoiceTargetMsg { id: Some(5), targets: vec![VoiceTargetItem { sessions: vec![b, 99], channel_id: None }] };
    state.handle_voice_target(i, &msg);
    assert_eq!(state.clients[i].targets[4].sessions.len(), 2);
    let mut effects = Effects::new();
    let j = index(&state, b);
    let listen = UserState {
        session: Some(b),
        user_id: None,
        name: None,
        channel_id: None,
        mute: None,
        deaf: None,
        listening_channel_add: vec![0],
        listening_channel_remove: Vec::new(),
    };
    state.handle_user_state(j, &listen, &mut effects);
    assert!(state.channels[0].listeners.contains(&b));
    state.disconnect(b, &mut effects);
    assert!(!state.channels[0].listeners.contains(&b));
    let i = index(&state, a);
    assert!(!state.clients[i].targets[4].sessions.contains(&b));
    assert!(state.clients[i].targets[4].sessions.contains(&99));
    assert!(state.client_index(b).is_none());
}

#[test]
fn authenticate_replaces_tokens() {
    let mut state = ServerState::new();
    let a = add(&mut state, "a", 0);
    let mut effects = Effects::new();
    MessageHandler::handle(
        &mut state,
        a,
        ControlMessage::Authenticate { tokens: vec!["x".to_string(), "y".to_string()] },
        0,
        &mut effects,
    )
    .unwrap();
    assert_eq!(state.clients[0].tokens, vec!["x".to_string(), "y".to_string()]);
}

#[test]
fn codec_state_default() {
    let c = zumble::state::CodecState::default();
    assert!(c.opus);
    assert!(!c.prefer_alpha);
    assert_eq!(c.get_version(), 0);
}

#[test]
fn client_join_channel_and_update() {
    let mut state = ServerState::new();
    let a = add(&mut state, "a", 0);
    let i = index(&state, a);
    let c = &mut state.clients[i];
    assert_eq!(c.join_channel(0), None);
    assert_eq!(c.join_channel(4), Some(0));
    assert_eq!(c.channel_id, 4);
    assert_eq!(c.get_target(29).unwrap().sessions.len(), 0);
    assert!(c.get_target(30).is_none());
}

#[test]
fn udp_short_datagram_from_bound_client_resets() {
    let mut state = ServerState::new();
    let a = add(&mut state, "a", 0);
    let i = index(&state, a);
    let peer = PeerAddr { ip: 5, port: 6 };
    state.clients[i].udp_peer = Some(peer);
    let mut udp = UdpServer::new(1);
    let mut effects = Effects::new();
    assert!(udp.receive(&mut state, peer, &[1, 2], 10, &mut effects).is_none());
    assert_eq!(state.clients[i].udp_peer, None);
    assert!(matches!(&effects.direct[0].message, ClientMessage::SendMessage(ServerMessage::CryptSetup(_))));
}

#[test]
fn udp_replay_from_bound_client_is_dropped() {
    let mut state = ServerState::new();
    let a = add(&mut state, "a", 0);
    let i = index(&state, a);
    let peer = PeerAddr { ip: 5, port: 6 };
    let mut client_side = CryptState::new(key(), 0);
    state.clients[i].crypt_state.set_decrypt_nonce(&client_side.get_encrypt_nonce());
    state.clients[i].udp_peer = Some(peer);
    let p: VoicePacket<Serverbound> = audio(0, 0, VoicePacketPayload::Speex(vec![vec![1]]), None);
    let bytes = client_side.encrypt(&p);
    let mut udp = UdpServer::new(1);
    let mut effects = Effects::new();
    udp.receive(&mut state, peer, &bytes, 1, &mut effects);
    assert_eq!(effects.direct.len(), 1);
    udp.receive(&mut state, peer, &bytes, 2, &mut effects);
    assert_eq!(effects.direct.len(), 1);
    assert_eq!(state.clients[i].udp_peer, Some(peer));
}

#[test]
fn voice_goes_by_udp_when_bound_and_tunnelled_otherwise() {
    let mut state = ServerState::new();
    let a = add(&mut state, "a", 0);
    let p: VoicePacket<Clientbound> = VoicePacket::Ping { timestamp: 3 };
    match state.send_voice_packet(a, &p) {
        VoiceOut::Tunnel(f) => assert_eq!(f, vec![0, 1, 0, 0, 0, 2, 0x20, 3]),
        _ => panic!("expected a tunnelled frame"),
    }
    let i = index(&state, a);
    let peer = PeerAddr { ip: 1, port: 1 };
    state.clients[i].udp_peer = Some(peer);
    match state.send_voice_packet(a, &p) {
        VoiceOut::Udp(to, b) => {
            assert_eq!(to, peer);
            assert_eq!(b.len(), 4 + 2);
        }
        _ => panic!("expected a datagram"),
    }
    assert_eq!(state.clients[i].crypt_state.encrypt_nonce, 1);
    assert!(matches!(state.send_voice_packet(99, &p), VoiceOut::Dropped));
}

#[test]
fn disconnect_reason() {
    let mut state = ServerState::new();
    let a = add(&mut state, "a", 0);
    let mut effects = Effects::new();
    state.disconnect(a, &mut effects);
    assert!(matches!(&effects.broadcast[0], ServerMessage::UserRemove { session: 1, reason } if reason == "disconnected"));
    assert_eq!(effects.broadcast.len(), 1);
}
