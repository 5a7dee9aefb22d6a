//! Control messages of the Mumble protocol as the library builds and reads them.
use vstd::prelude::*;

use crate::error::MumbleError;
use crate::voice::{encode_voice_packet, packet_encode, Clientbound, VoicePacket};

verus! {

/// Kinds of control message, by their number on the wire.
#[derive(Clone, Copy, Debug, PartialEq, Eq, Structural)]
pub enum MessageKind {
    Version,
    UDPTunnel,
    Authenticate,
    Ping,
    Reject,
    ServerSync,
    ChannelRemove,
    ChannelState,
    UserRemove,
    UserState,
    BanList,
    TextMessage,
    PermissionDenied,
    ACL,
    QueryUsers,
    CryptSetup,
    ContextActionModify,
    ContextAction,
    UserList,
    VoiceTarget,
    PermissionQuery,
    CodecVersion,
    UserStats,
    RequestBlob,
    ServerConfig,
    SuggestConfig,
}

/// The wire number of a message kind.
pub open spec fn kind_code(k: MessageKind) -> u16 {
    match k {
        MessageKind::Version => 0,
        MessageKind::UDPTunnel => 1,
        MessageKind::Authenticate => 2,
        MessageKind::Ping => 3,
        MessageKind::Reject => 4,
        MessageKind::ServerSync => 5,
        MessageKind::ChannelRemove => 6,
        MessageKind::ChannelState => 7,
        MessageKind::UserRemove => 8,
        MessageKind::UserState => 9,
        MessageKind::BanList => 10,
        MessageKind::TextMessage => 11,
        MessageKind::PermissionDenied => 12,
        MessageKind::ACL => 13,
        MessageKind::QueryUsers => 14,
        MessageKind::CryptSetup => 15,
        MessageKind::ContextActionModify => 16,
        MessageKind::ContextAction => 17,
        MessageKind::UserList => 18,
        MessageKind::VoiceTarget => 19,
        MessageKind::PermissionQuery => 20,
        MessageKind::CodecVersion => 21,
        MessageKind::UserStats => 22,
        MessageKind::RequestBlob => 23,
        MessageKind::ServerConfig => 24,
        MessageKind::SuggestConfig => 25,
    }
}

impl MessageKind {
    /// The kind with wire number `value`; an unknown number is an error.
    pub fn try_from(value: u16) -> (r: Result<MessageKind, MumbleError>)
        ensures
            value <= 25 ==> (r matches Ok(k) && kind_code(k) == value),
            value > 25 ==> r == Err::<MessageKind, MumbleError>(MumbleError::UnexpectedMessageKind(value)),
    {
        match value {
            0 => Ok(MessageKind::Version),
            1 => Ok(MessageKind::UDPTunnel),
            2 => Ok(MessageKind::Authenticate),
            3 => Ok(MessageKind::Ping),
            4 => Ok(MessageKind::Reject),
            5 => Ok(MessageKind::ServerSync),
            6 => Ok(MessageKind::ChannelRemove),
            7 => Ok(MessageKind::ChannelState),
            8 => Ok(MessageKind::UserRemove),
            9 => Ok(MessageKind::UserState),
            10 => Ok(MessageKind::BanList),
            11 => Ok(MessageKind::TextMessage),
            12 => Ok(MessageKind::PermissionDenied),
            13 => Ok(MessageKind::ACL),
            14 => Ok(MessageKind::QueryUsers),
            15 => Ok(MessageKind::CryptSetup),
            16 => Ok(MessageKind::ContextActionModify),
            17 => Ok(MessageKind::ContextAction),
            18 => Ok(MessageKind::UserList),
            19 => Ok(MessageKind::VoiceTarget),
            20 => Ok(MessageKind::PermissionQuery),
            21 => Ok(MessageKind::CodecVersion),
            22 => Ok(MessageKind::UserStats),
            23 => Ok(MessageKind::RequestBlob),
            24 => Ok(MessageKind::ServerConfig),
            25 => Ok(MessageKind::SuggestConfig),
            _ => Err(MumbleError::UnexpectedMessageKind(value)),
        }
    }

    /// The wire number of this kind.
    pub fn code(&self) -> (r: u16)
        ensures
            r == kind_code(*self),
    {
        match self {
            MessageKind::Version => 0,
            MessageKind::UDPTunnel => 1,
            MessageKind::Authenticate => 2,
            MessageKind::Ping => 3,
            MessageKind::Reject => 4,
            MessageKind::ServerSync => 5,
            MessageKind::ChannelRemove => 6,
            MessageKind::ChannelState => 7,
            MessageKind::UserRemove => 8,
            MessageKind::UserState => 9,
            MessageKind::BanList => 10,
            MessageKind::TextMessage => 11,
            MessageKind::PermissionDenied => 12,
            MessageKind::ACL => 13,
            MessageKind::QueryUsers => 14,
            MessageKind::CryptSetup => 15,
            MessageKind::ContextActionModify => 16,
            MessageKind::ContextAction => 17,
            MessageKind::UserList => 18,
            MessageKind::VoiceTarget => 19,
            MessageKind::PermissionQuery => 20,
            MessageKind::CodecVersion => 21,
            MessageKind::UserStats => 22,
            MessageKind::RequestBlob => 23,
            MessageKind::ServerConfig => 24,
            MessageKind::SuggestConfig => 25,
        }
    }

    /// The kind's name, as metrics label it.
    pub fn name(&self) -> &'static str {
        match self {
            MessageKind::Version => "Version",
            MessageKind::UDPTunnel => "UDPTunnel",
            MessageKind::Authenticate => "Authenticate",
            MessageKind::Ping => "Ping",
            MessageKind::Reject => "Reject",
            MessageKind::ServerSync => "ServerSync",
            MessageKind::ChannelRemove => "ChannelRemove",
            MessageKind::ChannelState => "ChannelState",
            MessageKind::UserRemove => "UserRemove",
            MessageKind::UserState => "UserState",
            MessageKind::BanList => "BanList",
            MessageKind::TextMessage => "TextMessage",
            MessageKind::PermissionDenied => "PermissionDenied",
            MessageKind::ACL => "ACL",
            MessageKind::QueryUsers => "QueryUsers",
            MessageKind::CryptSetup => "CryptSetup",
            MessageKind::ContextActionModify => "ContextActionModify",
            MessageKind::ContextAction => "ContextAction",
            MessageKind::UserList => "UserList",
            MessageKind::VoiceTarget => "VoiceTarget",
            MessageKind::PermissionQuery => "PermissionQuery",
            MessageKind::CodecVersion => "CodecVersion",
            MessageKind::UserStats => "UserStats",
            MessageKind::RequestBlob => "RequestBlob",
            MessageKind::ServerConfig => "ServerConfig",
            MessageKind::SuggestConfig => "SuggestConfig",
        }
    }
}

/// The key and nonces of the voice channel's encryption.
pub struct CryptSetup {
    pub key: Vec<u8>,
    pub client_nonce: Vec<u8>,
    pub server_nonce: Vec<u8>,
}

/// A channel's description, sent and received.
pub struct ChannelState {
    pub channel_id: Option<u32>,
    pub parent: Option<u32>,
    pub name: Option<String>,
    pub description: Option<String>,
    pub temporary: Option<bool>,
    pub position: Option<i32>,
}

/// A user's description, sent and received.
pub struct UserState {
    pub session: Option<u32>,
    pub user_id: Option<u32>,
    pub name: Option<String>,
    pub channel_id: Option<u32>,
    pub mute: Option<bool>,
    pub deaf: Option<bool>,
    pub listening_channel_add: Vec<u32>,
    pub listening_channel_remove: Vec<u32>,
}

/// The codec versions that clients are asked to use.
#[derive(Clone, Copy, Debug, PartialEq, Eq, Structural)]
pub struct CodecVersion {
    pub alpha: i32,
    pub beta: i32,
    pub prefer_alpha: bool,
    pub opus: bool,
}

/// A ping with the crypt counters of the side that sends it.
#[derive(Clone, Copy, Debug, PartialEq, Eq, Structural)]
pub struct Ping {
    pub timestamp: u64,
    pub good: u32,
    pub late: u32,
    pub lost: u32,
    pub resync: u32,
}

/// One entry of a voice target request: sessions and at most one channel.
pub struct VoiceTargetItem {
    pub sessions: Vec<u32>,
    pub channel_id: Option<u32>,
}

/// A request to fill a whisper slot.
pub struct VoiceTargetMsg {
    pub id: Option<u32>,
    pub targets: Vec<VoiceTargetItem>,
}

/// A message that the server sends on a client's control connection.
pub enum ServerMessage {
    ChannelState(ChannelState),
    ChannelRemove { channel_id: u32 },
    UserState(UserState),
    UserRemove { session: u32, reason: String },
    CodecVersion(CodecVersion),
    CryptSetup(CryptSetup),
    Ping(Ping),
    PermissionQuery { channel_id: Option<u32>, permissions: u32 },
    ServerSync { session: u32, max_bandwidth: u32, welcome_text: String },
    ServerConfig { allow_html: bool, message_length: u32, image_message_length: u32 },
}

impl ServerMessage {
    /// The kind under which the message goes on the wire.
    pub fn kind(&self) -> (r: MessageKind)
        ensures
            r == match self {
                ServerMessage::ChannelState(_) => MessageKind::ChannelState,
                ServerMessage::ChannelRemove { .. } => MessageKind::ChannelRemove,
                ServerMessage::UserState(_) => MessageKind::UserState,
                ServerMessage::UserRemove { .. } => MessageKind::UserRemove,
                ServerMessage::CodecVersion(_) => MessageKind::CodecVersion,
                ServerMessage::CryptSetup(_) => MessageKind::CryptSetup,
                ServerMessage::Ping(_) => MessageKind::Ping,
                ServerMessage::PermissionQuery { .. } => MessageKind::PermissionQuery,
                ServerMessage::ServerSync { .. } => MessageKind::ServerSync,
                ServerMessage::ServerConfig { .. } => MessageKind::ServerConfig,
            },
    {
        match self {
            ServerMessage::ChannelState(_) => MessageKind::ChannelState,
            ServerMessage::ChannelRemove { .. } => MessageKind::ChannelRemove,
            ServerMessage::UserState(_) => MessageKind::UserState,
            ServerMessage::UserRemove { .. } => MessageKind::UserRemove,
            ServerMessage::CodecVersion(_) => MessageKind::CodecVersion,
            ServerMessage::CryptSetup(_) => MessageKind::CryptSetup,
            ServerMessage::Ping(_) => MessageKind::Ping,
            ServerMessage::PermissionQuery { .. } => MessageKind::PermissionQuery,
            ServerMessage::ServerSync { .. } => MessageKind::ServerSync,
            ServerMessage::ServerConfig { .. } => MessageKind::ServerConfig,
        }
    }
}

/// Big-endian bytes of a `u16`.
pub open spec fn be16_bytes(x: u16) -> Seq<u8> {
    seq![(x >> 8u16) as u8, x as u8]
}

/// Big-endian bytes of a `u32`.
pub open spec fn be32_bytes(x: u32) -> Seq<u8> {
    seq![(x >> 24u32) as u8, (x >> 16u32) as u8, (x >> 8u32) as u8, x as u8]
}

/// A control frame: the kind, the payload's length, then the payload.
pub open spec fn frame(kind: u16, payload: Seq<u8>) -> Seq<u8> {
    be16_bytes(kind) + be32_bytes(payload.len() as u32) + payload
}

fn push_bytes(out: &mut Vec<u8>, b: &[u8])
    ensures
        final(out)@ == old(out)@ + b@,
{
    let mut i: usize = 0;
    while i < b.len()
        invariant
            i <= b@.len(),
            out@ == old(out)@ + b@.subrange(0, i as int),
        decreases b@.len() - i,
    {
        out.push(b[i]);
        i = i + 1;
        assert(out@ =~= old(out)@ + b@.subrange(0, i as int));
    }
    assert(b@.subrange(0, i as int) =~= b@);
}

/// The frame that carries `payload` as a message of kind `kind`.
pub fn message_to_bytes(kind: MessageKind, payload: &[u8]) -> (r: Vec<u8>)
    requires
        payload@.len() <= u32::MAX,
    ensures
        r@ == frame(kind_code(kind), payload@),
{
    let code = kind.code();
    let len = payload.len() as u32;
    let mut out: Vec<u8> = Vec::new();
    out.push(#[verifier::truncate] ((code >> 8u16) as u8));
    out.push(#[verifier::truncate] (code as u8));
    out.push(#[verifier::truncate] ((len >> 24u32) as u8));
    out.push(#[verifier::truncate] ((len >> 16u32) as u8));
    out.push(#[verifier::truncate] ((len >> 8u32) as u8));
    out.push(#[verifier::truncate] (len as u8));
    assert(out@ =~= be16_bytes(code) + be32_bytes(len));
    push_bytes(&mut out, payload);
    out
}

/// The kind and payload length that a frame's first six bytes give.
pub fn read_frame_header(b: &[u8]) -> (r: Option<(u16, u32)>)
    ensures
        b@.len() < 6 ==> r is None,
        b@.len() >= 6 ==> (r matches Some((k, n)) && be16_bytes(k) == b@.subrange(0, 2) && be32_bytes(n) == b@.subrange(2, 6)),
{
    if b.len() < 6 {
        return None;
    }
    let k: u16 = ((b[0] as u16) << 8u16) | (b[1] as u16);
    let n: u32 = ((b[2] as u32) << 24u32) | ((b[3] as u32) << 16u32) | ((b[4] as u32) << 8u32) | (b[5] as u32);
    let (b0, b1, b2, b3, b4, b5) = (b[0], b[1], b[2], b[3], b[4], b[5]);
    assert(((k >> 8u16) as u8) == b0 && (k as u8) == b1) by (bit_vector)
        requires
            k == ((b0 as u16) << 8u16) | (b1 as u16),
    ;
    assert(((n >> 24u32) as u8) == b2 && ((n >> 16u32) as u8) == b3 && ((n >> 8u32) as u8) == b4 && (n as u8) == b5) by (bit_vector)
        requires
            n == ((b2 as u32) << 24u32) | ((b3 as u32) << 16u32) | ((b4 as u32) << 8u32) | (b5 as u32),
    ;
    assert(be16_bytes(k) =~= b@.subrange(0, 2));
    assert(be32_bytes(n) =~= b@.subrange(2, 6));
    Some((k, n))
}

/// A voice packet framed for the control connection, where the client has
/// no UDP peer; `None` where the encoded packet does not fit a frame.
pub fn tunnel_frame(packet: &VoicePacket<Clientbound>) -> (r: Option<Vec<u8>>)
    ensures
        packet_encode(packet@, true).len() <= u32::MAX ==> (r matches Some(f) && f@ == frame(1, packet_encode(packet@, true))),
        packet_encode(packet@, true).len() > u32::MAX ==> r is None,
{
    let mut bytes: Vec<u8> = Vec::new();
    encode_voice_packet(packet, &mut bytes);
    if bytes.len() > u32::MAX as usize {
        return None;
    }
    Some(message_to_bytes(MessageKind::UDPTunnel, bytes.as_slice()))
}

} // verus!
