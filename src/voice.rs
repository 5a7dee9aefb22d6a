//! Voice packets and their wire format.
use vstd::prelude::*;

use core::marker::PhantomData;

use crate::error::{DecryptError, IoError};
use crate::varint::{
    lemma_varint_round_trip, read_varint_at, varint_decode, varint_encode, write_varint_to,
};

verus! {

/// Audio data of a voice packet.
#[derive(Debug, PartialEq, Eq)]
pub enum VoicePacketPayload {
    /// CELT Alpha (0.7.0) encoded audio frames.
    CeltAlpha(Vec<Vec<u8>>),
    /// CELT Beta (0.11.0) encoded audio frames.
    CeltBeta(Vec<Vec<u8>>),
    /// Speex encoded audio frames.
    Speex(Vec<Vec<u8>>),
    /// One Opus encoded frame with the end-of-transmission bit.
    Opus(Vec<u8>, bool),
}

/// A packet of the voice channel; `Dst` is the direction it travels in.
#[derive(Debug, PartialEq, Eq)]
pub enum VoicePacket<Dst> {
    /// An opaque timestamp that is echoed back.
    Ping { timestamp: u64 },
    /// Audio frames.
    Audio {
        _dst: PhantomData<Dst>,
        /// 0 talks to the channel, 1 to 30 whisper through a voice target, 31 loops back.
        target: u8,
        /// The speaker; not on the wire of server-bound packets, which decode it as 0.
        session_id: u32,
        /// Sequence number of the first frame.
        seq_num: u64,
        payload: VoicePacketPayload,
        /// Opaque positional data that trails the audio.
        position_info: Option<Vec<u8>>,
    },
}

/// Direction of packets sent to the server.
#[derive(Clone, Copy, Debug, Default, PartialEq, Eq)]
pub struct Serverbound;

/// Direction of packets sent to a client.
#[derive(Clone, Copy, Debug, Default, PartialEq, Eq)]
pub struct Clientbound;

/// The direction of a voice packet: whether its audio carries a session id.
pub trait VoicePacketDst {
    spec fn has_session_id() -> bool;

    fn carries_session_id() -> (r: bool)
        ensures
            r == Self::has_session_id(),
    ;
}

impl VoicePacketDst for Serverbound {
    open spec fn has_session_id() -> bool {
        false
    }

    fn carries_session_id() -> (r: bool) {
        false
    }
}

impl VoicePacketDst for Clientbound {
    open spec fn has_session_id() -> bool {
        true
    }

    fn carries_session_id() -> (r: bool) {
        true
    }
}

/// Mathematical model of a payload.
pub enum PayloadView {
    CeltAlpha(Seq<Seq<u8>>),
    CeltBeta(Seq<Seq<u8>>),
    Speex(Seq<Seq<u8>>),
    Opus(Seq<u8>, bool),
}

/// Mathematical model of a voice packet.
pub enum PacketView {
    Ping { timestamp: u64 },
    Audio {
        target: u8,
        session_id: u32,
        seq_num: u64,
        payload: PayloadView,
        position_info: Option<Seq<u8>>,
    },
}

pub open spec fn frames_view(frames: Seq<Vec<u8>>) -> Seq<Seq<u8>> {
    frames.map_values(|f: Vec<u8>| f@)
}

impl View for VoicePacketPayload {
    type V = PayloadView;

    open spec fn view(&self) -> PayloadView {
        match self {
            VoicePacketPayload::CeltAlpha(f) => PayloadView::CeltAlpha(frames_view(f@)),
            VoicePacketPayload::CeltBeta(f) => PayloadView::CeltBeta(frames_view(f@)),
            VoicePacketPayload::Speex(f) => PayloadView::Speex(frames_view(f@)),
            VoicePacketPayload::Opus(f, t) => PayloadView::Opus(f@, *t),
        }
    }
}

impl<Dst> View for VoicePacket<Dst> {
    type V = PacketView;

    open spec fn view(&self) -> PacketView {
        match self {
            VoicePacket::Ping { timestamp } => PacketView::Ping { timestamp: *timestamp },
            VoicePacket::Audio { target, session_id, seq_num, payload, position_info, .. } => {
                PacketView::Audio {
                    target: *target,
                    session_id: *session_id,
                    seq_num: *seq_num,
                    payload: payload@,
                    position_info: match position_info {
                        Some(p) => Some(p@),
                        None => None,
                    },
                }
            },
        }
    }
}

/// The kind number that the header's top three bits carry.
pub open spec fn payload_kind(p: PayloadView) -> u8 {
    match p {
        PayloadView::CeltAlpha(_) => 0,
        PayloadView::Speex(_) => 2,
        PayloadView::CeltBeta(_) => 3,
        PayloadView::Opus(_, _) => 4,
    }
}

/// Frames, each after a byte that holds its length and, in the top bit,
/// whether another frame follows.
pub open spec fn frames_encode(frames: Seq<Seq<u8>>) -> Seq<u8>
    decreases frames.len(),
{
    if frames.len() == 0 {
        Seq::empty()
    } else {
        let cont: u8 = if frames.len() > 1 {
            0x80
        } else {
            0
        };
        seq![cont | ((frames[0].len() % 256) as u8)] + frames[0] + frames_encode(
            frames.drop_first(),
        )
    }
}

/// The header value written before an Opus frame.
pub open spec fn opus_header(len: nat, end: bool) -> u64 {
    (if end {
        0x2000u64
    } else {
        0u64
    }) | ((len % 0x1_0000_0000_0000_0000) as u64)
}

pub open spec fn payload_encode(p: PayloadView) -> Seq<u8> {
    match p {
        PayloadView::CeltAlpha(f) => frames_encode(f),
        PayloadView::CeltBeta(f) => frames_encode(f),
        PayloadView::Speex(f) => frames_encode(f),
        PayloadView::Opus(f, end) => varint_encode(opus_header(f.len(), end)) + f,
    }
}

/// The bytes of a packet; `with_session` tells whether the direction carries
/// the session id.
pub open spec fn packet_encode(p: PacketView, with_session: bool) -> Seq<u8> {
    match p {
        PacketView::Ping { timestamp } => seq![0x20u8] + varint_encode(timestamp),
        PacketView::Audio { target, session_id, seq_num, payload, position_info } => {
            seq![(payload_kind(payload) << 5u8) | (target & 0x1f)] + (if with_session {
                varint_encode(session_id as u64)
            } else {
                Seq::empty()
            }) + varint_encode(seq_num) + payload_encode(payload) + match position_info {
                Some(b) => b,
                None => Seq::empty(),
            }
        },
    }
}

/// Frames at the start of `s` and the number of bytes they take; `None` where
/// `s` ends inside them.
pub open spec fn frames_decode(s: Seq<u8>) -> Option<(Seq<Seq<u8>>, nat)>
    decreases s.len(),
{
    if s.len() == 0 {
        None
    } else {
        let h = s[0];
        let len = (h & 0x7f) as int;
        if s.len() - 1 < len {
            None
        } else {
            let f = s.subrange(1, 1 + len);
            if h & 0x80 == 0 {
                Some((seq![f], (1 + len) as nat))
            } else {
                match frames_decode(s.subrange(1 + len, s.len() as int)) {
                    Some((fs, n)) => Some((seq![f] + fs, (1 + len + n) as nat)),
                    None => None,
                }
            }
        }
    }
}

/// Payload of kind `kind` at the start of `s`, with the bytes it takes.
pub open spec fn payload_decode(kind: u8, s: Seq<u8>) -> Result<(PayloadView, nat), DecryptError> {
    if kind == 0 || kind == 2 || kind == 3 {
        match frames_decode(s) {
            None => Err(DecryptError::Eof),
            Some((fs, n)) => Ok(
                (
                    if kind == 0 {
                        PayloadView::CeltAlpha(fs)
                    } else if kind == 2 {
                        PayloadView::Speex(fs)
                    } else {
                        PayloadView::CeltBeta(fs)
                    },
                    n,
                ),
            ),
        }
    } else {
        match varint_decode(s) {
            None => Err(DecryptError::Io(IoError::UnexpectedEof)),
            Some((h, m)) => {
                let len = (h & !0x2000u64) as int;
                if s.len() - m < len {
                    Err(DecryptError::Eof)
                } else {
                    Ok((PayloadView::Opus(s.subrange(m as int, m + len), h & 0x2000 == 0x2000), (m + len) as nat))
                }
            },
        }
    }
}

/// An audio packet whose session id is known, from the bytes after it.
pub open spec fn audio_decode(kind: u8, target: u8, session_id: u32, a: Seq<u8>) -> Result<
    PacketView,
    DecryptError,
> {
    match varint_decode(a) {
        None => Err(DecryptError::Io(IoError::UnexpectedEof)),
        Some((seq_num, n2)) => {
            let rest = a.subrange(n2 as int, a.len() as int);
            if kind != 0 && kind != 2 && kind != 3 && kind != 4 {
                Err(DecryptError::Io(IoError::InvalidData))
            } else {
                match payload_decode(kind, rest) {
                    Err(e) => Err(e),
                    Ok((payload, n3)) => {
                        let tail = rest.subrange(n3 as int, rest.len() as int);
                        Ok(
                            PacketView::Audio {
                                target,
                                session_id,
                                seq_num,
                                payload,
                                position_info: if tail.len() == 0 {
                                    None
                                } else {
                                    Some(tail)
                                },
                            },
                        )
                    },
                }
            }
        },
    }
}

/// What decoding `s` gives.
pub open spec fn packet_decode(s: Seq<u8>, with_session: bool) -> Result<PacketView, DecryptError> {
    if s.len() == 0 {
        Err(DecryptError::Io(IoError::UnexpectedEof))
    } else {
        let header = s[0];
        let kind = header >> 5u8;
        let target = header & 0x1f;
        let body = s.drop_first();
        if kind == 1 {
            match varint_decode(body) {
                None => Err(DecryptError::Io(IoError::UnexpectedEof)),
                Some((t, _)) => Ok(PacketView::Ping { timestamp: t }),
            }
        } else if with_session {
            match varint_decode(body) {
                None => Err(DecryptError::Io(IoError::UnexpectedEof)),
                Some((v, n1)) => audio_decode(
                    kind,
                    target,
                    v as u32,
                    body.subrange(n1 as int, body.len() as int),
                ),
            }
        } else {
            audio_decode(kind, target, 0, body)
        }
    }
}

fn copy_bytes(b: &Vec<u8>) -> (r: Vec<u8>)
    ensures
        r@ == b@,
{
    let mut r: Vec<u8> = Vec::new();
    let mut i: usize = 0;
    while i < b.len()
        invariant
            i <= b@.len(),
            r@ == b@.subrange(0, i as int),
        decreases b@.len() - i,
    {
        r.push(b[i]);
        i = i + 1;
    }
    assert(r@ =~= b@);
    r
}

fn copy_frames(frames: &Vec<Vec<u8>>) -> (r: Vec<Vec<u8>>)
    ensures
        frames_view(r@) == frames_view(frames@),
{
    let mut r: Vec<Vec<u8>> = Vec::new();
    let mut i: usize = 0;
    while i < frames.len()
        invariant
            i <= frames@.len(),
            r@.len() == i,
            forall|j: int| 0 <= j < i ==> (#[trigger] r@[j])@ == frames@[j]@,
        decreases frames@.len() - i,
    {
        let f = copy_bytes(&frames[i]);
        r.push(f);
        i = i + 1;
    }
    assert(frames_view(r@) =~= frames_view(frames@));
    r
}

impl VoicePacketPayload {
    /// A copy of the payload.
    pub fn duplicate(&self) -> (r: Self)
        ensures
            r@ == self@,
    {
        match self {
            VoicePacketPayload::CeltAlpha(f) => VoicePacketPayload::CeltAlpha(copy_frames(f)),
            VoicePacketPayload::CeltBeta(f) => VoicePacketPayload::CeltBeta(copy_frames(f)),
            VoicePacketPayload::Speex(f) => VoicePacketPayload::Speex(copy_frames(f)),
            VoicePacketPayload::Opus(f, t) => VoicePacketPayload::Opus(copy_bytes(f), *t),
        }
    }
}

impl<Dst> VoicePacket<Dst> {
    /// A copy of the packet.
    pub fn duplicate(&self) -> (r: Self)
        ensures
            r@ == self@,
    {
        match self {
            VoicePacket::Ping { timestamp } => VoicePacket::Ping { timestamp: *timestamp },
            VoicePacket::Audio { target, session_id, seq_num, payload, position_info, .. } => {
                VoicePacket::Audio {
                    _dst: PhantomData,
                    target: *target,
                    session_id: *session_id,
                    seq_num: *seq_num,
                    payload: payload.duplicate(),
                    position_info: match position_info {
                        Some(p) => Some(copy_bytes(p)),
                        None => None,
                    },
                }
            },
        }
    }
}

/// Packet `p` stamped with the speaker's session id.
pub open spec fn stamped(p: PacketView, session_id: u32) -> PacketView {
    match p {
        PacketView::Ping { timestamp } => PacketView::Ping { timestamp },
        PacketView::Audio { target, seq_num, payload, position_info, .. } => {
            PacketView::Audio { target, session_id, seq_num, payload, position_info }
        },
    }
}

impl VoicePacket<Serverbound> {
    /// The same packet as sent on to clients, stamped with the speaker's session id.
    pub fn into_client_bound(self, session_id: u32) -> (r: VoicePacket<Clientbound>)
        ensures
            r@ == stamped(self@, session_id),
    {
        match self {
            VoicePacket::Ping { timestamp } => VoicePacket::Ping { timestamp },
            VoicePacket::Audio { target, seq_num, payload, position_info, .. } => {
                VoicePacket::Audio {
                    _dst: PhantomData,
                    target,
                    session_id,
                    seq_num,
                    payload,
                    position_info,
                }
            },
        }
    }
}


fn slice_to_vec(buf: &[u8], start: usize, end: usize) -> (r: Vec<u8>)
    requires
        start <= end <= buf@.len(),
    ensures
        r@ == buf@.subrange(start as int, end as int),
{
    let mut r: Vec<u8> = Vec::new();
    let mut i: usize = start;
    while i < end
        invariant
            start <= i <= end,
            end <= buf@.len(),
            r@ == buf@.subrange(start as int, i as int),
        decreases end - i,
    {
        r.push(buf[i]);
        i = i + 1;
        assert(r@ =~= buf@.subrange(start as int, i as int));
    }
    r
}

fn decode_frames(buf: &[u8], pos: usize) -> (r: Option<(Vec<Vec<u8>>, usize)>)
    requires
        pos <= buf@.len(),
    ensures
        match frames_decode(buf@.subrange(pos as int, buf@.len() as int)) {
            None => r is None,
            Some((fs, n)) => match r {
                Some((v, p)) => frames_view(v@) == fs && p == pos + n,
                None => false,
            },
        },
    decreases buf@.len() - pos,
{
    let ghost s = buf@.subrange(pos as int, buf@.len() as int);
    if pos >= buf.len() {
        return None;
    }
    let h = buf[pos];
    assert(s[0] == h);
    let len = (h & 0x7f) as usize;
    if buf.len() - pos - 1 < len {
        return None;
    }
    let f = slice_to_vec(buf, pos + 1, pos + 1 + len);
    assert(f@ =~= s.subrange(1, 1 + len));
    if h & 0x80 == 0 {
        let mut v: Vec<Vec<u8>> = Vec::new();
        v.push(f);
        assert(frames_view(v@) =~= seq![f@]);
        return Some((v, pos + 1 + len));
    }
    assert(s.subrange(1 + len, s.len() as int) =~= buf@.subrange(
        (pos + 1 + len) as int,
        buf@.len() as int,
    ));
    match decode_frames(buf, pos + 1 + len) {
        None => None,
        Some((fs, p)) => {
            let mut fs = fs;
            let ghost old_fs = fs@;
            fs.insert(0, f);
            assert(frames_view(fs@) =~= seq![f@] + frames_view(old_fs));
            Some((fs, p))
        },
    }
}

fn decode_audio<Dst>(buf: &[u8], pos: usize, kind: u8, target: u8, session_id: u32) -> (r: Result<
    VoicePacket<Dst>,
    DecryptError,
>)
    requires
        pos <= buf@.len(),
    ensures
        r matches Ok(p) ==> audio_decode(kind, target, session_id, buf@.subrange(pos as int, buf@.len() as int))
                == Ok::<PacketView, DecryptError>(p@),
        r matches Err(e) ==> audio_decode(kind, target, session_id, buf@.subrange(pos as int, buf@.len() as int))
                == Err::<PacketView, DecryptError>(e),
{
    let ghost a = buf@.subrange(pos as int, buf@.len() as int);
    let (seq_num, p2) = match read_varint_at(buf, pos) {
        Ok(x) => x,
        Err(e) => {
            return Err(DecryptError::Io(e));
        },
    };
    let ghost rest = buf@.subrange(p2 as int, buf@.len() as int);
    assert(rest =~= a.subrange(p2 - pos, a.len() as int));
    assert(varint_decode(a) == Some((seq_num, (p2 - pos) as nat)));
    if kind != 0 && kind != 2 && kind != 3 && kind != 4 {
        return Err(DecryptError::Io(IoError::InvalidData));
    }
    let (payload, p3) = match decode_payload(buf, p2, kind) {
        Ok(x) => x,
        Err(e) => {
            return Err(e);
        },
    };
    let ghost tail = buf@.subrange(p3 as int, buf@.len() as int);
    assert(tail =~= rest.subrange(p3 - p2, rest.len() as int));
    let position_info = if p3 == buf.len() {
        None
    } else {
        Some(slice_to_vec(buf, p3, buf.len()))
    };
    Ok(
        VoicePacket::Audio {
            _dst: PhantomData,
            target,
            session_id,
            seq_num,
            payload,
            position_info,
        },
    )
}

fn decode_payload(buf: &[u8], pos: usize, kind: u8) -> (r: Result<(VoicePacketPayload, usize), DecryptError>)
    requires
        pos <= buf@.len(),
        kind == 0 || kind == 2 || kind == 3 || kind == 4,
    ensures
        r matches Ok((p, end)) ==> payload_decode(kind, buf@.subrange(pos as int, buf@.len() as int))
                == Ok::<(PayloadView, nat), DecryptError>((p@, (end - pos) as nat)),
        r matches Ok((p, end)) ==> pos <= end <= buf@.len(),
        r matches Err(e) ==> payload_decode(kind, buf@.subrange(pos as int, buf@.len() as int))
                == Err::<(PayloadView, nat), DecryptError>(e),
{
    let ghost rest = buf@.subrange(pos as int, buf@.len() as int);
    if kind == 0 || kind == 2 || kind == 3 {
        match decode_frames(buf, pos) {
            None => Err(DecryptError::Eof),
            Some((frames, p)) => {
                proof {
                    lemma_frames_decode_len(rest);
                }
                if kind == 0 {
                    Ok((VoicePacketPayload::CeltAlpha(frames), p))
                } else if kind == 2 {
                    Ok((VoicePacketPayload::Speex(frames), p))
                } else {
                    Ok((VoicePacketPayload::CeltBeta(frames), p))
                }
            },
        }
    } else {
        match read_varint_at(buf, pos) {
            Err(e) => Err(DecryptError::Io(e)),
            Ok((h, p)) => {
                let len64 = h & !0x2000u64;
                if ((buf.len() - p) as u64) < len64 {
                    return Err(DecryptError::Eof);
                }
                let len = len64 as usize;
                let frame = slice_to_vec(buf, p, p + len);
                assert(frame@ =~= rest.subrange(p - pos, p - pos + len));
                Ok((VoicePacketPayload::Opus(frame, h & 0x2000 == 0x2000), p + len))
            },
        }
    }
}

/// Frames take no more bytes than there are.
proof fn lemma_frames_decode_len(s: Seq<u8>)
    ensures
        frames_decode(s) matches Some((_, n)) ==> n <= s.len(),
    decreases s.len(),
{
    if s.len() > 0 {
        let len = (s[0] & 0x7f) as int;
        if s.len() - 1 >= len {
            lemma_frames_decode_len(s.subrange(1 + len, s.len() as int));
        }
    }
}

/// Decodes a voice packet travelling in direction `Dst`.
pub fn decode_voice_packet<Dst: VoicePacketDst>(buf: &[u8]) -> (r: Result<
    VoicePacket<Dst>,
    DecryptError,
>)
    ensures
        match r {
            Ok(p) => packet_decode(buf@, Dst::has_session_id()) == Ok::<PacketView, DecryptError>(
                p@,
            ),
            Err(e) => packet_decode(buf@, Dst::has_session_id()) == Err::<PacketView, DecryptError>(
                e,
            ),
        },
{
    if buf.len() == 0 {
        return Err(DecryptError::Io(IoError::UnexpectedEof));
    }
    let header = buf[0];
    let kind = header >> 5u8;
    let target = header & 0x1f;
    let ghost body = buf@.drop_first();
    assert(body =~= buf@.subrange(1, buf@.len() as int));
    if kind == 1 {
        return match read_varint_at(buf, 1) {
            Ok((timestamp, _)) => Ok(VoicePacket::Ping { timestamp }),
            Err(e) => Err(DecryptError::Io(e)),
        };
    }
    if Dst::carries_session_id() {
        match read_varint_at(buf, 1) {
            Ok((v, p)) => {
                assert(buf@.subrange(p as int, buf@.len() as int) =~= body.subrange(
                    p - 1,
                    body.len() as int,
                ));
                decode_audio(buf, p, kind, target, #[verifier::truncate] (v as u32))
            },
            Err(e) => Err(DecryptError::Io(e)),
        }
    } else {
        decode_audio(buf, 1, kind, target, 0)
    }
}

fn append_bytes(dst: &mut Vec<u8>, b: &Vec<u8>)
    ensures
        final(dst)@ == old(dst)@ + b@,
{
    let mut i: usize = 0;
    while i < b.len()
        invariant
            i <= b@.len(),
            dst@ == old(dst)@ + b@.subrange(0, i as int),
        decreases b@.len() - i,
    {
        dst.push(b[i]);
        i = i + 1;
        assert(dst@ =~= old(dst)@ + b@.subrange(0, i as int));
    }
    assert(b@.subrange(0, i as int) =~= b@);
}

fn encode_frames(frames: &Vec<Vec<u8>>, i: usize, dst: &mut Vec<u8>)
    requires
        i <= frames@.len(),
    ensures
        final(dst)@ == old(dst)@ + frames_encode(
            frames_view(frames@).subrange(i as int, frames@.len() as int),
        ),
    decreases frames@.len() - i,
{
    let ghost fs = frames_view(frames@).subrange(i as int, frames@.len() as int);
    if i == frames.len() {
        assert(dst@ =~= old(dst)@ + frames_encode(fs));
        return;
    }
    let frame = &frames[i];
    let cont: u8 = if i + 1 < frames.len() {
        0x80
    } else {
        0
    };
    dst.push(cont | ((frame.len() % 256) as u8));
    append_bytes(dst, frame);
    let ghost mid = dst@;
    encode_frames(frames, i + 1, dst);
    assert(fs.drop_first() =~= frames_view(frames@).subrange(i + 1, frames@.len() as int));
    assert(fs[0] == frame@);
    assert(dst@ =~= old(dst)@ + frames_encode(fs));
}

fn payload_kind_of(p: &VoicePacketPayload) -> (r: u8)
    ensures
        r == payload_kind(p@),
{
    match p {
        VoicePacketPayload::CeltAlpha(_) => 0,
        VoicePacketPayload::Speex(_) => 2,
        VoicePacketPayload::CeltBeta(_) => 3,
        VoicePacketPayload::Opus(_, _) => 4,
    }
}

fn encode_payload(payload: &VoicePacketPayload, dst: &mut Vec<u8>)
    ensures
        final(dst)@ == old(dst)@ + payload_encode(payload@),
{
    match payload {
        VoicePacketPayload::CeltAlpha(frames) => {
            encode_frames(frames, 0, dst);
            assert(frames_view(frames@).subrange(0, frames@.len() as int) =~= frames_view(frames@));
        },
        VoicePacketPayload::Speex(frames) => {
            encode_frames(frames, 0, dst);
            assert(frames_view(frames@).subrange(0, frames@.len() as int) =~= frames_view(frames@));
        },
        VoicePacketPayload::CeltBeta(frames) => {
            encode_frames(frames, 0, dst);
            assert(frames_view(frames@).subrange(0, frames@.len() as int) =~= frames_view(frames@));
        },
        VoicePacketPayload::Opus(frame, end) => {
            let term: u64 = if *end {
                0x2000
            } else {
                0
            };
            write_varint_to(dst, term | (frame.len() as u64));
            append_bytes(dst, frame);
            assert(final(dst)@ =~= old(dst)@ + payload_encode(payload@));
        },
    }
}

/// Appends the wire form of `item`, travelling in direction `Dst`, to `dst`.
pub fn encode_voice_packet<Dst: VoicePacketDst>(item: &VoicePacket<Dst>, dst: &mut Vec<u8>)
    ensures
        final(dst)@ == old(dst)@ + packet_encode(item@, Dst::has_session_id()),
{
    match item {
        VoicePacket::Ping { timestamp } => {
            dst.push(0x20u8);
            write_varint_to(dst, *timestamp);
            assert(final(dst)@ =~= old(dst)@ + packet_encode(item@, Dst::has_session_id()));
        },
        VoicePacket::Audio { target, session_id, seq_num, payload, position_info, .. } => {
            let kind = payload_kind_of(payload);
            dst.push((kind << 5u8) | (*target & 0x1f));
            let ghost a = dst@;
            if Dst::carries_session_id() {
                write_varint_to(dst, *session_id as u64);
            }
            let ghost b = dst@;
            write_varint_to(dst, *seq_num);
            let ghost c = dst@;
            encode_payload(payload, dst);
            let ghost d = dst@;
            match position_info {
                Some(bytes) => {
                    append_bytes(dst, bytes);
                },
                None => {},
            }
            let ghost sb = if Dst::has_session_id() {
                varint_encode(*session_id as u64)
            } else {
                Seq::<u8>::empty()
            };
            assert(b =~= a + sb);
            assert(final(dst)@ =~= old(dst)@ + packet_encode(item@, Dst::has_session_id()));
        },
    }
}

/// Payloads that the wire format can carry: at least one frame, each shorter
/// than 128 bytes, or an Opus frame shorter than 0x2000 bytes.
pub open spec fn payload_wf(p: PayloadView) -> bool {
    match p {
        PayloadView::Opus(f, _) => f.len() < 0x2000,
        PayloadView::CeltAlpha(fs) => frames_wf(fs),
        PayloadView::CeltBeta(fs) => frames_wf(fs),
        PayloadView::Speex(fs) => frames_wf(fs),
    }
}

pub open spec fn frames_wf(fs: Seq<Seq<u8>>) -> bool {
    fs.len() > 0 && forall|i: int| 0 <= i < fs.len() ==> (#[trigger] fs[i]).len() < 128
}

/// Packets that the wire format can carry in a direction: a target below 32,
/// no session id where the direction has none, and positional data that is
/// absent or not empty.
pub open spec fn packet_wf(p: PacketView, with_session: bool) -> bool {
    match p {
        PacketView::Ping { .. } => true,
        PacketView::Audio { target, session_id, payload, position_info, .. } => {
            &&& target < 32
            &&& (!with_session ==> session_id == 0)
            &&& payload_wf(payload)
            &&& (position_info matches Some(b) ==> b.len() > 0)
        },
    }
}

proof fn lemma_frames_round_trip(fs: Seq<Seq<u8>>, rest: Seq<u8>)
    requires
        frames_wf(fs),
    ensures
        frames_decode(frames_encode(fs) + rest) == Some((fs, frames_encode(fs).len())),
    decreases fs.len(),
{
    let f = fs[0];
    let cont: u8 = if fs.len() > 1 {
        0x80
    } else {
        0
    };
    let len = f.len();
    assert(fs[0].len() < 128);
    let lb = (len % 256) as u8;
    let h = cont | lb;
    assert(h & 0x7f == lb && (h & 0x80 == 0 <==> cont == 0)) by (bit_vector)
        requires
            h == cont | lb,
            lb < 128,
            cont == 0 || cont == 0x80,
    ;
    let tail = frames_encode(fs.drop_first());
    let s = frames_encode(fs) + rest;
    assert(s =~= seq![h] + f + (tail + rest));
    assert(s.subrange(1, 1 + len as int) =~= f);
    if fs.len() > 1 {
        let fs2 = fs.drop_first();
        assert forall|i: int| 0 <= i < fs2.len() implies (#[trigger] fs2[i]).len() < 128 by {
            assert(fs2[i] == fs[i + 1]);
        }
        lemma_frames_round_trip(fs2, rest);
        assert(s.subrange(1 + len as int, s.len() as int) =~= tail + rest);
        assert(seq![f] + fs2 =~= fs);
    } else {
        assert(fs =~= seq![f]);
        assert(tail =~= Seq::<u8>::empty());
    }
}

proof fn lemma_payload_round_trip(p: PayloadView, rest: Seq<u8>)
    requires
        payload_wf(p),
    ensures
        payload_decode(payload_kind(p), payload_encode(p) + rest) == Ok::<(PayloadView, nat), DecryptError>(
            (p, payload_encode(p).len()),
        ),
{
    match p {
        PayloadView::CeltAlpha(fs) => {
            lemma_frames_round_trip(fs, rest);
        },
        PayloadView::CeltBeta(fs) => {
            lemma_frames_round_trip(fs, rest);
        },
        PayloadView::Speex(fs) => {
            lemma_frames_round_trip(fs, rest);
        },
        PayloadView::Opus(f, end) => {
            let h = opus_header(f.len(), end);
            let len = f.len() as u64;
            let t: u64 = if end {
                0x2000
            } else {
                0
            };
            assert(h == t | len);
            assert((h & !0x2000u64) == len && ((h & 0x2000 == 0x2000) <==> t == 0x2000)) by (bit_vector)
                requires
                    h == t | len,
                    len < 0x2000,
                    t == 0 || t == 0x2000,
            ;
            let v = varint_encode(h);
            lemma_varint_round_trip(h, f + rest);
            let s = payload_encode(p) + rest;
            assert(s =~= v + (f + rest));
            assert(s.subrange(v.len() as int, (v.len() + f.len()) as int) =~= f);
        },
    }
}

proof fn lemma_audio_round_trip(
    target: u8,
    session_id: u32,
    seq_num: u64,
    payload: PayloadView,
    position_info: Option<Seq<u8>>,
)
    requires
        payload_wf(payload),
        position_info matches Some(b) ==> b.len() > 0,
    ensures
        ({
            let t = match position_info {
                Some(b) => b,
                None => Seq::<u8>::empty(),
            };
            audio_decode(
                payload_kind(payload),
                target,
                session_id,
                varint_encode(seq_num) + (payload_encode(payload) + t),
            ) == Ok::<PacketView, DecryptError>(
                PacketView::Audio { target, session_id, seq_num, payload, position_info },
            )
        }),
{
    let q = varint_encode(seq_num);
    let pl = payload_encode(payload);
    let t = match position_info {
        Some(b) => b,
        None => Seq::<u8>::empty(),
    };
    let after = q + (pl + t);
    lemma_varint_round_trip(seq_num, pl + t);
    assert(after.subrange(q.len() as int, after.len() as int) =~= pl + t);
    lemma_payload_round_trip(payload, t);
    assert((pl + t).subrange(pl.len() as int, (pl + t).len() as int) =~= t);
}

/// Decoding what was encoded gives the packet back, in either direction,
/// for every packet that the wire format can carry.
pub proof fn lemma_packet_round_trip(p: PacketView, with_session: bool)
    requires
        packet_wf(p, with_session),
    ensures
        packet_decode(packet_encode(p, with_session), with_session) == Ok::<PacketView, DecryptError>(p),
{
    let e = packet_encode(p, with_session);
    match p {
        PacketView::Ping { timestamp } => {
            let h = 0x20u8;
            assert(h >> 5u8 == 1) by (bit_vector)
                requires
                    h == 0x20u8,
            ;
            lemma_varint_round_trip(timestamp, Seq::empty());
            assert(e.drop_first() =~= varint_encode(timestamp) + Seq::<u8>::empty());
        },
        PacketView::Audio { target, session_id, seq_num, payload, position_info } => {
            let kind = payload_kind(payload);
            let h = (kind << 5u8) | (target & 0x1f);
            assert(h >> 5u8 == kind && h & 0x1f == target) by (bit_vector)
                requires
                    h == (kind << 5u8) | (target & 0x1f),
                    kind <= 4,
                    target < 32,
            ;
            let sb = if with_session {
                varint_encode(session_id as u64)
            } else {
                Seq::<u8>::empty()
            };
            let q = varint_encode(seq_num);
            let pl = payload_encode(payload);
            let t = match position_info {
                Some(b) => b,
                None => Seq::<u8>::empty(),
            };
            let body = e.drop_first();
            assert(body =~= sb + (q + (pl + t)));
            let after = q + (pl + t);
            if with_session {
                lemma_varint_round_trip(session_id as u64, after);
                assert(body.subrange(sb.len() as int, body.len() as int) =~= after);
                assert((session_id as u64) as u32 == session_id);
            } else {
                assert(body =~= after);
            }
            lemma_audio_round_trip(target, session_id, seq_num, payload, position_info);
        },
    }
}

} // verus!
