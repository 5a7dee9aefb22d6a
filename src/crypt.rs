//! The voice channel's OCB-AES128 encryption with its replay window.
use vstd::prelude::*;

use aes::cipher::generic_array::GenericArray;
use aes::cipher::{BlockDecrypt, BlockEncrypt, KeyInit};
use aes::Aes128;
use ring::rand::{SecureRandom, SystemRandom};

use crate::error::DecryptError;
use crate::proto::CryptSetup;
use crate::voice::{decode_voice_packet, encode_voice_packet, packet_decode, packet_encode, PacketView, VoicePacket, VoicePacketDst};

verus! {

/// AES-128 encryption of one block (its bytes read big-endian) under `key`.
pub uninterp spec fn aes128_encrypt(key: Seq<u8>, block: u128) -> u128;

/// AES-128 decryption of one block (its bytes read big-endian) under `key`.
pub uninterp spec fn aes128_decrypt(key: Seq<u8>, block: u128) -> u128;

/// Relies on aes::Aes128 (cipher's `BlockEncrypt::encrypt_block`): encrypts one
/// block under the key; decryption under the same key gives the block back.
#[verifier::external_body]
fn aes_encrypt(key: &[u8; 16], data: u128) -> (r: u128)
    ensures
        r == aes128_encrypt(key@, data),
        aes128_decrypt(key@, r) == data,
{
    let cipher = Aes128::new(GenericArray::from_slice(key));
    let mut bytes = data.to_be_bytes();
    cipher.encrypt_block(GenericArray::from_mut_slice(&mut bytes));
    u128::from_be_bytes(bytes)
}

/// Relies on aes::Aes128 (cipher's `BlockDecrypt::decrypt_block`): decrypts one
/// block under the key; encryption under the same key gives the block back.
#[verifier::external_body]
fn aes_decrypt(key: &[u8; 16], data: u128) -> (r: u128)
    ensures
        r == aes128_decrypt(key@, data),
        aes128_encrypt(key@, r) == data,
{
    let cipher = Aes128::new(GenericArray::from_slice(key));
    let mut bytes = data.to_be_bytes();
    cipher.decrypt_block(GenericArray::from_mut_slice(&mut bytes));
    u128::from_be_bytes(bytes)
}

/// Relies on ring::constant_time::verify_slices_are_equal: `Ok` exactly when
/// the two slices hold the same bytes, compared in constant time.
#[verifier::external_body]
fn slices_equal(a: &[u8], b: &[u8]) -> (r: bool)
    ensures
        r == (a@ == b@),
{
    ring::constant_time::verify_slices_are_equal(a, b).is_ok()
}

/// Relies on ring::rand::SystemRandom::fill: 16 bytes from the system's secure
/// random source, or `None` where that source fails.
#[verifier::external_body]
fn random_key() -> (r: Option<[u8; 16]>) {
    let mut key = [0u8; 16];
    match SystemRandom::new().fill(&mut key) {
        Ok(()) => Some(key),
        Err(_) => None,
    }
}

/// The 16 bytes of `s` from its start, read as a big-endian integer.
pub open spec fn be16(s: Seq<u8>) -> u128 {
    ((s[0] as u128) << 120u128) | ((s[1] as u128) << 112u128) | ((s[2] as u128) << 104u128) | ((
    s[3] as u128) << 96u128) | ((s[4] as u128) << 88u128) | ((s[5] as u128) << 80u128) | ((
    s[6] as u128) << 72u128) | ((s[7] as u128) << 64u128) | ((s[8] as u128) << 56u128) | ((
    s[9] as u128) << 48u128) | ((s[10] as u128) << 40u128) | ((s[11] as u128) << 32u128) | ((
    s[12] as u128) << 24u128) | ((s[13] as u128) << 16u128) | ((s[14] as u128) << 8u128) | (
    s[15] as u128)
}

/// The big-endian bytes of `x`.
pub open spec fn to_be16(x: u128) -> Seq<u8> {
    Seq::new(16, |i: int| (x >> ((120 - 8 * i) as u128)) as u8)
}

/// The little-endian bytes of `x`.
pub open spec fn to_le16(x: u128) -> Seq<u8> {
    to_be16(x).reverse()
}

/// Doubling in GF(2^128): rotate left by one, folding the carry in with 0x86.
pub open spec fn s2_spec(block: u128) -> u128 {
    let rot = (block << 1u128) | (block >> 127u128);
    rot ^ (if rot & 1 == 1 {
        0x86u128
    } else {
        0u128
    })
}

/// The first offset of a message: the cipher applied to the nonce's
/// little-endian bytes.
pub open spec fn first_offset(key: Seq<u8>, nonce: u128) -> u128 {
    aes128_encrypt(key, be16(to_le16(nonce)))
}

/// OCB encryption of `p` from `offset` and `checksum`: ciphertext and tag.
pub open spec fn ocb_enc(key: Seq<u8>, offset: u128, checksum: u128, p: Seq<u8>) -> (Seq<u8>, u128)
    decreases p.len(),
{
    let off = s2_spec(offset);
    if p.len() > 16 {
        let plain = be16(p);
        let ct = aes128_encrypt(key, off ^ plain) ^ off;
        let rest = ocb_enc(key, off, checksum ^ plain, p.subrange(16, p.len() as int));
        (to_be16(ct) + rest.0, rest.1)
    } else {
        let len = p.len();
        let pad = aes128_encrypt(key, ((len * 8) as u128) ^ off);
        let plain = be16(p + to_be16(pad).subrange(len as int, 16));
        (
            to_be16(pad ^ plain).subrange(0, len as int),
            aes128_encrypt(key, off ^ s2_spec(off) ^ (checksum ^ plain)),
        )
    }
}

/// OCB decryption of `c` from `offset` and `checksum`: plaintext and tag.
pub open spec fn ocb_dec(key: Seq<u8>, offset: u128, checksum: u128, c: Seq<u8>) -> (Seq<u8>, u128)
    decreases c.len(),
{
    let off = s2_spec(offset);
    if c.len() > 16 {
        let ct = be16(c);
        let plain = aes128_decrypt(key, off ^ ct) ^ off;
        let rest = ocb_dec(key, off, checksum ^ plain, c.subrange(16, c.len() as int));
        (to_be16(plain) + rest.0, rest.1)
    } else {
        let len = c.len();
        let pad = aes128_encrypt(key, ((len * 8) as u128) ^ off);
        let plain = be16(c + Seq::new((16 - len) as nat, |i: int| 0u8)) ^ pad;
        (
            to_be16(plain).subrange(0, len as int),
            aes128_encrypt(key, off ^ s2_spec(off) ^ (checksum ^ plain)),
        )
    }
}

/// Ciphertext and tag of `p` under `key` and `nonce`.
pub open spec fn ocb_encrypt_spec(key: Seq<u8>, nonce: u128, p: Seq<u8>) -> (Seq<u8>, u128) {
    ocb_enc(key, first_offset(key, nonce), 0, p)
}

/// Plaintext and tag of `c` under `key` and `nonce`.
pub open spec fn ocb_decrypt_spec(key: Seq<u8>, nonce: u128, c: Seq<u8>) -> (Seq<u8>, u128) {
    ocb_dec(key, first_offset(key, nonce), 0, c)
}

fn be16_at(b: &[u8], at: usize) -> (r: u128)
    requires
        at + 16 <= b@.len(),
    ensures
        r == be16(b@.subrange(at as int, b@.len() as int)),
{
    let ghost s = b@.subrange(at as int, b@.len() as int);
    assert(s[0] == b[at as int] && s[1] == b[at + 1] && s[2] == b[at + 2] && s[3] == b[at + 3]);
    assert(s[4] == b[at + 4] && s[5] == b[at + 5] && s[6] == b[at + 6] && s[7] == b[at + 7]);
    assert(s[8] == b[at + 8] && s[9] == b[at + 9] && s[10] == b[at + 10] && s[11] == b[at + 11]);
    assert(s[12] == b[at + 12] && s[13] == b[at + 13] && s[14] == b[at + 14] && s[15] == b[at
        + 15]);
    ((b[at] as u128) << 120u128) | ((b[at + 1] as u128) << 112u128) | ((b[at + 2] as u128)
        << 104u128) | ((b[at + 3] as u128) << 96u128) | ((b[at + 4] as u128) << 88u128) | ((b[at
        + 5] as u128) << 80u128) | ((b[at + 6] as u128) << 72u128) | ((b[at + 7] as u128)
        << 64u128) | ((b[at + 8] as u128) << 56u128) | ((b[at + 9] as u128) << 48u128) | ((b[at
        + 10] as u128) << 40u128) | ((b[at + 11] as u128) << 32u128) | ((b[at + 12] as u128)
        << 24u128) | ((b[at + 13] as u128) << 16u128) | ((b[at + 14] as u128) << 8u128) | (b[at
        + 15] as u128)
}

fn push_be16(out: &mut Vec<u8>, x: u128, start: usize, end: usize)
    requires
        start <= end <= 16,
    ensures
        final(out)@ == old(out)@ + to_be16(x).subrange(start as int, end as int),
{
    let ghost bytes = to_be16(x);
    let mut i: usize = start;
    while i < end
        invariant
            start <= i <= end <= 16,
            bytes == to_be16(x),
            out@ == old(out)@ + bytes.subrange(start as int, i as int),
        decreases end - i,
    {
        let shift: u128 = (120 - 8 * i) as u128;
        let byte = #[verifier::truncate] ((x >> shift) as u8);
        out.push(byte);
        i = i + 1;
        assert(out@ =~= old(out)@ + bytes.subrange(start as int, i as int));
    }
}

/// Doubling in GF(2^128), as OCB steps from one offset to the next.
pub fn s2(block: u128) -> (r: u128)
    ensures
        r == s2_spec(block),
{
    let rot = (block << 1u128) | (block >> 127u128);
    let carry = rot & 1;
    assert(carry <= 1) by (bit_vector)
        requires
            carry == rot & 1,
    ;
    rot ^ (carry * 0x86)
}

fn nonce_block(nonce: u128) -> (r: u128)
    ensures
        r == be16(to_le16(nonce)),
{
    let mut be: Vec<u8> = Vec::new();
    push_be16(&mut be, nonce, 0, 16);
    let mut le: Vec<u8> = Vec::new();
    let mut i: usize = 16;
    while i > 0
        invariant
            i <= 16,
            be@ == to_be16(nonce).subrange(0, 16),
            le@ == to_le16(nonce).subrange(0, 16 - i),
        decreases i,
    {
        i = i - 1;
        le.push(be[i]);
        assert(le@ =~= to_le16(nonce).subrange(0, 16 - i));
    }
    assert(le@ =~= to_le16(nonce));
    be16_at(le.as_slice(), 0)
}


fn ocb_encrypt(key: &[u8; 16], nonce: u128, plain: &[u8]) -> (r: (Vec<u8>, u128))
    ensures
        (r.0@, r.1) == ocb_encrypt_spec(key@, nonce, plain@),
{
    let mut offset = aes_encrypt(key, nonce_block(nonce));
    let mut checksum: u128 = 0;
    let mut out: Vec<u8> = Vec::new();
    let mut i: usize = 0;
    assert(plain@.subrange(0, plain@.len() as int) =~= plain@);
    assert(out@ + ocb_enc(key@, offset, checksum, plain@).0 =~= ocb_enc(key@, offset, checksum, plain@).0);
    while plain.len() - i > 16
        invariant
            i <= plain@.len(),
            ({
                let rest = ocb_enc(key@, offset, checksum, plain@.subrange(i as int, plain@.len() as int));
                ocb_encrypt_spec(key@, nonce, plain@) == (out@ + rest.0, rest.1)
            }),
        decreases plain@.len() - i,
    {
        let ghost tail = plain@.subrange(i as int, plain@.len() as int);
        let ghost out0 = out@;
        offset = s2(offset);
        let p = be16_at(plain, i);
        let e = aes_encrypt(key, offset ^ p) ^ offset;
        push_be16(&mut out, e, 0, 16);
        checksum = checksum ^ p;
        i = i + 16;
        assert(tail.subrange(16, tail.len() as int) =~= plain@.subrange(i as int, plain@.len() as int));
        assert(to_be16(e).subrange(0, 16) =~= to_be16(e));
        let ghost rest = ocb_enc(key@, offset, checksum, plain@.subrange(i as int, plain@.len() as int));
        assert(out@ + rest.0 =~= out0 + (to_be16(e) + rest.0));
    }
    let ghost tail = plain@.subrange(i as int, plain@.len() as int);
    offset = s2(offset);
    let len = plain.len() - i;
    let pad = aes_encrypt(key, ((len * 8) as u128) ^ offset);
    let mut block: Vec<u8> = Vec::new();
    let mut j: usize = i;
    while j < plain.len()
        invariant
            i <= j <= plain@.len(),
            block@ == plain@.subrange(i as int, j as int),
        decreases plain@.len() - j,
    {
        block.push(plain[j]);
        j = j + 1;
        assert(block@ =~= plain@.subrange(i as int, j as int));
    }
    push_be16(&mut block, pad, len, 16);
    assert(block@ =~= tail + to_be16(pad).subrange(len as int, 16));
    let pb = be16_at(block.as_slice(), 0);
    assert(block@.subrange(0, 16) =~= block@);
    let ghost out0 = out@;
    push_be16(&mut out, pad ^ pb, 0, len);
    checksum = checksum ^ pb;
    let tag = aes_encrypt(key, offset ^ s2(offset) ^ checksum);
    (out, tag)
}

fn ocb_decrypt(key: &[u8; 16], nonce: u128, cipher: &[u8]) -> (r: (Vec<u8>, u128))
    ensures
        (r.0@, r.1) == ocb_decrypt_spec(key@, nonce, cipher@),
{
    let mut offset = aes_encrypt(key, nonce_block(nonce));
    let mut checksum: u128 = 0;
    let mut out: Vec<u8> = Vec::new();
    let mut i: usize = 0;
    assert(cipher@.subrange(0, cipher@.len() as int) =~= cipher@);
    assert(out@ + ocb_dec(key@, offset, checksum, cipher@).0 =~= ocb_dec(key@, offset, checksum, cipher@).0);
    while cipher.len() - i > 16
        invariant
            i <= cipher@.len(),
            ({
                let rest = ocb_dec(key@, offset, checksum, cipher@.subrange(i as int, cipher@.len() as int));
                ocb_decrypt_spec(key@, nonce, cipher@) == (out@ + rest.0, rest.1)
            }),
        decreases cipher@.len() - i,
    {
        let ghost tail = cipher@.subrange(i as int, cipher@.len() as int);
        let ghost out0 = out@;
        offset = s2(offset);
        let c = be16_at(cipher, i);
        let p = aes_decrypt(key, offset ^ c) ^ offset;
        push_be16(&mut out, p, 0, 16);
        checksum = checksum ^ p;
        i = i + 16;
        assert(tail.subrange(16, tail.len() as int) =~= cipher@.subrange(i as int, cipher@.len() as int));
        assert(to_be16(p).subrange(0, 16) =~= to_be16(p));
        let ghost rest = ocb_dec(key@, offset, checksum, cipher@.subrange(i as int, cipher@.len() as int));
        assert(out@ + rest.0 =~= out0 + (to_be16(p) + rest.0));
    }
    let ghost tail = cipher@.subrange(i as int, cipher@.len() as int);
    offset = s2(offset);
    let len = cipher.len() - i;
    let pad = aes_encrypt(key, ((len * 8) as u128) ^ offset);
    let mut block: Vec<u8> = Vec::new();
    let mut j: usize = i;
    while j < cipher.len()
        invariant
            i <= j <= cipher@.len(),
            block@ == cipher@.subrange(i as int, j as int),
        decreases cipher@.len() - j,
    {
        block.push(cipher[j]);
        j = j + 1;
        assert(block@ =~= cipher@.subrange(i as int, j as int));
    }
    while block.len() < 16
        invariant
            block@.len() <= 16,
            block@.len() >= len,
            block@ == tail + Seq::new((block@.len() - len) as nat, |k: int| 0u8),
        decreases 16 - block@.len(),
    {
        block.push(0u8);
        assert(block@ =~= tail + Seq::new((block@.len() - len) as nat, |k: int| 0u8));
    }
    let p = be16_at(block.as_slice(), 0) ^ pad;
    assert(block@.subrange(0, 16) =~= block@);
    push_be16(&mut out, p, 0, len);
    checksum = checksum ^ p;
    let tag = aes_encrypt(key, offset ^ s2(offset) ^ checksum);
    (out, tag)
}


/// What the receive window makes of a datagram's nonce byte.
pub enum NonceCheck {
    /// Decrypt under `nonce`; `late` datagrams leave the receive nonce where it was.
    Accept { nonce: u128, late: bool, lost: int },
    /// Drop the datagram.
    Reject(DecryptError),
}

/// `x + k`, wrapping at 2^128.
pub open spec fn add128(x: u128, k: u128) -> u128 {
    if x > 0xffff_ffff_ffff_ffff_ffff_ffff_ffff_ffffu128 - k {
        (x - (0xffff_ffff_ffff_ffff_ffff_ffff_ffff_ffffu128 - k) - 1) as u128
    } else {
        (x + k) as u128
    }
}

/// `x - k`, wrapping at 2^128.
pub open spec fn sub128(x: u128, k: u128) -> u128 {
    if x < k {
        (0xffff_ffff_ffff_ffff_ffff_ffff_ffff_ffffu128 - (k - x) + 1) as u128
    } else {
        (x - k) as u128
    }
}

/// `a - b`, wrapping at 256.
pub open spec fn sub8(a: u8, b: u8) -> u8 {
    if a >= b {
        (a - b) as u8
    } else {
        (a + 256 - b) as u8
    }
}

/// The signed distance from the receive nonce's low byte to `n0`, in -128..=127.
pub open spec fn nonce_diff(dn: u128, n0: u8) -> int {
    let d = sub8(n0, dn as u8);
    if d < 128 {
        d as int
    } else {
        d as int - 256
    }
}

/// The receive nonce moved by `diff`, wrapping.
pub open spec fn nonce_moved(dn: u128, diff: int) -> u128 {
    if diff >= 0 {
        add128(dn, diff as u128)
    } else {
        sub128(dn, (-diff) as u128)
    }
}

/// The replay window's decision on nonce byte `n0`, given the receive nonce
/// `dn` and the history of accepted nonces.
pub open spec fn check_nonce(dn: u128, history: Seq<u8>, n0: u8) -> NonceCheck {
    if add128(dn, 1) as u8 == n0 {
        NonceCheck::Accept { nonce: add128(dn, 1), late: false, lost: 0 }
    } else {
        let diff = nonce_diff(dn, n0);
        let nn = nonce_moved(dn, diff);
        if diff > 0 {
            NonceCheck::Accept { nonce: nn, late: false, lost: diff - 1 }
        } else if diff > -30 {
            if history[n0 as int] == (nn >> 8u128) as u8 {
                NonceCheck::Reject(DecryptError::Repeat)
            } else {
                NonceCheck::Accept { nonce: nn, late: true, lost: -1 }
            }
        } else {
            NonceCheck::Reject(DecryptError::Late)
        }
    }
}

/// `lost` moved by `delta`, held within the range of `u32`.
pub open spec fn saturating_lost(lost: u32, delta: int) -> u32 {
    if lost + delta < 0 {
        0
    } else if lost + delta > u32::MAX {
        u32::MAX
    } else {
        (lost + delta) as u32
    }
}

/// The bytes of the 4-byte header: the nonce's low byte, then the tag's top three bytes.
pub open spec fn crypt_header(nonce: u128, tag: u128) -> Seq<u8> {
    seq![nonce as u8] + to_be16(tag).subrange(0, 3)
}

/// Per-client state of the voice channel's encryption.
pub struct CryptState {
    pub key: [u8; 16],
    pub encrypt_nonce: u128,
    pub decrypt_nonce: u128,
    /// Byte 1 of the nonce last accepted for each low byte.
    pub decrypt_history: Vec<u8>,
    pub good: u32,
    pub late: u32,
    pub lost: u32,
    pub resync: u32,
    /// When the last datagram decrypted, in milliseconds.
    pub last_good: u64,
}

impl CryptState {
    pub open spec fn wf(&self) -> bool {
        self.decrypt_history@.len() == 256
    }

    /// A fresh state for `key`.
    pub fn new(key: [u8; 16], now: u64) -> (r: Self)
        ensures
            r.wf(),
            r.key == key,
            r.encrypt_nonce == 0,
            r.decrypt_nonce == 1u128 << 127u128,
            r.decrypt_history@ == Seq::new(256, |i: int| 0u8),
            r.good == 0 && r.late == 0 && r.lost == 0 && r.resync == 0,
            r.last_good == now,
    {
        CryptState {
            key,
            encrypt_nonce: 0,
            decrypt_nonce: 1u128 << 127u128,
            decrypt_history: zero_history(),
            good: 0,
            late: 0,
            lost: 0,
            resync: 0,
            last_good: now,
        }
    }

    /// A fresh state with a random key, or `None` where no random key could be had.
    pub fn generate(now: u64) -> (r: Option<Self>)
        ensures
            r matches Some(c) ==> c.wf() && c.encrypt_nonce == 0 && c.decrypt_nonce == 1u128
                << 127u128 && c.good == 0 && c.late == 0 && c.lost == 0 && c.resync == 0
                && c.last_good == now,
    {
        match random_key() {
            Some(key) => Some(CryptState::new(key, now)),
            None => None,
        }
    }

    /// Starts both nonces and the counters afresh; the key stays.
    pub fn reset(&mut self, now: u64)
        ensures
            final(self).wf(),
            final(self).key == old(self).key,
            final(self).encrypt_nonce == 0,
            final(self).decrypt_nonce == 1u128 << 127u128,
            final(self).decrypt_history@ == Seq::new(256, |i: int| 0u8),
            final(self).good == 0 && final(self).late == 0 && final(self).lost == 0
                && final(self).resync == 0,
            final(self).last_good == now,
    {
        self.encrypt_nonce = 0;
        self.decrypt_nonce = 1u128 << 127u128;
        self.decrypt_history = zero_history();
        self.good = 0;
        self.late = 0;
        self.lost = 0;
        self.resync = 0;
        self.last_good = now;
    }

    /// The nonce used for encrypting, little-endian.
    pub fn get_encrypt_nonce(&self) -> (r: Vec<u8>)
        ensures
            r@ == to_le16(self.encrypt_nonce),
    {
        le_bytes(self.encrypt_nonce)
    }

    /// The nonce used for decrypting, little-endian.
    pub fn get_decrypt_nonce(&self) -> (r: Vec<u8>)
        ensures
            r@ == to_le16(self.decrypt_nonce),
    {
        le_bytes(self.decrypt_nonce)
    }

    /// Takes the peer's encrypt nonce (16 little-endian bytes) as the decrypt nonce.
    pub fn set_decrypt_nonce(&mut self, nonce: &[u8])
        requires
            nonce@.len() == 16,
        ensures
            final(self).decrypt_nonce == be16(nonce@.reverse()),
            final(self).resync == old(self).resync.wrapping_add(1),
            final(self).key == old(self).key,
            final(self).encrypt_nonce == old(self).encrypt_nonce,
            final(self).decrypt_history == old(self).decrypt_history,
            final(self).good == old(self).good,
            final(self).late == old(self).late,
            final(self).lost == old(self).lost,
            final(self).last_good == old(self).last_good,
    {
        let mut be: Vec<u8> = Vec::new();
        let mut i: usize = 16;
        while i > 0
            invariant
                i <= 16,
                nonce@.len() == 16,
                be@ == nonce@.reverse().subrange(0, 16 - i),
            decreases i,
        {
            i = i - 1;
            be.push(nonce[i]);
            assert(be@ =~= nonce@.reverse().subrange(0, 16 - i));
        }
        assert(be@ =~= nonce@.reverse());
        self.decrypt_nonce = be16_at(be.as_slice(), 0);
        self.resync = self.resync.wrapping_add(1);
    }

    /// The key and both nonces as sent to the client.
    pub fn get_crypt_setup(&self) -> (r: CryptSetup)
        ensures
            r.key@ == self.key@,
            r.client_nonce@ == to_le16(self.decrypt_nonce),
            r.server_nonce@ == to_le16(self.encrypt_nonce),
    {
        let mut key: Vec<u8> = Vec::new();
        let mut i: usize = 0;
        while i < 16
            invariant
                i <= 16,
                key@ == self.key@.subrange(0, i as int),
            decreases 16 - i,
        {
            key.push(self.key[i]);
            i = i + 1;
            assert(key@ =~= self.key@.subrange(0, i as int));
        }
        assert(key@ =~= self.key@);
        CryptSetup {
            key,
            client_nonce: self.get_decrypt_nonce(),
            server_nonce: self.get_encrypt_nonce(),
        }
    }

    /// Steps the encrypt nonce and returns the encrypted datagram of `packet`:
    /// the 4-byte header, then the ciphertext.
    pub fn encrypt<Dst: VoicePacketDst>(&mut self, packet: &VoicePacket<Dst>) -> (r: Vec<u8>)
        ensures
            final(self).encrypt_nonce == old(self).encrypt_nonce.wrapping_add(1),
            ({
                let (ct, tag) = ocb_encrypt_spec(
                    old(self).key@,
                    final(self).encrypt_nonce,
                    packet_encode(packet@, Dst::has_session_id()),
                );
                r@ == crypt_header(final(self).encrypt_nonce, tag) + ct
            }),
            final(self).key == old(self).key,
            final(self).decrypt_nonce == old(self).decrypt_nonce,
            final(self).decrypt_history == old(self).decrypt_history,
            final(self).good == old(self).good,
            final(self).late == old(self).late,
            final(self).lost == old(self).lost,
            final(self).resync == old(self).resync,
            final(self).last_good == old(self).last_good,
    {
        self.encrypt_nonce = self.encrypt_nonce.wrapping_add(1);
        let mut plain: Vec<u8> = Vec::new();
        encode_voice_packet(packet, &mut plain);
        let (ct, tag) = ocb_encrypt(&self.key, self.encrypt_nonce, plain.as_slice());
        let mut out: Vec<u8> = Vec::new();
        out.push(#[verifier::truncate] (self.encrypt_nonce as u8));
        push_be16(&mut out, tag, 0, 3);
        let mut i: usize = 0;
        while i < ct.len()
            invariant
                i <= ct@.len(),
                out@ == crypt_header(self.encrypt_nonce, tag) + ct@.subrange(0, i as int),
            decreases ct@.len() - i,
        {
            out.push(ct[i]);
            i = i + 1;
            assert(out@ =~= crypt_header(self.encrypt_nonce, tag) + ct@.subrange(0, i as int));
        }
        assert(ct@.subrange(0, i as int) =~= ct@);
        out
    }
}

/// `t` is `s` after accepting a datagram with nonce byte `n0` that the window
/// placed at `nonce`.
pub open spec fn accepted(
    s: CryptState,
    t: CryptState,
    n0: u8,
    nonce: u128,
    late: bool,
    lost: int,
    now: u64,
) -> bool {
    &&& t.key == s.key
    &&& t.encrypt_nonce == s.encrypt_nonce
    &&& t.resync == s.resync
    &&& t.decrypt_history@ == s.decrypt_history@.update(n0 as int, (nonce >> 8u128) as u8)
    &&& t.good == s.good.wrapping_add(1)
    &&& t.last_good == now
    &&& t.late == (if late {
        s.late.wrapping_add(1)
    } else {
        s.late
    })
    &&& t.decrypt_nonce == (if late {
        s.decrypt_nonce
    } else {
        nonce
    })
    &&& t.lost == saturating_lost(s.lost, lost)
}

/// What decrypting datagram `buf` with state `s` gives: the packet, or why
/// the datagram was refused or could not be decoded.
pub open spec fn decrypt_result(s: CryptState, buf: Seq<u8>, with_session: bool) -> Result<PacketView, DecryptError> {
    if buf.len() < 4 {
        Err(DecryptError::Eof)
    } else {
        match check_nonce(s.decrypt_nonce, s.decrypt_history@, buf[0]) {
            NonceCheck::Reject(e) => Err(e),
            NonceCheck::Accept { nonce, .. } => {
                let (pt, tag) = ocb_decrypt_spec(s.key@, nonce, buf.subrange(4, buf.len() as int));
                if to_be16(tag).subrange(0, 3) != buf.subrange(1, 4) {
                    Err(DecryptError::Mac)
                } else {
                    packet_decode(pt, with_session)
                }
            },
        }
    }
}

/// `buf` is refused before it reaches the packet decoder: too short, outside
/// the replay window, or with a tag that does not match.
pub open spec fn decrypt_refused(s: CryptState, buf: Seq<u8>) -> bool {
    buf.len() < 4 || match check_nonce(s.decrypt_nonce, s.decrypt_history@, buf[0]) {
        NonceCheck::Reject(_) => true,
        NonceCheck::Accept { nonce, .. } => {
            let (pt, tag) = ocb_decrypt_spec(s.key@, nonce, buf.subrange(4, buf.len() as int));
            to_be16(tag).subrange(0, 3) != buf.subrange(1, 4)
        },
    }
}

/// `t` is `s` after decrypting `buf` at `now`: unchanged where the datagram
/// was refused, with the window and counters moved where it was accepted.
pub open spec fn decrypt_step(s: CryptState, t: CryptState, buf: Seq<u8>, now: u64) -> bool {
    if decrypt_refused(s, buf) {
        t == s
    } else {
        match check_nonce(s.decrypt_nonce, s.decrypt_history@, buf[0]) {
            NonceCheck::Accept { nonce, late, lost } => accepted(s, t, buf[0], nonce, late, lost, now),
            NonceCheck::Reject(_) => t == s,
        }
    }
}

/// The model of a decrypt or decode result.
pub open spec fn result_view<D>(r: Result<VoicePacket<D>, DecryptError>) -> Result<PacketView, DecryptError> {
    match r {
        Ok(p) => Ok(p@),
        Err(e) => Err(e),
    }
}

impl CryptState {
    /// Checks the datagram's nonce against the receive window, decrypts and
    /// authenticates it, updates the window and counters, and decodes the
    /// voice packet. A datagram that is refused leaves the state as it was.
    pub fn decrypt<Dst: VoicePacketDst>(&mut self, buf: &[u8], now: u64) -> (r: Result<
        VoicePacket<Dst>,
        DecryptError,
    >)
        requires
            old(self).wf(),
        ensures
            final(self).wf(),
            result_view(r) == decrypt_result(*old(self), buf@, Dst::has_session_id()),
            decrypt_step(*old(self), *final(self), buf@, now),
            buf@.len() < 4 ==> (r matches Err(DecryptError::Eof) && *final(self) == *old(self)),
            buf@.len() >= 4 ==> match check_nonce(
                old(self).decrypt_nonce,
                old(self).decrypt_history@,
                buf@[0],
            ) {
                NonceCheck::Reject(e) => (r matches Err(e2) && e2 == e) && *final(self) == *old(
                    self,
                ),
                NonceCheck::Accept { nonce, late, lost } => {
                    let (pt, tag) = ocb_decrypt_spec(
                        old(self).key@,
                        nonce,
                        buf@.subrange(4, buf@.len() as int),
                    );
                    if to_be16(tag).subrange(0, 3) != buf@.subrange(1, 4) {
                        (r matches Err(DecryptError::Mac)) && *final(self) == *old(self)
                    } else {
                        &&& accepted(*old(self), *final(self), buf@[0], nonce, late, lost, now)
                        &&& (r matches Ok(p) ==> packet_decode(pt, Dst::has_session_id()) == Ok::<
                            PacketView,
                            DecryptError,
                        >(p@))
                        &&& (r matches Err(e) ==> packet_decode(pt, Dst::has_session_id()) == Err::<
                            PacketView,
                            DecryptError,
                        >(e))
                    }
                },
            },
    {
        if buf.len() < 4 {
            return Err(DecryptError::Eof);
        }
        let n0 = buf[0];
        let saved = self.decrypt_nonce;
        let mut nonce: u128 = add_wrapping(saved, 1);
        let mut late = false;
        let mut lost: i64 = 0;
        if #[verifier::truncate] (nonce as u8) != n0 {
            let low = #[verifier::truncate] (saved as u8);
            let d: u8 = if n0 >= low {
                n0 - low
            } else {
                (n0 as u16 + 256 - low as u16) as u8
            };
            let diff: i64 = if d < 128 {
                d as i64
            } else {
                d as i64 - 256
            };
            nonce = if diff >= 0 {
                add_wrapping(saved, diff as u128)
            } else {
                sub_wrapping(saved, (-diff) as u128)
            };
            if diff > 0 {
                lost = diff - 1;
            } else if diff > -30 {
                if self.decrypt_history[n0 as usize] == #[verifier::truncate] ((nonce >> 8u128) as u8) {
                    return Err(DecryptError::Repeat);
                }
                late = true;
                lost = -1;
            } else {
                return Err(DecryptError::Late);
            }
        }
        let body = copy_from(buf, 4);
        let (plain, tag) = ocb_decrypt(&self.key, nonce, body.as_slice());
        let mut computed: Vec<u8> = Vec::new();
        push_be16(&mut computed, tag, 0, 3);
        let received = copy_range(buf, 1, 4);
        if !slices_equal(received.as_slice(), computed.as_slice()) {
            return Err(DecryptError::Mac);
        }
        self.decrypt_history.set(n0 as usize, #[verifier::truncate] ((nonce >> 8u128) as u8));
        self.good = self.good.wrapping_add(1);
        self.last_good = now;
        if late {
            self.late = self.late.wrapping_add(1);
        } else {
            self.decrypt_nonce = nonce;
        }
        let total: i64 = self.lost as i64 + lost;
        self.lost = if total < 0 {
            0
        } else if total > u32::MAX as i64 {
            u32::MAX
        } else {
            total as u32
        };
        decode_voice_packet(plain.as_slice())
    }
}

proof fn lemma_low_byte_facts(dn: u128, n0: u8)
    by (bit_vector)
    ensures
        (add128(dn, 1) as u8 == n0) <==> (sub8(n0, dn as u8) == 1),
        sub8(n0, dn as u8) < 128 ==> add128(dn, sub8(n0, dn as u8) as u128) as u8 == n0,
        add128(dn, 0) == dn,
        sub8(n0, n0) == 0,
{
}

/// A receiver whose decrypt nonce is the sender's encrypt nonce accepts the
/// sender's next datagram in order, at the nonce the sender encrypted it
/// under, and its decrypt nonce then equals the sender's encrypt nonce.
pub proof fn lemma_mirror_nonce(n: u128, history: Seq<u8>)
    ensures
        add128(n, 1) == n.wrapping_add(1),
        check_nonce(n, history, n.wrapping_add(1) as u8) == (NonceCheck::Accept {
            nonce: n.wrapping_add(1),
            late: false,
            lost: 0,
        }),
{
}

/// A datagram that the window accepted is refused as a replay when it comes
/// again, whether it came in order, ahead or late.
pub proof fn lemma_replay_rejected(dn: u128, history: Seq<u8>, n0: u8)
    requires
        history.len() == 256,
        check_nonce(dn, history, n0) is Accept,
    ensures
        match check_nonce(dn, history, n0) {
            NonceCheck::Accept { nonce, late, .. } => check_nonce(
                if late {
                    dn
                } else {
                    nonce
                },
                history.update(n0 as int, (nonce >> 8u128) as u8),
                n0,
            ) == NonceCheck::Reject(DecryptError::Repeat),
            NonceCheck::Reject(_) => true,
        },
{
    lemma_low_byte_facts(dn, n0);
    if let NonceCheck::Accept { nonce, late, .. } = check_nonce(dn, history, n0) {
        lemma_low_byte_facts(nonce, n0);
        if !late {
            assert(nonce as u8 == n0);
            assert(sub8(n0, nonce as u8) == 0);
        }
    }
}

/// The late window: a datagram 29 behind the receive nonce is accepted as
/// late, unless it was seen; one 30 or more behind is refused as `Late`.
pub proof fn lemma_late_window(dn: u128, history: Seq<u8>, n0: u8)
    requires
        history.len() == 256,
    ensures
        nonce_diff(dn, n0) == -29 && history[n0 as int] != (nonce_moved(dn, -29) >> 8u128) as u8
            ==> check_nonce(dn, history, n0) == (NonceCheck::Accept {
            nonce: nonce_moved(dn, -29),
            late: true,
            lost: -1,
        }),
        nonce_diff(dn, n0) <= -30 ==> check_nonce(dn, history, n0) == NonceCheck::Reject(
            DecryptError::Late,
        ),
{
    lemma_low_byte_facts(dn, n0);
}

proof fn lemma_xor_byte(a: u128, b: u128, sh: u128)
    by (bit_vector)
    ensures
        ((a ^ b) >> sh) as u8 == ((a >> sh) as u8) ^ ((b >> sh) as u8),
{
}

proof fn lemma_xor_cancel(x: u128, y: u128, b: u8, c: u8)
    by (bit_vector)
    ensures
        (x ^ y) ^ y == x,
        y ^ (x ^ y) == x,
        (c ^ b) ^ c == b,
        c ^ (c ^ b) == b,
{
}

proof fn lemma_be16_of_bytes(
    b0: u8, b1: u8, b2: u8, b3: u8, b4: u8, b5: u8, b6: u8, b7: u8,
    b8: u8, b9: u8, b10: u8, b11: u8, b12: u8, b13: u8, b14: u8, b15: u8,
    x: u128,
)
    by (bit_vector)
    requires
        x == ((b0 as u128) << 120u128) | ((b1 as u128) << 112u128) | ((b2 as u128) << 104u128)
            | ((b3 as u128) << 96u128) | ((b4 as u128) << 88u128) | ((b5 as u128) << 80u128) | ((
        b6 as u128) << 72u128) | ((b7 as u128) << 64u128) | ((b8 as u128) << 56u128) | ((
        b9 as u128) << 48u128) | ((b10 as u128) << 40u128) | ((b11 as u128) << 32u128) | ((
        b12 as u128) << 24u128) | ((b13 as u128) << 16u128) | ((b14 as u128) << 8u128) | (
        b15 as u128),
    ensures
        (x >> 120u128) as u8 == b0 && (x >> 112u128) as u8 == b1 && (x >> 104u128) as u8 == b2
            && (x >> 96u128) as u8 == b3 && (x >> 88u128) as u8 == b4 && (x >> 80u128) as u8
            == b5 && (x >> 72u128) as u8 == b6 && (x >> 64u128) as u8 == b7 && (x >> 56u128) as u8
            == b8 && (x >> 48u128) as u8 == b9 && (x >> 40u128) as u8 == b10 && (x >> 32u128) as u8
            == b11 && (x >> 24u128) as u8 == b12 && (x >> 16u128) as u8 == b13 && (x >> 8u128) as u8
            == b14 && x as u8 == b15,
{
}

proof fn lemma_bytes_of_u128(x: u128)
    by (bit_vector)
    ensures
        x == ((((x >> 120u128) as u8) as u128) << 120u128) | ((((x >> 112u128) as u8) as u128)
            << 112u128) | ((((x >> 104u128) as u8) as u128) << 104u128) | ((((x >> 96u128) as u8) as u128)
            << 96u128) | ((((x >> 88u128) as u8) as u128) << 88u128) | ((((x >> 80u128) as u8) as u128)
            << 80u128) | ((((x >> 72u128) as u8) as u128) << 72u128) | ((((x >> 64u128) as u8) as u128)
            << 64u128) | ((((x >> 56u128) as u8) as u128) << 56u128) | ((((x >> 48u128) as u8) as u128)
            << 48u128) | ((((x >> 40u128) as u8) as u128) << 40u128) | ((((x >> 32u128) as u8) as u128)
            << 32u128) | ((((x >> 24u128) as u8) as u128) << 24u128) | ((((x >> 16u128) as u8) as u128)
            << 16u128) | ((((x >> 8u128) as u8) as u128) << 8u128) | ((x as u8) as u128),
{
}

/// Reading back the bytes of an integer gives the integer.
proof fn lemma_be16_to_be16(x: u128)
    ensures
        be16(to_be16(x)) == x,
{
    let t = to_be16(x);
    assert(t[0] == (x >> 120u128) as u8 && t[1] == (x >> 112u128) as u8 && t[2] == (x >> 104u128) as u8
        && t[3] == (x >> 96u128) as u8 && t[4] == (x >> 88u128) as u8 && t[5] == (x >> 80u128) as u8
        && t[6] == (x >> 72u128) as u8 && t[7] == (x >> 64u128) as u8 && t[8] == (x >> 56u128) as u8
        && t[9] == (x >> 48u128) as u8 && t[10] == (x >> 40u128) as u8 && t[11] == (x >> 32u128) as u8
        && t[12] == (x >> 24u128) as u8 && t[13] == (x >> 16u128) as u8 && t[14] == (x >> 8u128) as u8
        && t[15] == (x >> 0u128) as u8);
    assert(x >> 0u128 == x) by (bit_vector);
    lemma_bytes_of_u128(x);
}

/// The bytes of an integer read from 16 bytes are those bytes.
proof fn lemma_to_be16_be16(s: Seq<u8>)
    requires
        s.len() >= 16,
    ensures
        to_be16(be16(s)) == s.subrange(0, 16),
{
    let x = be16(s);
    lemma_be16_of_bytes(
        s[0], s[1], s[2], s[3], s[4], s[5], s[6], s[7],
        s[8], s[9], s[10], s[11], s[12], s[13], s[14], s[15],
        x,
    );
    assert(x >> 0u128 == x) by (bit_vector);
    let t = to_be16(x);
    assert(t[0] == s[0] && t[1] == s[1] && t[2] == s[2] && t[3] == s[3]);
    assert(t[4] == s[4] && t[5] == s[5] && t[6] == s[6] && t[7] == s[7]);
    assert(t[8] == s[8] && t[9] == s[9] && t[10] == s[10] && t[11] == s[11]);
    assert(t[12] == s[12] && t[13] == s[13] && t[14] == s[14] && t[15] == s[15]);
    assert(t =~= s.subrange(0, 16));
}

proof fn lemma_to_be16_xor(a: u128, b: u128, k: int)
    requires
        0 <= k < 16,
    ensures
        to_be16(a ^ b)[k] == to_be16(a)[k] ^ to_be16(b)[k],
{
    lemma_xor_byte(a, b, (120 - 8 * k) as u128);
}

proof fn lemma_ocb_enc_len(key: Seq<u8>, offset: u128, checksum: u128, p: Seq<u8>)
    ensures
        ocb_enc(key, offset, checksum, p).0.len() == p.len(),
    decreases p.len(),
{
    if p.len() > 16 {
        lemma_ocb_enc_len(key, s2_spec(offset), checksum ^ be16(p), p.subrange(16, p.len() as int));
    }
}

proof fn lemma_ocb_inverse(key: Seq<u8>, offset: u128, checksum: u128, p: Seq<u8>)
    requires
        forall|x: u128| #[trigger] aes128_decrypt(key, aes128_encrypt(key, x)) == x,
    ensures
        ocb_dec(key, offset, checksum, ocb_enc(key, offset, checksum, p).0) == (
            p,
            ocb_enc(key, offset, checksum, p).1,
        ),
    decreases p.len(),
{
    let off = s2_spec(offset);
    let c = ocb_enc(key, offset, checksum, p).0;
    lemma_ocb_enc_len(key, offset, checksum, p);
    if p.len() > 16 {
        let plain = be16(p);
        let ct = aes128_encrypt(key, off ^ plain) ^ off;
        let tail = p.subrange(16, p.len() as int);
        let rest = ocb_enc(key, off, checksum ^ plain, tail);
        lemma_ocb_enc_len(key, off, checksum ^ plain, tail);
        assert(c == to_be16(ct) + rest.0);
        assert(be16(c) == be16(to_be16(ct)));
        lemma_be16_to_be16(ct);
        lemma_xor_cancel(aes128_encrypt(key, off ^ plain), off, 0, 0);
        lemma_xor_cancel(plain, off, 0, 0);
        assert(aes128_decrypt(key, off ^ ct) == off ^ plain);
        assert(aes128_decrypt(key, off ^ ct) ^ off == plain) by {
            lemma_xor_cancel(plain, off, 0, 0);
            assert((off ^ plain) ^ off == plain) by (bit_vector);
        }
        assert(c.subrange(16, c.len() as int) =~= rest.0);
        lemma_ocb_inverse(key, off, checksum ^ plain, tail);
        lemma_to_be16_be16(p);
        assert(to_be16(plain) + tail =~= p);
    } else {
        let len = p.len();
        let pad = aes128_encrypt(key, ((len * 8) as u128) ^ off);
        let padb = to_be16(pad);
        let e = p + padb.subrange(len as int, 16);
        let plain_e = be16(e);
        assert(c == to_be16(pad ^ plain_e).subrange(0, len as int));
        let bd = c + Seq::new((16 - len) as nat, |i: int| 0u8);
        let plain_d = be16(bd) ^ pad;
        lemma_to_be16_be16(e);
        lemma_to_be16_be16(bd);
        assert forall|k: int| 0 <= k < 16 implies to_be16(plain_d)[k] == to_be16(plain_e)[k] by {
            lemma_to_be16_xor(be16(bd), pad, k);
            assert(to_be16(be16(bd))[k] == bd[k]);
            if k < len {
                lemma_to_be16_xor(pad, plain_e, k);
                assert(bd[k] == c[k]);
                lemma_xor_cancel(0, 0, to_be16(plain_e)[k], padb[k]);
            } else {
                assert(bd[k] == 0u8);
                assert(e[k] == padb[k]);
                assert(to_be16(plain_e)[k] == e[k]);
                let q = padb[k];
                assert(0u8 ^ q == q) by (bit_vector);
            }
        }
        assert(to_be16(plain_d) =~= to_be16(plain_e));
        lemma_be16_to_be16(plain_d);
        lemma_be16_to_be16(plain_e);
        assert(plain_d == plain_e);
        assert(to_be16(plain_e).subrange(0, len as int) =~= p);
    }
}

/// Decrypting under the nonce and key that encrypted gives the plaintext back
/// with the same tag, for a block cipher whose decryption inverts its
/// encryption under the key.
pub proof fn lemma_ocb_round_trip(key: Seq<u8>, nonce: u128, p: Seq<u8>)
    requires
        forall|x: u128| #[trigger] aes128_decrypt(key, aes128_encrypt(key, x)) == x,
    ensures
        ocb_decrypt_spec(key, nonce, ocb_encrypt_spec(key, nonce, p).0) == (
            p,
            ocb_encrypt_spec(key, nonce, p).1,
        ),
{
    lemma_ocb_inverse(key, first_offset(key, nonce), 0, p);
}

fn add_wrapping(x: u128, k: u128) -> (r: u128)
    ensures
        r == add128(x, k),
{
    if x > u128::MAX - k {
        x - (u128::MAX - k) - 1
    } else {
        x + k
    }
}

fn sub_wrapping(x: u128, k: u128) -> (r: u128)
    ensures
        r == sub128(x, k),
{
    if x < k {
        u128::MAX - (k - x) + 1
    } else {
        x - k
    }
}

fn copy_range(buf: &[u8], start: usize, end: usize) -> (r: Vec<u8>)
    requires
        start <= end <= buf@.len(),
    ensures
        r@ == buf@.subrange(start as int, end as int),
{
    let mut r: Vec<u8> = Vec::new();
    let mut i: usize = start;
    while i < end
        invariant
            start <= i <= end <= buf@.len(),
            r@ == buf@.subrange(start as int, i as int),
        decreases end - i,
    {
        r.push(buf[i]);
        i = i + 1;
        assert(r@ =~= buf@.subrange(start as int, i as int));
    }
    r
}

fn copy_from(buf: &[u8], start: usize) -> (r: Vec<u8>)
    requires
        start <= buf@.len(),
    ensures
        r@ == buf@.subrange(start as int, buf@.len() as int),
{
    copy_range(buf, start, buf.len())
}

fn zero_history() -> (r: Vec<u8>)
    ensures
        r@ == Seq::new(256, |i: int| 0u8),
{
    let mut h: Vec<u8> = Vec::new();
    let mut i: usize = 0;
    while i < 256
        invariant
            i <= 256,
            h@ == Seq::new(i as nat, |k: int| 0u8),
        decreases 256 - i,
    {
        h.push(0u8);
        i = i + 1;
        assert(h@ =~= Seq::new(i as nat, |k: int| 0u8));
    }
    h
}

fn le_bytes(x: u128) -> (r: Vec<u8>)
    ensures
        r@ == to_le16(x),
{
    let mut be: Vec<u8> = Vec::new();
    push_be16(&mut be, x, 0, 16);
    let mut le: Vec<u8> = Vec::new();
    let mut i: usize = 16;
    while i > 0
        invariant
            i <= 16,
            be@ == to_be16(x).subrange(0, 16),
            le@ == to_le16(x).subrange(0, 16 - i),
        decreases i,
    {
        i = i - 1;
        le.push(be[i]);
        assert(le@ =~= to_le16(x).subrange(0, 16 - i));
    }
    assert(le@ =~= to_le16(x));
    le
}

} // verus!
