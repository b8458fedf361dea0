//! AEAD for the TCP session channel.
//!
//! Each TCP connection derives a fresh key from the session PSK plus random
//! nonces exchanged during the handshake, so reconnects never reuse a
//! (key, nonce) pair. Records are sealed with ChaCha20-Poly1305 using a
//! per-direction monotonic counter as the nonce.

use chacha20poly1305::aead::{Aead, KeyInit};
use vstd::prelude::*;
use vstd::utf8::encode_utf8;

use crate::bytes::{
    le_bytes, lemma_capacities, lemma_le_injective, lemma_widths, push_all, push_le,
};

verus! {

pub const KEY_LEN: usize = 32;

pub const NONCE_LEN: usize = 32;

/// How much longer a sealed record is than what it seals.
pub const TAG_LEN: usize = 16;

/// The longest text that one nonce can seal: ChaCha20 has 2^32 - 2 blocks of
/// 64 bytes left once its first block has keyed the authenticator.
pub const MAX_PLAINTEXT: u64 = 0x3f_ffff_ff80;

pub const DIR_CLIENT_TO_SERVER: u8 = 0;

pub const DIR_SERVER_TO_CLIENT: u8 = 1;

/// Why a record could not be sealed or opened.
#[derive(Debug, Clone, Copy, PartialEq, Eq, Structural)]
pub enum CryptoError {
    /// The counter has no next value.
    CounterExhausted,
    /// The text is longer than one nonce can seal.
    SealFailed,
    /// The record was not sealed under this key and nonce.
    AuthFailed,
}

impl CryptoError {
    pub fn message(&self) -> (r: &'static str)
        ensures
            r@ == (match *self {
                CryptoError::CounterExhausted => "nonce counter exhausted"@,
                CryptoError::SealFailed => "seal failed"@,
                CryptoError::AuthFailed => "decrypt/auth failed"@,
            }),
    {
        match self {
            CryptoError::CounterExhausted => "nonce counter exhausted",
            CryptoError::SealFailed => "seal failed",
            CryptoError::AuthFailed => "decrypt/auth failed",
        }
    }
}

/// The cipher's error, which carries nothing.
#[verifier::external_type_specification]
#[verifier::external_body]
pub struct ExAeadError(chacha20poly1305::Error);

/// The 32 bytes that HKDF-SHA256 gives for a salt, a key and an info string.
pub uninterp spec fn hkdf_sha256(salt: Seq<u8>, ikm: Seq<u8>, info: Seq<u8>) -> Seq<u8>;

/// What ChaCha20-Poly1305 makes of a text: ciphertext and tag.
pub uninterp spec fn chacha_seal(key: Seq<u8>, nonce: Seq<u8>, plaintext: Seq<u8>) -> Seq<u8>;

/// The text in a ChaCha20-Poly1305 record, where its tag is right.
pub uninterp spec fn chacha_open(key: Seq<u8>, nonce: Seq<u8>, record: Seq<u8>) -> Option<Seq<u8>>;

/// Calls `hkdf::Hkdf::<sha2::Sha256>::new` and `expand`: extract with `salt`
/// from `ikm`, then expand with `info` to 32 bytes, which is one block and so
/// never too long. The result is named, not described.
#[verifier::external_body]
fn hkdf_expand(salt: &[u8], ikm: &[u8], info: &[u8]) -> (okm: [u8; KEY_LEN])
    ensures
        okm@ == hkdf_sha256(salt@, ikm@, info@),
{
    let mut okm = [0u8; KEY_LEN];
    hkdf::Hkdf::<sha2::Sha256>::new(Some(salt), ikm)
        .expand(info, &mut okm)
        .expect("one block");
    okm
}

/// Calls `chacha20poly1305::aead::Aead::encrypt` with no associated data. Up to
/// the stated length the cipher never fails, the record is sixteen bytes longer
/// than the text, and decrypting it under the same key and nonce gives the text
/// back. That other keys do not open it is left unsaid: it is a matter of
/// chance.
#[verifier::external_body]
fn chacha_encrypt(key: &[u8; KEY_LEN], nonce: &[u8; 12], plaintext: &[u8]) -> (r: Result<
    Vec<u8>,
    chacha20poly1305::Error,
>)
    requires
        plaintext@.len() <= MAX_PLAINTEXT,
    ensures
        r is Ok,
        r->Ok_0@ == chacha_seal(key@, nonce@, plaintext@),
        r->Ok_0@.len() == plaintext@.len() + TAG_LEN,
        chacha_open(key@, nonce@, r->Ok_0@) == Some(plaintext@),
{
    let cipher = chacha20poly1305::ChaCha20Poly1305::new(chacha20poly1305::Key::from_slice(key));
    cipher.encrypt(chacha20poly1305::Nonce::from_slice(nonce), plaintext)
}

/// Calls `chacha20poly1305::aead::Aead::decrypt` with no associated data. It
/// gives the text exactly where the tag is right, and the text is sixteen bytes
/// shorter than the record.
#[verifier::external_body]
fn chacha_decrypt(key: &[u8; KEY_LEN], nonce: &[u8; 12], record: &[u8]) -> (r: Result<
    Vec<u8>,
    chacha20poly1305::Error,
>)
    requires
        record@.len() <= MAX_PLAINTEXT + TAG_LEN,
    ensures
        match r {
            Ok(p) => chacha_open(key@, nonce@, record@) == Some(p@) && p@.len() + TAG_LEN
                == record@.len(),
            Err(_) => chacha_open(key@, nonce@, record@) is None,
        },
{
    let cipher = chacha20poly1305::ChaCha20Poly1305::new(chacha20poly1305::Key::from_slice(key));
    cipher.decrypt(chacha20poly1305::Nonce::from_slice(nonce), record)
}

/// The key of one connection: both nonces salt the PSK.
pub open spec fn session_key(psk: Seq<u8>, client_nonce: Seq<u8>, server_nonce: Seq<u8>) -> Seq<
    u8,
> {
    hkdf_sha256(client_nonce + server_nonce, psk, encode_utf8("thther-v1-session-key"@))
}

/// Derive the per-connection symmetric key from the PSK and both nonces.
pub fn derive_key(psk: &[u8], client_nonce: &[u8], server_nonce: &[u8]) -> (key: [u8; KEY_LEN])
    ensures
        key@ == session_key(psk@, client_nonce@, server_nonce@),
{
    let mut salt: Vec<u8> = Vec::new();
    push_all(&mut salt, client_nonce);
    push_all(&mut salt, server_nonce);
    assert(salt@ =~= client_nonce@ + server_nonce@);
    hkdf_expand(salt.as_slice(), psk, "thther-v1-session-key".as_bytes())
}

/// One direction of a connection: the key, the direction's mark, and how many
/// records have gone through it.
pub struct Channel {
    pub key: Seq<u8>,
    pub dir: u8,
    pub counter: u64,
}

/// The twelve-byte nonce of a record: direction, counter, zeros.
pub open spec fn nonce_bytes(dir: u8, counter: u64) -> Seq<u8> {
    seq![dir] + le_bytes(counter as nat, 8) + seq![0u8, 0u8, 0u8]
}

impl Channel {
    /// A direction on which nothing has been sent.
    pub open spec fn start(key: Seq<u8>, dir: u8) -> Channel {
        Channel { key, dir, counter: 0 }
    }

    /// The direction after one more record.
    pub open spec fn next(self) -> Channel {
        Channel { counter: (self.counter + 1) as u64, ..self }
    }

    /// The record that the next text becomes.
    pub open spec fn sealed(self, plaintext: Seq<u8>) -> Seq<u8> {
        chacha_seal(self.key, nonce_bytes(self.dir, self.counter), plaintext)
    }

    /// The text in the next record, where it is authentic.
    pub open spec fn opened(self, record: Seq<u8>) -> Option<Seq<u8>> {
        if record.len() > MAX_PLAINTEXT + TAG_LEN {
            None
        } else {
            chacha_open(self.key, nonce_bytes(self.dir, self.counter), record)
        }
    }
}

/// Seals outgoing records with a monotonic per-direction counter.
pub struct Sealer {
    key: [u8; KEY_LEN],
    dir: u8,
    counter: u64,
}

/// Opens incoming records, checking the counter increases monotonically.
pub struct Opener {
    key: [u8; KEY_LEN],
    dir: u8,
    counter: u64,
}

impl View for Sealer {
    type V = Channel;

    closed spec fn view(&self) -> Channel {
        Channel { key: self.key@, dir: self.dir, counter: self.counter }
    }
}

impl View for Opener {
    type V = Channel;

    closed spec fn view(&self) -> Channel {
        Channel { key: self.key@, dir: self.dir, counter: self.counter }
    }
}

/// The nonce of record number `counter` in direction `dir`.
pub fn nonce_for(dir: u8, counter: u64) -> (n: [u8; 12])
    ensures
        n@ == nonce_bytes(dir, counter),
{
    let mut v: Vec<u8> = Vec::new();
    push_le(&mut v, counter, 8);
    proof {
        lemma_widths(counter as nat, 8);
    }
    let n = [dir, v[0], v[1], v[2], v[3], v[4], v[5], v[6], v[7], 0, 0, 0];
    assert(n@ =~= nonce_bytes(dir, counter));
    n
}

impl Sealer {
    pub fn new(key: &[u8; KEY_LEN], dir: u8) -> (s: Sealer)
        ensures
            s@ == Channel::start(key@, dir),
    {
        Sealer { key: *key, dir, counter: 0 }
    }

    /// Seal the next record. A text that one nonce cannot seal still uses up
    /// the nonce; at the last counter value nothing is sealed any more. The
    /// peer, at the same place in the same direction, opens the record to the
    /// text.
    pub fn seal(&mut self, plaintext: &[u8]) -> (r: Result<Vec<u8>, CryptoError>)
        ensures
            old(self)@.counter == u64::MAX ==> r == Err::<Vec<u8>, CryptoError>(
                CryptoError::CounterExhausted,
            ) && final(self)@ == old(self)@,
            old(self)@.counter < u64::MAX ==> final(self)@ == old(self)@.next(),
            old(self)@.counter < u64::MAX && plaintext@.len() > MAX_PLAINTEXT ==> r == Err::<
                Vec<u8>,
                CryptoError,
            >(CryptoError::SealFailed),
            old(self)@.counter < u64::MAX && plaintext@.len() <= MAX_PLAINTEXT ==> (r matches Ok(c)
                && c@ == old(self)@.sealed(plaintext@) && c@.len() == plaintext@.len() + TAG_LEN
                && old(self)@.opened(c@) == Some(plaintext@)),
    {
        let nonce = nonce_for(self.dir, self.counter);
        if self.counter == u64::MAX {
            return Err(CryptoError::CounterExhausted);
        }
        self.counter = self.counter + 1;
        if plaintext.len() as u64 > MAX_PLAINTEXT {
            return Err(CryptoError::SealFailed);
        }
        match chacha_encrypt(&self.key, &nonce, plaintext) {
            Ok(c) => Ok(c),
            Err(_) => Err(CryptoError::SealFailed),
        }
    }
}

impl Opener {
    pub fn new(key: &[u8; KEY_LEN], dir: u8) -> (o: Opener)
        ensures
            o@ == Channel::start(key@, dir),
    {
        Opener { key: *key, dir, counter: 0 }
    }

    /// Open the next record. Only a record that opens, and is not the last the
    /// counter could number, moves on to the next.
    pub fn open(&mut self, ciphertext: &[u8]) -> (r: Result<Vec<u8>, CryptoError>)
        ensures
            match old(self)@.opened(ciphertext@) {
                None => r == Err::<Vec<u8>, CryptoError>(CryptoError::AuthFailed) && final(self)@
                    == old(self)@,
                Some(p) => if old(self)@.counter == u64::MAX {
                    r == Err::<Vec<u8>, CryptoError>(CryptoError::CounterExhausted) && final(self)@
                        == old(self)@
                } else {
                    (r matches Ok(v) && v@ == p) && final(self)@ == old(self)@.next()
                },
            },
    {
        let nonce = nonce_for(self.dir, self.counter);
        if ciphertext.len() as u64 > MAX_PLAINTEXT + TAG_LEN as u64 {
            return Err(CryptoError::AuthFailed);
        }
        let pt = match chacha_decrypt(&self.key, &nonce, ciphertext) {
            Ok(p) => p,
            Err(_) => return Err(CryptoError::AuthFailed),
        };
        if self.counter == u64::MAX {
            return Err(CryptoError::CounterExhausted);
        }
        self.counter = self.counter + 1;
        Ok(pt)
    }
}

/// No two records of a connection share a nonce: the direction and the counter
/// can both be read off it.
pub proof fn law_nonces_are_distinct(dir1: u8, counter1: u64, dir2: u8, counter2: u64)
    requires
        nonce_bytes(dir1, counter1) == nonce_bytes(dir2, counter2),
    ensures
        dir1 == dir2,
        counter1 == counter2,
{
    let (a, b) = (nonce_bytes(dir1, counter1), nonce_bytes(dir2, counter2));
    lemma_widths(counter1 as nat, 8);
    lemma_widths(counter2 as nat, 8);
    lemma_capacities();
    assert(a[0] == dir1 && b[0] == dir2);
    assert(a.subrange(1, 9) =~= le_bytes(counter1 as nat, 8));
    assert(b.subrange(1, 9) =~= le_bytes(counter2 as nat, 8));
    lemma_le_injective(counter1 as nat, counter2 as nat, 8);
}

/// A counter only ever moves up, so a direction never seals two records under
/// one nonce: after `n` more records it stands `n` further, short of the end.
pub open spec fn advanced(c: Channel, n: nat) -> Channel
    decreases n,
{
    if n == 0 {
        c
    } else {
        advanced(c, (n - 1) as nat).next()
    }
}

/// Records sealed at different places of one direction have different nonces.
pub proof fn law_nonce_is_never_reused(c: Channel, m: nat, n: nat)
    requires
        m < n,
        c.counter + n <= u64::MAX,
    ensures
        nonce_bytes(advanced(c, m).dir, advanced(c, m).counter) != nonce_bytes(
            advanced(c, n).dir,
            advanced(c, n).counter,
        ),
{
    lemma_advanced(c, m);
    lemma_advanced(c, n);
    let (a, b) = (advanced(c, m), advanced(c, n));
    if nonce_bytes(a.dir, a.counter) == nonce_bytes(b.dir, b.counter) {
        law_nonces_are_distinct(a.dir, a.counter, b.dir, b.counter);
    }
}

proof fn lemma_advanced(c: Channel, n: nat)
    requires
        c.counter + n <= u64::MAX,
    ensures
        advanced(c, n) == (Channel { counter: (c.counter + n) as u64, ..c }),
    decreases n,
{
    if n > 0 {
        lemma_advanced(c, (n - 1) as nat);
    }
}

} // verus!
