//! The dual-curve crypto suite: one secp256k1-style identity that signs
//! Keccak-256 digests, and one ed25519 identity that signs raw payloads.
//! Outside calls stand behind trusted wrappers; what they return is named and
//! the glue around them is verified.

use ed25519_dalek::Signer as EdSigner;
use ed25519_dalek::Verifier as EdVerifier;
use k256::ecdsa::signature::Signer as EcdsaSigner;
use k256::ecdsa::signature::Verifier as EcdsaVerifier;
use sha3::Digest;
use vstd::prelude::*;
use vstd::string::StrSliceExecFns;
use vstd::string::StringExecFns;

verus! {

// ---------------------------------------------------------------------------
// named results of the outside calls
// ---------------------------------------------------------------------------
/// The Keccak-256 digest of a byte string.
pub uninterp spec fn keccak256_of(data: Seq<u8>) -> Seq<u8>;

/// Whether 32 bytes are a valid secp256k1 secret scalar.
pub uninterp spec fn k256_secret_valid(secret: Seq<u8>) -> bool;

/// The uncompressed SEC1 encoding of the public key derived from a secret.
pub uninterp spec fn k256_pub_of(secret: Seq<u8>) -> Seq<u8>;

/// The ECDSA/secp256k1 signature (deterministic per RFC 6979) of a message
/// under a secret.
pub uninterp spec fn k256_sig_of(secret: Seq<u8>, msg: Seq<u8>) -> Seq<u8>;

/// Whether an ECDSA/secp256k1 signature check of `sig` on `msg` against the
/// public key of `secret` succeeds.
pub uninterp spec fn k256_verify_ok(secret: Seq<u8>, msg: Seq<u8>, sig: Seq<u8>) -> bool;

/// The ed25519 public key derived from a 32-byte secret.
pub uninterp spec fn ed_pub_of(secret: Seq<u8>) -> Seq<u8>;

/// The ed25519 signature (deterministic per RFC 8032) of a message under a
/// secret.
pub uninterp spec fn ed_sig_of(secret: Seq<u8>, msg: Seq<u8>) -> Seq<u8>;

/// Whether an ed25519 signature check of `sig` on `msg` against `pubkey`
/// succeeds.
pub uninterp spec fn ed_verify_ok(pubkey: Seq<u8>, msg: Seq<u8>, sig: Seq<u8>) -> bool;

/// The base58 rendering of a byte string.
pub uninterp spec fn base58_of(data: Seq<u8>) -> Seq<char>;

/// The bytes a base58 string decodes to, if it is well formed.
pub uninterp spec fn base58_decode_of(s: Seq<char>) -> Option<Seq<u8>>;

// ---------------------------------------------------------------------------
// trusted wrappers
// ---------------------------------------------------------------------------
/// Relies on sha3::Keccak256: the digest depends on the input alone and holds
/// 32 bytes.
#[verifier::external_body]
pub fn keccak256(data: &Vec<u8>) -> (r: Vec<u8>)
    ensures
        r@ == keccak256_of(data@),
        r@.len() == 32,
{
    let mut hasher = sha3::Keccak256::new();
    hasher.update(data.as_slice());
    hasher.finalize().to_vec()
}

/// Relies on hex::encode: two lowercase digits per byte, high nibble first.
#[verifier::external_body]
pub fn hex_encode(data: &Vec<u8>) -> (r: String)
    ensures
        r@ == spec_hex_encode(data@),
{
    hex::encode(data.as_slice())
}

/// Relies on hex::decode: it succeeds exactly on even-length strings of hex
/// digits of either case, pairing digits into bytes high nibble first.
#[verifier::external_body]
pub fn hex_decode(s: &str) -> (r: Option<Vec<u8>>)
    ensures
        r is Some <==> spec_is_hex(s@),
        r is Some ==> r->Some_0@ == spec_hex_decode(s@),
{
    match hex::decode(s) {
        Ok(v) => Some(v),
        Err(_) => None,
    }
}

/// Relies on bs58::encode (Bitcoin alphabet).
#[verifier::external_body]
pub fn bs58_encode(data: &Vec<u8>) -> (r: String)
    ensures
        r@ == base58_of(data@),
{
    bs58::encode(data.as_slice()).into_string()
}

/// Relies on bs58::decode: it inverts bs58::encode, so decoding an encoded
/// byte string gives those bytes back.
#[verifier::external_body]
pub fn bs58_decode(s: &String) -> (r: Option<Vec<u8>>)
    ensures
        r is Some <==> base58_decode_of(s@) is Some,
        r is Some ==> r->Some_0@ == base58_decode_of(s@)->Some_0,
        forall|b: Seq<u8>| s@ == base58_of(b) ==> r is Some && r->Some_0@ == b,
{
    match bs58::decode(s.as_str()).into_vec() {
        Ok(v) => Some(v),
        Err(_) => None,
    }
}

/// Relies on ed25519_dalek::SigningKey::from_bytes (infallible for 32 bytes)
/// and VerifyingKey::to_bytes: the 32-byte public key is derived from the
/// secret alone.
#[verifier::external_body]
pub fn ed_public_key(secret: &Vec<u8>) -> (r: Vec<u8>)
    requires
        secret@.len() == 32,
    ensures
        r@ == ed_pub_of(secret@),
        r@.len() == 32,
{
    let mut arr = [0u8; 32];
    arr.copy_from_slice(secret.as_slice());
    let sk = ed25519_dalek::SigningKey::from_bytes(&arr);
    sk.verifying_key().to_bytes().to_vec()
}

/// Relies on ed25519_dalek's Signer::sign: a deterministic 64-byte signature
/// over the raw message.
#[verifier::external_body]
pub fn ed_sign(secret: &Vec<u8>, msg: &Vec<u8>) -> (r: Vec<u8>)
    requires
        secret@.len() == 32,
    ensures
        r@ == ed_sig_of(secret@, msg@),
        r@.len() == 64,
{
    let mut arr = [0u8; 32];
    arr.copy_from_slice(secret.as_slice());
    let sk = ed25519_dalek::SigningKey::from_bytes(&arr);
    sk.sign(msg.as_slice()).to_bytes().to_vec()
}

/// Relies on ed25519_dalek::VerifyingKey::verify: it accepts what
/// Signer::sign produced under the matching secret, and its outcome depends
/// on the three inputs alone (a malformed key or signature is rejected).
#[verifier::external_body]
pub fn ed_verify(pubkey: &Vec<u8>, msg: &Vec<u8>, sig: &Vec<u8>) -> (r: bool)
    requires
        pubkey@.len() == 32,
    ensures
        r == ed_verify_ok(pubkey@, msg@, sig@),
        forall|sk: Seq<u8>| pubkey@ == ed_pub_of(sk) && sig@ == ed_sig_of(sk, msg@) ==> r,
{
    let mut arr = [0u8; 32];
    arr.copy_from_slice(pubkey.as_slice());
    let vk = match ed25519_dalek::VerifyingKey::from_bytes(&arr) {
        Ok(v) => v,
        Err(_) => return false,
    };
    let s = match ed25519_dalek::Signature::from_slice(sig.as_slice()) {
        Ok(s) => s,
        Err(_) => return false,
    };
    vk.verify(msg.as_slice(), &s).is_ok()
}

/// Relies on k256::ecdsa::SigningKey::from_slice (it succeeds exactly on
/// valid secret scalars) and VerifyingKey::to_encoded_point(false): the
/// 65-byte uncompressed SEC1 point, first byte 4.
#[verifier::external_body]
pub fn k256_public_uncompressed(secret: &Vec<u8>) -> (r: Option<Vec<u8>>)
    requires
        secret@.len() == 32,
    ensures
        r is Some <==> k256_secret_valid(secret@),
        r is Some ==> r->Some_0@ == k256_pub_of(secret@) && r->Some_0@.len() == 65
            && r->Some_0@[0] == 4u8,
{
    let sk = match k256::ecdsa::SigningKey::from_slice(secret.as_slice()) {
        Ok(k) => k,
        Err(_) => return None,
    };
    Some(sk.verifying_key().to_encoded_point(false).as_bytes().to_vec())
}

/// Relies on k256's Signer::sign (deterministic ECDSA per RFC 6979): 64 raw
/// bytes r then s.
#[verifier::external_body]
pub fn k256_sign(secret: &Vec<u8>, msg: &Vec<u8>) -> (r: Option<Vec<u8>>)
    requires
        secret@.len() == 32,
    ensures
        r is Some <==> k256_secret_valid(secret@),
        r is Some ==> r->Some_0@ == k256_sig_of(secret@, msg@) && r->Some_0@.len() == 64,
{
    let sk = match k256::ecdsa::SigningKey::from_slice(secret.as_slice()) {
        Ok(k) => k,
        Err(_) => return None,
    };
    let sig: k256::ecdsa::Signature = sk.sign(msg.as_slice());
    Some(sig.to_vec())
}

/// Relies on k256's Verifier::verify against the public key derived from the
/// secret: it accepts what Signer::sign produced under that secret, and its
/// outcome depends on the three inputs alone.
#[verifier::external_body]
pub fn k256_verify(secret: &Vec<u8>, msg: &Vec<u8>, sig: &Vec<u8>) -> (r: bool)
    requires
        secret@.len() == 32,
        k256_secret_valid(secret@),
    ensures
        r == k256_verify_ok(secret@, msg@, sig@),
        sig@ == k256_sig_of(secret@, msg@) ==> r,
{
    let sk = match k256::ecdsa::SigningKey::from_slice(secret.as_slice()) {
        Ok(k) => k,
        Err(_) => return false,
    };
    let s = match k256::ecdsa::Signature::try_from(sig.as_slice()) {
        Ok(s) => s,
        Err(_) => return false,
    };
    sk.verifying_key().verify(msg.as_slice(), &s).is_ok()
}

// ---------------------------------------------------------------------------
// hex as mathematics
// ---------------------------------------------------------------------------
/// The lowercase hex digit for a nibble.
pub open spec fn spec_hex_digit(n: int) -> char {
    if n == 0 {
        '0'
    } else if n == 1 {
        '1'
    } else if n == 2 {
        '2'
    } else if n == 3 {
        '3'
    } else if n == 4 {
        '4'
    } else if n == 5 {
        '5'
    } else if n == 6 {
        '6'
    } else if n == 7 {
        '7'
    } else if n == 8 {
        '8'
    } else if n == 9 {
        '9'
    } else if n == 10 {
        'a'
    } else if n == 11 {
        'b'
    } else if n == 12 {
        'c'
    } else if n == 13 {
        'd'
    } else if n == 14 {
        'e'
    } else {
        'f'
    }
}

/// The nibble a hex digit of either case stands for, or -1.
pub open spec fn spec_hex_val(c: char) -> int {
    if c == '0' {
        0
    } else if c == '1' {
        1
    } else if c == '2' {
        2
    } else if c == '3' {
        3
    } else if c == '4' {
        4
    } else if c == '5' {
        5
    } else if c == '6' {
        6
    } else if c == '7' {
        7
    } else if c == '8' {
        8
    } else if c == '9' {
        9
    } else if c == 'a' || c == 'A' {
        10
    } else if c == 'b' || c == 'B' {
        11
    } else if c == 'c' || c == 'C' {
        12
    } else if c == 'd' || c == 'D' {
        13
    } else if c == 'e' || c == 'E' {
        14
    } else if c == 'f' || c == 'F' {
        15
    } else {
        -1
    }
}

/// Lowercase hex of a byte string, two digits per byte, high nibble first.
pub open spec fn spec_hex_encode(bytes: Seq<u8>) -> Seq<char>
    decreases bytes.len(),
{
    if bytes.len() == 0 {
        Seq::empty()
    } else {
        spec_hex_encode(bytes.drop_last()) + seq![
            spec_hex_digit(bytes.last() as int / 16),
            spec_hex_digit(bytes.last() as int % 16),
        ]
    }
}

/// Whether a string is decodable hex: even length, all digits.
pub open spec fn spec_is_hex(s: Seq<char>) -> bool {
    s.len() % 2 == 0 && forall|i: int| 0 <= i < s.len() ==> spec_hex_val(#[trigger] s[i]) != -1
}

/// The bytes a hex string stands for.
pub open spec fn spec_hex_decode(s: Seq<char>) -> Seq<u8>
    decreases s.len(),
{
    if s.len() < 2 {
        Seq::empty()
    } else {
        spec_hex_decode(s.take(s.len() - 2)).push(
            (spec_hex_val(s[s.len() - 2]) * 16 + spec_hex_val(s[s.len() - 1])) as u8,
        )
    }
}

/// Law: hex decoding inverts hex encoding, and the encoding is twice as long
/// as its input and well formed.
pub proof fn lemma_hex_roundtrip(bytes: Seq<u8>)
    ensures
        spec_hex_encode(bytes).len() == 2 * bytes.len(),
        spec_is_hex(spec_hex_encode(bytes)),
        spec_hex_decode(spec_hex_encode(bytes)) == bytes,
    decreases bytes.len(),
{
    if bytes.len() > 0 {
        lemma_hex_roundtrip(bytes.drop_last());
        let enc = spec_hex_encode(bytes);
        let prefix = spec_hex_encode(bytes.drop_last());
        let b = bytes.last();
        assert(enc.len() == prefix.len() + 2);
        assert(enc.take(enc.len() - 2) =~= prefix);
        assert(enc[enc.len() - 2] == spec_hex_digit(b as int / 16));
        assert(enc[enc.len() - 1] == spec_hex_digit(b as int % 16));
        assert(spec_hex_val(spec_hex_digit(b as int / 16)) == b as int / 16);
        assert(spec_hex_val(spec_hex_digit(b as int % 16)) == b as int % 16);
        assert((b as int / 16) * 16 + b as int % 16 == b as int) by (nonlinear_arith);
        assert(spec_hex_decode(enc) =~= bytes);
    }
}

// ---------------------------------------------------------------------------
// the suite
// ---------------------------------------------------------------------------
#[derive(Clone, Debug)]
pub struct EthSignature {
    pub address: String,
    pub signature: String,
}

#[derive(Clone, Debug)]
pub struct SolSignature {
    pub pubkey: String,
    pub signature: String,
}

#[derive(Clone, Debug)]
pub struct SignatureBundle {
    pub eth: EthSignature,
    pub sol: SolSignature,
}

pub struct CryptoConfig {
    pub eth_hex_seed: Option<String>,
    pub sol_bs58_seed: Option<String>,
}

impl CryptoConfig {
    /// Fresh random identities on both curves.
    pub fn default_config() -> (r: CryptoConfig)
        ensures
            r.eth_hex_seed is None,
            r.sol_bs58_seed is None,
    {
        CryptoConfig { eth_hex_seed: None, sol_bs58_seed: None }
    }
}

impl Default for CryptoConfig {
    /// Fresh random identities on both curves (see `default_config`).
    fn default() -> (r: CryptoConfig)
        ensures
            r.eth_hex_seed is None,
            r.sol_bs58_seed is None,
    {
        CryptoConfig::default_config()
    }
}

#[derive(Clone, Copy, Debug, PartialEq, Eq, Structural)]
pub enum CryptoError {
    EthSeed,
    SolSeed,
}

/// The hex seed with an optional leading "0x" removed.
pub open spec fn spec_strip0x(s: Seq<char>) -> Seq<char> {
    if s.len() >= 2 && s[0] == '0' && s[1] == 'x' {
        s.subrange(2, s.len() as int)
    } else {
        s
    }
}

/// Whether a configured curve-A seed yields an identity: 32 hex-encoded bytes
/// forming a valid secret scalar.
pub open spec fn spec_eth_seed_ok(s: Seq<char>) -> bool {
    &&& spec_is_hex(spec_strip0x(s))
    &&& spec_hex_decode(spec_strip0x(s)).len() == 32
    &&& k256_secret_valid(spec_hex_decode(spec_strip0x(s)))
}

/// Whether a configured curve-B seed yields an identity: base58 for either a
/// 32-byte secret or a consistent 64-byte keypair.
pub open spec fn spec_sol_seed_ok(s: Seq<char>) -> bool {
    match base58_decode_of(s) {
        Some(b) => b.len() == 32 || (b.len() == 64 && b.subrange(32, 64) == ed_pub_of(
            b.subrange(0, 32),
        )),
        None => false,
    }
}

/// The curve-B secret a well-formed seed denotes.
pub open spec fn spec_sol_secret_of(s: Seq<char>) -> Seq<u8> {
    let b = base58_decode_of(s)->Some_0;
    if b.len() == 32 {
        b
    } else {
        b.subrange(0, 32)
    }
}

/// The curve-A address of a secret: 0x plus the hex of the last 20 bytes of
/// the Keccak-256 digest of the uncompressed public key without its leading
/// 4 byte.
pub open spec fn spec_eth_address(secret: Seq<u8>) -> Seq<char> {
    seq!['0', 'x'] + spec_hex_encode(
        keccak256_of(k256_pub_of(secret).subrange(1, 65)).subrange(12, 32),
    )
}

/// The curve-A signature field over a payload: hex of the raw ECDSA signature
/// of the payload's Keccak-256 digest.
pub open spec fn spec_eth_sig_hex(eth_secret: Seq<u8>, payload: Seq<u8>) -> Seq<char> {
    spec_hex_encode(k256_sig_of(eth_secret, keccak256_of(payload)))
}

/// The curve-B signature field over a payload: base58 of the raw ed25519
/// signature of the payload itself.
pub open spec fn spec_sol_sig_b58(sol_secret: Seq<u8>, payload: Seq<u8>) -> Seq<char> {
    base58_of(ed_sig_of(sol_secret, payload))
}

/// Two independent signing identities.
pub struct CryptoSuite {
    pub eth_secret: Vec<u8>,
    pub eth_address: String,
    pub sol_secret: Vec<u8>,
    pub sol_public: Vec<u8>,
    pub sol_pubkey_b58: String,
}

impl CryptoSuite {
    pub open spec fn wf(&self) -> bool {
        &&& self.eth_secret@.len() == 32
        &&& k256_secret_valid(self.eth_secret@)
        &&& self.eth_address@ == spec_eth_address(self.eth_secret@)
        &&& self.sol_secret@.len() == 32
        &&& self.sol_public@ == ed_pub_of(self.sol_secret@)
        &&& self.sol_public@.len() == 32
        &&& self.sol_pubkey_b58@ == base58_of(self.sol_public@)
    }

    /// Builds the two identities: from the configured seeds where given (a
    /// bad seed is a fatal configuration error), from fresh random secrets
    /// where not.
    pub fn new(config: &CryptoConfig) -> (r: Result<CryptoSuite, CryptoError>)
        ensures
            (config.eth_hex_seed is Some && !spec_eth_seed_ok(config.eth_hex_seed->Some_0@))
                ==> r is Err,
            (config.sol_bs58_seed is Some && !spec_sol_seed_ok(config.sol_bs58_seed->Some_0@))
                ==> r is Err,
            r is Ok ==> r->Ok_0.wf(),
            (r is Ok && config.eth_hex_seed is Some) ==> r->Ok_0.eth_secret@ == spec_hex_decode(
                spec_strip0x(config.eth_hex_seed->Some_0@),
            ),
            (r is Ok && config.sol_bs58_seed is Some) ==> r->Ok_0.sol_secret@
                == spec_sol_secret_of(config.sol_bs58_seed->Some_0@),
            (config.eth_hex_seed is Some && spec_eth_seed_ok(config.eth_hex_seed->Some_0@)
                && config.sol_bs58_seed is Some && spec_sol_seed_ok(
                config.sol_bs58_seed->Some_0@,
            )) ==> r is Ok,
            // curve B cannot fail without a configured seed (every 32-byte
            // secret yields an identity), so a valid curve-A seed alone is
            // enough
            (config.eth_hex_seed is Some && spec_eth_seed_ok(config.eth_hex_seed->Some_0@)
                && config.sol_bs58_seed is None) ==> r is Ok,
    {
        // curve A
        let eth_secret: Vec<u8> = match &config.eth_hex_seed {
            Some(seed) => {
                let stripped = strip_hex_prefix(seed.as_str());
                match hex_decode(stripped) {
                    Some(bytes) => {
                        if bytes.len() != 32 {
                            return Err(CryptoError::EthSeed);
                        }
                        bytes
                    },
                    None => {
                        return Err(CryptoError::EthSeed);
                    },
                }
            },
            None => crate::rng::random_bytes32(),
        };
        let eth_pub = match k256_public_uncompressed(&eth_secret) {
            Some(p) => p,
            None => {
                return Err(CryptoError::EthSeed);
            },
        };
        let pub_tail = vec_range(&eth_pub, 1, 65);
        let digest = keccak256(&pub_tail);
        let addr_tail = vec_range(&digest, 12, 32);
        let addr_hex = hex_encode(&addr_tail);
        let mut eth_address = hex_prefix_string();
        eth_address.append(addr_hex.as_str());
        // curve B
        let sol_secret: Vec<u8> = match &config.sol_bs58_seed {
            Some(seed) => {
                match bs58_decode(seed) {
                    Some(bytes) => {
                        if bytes.len() == 32 {
                            bytes
                        } else if bytes.len() == 64 {
                            let secret = vec_range(&bytes, 0, 32);
                            let given_pub = vec_range(&bytes, 32, 64);
                            let derived = ed_public_key(&secret);
                            if !bytes_eq(&derived, &given_pub) {
                                return Err(CryptoError::SolSeed);
                            }
                            proof {
                                assert(given_pub@ =~= bytes@.subrange(32, 64));
                            }
                            secret
                        } else {
                            return Err(CryptoError::SolSeed);
                        }
                    },
                    None => {
                        return Err(CryptoError::SolSeed);
                    },
                }
            },
            None => crate::rng::random_bytes32(),
        };
        let sol_public = ed_public_key(&sol_secret);
        let sol_pubkey_b58 = bs58_encode(&sol_public);
        Ok(
            CryptoSuite {
                eth_secret,
                eth_address,
                sol_secret,
                sol_public,
                sol_pubkey_b58,
            },
        )
    }

    pub fn eth_address(&self) -> (r: &String)
        ensures
            r@ == self.eth_address@,
    {
        &self.eth_address
    }

    pub fn sol_address(&self) -> (r: &String)
        ensures
            r@ == self.sol_pubkey_b58@,
    {
        &self.sol_pubkey_b58
    }

    /// Signs a payload with both identities: curve A over the payload's
    /// Keccak-256 digest, curve B over the payload itself.
    pub fn sign_bytes(&self, payload: &Vec<u8>) -> (r: SignatureBundle)
        requires
            self.wf(),
        ensures
            r.eth.address@ == self.eth_address@,
            r.eth.signature@ == spec_eth_sig_hex(self.eth_secret@, payload@),
            r.sol.pubkey@ == self.sol_pubkey_b58@,
            r.sol.signature@ == spec_sol_sig_b58(self.sol_secret@, payload@),
    {
        let digest = keccak256(payload);
        let eth_raw = match k256_sign(&self.eth_secret, &digest) {
            Some(s) => s,
            None => {
                proof {
                    assert(false);
                }
                Vec::new()
            },
        };
        let sol_raw = ed_sign(&self.sol_secret, payload);
        SignatureBundle {
            eth: EthSignature {
                address: clone_string(&self.eth_address),
                signature: hex_encode(&eth_raw),
            },
            sol: SolSignature {
                pubkey: clone_string(&self.sol_pubkey_b58),
                signature: bs58_encode(&sol_raw),
            },
        }
    }

    /// Verifies both signatures of a bundle against this node's own identity:
    /// the embedded address and pubkey must equal this suite's own, and both
    /// raw signatures must check out. A bundle this suite signed over the
    /// same payload always passes. Note the scope: the suite holds no other
    /// keys, so only envelopes signed by this node itself can ever pass;
    /// recovering the signer's key from the embedded fields would be needed
    /// to authenticate peers.
    pub fn verify(&self, payload: &Vec<u8>, sig: &SignatureBundle) -> (r: bool)
        requires
            self.wf(),
        ensures
            r == spec_bundle_accepted(
                self.eth_secret@,
                self.sol_secret@,
                self.eth_address@,
                self.sol_pubkey_b58@,
                payload@,
                sig.eth.address@,
                sig.eth.signature@,
                sig.sol.pubkey@,
                sig.sol.signature@,
            ),
            (sig.eth.address@ == self.eth_address@ && sig.eth.signature@ == spec_eth_sig_hex(
                self.eth_secret@,
                payload@,
            ) && sig.sol.pubkey@ == self.sol_pubkey_b58@ && sig.sol.signature@
                == spec_sol_sig_b58(self.sol_secret@, payload@)) ==> r,
    {
        proof {
            lemma_hex_roundtrip(k256_sig_of(self.eth_secret@, keccak256_of(payload@)));
        }
        if !string_eq(&sig.eth.address, &self.eth_address) {
            return false;
        }
        let eth_raw = match hex_decode(sig.eth.signature.as_str()) {
            Some(b) => b,
            None => {
                return false;
            },
        };
        let digest = keccak256(payload);
        if !k256_verify(&self.eth_secret, &digest, &eth_raw) {
            return false;
        }
        if !string_eq(&sig.sol.pubkey, &self.sol_pubkey_b58) {
            return false;
        }
        let sol_raw = match bs58_decode(&sig.sol.signature) {
            Some(b) => b,
            None => {
                return false;
            },
        };
        ed_verify(&self.sol_public, payload, &sol_raw)
    }
}

/// What the dual verification accepts: the embedded identity fields equal the
/// node's own, and both decoded raw signatures check out against it.
pub open spec fn spec_bundle_accepted(
    eth_secret: Seq<u8>,
    sol_secret: Seq<u8>,
    eth_address: Seq<char>,
    sol_pubkey_b58: Seq<char>,
    payload: Seq<u8>,
    sig_eth_address: Seq<char>,
    sig_eth_hex: Seq<char>,
    sig_sol_pubkey: Seq<char>,
    sig_sol_b58: Seq<char>,
) -> bool {
    &&& sig_eth_address == eth_address
    &&& spec_is_hex(sig_eth_hex)
    &&& k256_verify_ok(eth_secret, keccak256_of(payload), spec_hex_decode(sig_eth_hex))
    &&& sig_sol_pubkey == sol_pubkey_b58
    &&& base58_decode_of(sig_sol_b58) is Some
    &&& ed_verify_ok(ed_pub_of(sol_secret), payload, base58_decode_of(sig_sol_b58)->Some_0)
}

/// Drops a leading "0x" from a hex seed, if present.
fn strip_hex_prefix<'a>(s: &'a str) -> (r: &'a str)
    ensures
        r@ == spec_strip0x(s@),
{
    let n = s.unicode_len();
    if n >= 2 {
        let c0 = s.get_char(0);
        let c1 = s.get_char(1);
        if c0 == '0' && c1 == 'x' {
            let rest = s.substring_char(2, n);
            return rest;
        }
    }
    s
}

/// The string "0x" as an owned value.
pub fn hex_prefix_string() -> (r: String)
    ensures
        r@ == seq!['0', 'x'],
{
    let s = String::from_str("0x");
    proof {
        reveal_strlit("0x");
        assert(s@ =~= seq!['0', 'x']);
    }
    s
}

/// The bytes of `v` from `from` (inclusive) to `to` (exclusive).
pub fn vec_range(v: &Vec<u8>, from: usize, to: usize) -> (r: Vec<u8>)
    requires
        from <= to <= v@.len(),
    ensures
        r@ == v@.subrange(from as int, to as int),
{
    let mut out: Vec<u8> = Vec::new();
    let mut i = from;
    while i < to
        invariant
            from <= i <= to <= v@.len(),
            out@.len() == i - from,
            forall|j: int| 0 <= j < out@.len() ==> out@[j] == v@[from + j],
        decreases to - i,
    {
        out.push(v[i]);
        i = i + 1;
    }
    proof {
        assert(out@ =~= v@.subrange(from as int, to as int));
    }
    out
}

/// Compares two byte strings.
fn bytes_eq(a: &Vec<u8>, b: &Vec<u8>) -> (r: bool)
    ensures
        r == (a@ == b@),
{
    if a.len() != b.len() {
        proof {
            assert(a@ !~= b@);
        }
        return false;
    }
    let n = a.len();
    for i in 0..n
        invariant
            n == a@.len() == b@.len(),
            forall|j: int| 0 <= j < i ==> a@[j] == b@[j],
    {
        if a[i] != b[i] {
            return false;
        }
    }
    proof {
        assert(a@ =~= b@);
    }
    true
}

/// Copies a string; relies on vstd's specification of String::clone.
fn clone_string(s: &String) -> (r: String)
    ensures
        r@ == s@,
{
    s.clone()
}

/// Compares two owned strings; relies on vstd's specification of String
/// equality.
fn string_eq(a: &String, b: &String) -> (r: bool)
    ensures
        r == (a@ == b@),
{
    a.eq(b)
}

} // verus!
