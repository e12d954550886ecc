//! Content signing: a persistent Ed25519 keypair signs archive digests.
//!
//! The key file holds either a 32-byte seed or a 64-byte seed-and-public
//! encoding; both are accepted.  Signing is deterministic, so a signature
//! is a function of the key bytes and the message alone.

use vstd::prelude::*;
use base64::Engine;
use ed25519_dalek::Signer as DalekSigner;

verus! {

/// The digest SHA-256 computes for the data; a function of the data alone.
pub uninterp spec fn sha256_of(data: Seq<u8>) -> Seq<u8>;

/// Relies on sha2's Sha256: the digest is a function of the input bytes
/// alone, and is 32 bytes long.
#[verifier::external_body]
pub fn sha256(data: &Vec<u8>) -> (r: Vec<u8>)
    ensures
        r@ == sha256_of(data@),
        r@.len() == 32,
{
    let mut hasher = <sha2::Sha256 as sha2::Digest>::new();
    sha2::Digest::update(&mut hasher, data.as_slice());
    sha2::Digest::finalize(hasher).to_vec()
}

pub open spec fn hex_digit(d: nat) -> char {
    if d == 0 {
        '0'
    } else if d == 1 {
        '1'
    } else if d == 2 {
        '2'
    } else if d == 3 {
        '3'
    } else if d == 4 {
        '4'
    } else if d == 5 {
        '5'
    } else if d == 6 {
        '6'
    } else if d == 7 {
        '7'
    } else if d == 8 {
        '8'
    } else if d == 9 {
        '9'
    } else if d == 10 {
        'a'
    } else if d == 11 {
        'b'
    } else if d == 12 {
        'c'
    } else if d == 13 {
        'd'
    } else if d == 14 {
        'e'
    } else {
        'f'
    }
}

/// Lowercase hexadecimal encoding: two digits per byte, high nibble first.
pub open spec fn hex_of(b: Seq<u8>) -> Seq<char>
    decreases b.len(),
{
    if b.len() == 0 {
        Seq::empty()
    } else {
        seq![hex_digit((b[0] / 16) as nat), hex_digit((b[0] % 16) as nat)] + hex_of(b.drop_first())
    }
}

/// Relies on hex::encode: lowercase hexadecimal, two digits per byte, high
/// nibble first.
#[verifier::external_body]
pub fn hex_encode(b: &Vec<u8>) -> (r: String)
    ensures
        r@ == hex_of(b@),
{
    hex::encode(b.as_slice())
}

/// The text base64 produces for the bytes; a function of the bytes alone.
pub uninterp spec fn b64_of(b: Seq<u8>) -> Seq<char>;

/// Relies on base64's standard padded engine: the encoding is a function
/// of the input bytes alone, four characters for every started group of
/// three bytes.
#[verifier::external_body]
pub fn b64_encode(b: &Vec<u8>) -> (r: String)
    ensures
        r@ == b64_of(b@),
        r@.len() == 4 * ((b@.len() + 2) / 3),
{
    base64::engine::general_purpose::STANDARD.encode(b.as_slice())
}

/// The detached signature ed25519-dalek produces for the keypair these
/// bytes encode (a 32-byte seed or a 64-byte seed-and-public encoding)
/// over the message; deterministic, so a function of both alone.
pub uninterp spec fn ed25519_sig_of(key_bytes: Seq<u8>, msg: Seq<u8>) -> Seq<u8>;

/// The public key belonging to an encoding of a key; 32 bytes.
pub uninterp spec fn ed25519_pub_of(key_bytes: Seq<u8>) -> Seq<u8>;

/// Whether 32 bytes decode as a curve point, so that dalek accepts them as
/// the public half of a keypair encoding; a function of the bytes alone.
pub uninterp spec fn ed25519_valid_public(bytes: Seq<u8>) -> bool;

/// Relies on getrandom: fills a buffer from the operating system's
/// entropy source; nothing holds of the bytes but their count.
#[verifier::external_body]
pub fn random_bytes(n: usize) -> (r: Result<Vec<u8>, String>)
    ensures
        r matches Ok(b) ==> b@.len() == n,
{
    let mut buf = vec![0u8; n];
    match getrandom::getrandom(&mut buf) {
        Ok(()) => Ok(buf),
        Err(e) => Err(format!("Random failed: {}", e)),
    }
}

/// Relies on ed25519-dalek's SecretKey::from_bytes, PublicKey::From and
/// Keypair::to_bytes: a 32-byte seed yields the 64-byte seed-and-public
/// encoding, and fails exactly when the seed is not 32 bytes.
#[verifier::external_body]
pub fn keypair_bytes_from_seed(seed: &Vec<u8>) -> (r: Result<Vec<u8>, String>)
    ensures
        match r {
            Ok(kb) => seed@.len() == 32 && kb@.len() == 64 && kb@ == seed@ + ed25519_pub_of(seed@)
                && ed25519_pub_of(seed@).len() == 32 && ed25519_valid_public(
                kb@.subrange(32, 64),
            ),
            Err(_) => seed@.len() != 32,
        },
{
    let sk = match ed25519_dalek::SecretKey::from_bytes(seed.as_slice()) {
        Ok(sk) => sk,
        Err(e) => {
            return Err(format!("SK derive failed: {}", e));
        },
    };
    let public = ed25519_dalek::PublicKey::from(&sk);
    let kp = ed25519_dalek::Keypair { secret: sk, public };
    Ok(kp.to_bytes().to_vec())
}

/// Relies on ed25519-dalek's SecretKey::from_bytes, PublicKey::From and
/// Signer::sign: signing with a 32-byte seed always succeeds and is
/// deterministic; it fails exactly when the seed is not 32 bytes.
#[verifier::external_body]
fn dalek_sign_seed(seed: &Vec<u8>, msg: &Vec<u8>) -> (r: Result<(Vec<u8>, Vec<u8>), String>)
    ensures
        match r {
            Ok(sp) => seed@.len() == 32 && sp.0@ == ed25519_sig_of(seed@, msg@) && sp.0@.len() == 64
                && sp.1@ == ed25519_pub_of(seed@) && sp.1@.len() == 32 && ed25519_valid_public(
                sp.1@,
            ),
            Err(_) => seed@.len() != 32,
        },
{
    let sk = match ed25519_dalek::SecretKey::from_bytes(seed.as_slice()) {
        Ok(sk) => sk,
        Err(e) => {
            return Err(format!("Invalid secret: {}", e));
        },
    };
    let public = ed25519_dalek::PublicKey::from(&sk);
    let kp = ed25519_dalek::Keypair { secret: sk, public };
    let sig = kp.sign(msg.as_slice());
    Ok((sig.to_bytes().to_vec(), kp.public.to_bytes().to_vec()))
}

/// Relies on ed25519-dalek's Keypair::from_bytes and Signer::sign: the
/// call is accepted exactly for a 64-byte encoding whose public half
/// decodes as a point, and an encoding dalek itself produced for a seed
/// always does, since dalek decompresses the points it compressed.  The
/// public key handed back is the stored half, and the signature uses only
/// the seed half, so both on-disk encodings of one seed sign identically.
#[verifier::external_body]
fn dalek_sign_keypair(kb: &Vec<u8>, msg: &Vec<u8>) -> (r: Result<(Vec<u8>, Vec<u8>), String>)
    ensures
        match r {
            Ok(sp) => kb@.len() == 64 && ed25519_valid_public(kb@.subrange(32, 64)) && sp.0@
                == ed25519_sig_of(kb@, msg@) && sp.0@.len() == 64 && sp.1@ == ed25519_pub_of(kb@)
                && sp.1@.len() == 32 && sp.1@ == kb@.subrange(32, 64) && (forall|s: Seq<u8>|
                s.len() == 32 && kb@ == s + ed25519_pub_of(s) ==> sp.0@ == ed25519_sig_of(
                    s,
                    msg@,
                )),
            Err(_) => !(kb@.len() == 64 && ed25519_valid_public(kb@.subrange(32, 64))) && !(
            exists|s: Seq<u8>| s.len() == 32 && kb@ == s + ed25519_pub_of(s)),
        },
{
    let kp = match ed25519_dalek::Keypair::from_bytes(kb.as_slice()) {
        Ok(kp) => kp,
        Err(e) => {
            return Err(format!("Invalid keypair: {}", e));
        },
    };
    let sig = kp.sign(msg.as_slice());
    Ok((sig.to_bytes().to_vec(), kp.public.to_bytes().to_vec()))
}

/// The fixed per-user location of the signing key under a home directory.
pub fn key_path(home: &str) -> (r: String)
    ensures
        r@ == home@ + "/.devalang/keys/ed25519.key"@,
{
    let mut p = String::from_str(home);
    p.append("/.devalang/keys/ed25519.key");
    p
}

/// Creates a fresh keypair encoding from a random 32-byte seed.
pub fn generate_keypair_bytes() -> (r: Result<Vec<u8>, String>)
    ensures
        match r {
            Ok(kb) => kb@.len() == 64 && (exists|s: Seq<u8>|
                s.len() == 32 && kb@ == s + ed25519_pub_of(s)),
            Err(_) => true,
        },
{
    let seed = match random_bytes(32) {
        Ok(s) => s,
        Err(e) => {
            return Err(e);
        },
    };
    match keypair_bytes_from_seed(&seed) {
        Ok(kb) => {
            proof {
                assert(seed@.len() == 32 && kb@ == seed@ + ed25519_pub_of(seed@));
            }
            Ok(kb)
        },
        Err(e) => Err(e),
    }
}

/// Whether stored key bytes sign successfully: a 32-byte seed, or a
/// 64-byte encoding whose public half decodes — as the half of an
/// encoding dalek produced itself always does.
pub open spec fn signable_key_encoding(kb: Seq<u8>) -> bool {
    kb.len() == 32 || (kb.len() == 64 && (ed25519_valid_public(kb.subrange(32, 64)) || (
    exists|s: Seq<u8>| s.len() == 32 && kb == s + ed25519_pub_of(s))))
}

/// Signs a message with the stored key bytes, accepting both on-disk
/// encodings, and returns the signature and public key in base64.  Both
/// encodings of one seed yield the same signature and public key, and
/// success is decided by the key bytes alone.
pub fn sign_bytes(key_bytes: &Vec<u8>, msg: &Vec<u8>) -> (r: Result<(String, String), String>)
    ensures
        r is Ok <==> signable_key_encoding(key_bytes@),
        match r {
            Ok(sp) => (key_bytes@.len() == 64 || key_bytes@.len() == 32) && sp.0@ == b64_of(
                ed25519_sig_of(key_bytes@, msg@),
            ) && sp.0@.len() == 88 && sp.1@ == b64_of(ed25519_pub_of(key_bytes@)) && sp.1@.len()
                == 44 && (forall|s: Seq<u8>|
                s.len() == 32 && key_bytes@ == s + ed25519_pub_of(s) ==> sp.0@ == b64_of(
                    ed25519_sig_of(s, msg@),
                ) && sp.1@ == b64_of(ed25519_pub_of(s))),
            Err(e) => (key_bytes@.len() == 64 && !ed25519_valid_public(
                key_bytes@.subrange(32, 64),
            ) && !(exists|s: Seq<u8>| s.len() == 32 && key_bytes@ == s + ed25519_pub_of(s))) || (
            key_bytes@.len() != 64 && key_bytes@.len() != 32 && e@ == "Unsupported key length"@),
        },
{
    if key_bytes.len() == 64 {
        match dalek_sign_keypair(key_bytes, msg) {
            Ok((sig, pk)) => {
                let sig_b64 = b64_encode(&sig);
                let pub_b64 = b64_encode(&pk);
                proof {
                    assert forall|s: Seq<u8>|
                        s.len() == 32 && key_bytes@ == s + ed25519_pub_of(s) implies sig_b64@
                        == b64_of(ed25519_sig_of(s, msg@)) && pub_b64@ == b64_of(
                        ed25519_pub_of(s),
                    ) by {
                        assert(key_bytes@.subrange(32, 64) =~= ed25519_pub_of(s));
                    }
                }
                Ok((sig_b64, pub_b64))
            },
            Err(e) => Err(e),
        }
    } else if key_bytes.len() == 32 {
        match dalek_sign_seed(key_bytes, msg) {
            Ok((sig, pk)) => {
                let sig_b64 = b64_encode(&sig);
                let pub_b64 = b64_encode(&pk);
                proof {
                    assert forall|s: Seq<u8>|
                        s.len() == 32 && key_bytes@ == s + ed25519_pub_of(s) implies sig_b64@
                        == b64_of(ed25519_sig_of(s, msg@)) && pub_b64@ == b64_of(
                        ed25519_pub_of(s),
                    ) by {
                        // a 32-byte encoding cannot also carry a 32-byte public half
                        assert(ed25519_pub_of(s).len() == 0);
                        assert(s =~= key_bytes@);
                        assert(ed25519_pub_of(key_bytes@).len() == 32);
                    }
                }
                Ok((sig_b64, pub_b64))
            },
            Err(e) => Err(e),
        }
    } else {
        Err(String::from_str("Unsupported key length"))
    }
}

/// Whether key bytes are one of the two accepted on-disk encodings: a
/// 32-byte seed, or a 64-byte encoding of a seed and the public key dalek
/// derives for it.
pub open spec fn valid_key_encoding(kb: Seq<u8>) -> bool {
    kb.len() == 32 || (kb.len() == 64 && exists|s: Seq<u8>|
        s.len() == 32 && kb == s + ed25519_pub_of(s))
}

/// Signs both archive digests with the same stored key.  Without a key
/// all three results are absent: signing is optional, and a caller that
/// requires it checks presence itself.  With a well-formed key both
/// signatures and the public key are present and non-empty, and presence
/// is decided by the key bytes alone, so repeated calls agree.
pub fn sign_two_shas(key_bytes: &Option<Vec<u8>>, sha_raw: &Vec<u8>, sha_gz: &Vec<u8>) -> (r:
    Result<(Option<String>, Option<String>, Option<String>), String>)
    ensures
        r is Ok,
        ({
            let t = r->Ok_0;
            match key_bytes {
                None => t == (
                    None::<String>,
                    None::<String>,
                    None::<String>,
                ),
                Some(kb) => {
                    &&& (t.0 is Some <==> signable_key_encoding(kb@))
                    &&& (t.1 is Some <==> signable_key_encoding(kb@))
                    &&& (t.2 is Some <==> signable_key_encoding(kb@))
                    &&& (valid_key_encoding(kb@) ==> t.0 is Some && t.1 is Some && t.2 is Some)
                    &&& (t.0 matches Some(s) ==> s@ == b64_of(ed25519_sig_of(kb@, sha_raw@))
                        && s@.len() == 88)
                    &&& (t.1 matches Some(s) ==> s@ == b64_of(ed25519_sig_of(kb@, sha_gz@))
                        && s@.len() == 88)
                    &&& (t.2 matches Some(p) ==> p@ == b64_of(ed25519_pub_of(kb@)) && p@.len()
                        == 44)
                },
            }
        }),
{
    match key_bytes {
        None => Ok((None, None, None)),
        Some(kb) => {
            let mut sig_raw: Option<String> = None;
            let mut sig_gz: Option<String> = None;
            let mut pub_b64: Option<String> = None;
            match sign_bytes(kb, sha_raw) {
                Ok((s, p)) => {
                    sig_raw = Some(s);
                    pub_b64 = Some(p);
                },
                Err(_) => {},
            }
            match sign_bytes(kb, sha_gz) {
                Ok((s, p)) => {
                    sig_gz = Some(s);
                    if pub_b64.is_none() {
                        pub_b64 = Some(p);
                    }
                },
                Err(_) => {},
            }
            proof {
                if valid_key_encoding(kb@) {
                    assert(sig_raw is Some && sig_gz is Some && pub_b64 is Some);
                }
            }
            Ok((sig_raw, sig_gz, pub_b64))
        },
    }
}

} // verus!
