//! The package-signing key: the single fixed PKCS#8 encoding of an Ed25519
//! seed that the key tool writes, checked against the signer's public key.
//! Reading and decrypting the protected key file is the platform's work.

use vstd::prelude::*;

use crate::profile_resolver::{hex_value, hex_value_exec};

use ed25519_dalek::SigningKey;
use zeroize::Zeroize;

verus! {

#[verifier::external_type_specification]
#[verifier::external_body]
pub struct ExSigningKey(ed25519_dalek::SigningKey);

/// The public key that Ed25519 derives from a 32-byte secret seed
/// (RFC 8032, section 5.1.5).
pub uninterp spec fn ed25519_public_key(seed: Seq<u8>) -> Seq<u8>;

/// An Ed25519 signing key together with the seed it was built from. Only
/// `from_seed`, which builds the key from that seed, makes one.
pub struct SignerKey {
    key: SigningKey,
    seed: Ghost<Seq<u8>>,
}

impl SignerKey {
    /// The 32-byte secret seed the key was built from.
    pub closed spec fn seed(&self) -> Seq<u8> {
        self.seed@
    }

    /// Calls `SigningKey::from_bytes` on `seed` and `SigningKey::verifying_key`
    /// on the result: the key, which records `seed` as the seed it was
    /// built from, and the bytes of its public key, named by
    /// `ed25519_public_key`.
    #[verifier::external_body]
    fn from_seed(seed: &[u8; 32]) -> (r: (SignerKey, [u8; 32]))
        ensures
            r.0.seed() == seed@,
            r.1@ == ed25519_public_key(seed@),
    {
        let key = SigningKey::from_bytes(seed);
        let public = key.verifying_key().to_bytes();
        (SignerKey { key, seed: Ghost(seed@) }, public)
    }

    /// The secret seed of the key.
    pub fn to_bytes(&self) -> (r: [u8; 32])
        ensures
            r@ == self.seed(),
    {
        secret_bytes(self)
    }

    /// The key itself, for signing.
    pub fn signing_key(&self) -> &SigningKey {
        &self.key
    }
}

/// Calls `SigningKey::to_bytes`, which returns the secret seed that
/// `SigningKey::from_bytes` stored. Every `SignerKey` comes from
/// `from_seed`, which builds the key from the seed it records.
#[verifier::external_body]
fn secret_bytes(k: &SignerKey) -> (r: [u8; 32])
    ensures
        r@ == k.seed(),
{
    k.key.to_bytes()
}

/// Calls `Zeroize::zeroize` on a 32-byte array, which overwrites every byte
/// with zero.
#[verifier::external_body]
fn wipe(bytes: &mut [u8; 32])
    ensures
        final(bytes)@ == Seq::new(32, |i: int| 0u8),
{
    bytes.zeroize();
}

/// The fixed PKCS#8 header of an Ed25519 private key: a version 0
/// `PrivateKeyInfo` with the Ed25519 algorithm identifier and a 32-byte
/// octet string.
pub open spec fn key_header() -> Seq<u8> {
    seq![0x30u8, 0x2e, 0x02, 0x01, 0x00, 0x30, 0x05, 0x06, 0x03, 0x2b, 0x65, 0x70, 0x04, 0x22, 0x04, 0x20]
}

/// Whether `der` is exactly the header followed by a 32-byte seed.
pub open spec fn key_encoding_ok(der: Seq<u8>) -> bool {
    der.len() == 48 && der.take(16) == key_header()
}

/// Decode the private key of the signer with public key `public`: only the
/// exact 48-byte encoding is accepted, and the seed must derive `public`.
pub fn decode_key(der: &[u8], public: &[u8; 32]) -> (r: Result<SignerKey, &'static str>)
    ensures
        match r {
            Ok(k) => key_encoding_ok(der@) && ed25519_public_key(der@.skip(16)) == public@ && k.seed() == der@.skip(16),
            Err(e) => if !key_encoding_ok(der@) {
                e@ == "private key encoding"@
            } else {
                ed25519_public_key(der@.skip(16)) != public@ && e@ == "private key identity"@
            },
        },
{
    let header: [u8; 16] = [0x30, 0x2e, 0x02, 0x01, 0x00, 0x30, 0x05, 0x06, 0x03, 0x2b, 0x65, 0x70, 0x04, 0x22, 0x04, 0x20];
    assert(header@ =~= key_header());
    if der.len() != 48 {
        return Err("private key encoding");
    }
    let mut i: usize = 0;
    while i < 16
        invariant
            i <= 16,
            der@.len() == 48,
            header@ == key_header(),
            forall|k: int| 0 <= k < i ==> der@[k] == header@[k],
        decreases 16 - i,
    {
        if der[i] != header[i] {
            assert(der@.take(16)[i as int] != key_header()[i as int]);
            return Err("private key encoding");
        }
        i = i + 1;
    }
    assert(der@.take(16) =~= key_header());
    let mut seed: [u8; 32] = [0u8; 32];
    let mut j: usize = 0;
    while j < 32
        invariant
            j <= 32,
            der@.len() == 48,
            seed@.len() == 32,
            forall|k: int| 0 <= k < j ==> seed@[k] == der@[16 + k],
        decreases 32 - j,
    {
        seed[j] = der[16 + j];
        j = j + 1;
    }
    assert(seed@ =~= der@.skip(16));
    let (key, derived) = SignerKey::from_seed(&seed);
    wipe(&mut seed);
    let mut k: usize = 0;
    while k < 32
        invariant
            k <= 32,
            derived@.len() == 32,
            public@.len() == 32,
            key_encoding_ok(der@),
            derived@ == ed25519_public_key(der@.skip(16)),
            forall|m: int| 0 <= m < k ==> derived@[m] == public@[m],
        decreases 32 - k,
    {
        if derived[k] != public[k] {
            assert(derived@[k as int] != public@[k as int]);
            return Err("private key identity");
        }
        k = k + 1;
    }
    assert(derived@ =~= public@);
    Ok(key)
}

/// The purpose string that versions the protection of key files.
pub open spec fn entropy_purpose() -> Seq<char> {
    "AutoKeyboardLayot.package-signing.dpapi.v1"@
}

fn append_bytes(out: &mut Vec<u8>, bytes: &[u8])
    ensures
        final(out)@ == old(out)@ + bytes@,
{
    let ghost head = out@;
    let mut i: usize = 0;
    while i < bytes.len()
        invariant
            i <= bytes@.len(),
            out@ == head + bytes@.take(i as int),
        decreases bytes.len() - i,
    {
        out.push(bytes[i]);
        assert(bytes@.take(i + 1) =~= bytes@.take(i as int).push(bytes@[i as int]));
        i = i + 1;
    }
    assert(bytes@.take(bytes@.len() as int) =~= bytes@);
}

/// The entropy that binds a protected key file to its signer and public
/// key: the UTF-8 of the purpose string, the signer and the public key in
/// hexadecimal, separated by zero bytes.
pub fn key_entropy(signer: &str, public_hex: &str) -> (r: Vec<u8>)
    ensures
        r@ == vstd::utf8::encode_utf8(entropy_purpose()) + seq![0u8] + vstd::utf8::encode_utf8(signer@) + seq![0u8]
            + vstd::utf8::encode_utf8(public_hex@),
{
    let purpose = "AutoKeyboardLayot.package-signing.dpapi.v1";
    let mut out: Vec<u8> = Vec::new();
    append_bytes(&mut out, purpose.as_bytes());
    out.push(0);
    append_bytes(&mut out, signer.as_bytes());
    out.push(0);
    append_bytes(&mut out, public_hex.as_bytes());
    out
}

/// What a signing run signs.
#[derive(Debug, Clone, Copy, PartialEq, Eq, Structural)]
pub enum SigningInputKind {
    Package,
    Catalog,
}

/// The kind named by the first argument of a signing run and the largest
/// input it accepts: 64 MiB for a package, 1 MiB for a catalog.
pub fn signing_input_kind(argument: &str) -> (r: Option<(SigningInputKind, usize)>)
    ensures
        r == (if argument@ == "package"@ {
            Some((SigningInputKind::Package, 0x400_0000usize))
        } else if argument@ == "catalog"@ {
            Some((SigningInputKind::Catalog, 0x10_0000usize))
        } else {
            None
        }),
{
    let a = crate::text::chars_of(argument);
    let package = crate::text::chars_of("package");
    let catalog = crate::text::chars_of("catalog");
    if crate::text::chars_equal(&a, &package) {
        Some((SigningInputKind::Package, 0x400_0000))
    } else if crate::text::chars_equal(&a, &catalog) {
        Some((SigningInputKind::Catalog, 0x10_0000))
    } else {
        None
    }
}

/// The byte that two characters spell as `u8::from_str_radix(_, 16)` reads
/// them: two hexadecimal digits, or a plus sign and one digit.
pub open spec fn hex_pair(a: char, b: char) -> Option<u8> {
    match (hex_value(a), hex_value(b)) {
        (Some(x), Some(y)) => Some((x * 16 + y) as u8),
        (None, Some(y)) => if a == '+' {
            Some(y as u8)
        } else {
            None
        },
        _ => None,
    }
}

/// Whether `hex` spells a public key: 64 ASCII characters read in pairs.
pub open spec fn public_key_hex_ok(hex: Seq<char>) -> bool {
    hex.len() == 64 && forall|i: int| 0 <= i < 32 ==> #[trigger] hex_pair(hex[2 * i], hex[2 * i + 1]) is Some
}

/// Read the signer's public key from its hexadecimal form.
pub fn decode_public_key_hex(hex: &str) -> (r: Result<[u8; 32], &'static str>)
    ensures
        match r {
            Ok(key) => public_key_hex_ok(hex@) && forall|i: int| 0 <= i < 32 ==> Some(#[trigger] key@[i]) == hex_pair(hex@[2 * i], hex@[2 * i + 1]),
            Err(e) => !public_key_hex_ok(hex@) && e@ == "public key"@,
        },
{
    let cs = crate::text::chars_of(hex);
    if cs.len() != 64 {
        return Err("public key");
    }
    let mut key: [u8; 32] = [0u8; 32];
    let mut i: usize = 0;
    while i < 32
        invariant
            i <= 32,
            cs@ == hex@,
            cs@.len() == 64,
            key@.len() == 32,
            forall|k: int| 0 <= k < i ==> Some(#[trigger] key@[k]) == hex_pair(cs@[2 * k], cs@[2 * k + 1]),
        decreases 32 - i,
    {
        let a = cs[2 * i];
        let b = cs[2 * i + 1];
        let low = match hex_value_exec(b) {
            Some(v) => v,
            None => {
                assert(hex_pair(cs@[2 * i as int], cs@[2 * i + 1]) is None);
                return Err("public key");
            },
        };
        let value: u32 = match hex_value_exec(a) {
            Some(high) => high * 16 + low,
            None => {
                if a == '+' {
                    low
                } else {
                    assert(hex_pair(cs@[2 * i as int], cs@[2 * i + 1]) is None);
                    return Err("public key");
                }
            },
        };
        key[i] = value as u8;
        i = i + 1;
    }
    assert forall|k: int| 0 <= k < 32 implies #[trigger] hex_pair(hex@[2 * k], hex@[2 * k + 1]) is Some by {
        assert(Some(key@[k]) == hex_pair(cs@[2 * k], cs@[2 * k + 1]));
    }
    Ok(key)
}

} // verus!
