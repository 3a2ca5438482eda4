use crate::text::{digit_char, digit_str, version_text};
use crate::version::Version;
use vstd::prelude::*;
use vstd::utf8::{encode_utf8, encode_utf8_decode_utf8};

verus! {

/// Length in bytes of the digest behind a cache key.
pub const DIGEST_LEN: usize = 24;

/// The unkeyed BLAKE2b digest of `data`, `len` bytes long.
pub uninterp spec fn blake2b_of(data: Seq<u8>, len: nat) -> Seq<u8>;

/// Relies on blake2b_simd::Params::hash with `hash_length(len)` and no key:
/// the digest depends on the data and the length alone, and is `len` bytes.
#[verifier::external_body]
fn blake2b(data: &[u8], len: usize) -> (r: Vec<u8>)
    requires
        1 <= len <= 64,
    ensures
        r@ == blake2b_of(data@, len as nat),
        r@.len() == len,
{
    blake2b_simd::Params::new().hash_length(len).hash(data).as_bytes().to_vec()
}

/// The eight bytes of a number, most significant first.
pub open spec fn be_bytes(n: u64) -> Seq<u8> {
    seq![
        (n >> 56u64) as u8,
        (n >> 48u64) as u8,
        (n >> 40u64) as u8,
        (n >> 32u64) as u8,
        (n >> 24u64) as u8,
        (n >> 16u64) as u8,
        (n >> 8u64) as u8,
        n as u8,
    ]
}

/// The bytes hashed for a key: the name, a zero byte, the version's
/// canonical text, a zero byte, and the salt in eight big-endian bytes.
pub open spec fn key_input(name: Seq<char>, v: Version, salt: u64) -> Seq<u8> {
    encode_utf8(name) + seq![0u8] + encode_utf8(version_text(v)) + seq![0u8] + be_bytes(salt)
}

/// Two lower-case hexadecimal digits per byte.
pub open spec fn hex(bytes: Seq<u8>) -> Seq<char>
    decreases bytes.len(),
{
    if bytes.len() == 0 {
        Seq::empty()
    } else {
        hex(bytes.drop_last()).push(digit_char(bytes.last() as nat / 16)).push(
            digit_char(bytes.last() as nat % 16),
        )
    }
}

proof fn lemma_hex_len(bytes: Seq<u8>)
    ensures
        hex(bytes).len() == 2 * bytes.len(),
    decreases bytes.len(),
{
    if bytes.len() > 0 {
        lemma_hex_len(bytes.drop_last());
    }
}

/// The cache key of a name, a version and a salt.
pub open spec fn derived_key(name: Seq<char>, v: Version, salt: u64) -> Seq<char> {
    "blake2b24:"@ + hex(blake2b_of(key_input(name, v, salt), DIGEST_LEN as nat))
}

fn push_bytes(out: &mut Vec<u8>, b: &[u8])
    ensures
        final(out)@ == old(out)@ + b@,
{
    let mut i: usize = 0;
    while i < b.len()
        invariant
            i <= b@.len(),
            out@ == old(out)@ + b@.take(i as int),
        decreases b@.len() - i,
    {
        assert(b@.take(i + 1) =~= b@.take(i as int).push(b@[i as int]));
        out.push(b[i]);
        i = i + 1;
    }
    assert(b@.take(i as int) =~= b@);
}

fn push_hex(out: &mut String, bytes: &Vec<u8>)
    ensures
        final(out)@ == old(out)@ + hex(bytes@),
{
    let mut i: usize = 0;
    while i < bytes.len()
        invariant
            i <= bytes@.len(),
            out@ == old(out)@ + hex(bytes@.take(i as int)),
        decreases bytes@.len() - i,
    {
        let b = bytes[i];
        assert(bytes@.take(i + 1).drop_last() =~= bytes@.take(i as int));
        out.append(digit_str((b / 16) as u64));
        out.append(digit_str((b % 16) as u64));
        i = i + 1;
    }
    assert(bytes@.take(i as int) =~= bytes@);
}

/// The bytes that are hashed for the key of a name, a version and a salt.
pub fn key_bytes(name: &str, version: &Version, salt: u64) -> (r: Vec<u8>)
    ensures
        r@ == key_input(name@, *version, salt),
{
    let mut out: Vec<u8> = Vec::new();
    push_bytes(&mut out, name.as_bytes());
    out.push(0u8);
    let text = version.to_text();
    push_bytes(&mut out, text.as_str().as_bytes());
    out.push(0u8);
    out.push((salt >> 56u64) as u8);
    out.push((salt >> 48u64) as u8);
    out.push((salt >> 40u64) as u8);
    out.push((salt >> 32u64) as u8);
    out.push((salt >> 24u64) as u8);
    out.push((salt >> 16u64) as u8);
    out.push((salt >> 8u64) as u8);
    out.push(salt as u8);
    assert(out@ =~= key_input(name@, *version, salt));
    out
}

/// The cache key of a name, a version and a salt: `blake2b24:` and the
/// 24-byte digest of the key bytes in lower-case hexadecimal.
pub fn derive_key(name: &str, version: &Version, salt: u64) -> (r: String)
    ensures
        r@ == derived_key(name@, *version, salt),
        r@.len() == 10 + 2 * DIGEST_LEN,
{
    let digest = blake2b(key_bytes(name, version, salt).as_slice(), DIGEST_LEN);
    let mut out = String::from_str("blake2b24:");
    proof {
        reveal_strlit("blake2b24:");
        lemma_hex_len(digest@);
    }
    push_hex(&mut out, &digest);
    out
}

/// The key depends on the name, the version's canonical text and the salt
/// alone: the same triple always gives the same key.
pub proof fn lemma_key_deterministic(name: Seq<char>, v1: Version, v2: Version, salt: u64)
    requires
        version_text(v1) == version_text(v2),
    ensures
        derived_key(name, v1, salt) == derived_key(name, v2, salt),
{
    assert(key_input(name, v1, salt) == key_input(name, v2, salt));
}

proof fn lemma_be_bytes_injective(a: u64, b: u64)
    requires
        be_bytes(a) == be_bytes(b),
    ensures
        a == b,
{
    assert(be_bytes(a)[0] == be_bytes(b)[0]);
    assert(be_bytes(a)[1] == be_bytes(b)[1]);
    assert(be_bytes(a)[2] == be_bytes(b)[2]);
    assert(be_bytes(a)[3] == be_bytes(b)[3]);
    assert(be_bytes(a)[4] == be_bytes(b)[4]);
    assert(be_bytes(a)[5] == be_bytes(b)[5]);
    assert(be_bytes(a)[6] == be_bytes(b)[6]);
    assert(be_bytes(a)[7] == be_bytes(b)[7]);
    assert(((a >> 56u64) as u8 == (b >> 56u64) as u8 && (a >> 48u64) as u8 == (b >> 48u64) as u8
        && (a >> 40u64) as u8 == (b >> 40u64) as u8 && (a >> 32u64) as u8 == (b >> 32u64) as u8
        && (a >> 24u64) as u8 == (b >> 24u64) as u8 && (a >> 16u64) as u8 == (b >> 16u64) as u8
        && (a >> 8u64) as u8 == (b >> 8u64) as u8 && a as u8 == b as u8) ==> a == b)
        by (bit_vector);
}

/// Distinct salts give distinct bytes to hash, for any name and version.
pub proof fn lemma_salt_changes_key_input(name: Seq<char>, v: Version, salt1: u64, salt2: u64)
    requires
        salt1 != salt2,
    ensures
        key_input(name, v, salt1) != key_input(name, v, salt2),
{
    let a = key_input(name, v, salt1);
    let b = key_input(name, v, salt2);
    let p: int = a.len() - 8;
    if a == b {
        assert(a.subrange(p, a.len() as int) =~= be_bytes(salt1));
        assert(b.subrange(p, b.len() as int) =~= be_bytes(salt2));
        lemma_be_bytes_injective(salt1, salt2);
    }
}

/// Versions with distinct canonical texts give distinct bytes to hash, for
/// any name and salt.
pub proof fn lemma_version_changes_key_input(name: Seq<char>, v1: Version, v2: Version, salt: u64)
    requires
        version_text(v1) != version_text(v2),
    ensures
        key_input(name, v1, salt) != key_input(name, v2, salt),
{
    let a = key_input(name, v1, salt);
    let b = key_input(name, v2, salt);
    let t1 = encode_utf8(version_text(v1));
    let t2 = encode_utf8(version_text(v2));
    let p: int = encode_utf8(name).len() as int + 1;
    encode_utf8_decode_utf8(version_text(v1));
    encode_utf8_decode_utf8(version_text(v2));
    assert(t1 != t2);
    assert(be_bytes(salt).len() == 8);
    assert(a.len() == p + t1.len() + 9);
    assert(b.len() == p + t2.len() + 9);
    if a == b {
        assert(t1.len() == t2.len());
        assert(a.subrange(p, p + t1.len() as int) =~= t1);
        assert(b.subrange(p, p + t2.len() as int) =~= t2);
    }
}

} // verus!
