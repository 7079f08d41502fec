//! Hashes of contents.

use vstd::prelude::*;
use xxhash_rust::xxh3::Xxh3Default;

use crate::text::{
    hex_limit, hex_text, hex_text_injective, hex_text_len, hex_value,
    hexadecimal_digits_stand_for_the_number, push_hex,
};

verus! {

/// The 128-bit XXH3 hash of bytes.
pub uninterp spec fn xxh3_128_of(data: Seq<u8>) -> u128;

/// `xxhash_rust::xxh3::xxh3_128`: the 128-bit XXH3 hash of the bytes, which goes by the name
/// `xxh3_128_of`.
#[verifier::external_body]
fn digest_of(data: &[u8]) -> (h: u128)
    ensures
        h == xxh3_128_of(data@),
{
    xxhash_rust::xxh3::xxh3_128(data)
}

/// A hash as contents are known by: 32 hexadecimal digits.
pub open spec fn hash_text(data: Seq<u8>) -> Seq<char> {
    hex_text(xxh3_128_of(data) as nat, 32)
}

/// A digest in 32 hexadecimal digits.
pub fn digest_text(digest: u128) -> (s: String)
    ensures
        s@ == hex_text(digest as nat, 32),
{
    let mut s = String::new();
    push_hex(&mut s, digest, 32);
    assert(s@ =~= hex_text(digest as nat, 32));
    s
}

/// The hash of contents that are at hand as a whole.
pub fn hash_data(data: &[u8]) -> (s: String)
    ensures
        s@ == hash_text(data@),
{
    digest_text(digest_of(data))
}

/// `xxhash_rust::xxh3::Xxh3Default`, an XXH3 hash that takes its bytes piece by piece.
#[verifier::external_type_specification]
#[verifier::external_body]
pub struct ExXxh3Default(Xxh3Default);

/// The bytes that a streaming hash has taken so far.
pub uninterp spec fn taken_bytes(h: Xxh3Default) -> Seq<u8>;

/// `Xxh3Default::new`: the new hash has taken no bytes.
#[verifier::external_body]
fn new_stream() -> (h: Xxh3Default)
    ensures
        taken_bytes(h) == Seq::<u8>::empty(),
{
    Xxh3Default::new()
}

/// `Xxh3Default::update`: the hash takes the bytes behind those that it took before. Its count
/// of bytes has 64 bits.
#[verifier::external_body]
fn update_stream(h: &mut Xxh3Default, data: &[u8])
    requires
        taken_bytes(*old(h)).len() + data@.len() <= u64::MAX,
    ensures
        taken_bytes(*final(h)) == taken_bytes(*old(h)) + data@,
{
    h.update(data);
}

/// `Xxh3Default::digest128`: the hash of the bytes taken so far, the same as that of all of
/// them at once.
#[verifier::external_body]
fn stream_digest(h: &Xxh3Default) -> (d: u128)
    ensures
        d == xxh3_128_of(taken_bytes(*h)),
{
    h.digest128()
}

/// The hash of contents that come piece by piece.
pub struct StreamHasher {
    inner: Xxh3Default,
}

impl View for StreamHasher {
    type V = Seq<u8>;

    /// The bytes taken so far.
    closed spec fn view(&self) -> Seq<u8> {
        taken_bytes(self.inner)
    }
}

impl StreamHasher {
    /// A hash of nothing yet.
    pub fn new() -> (r: StreamHasher)
        ensures
            r@ == Seq::<u8>::empty(),
    {
        StreamHasher { inner: new_stream() }
    }

    /// Take one more piece.
    pub fn update(&mut self, data: &[u8])
        requires
            old(self)@.len() + data@.len() <= u64::MAX,
        ensures
            final(self)@ == old(self)@ + data@,
    {
        update_stream(&mut self.inner, data);
    }

    /// The hash of all pieces together.
    pub fn finish(&self) -> (s: String)
        ensures
            s@ == hash_text(self@),
    {
        digest_text(stream_digest(&self.inner))
    }
}

/// How an object of a data cache is named: by the hash of its contents and the algorithm.
pub open spec fn key_text(hash: Seq<char>, alg: Seq<char>) -> Seq<char> {
    hash + "."@ + alg
}

/// How an object of a data cache is named.
pub fn object_key(hash: &str, alg: &str) -> (s: String)
    ensures
        s@ == key_text(hash@, alg@),
{
    let mut s = hash.to_owned();
    s.append(".");
    s.append(alg);
    s
}

/// Every hash has 32 digits.
pub proof fn hash_has_fixed_length(data: Seq<u8>)
    ensures
        hash_text(data).len() == 32,
{
    hex_text_len(xxh3_128_of(data) as nat, 32);
}

/// Contents have the same hash exactly where their digests are the same: no digit is lost.
pub proof fn hash_tells_digests_apart(a: Seq<u8>, b: Seq<u8>)
    ensures
        hash_text(a) == hash_text(b) <==> xxh3_128_of(a) == xxh3_128_of(b),
{
    if hash_text(a) == hash_text(b) {
        assert(hex_limit(32) == 0x1_0000_0000_0000_0000_0000_0000_0000_0000) by {
            reveal_with_fuel(hex_limit, 33);
        }
        hex_text_injective(xxh3_128_of(a) as nat, xxh3_128_of(b) as nat, 32);
    }
}

/// The digits of a hash, read as a hexadecimal number, are the digest.
pub proof fn hash_spells_out_the_digest(data: Seq<u8>)
    ensures
        hex_value(hash_text(data)) == xxh3_128_of(data),
{
    assert(hex_limit(32) == 0x1_0000_0000_0000_0000_0000_0000_0000_0000) by {
        reveal_with_fuel(hex_limit, 33);
    }
    hexadecimal_digits_stand_for_the_number(xxh3_128_of(data) as nat, 32);
}

/// The name of an object begins with the hash and ends with the algorithm, with a dot between
/// them: two names are the same only where both are, for hashes of one length.
pub proof fn object_is_named_by_hash_and_algorithm(
    hash: Seq<char>,
    alg: Seq<char>,
    other: Seq<char>,
    with: Seq<char>,
)
    ensures
        ({
            let key = key_text(hash, alg);
            &&& key.len() == hash.len() + 1 + alg.len()
            &&& key.take(hash.len() as int) == hash
            &&& key[hash.len() as int] == '.'
            &&& key.skip(hash.len() as int + 1) == alg
            &&& hash.len() == other.len() && key == key_text(other, with) ==> hash == other && alg
                == with
        }),
{
    reveal_strlit(".");
    let key = key_text(hash, alg);
    let k = key_text(other, with);
    assert(key.take(hash.len() as int) =~= hash);
    assert(key.skip(hash.len() as int + 1) =~= alg);
    assert(k.take(other.len() as int) =~= other);
    assert(k.skip(other.len() as int + 1) =~= with);
}

} // verus!
