//! Random identifiers, and API keys: random ones are issued, and only their digests are stored.
use crate::text;
use crate::text_laws;
use sha2::{Digest, Sha512};
use vstd::prelude::*;
use vstd::string::*;

verus! {

/// The SHA-512 digest of a sequence of bytes.
pub uninterp spec fn sha512(bytes: Seq<u8>) -> Seq<u8>;

/// The SHA-512 digest of a text's UTF-8 bytes, in lower-case hexadecimal digits.
pub open spec fn digest_text(text: Seq<char>) -> Seq<char> {
    text::hex_text(sha512(vstd::utf8::encode_utf8(text)))
}

/// Whether `c` is the digit that marks a UUID as random.
pub open spec fn marks_version(c: char) -> bool {
    c == '4'
}

/// Whether `c` is a digit that marks the layout of a UUID: its two high bits are 1 and 0.
pub open spec fn marks_variant(c: char) -> bool {
    c == '8' || c == '9' || c == 'a' || c == 'b'
}

/// Whether `id` is a random UUID in its simple form: 32 lower-case hexadecimal digits, of which
/// two mark the version and the layout.
pub open spec fn is_simple_uuid(id: Seq<char>) -> bool {
    id.len() == 32 && text::is_hex(id) && marks_version(id[12]) && marks_variant(id[16])
}

/// Whether `key` has the form of an issued key: 64 lower-case hexadecimal digits, which are two
/// random UUIDs in their simple form.
pub open spec fn is_api_key(key: Seq<char>) -> bool {
    &&& key.len() == 64
    &&& text::is_hex(key)
    &&& is_simple_uuid(key.take(32))
    &&& is_simple_uuid(key.skip(32))
}

/// Hashes bytes with `sha2::Sha512`. The digest has 64 bytes and depends on the bytes alone; the
/// algorithm is not written out here.
#[verifier::external_body]
fn sha512_bytes(bytes: &[u8]) -> (r: Vec<u8>)
    ensures
        r@ == sha512(bytes@),
        r@.len() == 64,
{
    let mut hasher = Sha512::new();
    hasher.update(bytes);
    hasher.finalize().to_vec()
}

/// Draws a random UUID with `uuid::Uuid::new_v4` and writes it in its simple form: 32 lower-case
/// hexadecimal digits, with those that mark the version and the layout in their places. Which ones
/// the others are is left to chance.
#[verifier::external_body]
fn random_uuid() -> (r: String)
    ensures
        is_simple_uuid(r@),
{
    uuid::Uuid::new_v4().simple().to_string()
}

/// Whether `id` is a random UUID in its usual form: 32 lower-case hexadecimal digits, in groups of
/// 8, 4, 4, 4 and 12 with a hyphen between each two, of which two digits mark the version and the
/// layout.
pub open spec fn is_uuid(id: Seq<char>) -> bool {
    &&& id.len() == 36
    &&& forall|i: int|
        0 <= i < 36 ==> if i == 8 || i == 13 || i == 18 || i == 23 {
            #[trigger] id[i] == '-'
        } else {
            '0' <= id[i] <= '9' || 'a' <= id[i] <= 'f'
        }
    &&& marks_version(id[14])
    &&& marks_variant(id[19])
}

/// Draws a random UUID with `uuid::Uuid::new_v4` and writes it with its `Display`, in its usual
/// form. Which one of the random ones it is is left to chance.
#[verifier::external_body]
fn random_hyphenated_uuid() -> (r: String)
    ensures
        is_uuid(r@),
{
    uuid::Uuid::new_v4().to_string()
}

/// A random id for a connection.
pub fn new_connection_id() -> (id: String)
    ensures
        is_uuid(id@),
{
    random_hyphenated_uuid()
}

/// The SHA-512 digest of `input`, in lower-case hexadecimal digits.
pub fn sha512_hex(input: &str) -> (r: String)
    ensures
        r@ == digest_text(input@),
        r@.len() == 128,
        text::is_hex(r@),
{
    let digest = sha512_bytes(input.as_bytes());
    proof {
        text::lemma_hex_text(digest@);
    }
    text::to_hex(digest.as_slice())
}

/// The key that two random texts make: one after the other.
pub fn key_from(first: &str, second: &str) -> (key: String)
    ensures
        key@ == first@ + second@,
{
    first.to_owned().concat(second)
}

/// A fresh key: two random UUIDs, 64 hexadecimal digits in all.
pub fn new_api_key() -> (key: String)
    ensures
        is_api_key(key@),
{
    let first = random_uuid();
    let second = random_uuid();
    let key = key_from(first.as_str(), second.as_str());
    proof {
        assert(key@.take(32) =~= first@);
        assert(key@.skip(32) =~= second@);
        assert forall|i: int| 0 <= i < key@.len() implies '0' <= #[trigger] key@[i] <= '9' || 'a' <= key@[i] <= 'f' by {
            if i < 32 {
                assert(key@[i] == first@[i]);
            } else {
                assert(key@[i] == second@[i - 32]);
            }
        }
    }
    key
}

/// What is stored of a text is the SHA-512 digest of all its UTF-8 bytes: two digits for each byte
/// of the digest, from which the byte is read back.
pub proof fn law_digest_text_is_the_digest(text: Seq<char>, i: int)
    ensures
        ({
            let digest = sha512(vstd::utf8::encode_utf8(text));
            &&& digest_text(text).len() == 2 * digest.len()
            &&& 0 <= i < digest.len() ==> digest[i] as int == 16 * text_laws::hex_value(digest_text(text)[2 * i])
                + text_laws::hex_value(digest_text(text)[2 * i + 1])
        }),
{
    let digest = sha512(vstd::utf8::encode_utf8(text));
    if 0 <= i < digest.len() {
        text_laws::law_hexadecimal_text_reads_back(digest, i);
    }
}

}
