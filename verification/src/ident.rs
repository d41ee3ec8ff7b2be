//! Identifiers of stored files and of upload sessions, and the content
//! fingerprint.
//!
//! An identifier starts with a token: eight random bytes written as sixteen
//! lower-case hexadecimal digits. A stored file's identifier may go on with a
//! dot and the extension of the name it was uploaded under.

use vstd::prelude::*;
use vstd::string::StringExecFns;
use rand::RngCore;

verus! {

/// Number of random bytes in a token.
pub const TOKEN_BYTES: usize = 8;

/// The sixteen digits of lower-case hexadecimal, in order of value.
pub open spec fn hex_digits() -> Seq<char> {
    seq!['0', '1', '2', '3', '4', '5', '6', '7', '8', '9', 'a', 'b', 'c', 'd', 'e', 'f']
}

/// `bytes` in lower-case hexadecimal: two digits for each byte, the high
/// half first.
pub open spec fn hex_text(bytes: Seq<u8>) -> Seq<char> {
    Seq::new(
        2 * bytes.len(),
        |i: int|
            if i % 2 == 0 {
                hex_digits()[bytes[i / 2] as int / 16]
            } else {
                hex_digits()[bytes[i / 2] as int % 16]
            },
    )
}

/// Whether `token` is the hexadecimal text of some eight bytes.
pub open spec fn is_token(token: Seq<char>) -> bool {
    exists|bytes: Seq<u8>| bytes.len() == TOKEN_BYTES && token == #[trigger] hex_text(bytes)
}

/// The identifier made of `token` and, where there is one, a dot and the
/// extension.
pub open spec fn candidate_id(token: Seq<char>, extension: Option<Seq<char>>) -> Seq<char> {
    match extension {
        Some(ext) => token + seq!['.'] + ext,
        None => token,
    }
}

/// Whether `filename` reads `before`, a dot, `ext`, `after`.
pub open spec fn splits_at_extension(
    filename: Seq<char>,
    before: Seq<char>,
    ext: Seq<char>,
    after: Seq<char>,
) -> bool {
    filename == before + seq!['.'] + ext + after
}

/// Whether `ext` can be the extension of `filename`: it holds no dot and
/// stands in `filename` right behind one.
pub open spec fn is_extension_of(ext: Seq<char>, filename: Seq<char>) -> bool {
    &&& !ext.contains('.')
    &&& exists|before: Seq<char>, after: Seq<char>|
        splits_at_extension(filename, before, ext, after)
}

/// The CRC-32 checksum of `data` as `crc32fast` computes it.
pub uninterp spec fn crc32(data: Seq<u8>) -> u32;

/// Overwrites `bytes` with what `rand::thread_rng()` yields through
/// `RngCore::fill_bytes`. Nothing is claimed of the bytes. The generator is
/// seeded by the operating system and panics where that source cannot be
/// read.
#[verifier::external_body]
fn fill_random(bytes: &mut [u8; 8]) {
    rand::thread_rng().fill_bytes(bytes);
}

/// Calls `hex::encode`, which writes each byte as two digits taken from
/// `0123456789abcdef`: first the one for the byte's high four bits, then the
/// one for its low four bits.
#[verifier::external_body]
fn hex_encode(bytes: &[u8; 8]) -> (text: String)
    ensures
        text@ == hex_text(bytes@),
{
    hex::encode(bytes)
}

/// Calls `crc32fast::hash`, whose result depends on the bytes alone.
#[verifier::external_body]
pub(crate) fn crc32_hash(data: &[u8]) -> (crc: u32)
    ensures
        crc == crc32(data@),
{
    crc32fast::hash(data)
}

/// Calls `std::path::Path::extension` on `filename`. The extension, where the
/// path has one, is the part of its last component behind that component's
/// last dot, so it holds no dot and follows one in `filename`. Which names
/// have an extension depends on how the platform splits a path and is not
/// stated.
#[verifier::external_body]
pub(crate) fn path_extension(filename: &str) -> (extension: Option<String>)
    ensures
        extension matches Some(ext) ==> is_extension_of(ext@, filename@),
{
    match std::path::Path::new(filename).extension() {
        Some(ext) => Some(ext.to_string_lossy().into_owned()),
        None => None,
    }
}

/// A token has sixteen characters, each a lower-case hexadecimal digit.
pub proof fn lemma_token_shape(token: Seq<char>)
    requires
        is_token(token),
    ensures
        token.len() == 2 * TOKEN_BYTES,
        forall|i: int| 0 <= i < token.len() ==> hex_digits().contains(#[trigger] token[i]),
{
    let bytes = choose|bytes: Seq<u8>|
        bytes.len() == TOKEN_BYTES && token == #[trigger] hex_text(bytes);
    assert forall|i: int| 0 <= i < token.len() implies hex_digits().contains(
        #[trigger] token[i],
    ) by {
        let b = bytes[i / 2] as int;
        let d = if i % 2 == 0 { b / 16 } else { b % 16 };
        assert(0 <= d < 16);
        assert(token[i] == hex_digits()[d]);
    }
}

/// The token that eight bytes make: their hexadecimal text.
pub fn encode_id(bytes: &[u8; 8]) -> (token: String)
    ensures
        token@ == hex_text(bytes@),
        is_token(token@),
        token@.len() == 2 * TOKEN_BYTES,
        forall|i: int| 0 <= i < token@.len() ==> hex_digits().contains(#[trigger] token@[i]),
{
    let token = hex_encode(bytes);
    proof {
        lemma_token_shape(token@);
    }
    token
}

/// A fresh random token: sixteen lower-case hexadecimal digits. No two
/// calls are promised to differ.
pub fn generate_random_id() -> (token: String)
    ensures
        is_token(token@),
        token@.len() == 2 * TOKEN_BYTES,
        forall|i: int| 0 <= i < token@.len() ==> hex_digits().contains(#[trigger] token@[i]),
{
    let mut bytes = [0u8; 8];
    fill_random(&mut bytes);
    encode_id(&bytes)
}

/// Joins a token and an optional extension into an identifier.
pub fn compose_id(token: String, extension: &Option<String>) -> (id: String)
    ensures
        id@ == candidate_id(token@, extension.deep_view()),
{
    match extension {
        Some(ext) => {
            proof {
                reveal_strlit(".");
            }
            let dotted = token.concat(".");
            assert("."@ =~= seq!['.']);
            dotted.concat(ext.as_str())
        },
        None => token,
    }
}

} // verus!
