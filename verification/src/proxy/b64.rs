//! Base64, in which images travel.

use base64::Engine;

use vstd::prelude::*;
use vstd::string::*;

use crate::text::{is_white, white};

verus! {

/// What the standard engine of `base64` writes for bytes.
pub uninterp spec fn b64_text(bytes: Seq<u8>) -> Seq<char>;

/// What the standard engine of `base64` reads out of a text: the bytes, or the
/// error's message.
pub uninterp spec fn b64_bytes(text: Seq<char>) -> Result<Seq<u8>, Seq<char>>;

/// The characters in which base64 is written.
pub open spec fn b64_char(c: char) -> bool {
    ('A' <= c && c <= 'Z') || ('a' <= c && c <= 'z') || ('0' <= c && c <= '9') || c == '+' || c == '/'
        || c == '='
}

pub open spec fn all_b64(s: Seq<char>) -> bool {
    forall|i: int| 0 <= i < s.len() ==> b64_char(#[trigger] s[i])
}

/// The bytes that a text is base64 for are these.
pub open spec fn decodes_to(text: Seq<char>, bytes: Seq<u8>) -> bool {
    b64_bytes(text) matches Ok(b) && b == bytes
}

/// `Engine::encode` of the standard engine. The claims: the text depends on the
/// bytes alone; it is made of the standard alphabet and `=`; and decoding it gives
/// the bytes back.
#[verifier::external_body]
fn encode_standard(bytes: &[u8]) -> (r: String)
    ensures
        r@ == b64_text(bytes@),
        all_b64(r@),
        decodes_to(r@, bytes@),
{
    base64::engine::general_purpose::STANDARD.encode(bytes)
}

/// `Engine::decode` of the standard engine. The claim: its outcome depends on the
/// text alone.
#[verifier::external_body]
fn decode_standard(text: &str) -> (r: Result<Vec<u8>, String>)
    ensures
        match b64_bytes(text@) {
            Ok(bytes) => r matches Ok(v) && v@ == bytes,
            Err(message) => r matches Err(e) && e@ == message,
        },
{
    match base64::engine::general_purpose::STANDARD.decode(text) {
        Ok(v) => Ok(v),
        Err(e) => Err(e.to_string()),
    }
}

/// `s` without its white space.
pub open spec fn without_white(s: Seq<char>) -> Seq<char> {
    s.filter(|c: char| !white(c))
}

proof fn lemma_nothing_white(s: Seq<char>)
    requires
        all_b64(s),
    ensures
        without_white(s) == s,
    decreases s.len(),
{
    reveal(Seq::filter);
    if s.len() > 0 {
        let front = s.drop_last();
        assert forall|i: int| 0 <= i < front.len() implies b64_char(#[trigger] front[i]) by {
            assert(front[i] == s[i]);
        }
        lemma_nothing_white(front);
        assert(b64_char(s[s.len() - 1]));
        assert(front.push(s.last()) =~= s);
    }
}

/// Writes bytes in base64. [`decode`] reads them back.
pub fn encode(bytes: &[u8]) -> (r: String)
    ensures
        r@ == b64_text(bytes@),
        decodes_to(without_white(r@), bytes@),
{
    let r = encode_standard(bytes);
    proof {
        lemma_nothing_white(r@);
    }
    r
}

/// Reads base64. White space in it, as in a data URL broken into lines, is passed over.
pub fn decode(s: &str) -> (r: Result<Vec<u8>, String>)
    ensures
        match b64_bytes(without_white(s@)) {
            Ok(bytes) => r matches Ok(v) && v@ == bytes,
            Err(message) => r matches Err(e) && e@ == message,
        },
{
    let mut cleaned = String::new();
    proof {
        reveal(Seq::filter);
        assert(s@.take(0) =~= seq![]);
        assert(cleaned@ =~= seq![]);
    }
    for c in it: s.chars()
        invariant
            it.seq() == s@,
            cleaned@ == without_white(s@.take(it.index())),
    {
        if !is_white(c) {
            cleaned.push(c);
        }
        proof {
            reveal(Seq::filter);
            assert(s@.take(it.index() + 1).drop_last() =~= s@.take(it.index()));
            assert(s@.take(it.index() + 1).last() == c);
        }
    }
    assert(s@.take(s@.len() as int) =~= s@);
    decode_standard(cleaned.as_str())
}

} // verus!
