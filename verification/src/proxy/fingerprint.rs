//! The `system_fingerprint` of a response: the same for the same program and model.

use vstd::prelude::*;
use vstd::string::*;
use vstd::utf8::*;

verus! {

pub const VERSION: &'static str = "0.1.0";

/// The 64-bit FNV-1a hash.
pub open spec fn fnv(bytes: Seq<u8>) -> u64
    decreases bytes.len(),
{
    if bytes.len() == 0 {
        0xcbf2_9ce4_8422_2325
    } else {
        (fnv(bytes.drop_last()) ^ (bytes.last() as u64)).wrapping_mul(0x0100_0000_01b3)
    }
}

fn hash(bytes: &[u8]) -> (r: u64)
    ensures
        r == fnv(bytes@),
{
    let n: usize = bytes.len();
    let mut h: u64 = 0xcbf2_9ce4_8422_2325;
    let mut i: usize = 0;
    assert(bytes@.take(0) =~= seq![]);
    while i < n
        invariant
            i <= n == bytes@.len(),
            h == fnv(bytes@.take(i as int)),
        decreases n - i,
    {
        proof {
            assert(bytes@.take(i + 1).drop_last() =~= bytes@.take(i as int));
            assert(bytes@.take(i + 1).last() == bytes@[i as int]);
        }
        h = (h ^ (bytes[i] as u64)).wrapping_mul(0x0100_0000_01b3);
        i += 1;
    }
    assert(bytes@.take(n as int) =~= bytes@);
    h
}

pub open spec fn hex_char(d: int) -> char {
    if d < 10 {
        (48 + d) as char
    } else {
        (87 + d) as char
    }
}

/// The last `width` hexadecimal digits of `n`.
pub open spec fn hex(n: nat, width: nat) -> Seq<char>
    decreases width,
{
    if width == 0 {
        seq![]
    } else {
        hex(n / 16, (width - 1) as nat).push(hex_char((n % 16) as int))
    }
}

fn hex_text(n: u64, width: u8) -> (r: String)
    ensures
        r@ == hex(n as nat, width as nat),
    decreases width,
{
    if width == 0 {
        let r = String::new();
        assert(r@ =~= seq![]);
        return r;
    }
    let mut out = hex_text(n / 16, width - 1);
    let d: u8 = (n % 16) as u8;
    out.push(
        if d < 10 {
            (48 + d) as char
        } else {
            (87 + d) as char
        },
    );
    out
}

pub open spec fn fingerprint_view(model_id: Seq<char>) -> Seq<char> {
    "fp_"@ + hex(fnv(encode_utf8(VERSION@ + ":"@ + model_id)) as nat, 16)
}

/// The fingerprint for answers of a model.
pub fn system_fingerprint(model_id: &str) -> (r: String)
    ensures
        r@ == fingerprint_view(model_id@),
{
    let mut key = VERSION.to_owned();
    key.append(":");
    key.append(model_id);
    let mut out = "fp_".to_owned();
    out.append(hex_text(hash(key.as_str().as_bytes()), 16).as_str());
    out
}

} // verus!
