//! Decoding of fixed-width text payloads.
//!
//! A text payload is padded at the end with NUL or space bytes.  The padding
//! is stripped and the remainder is decoded as UTF-8; an invalid encoding
//! yields the empty string rather than an error.

use vstd::prelude::*;

verus! {

/// The character sequence that UTF-8 decoding yields for `bytes`, or `None`
/// if the bytes are not valid UTF-8.
pub uninterp spec fn utf8_decode(bytes: Seq<u8>) -> Option<Seq<char>>;

/// Relies on `core::str::from_utf8`: it succeeds exactly on valid UTF-8 and
/// its result depends on the bytes alone; `str::to_owned` keeps the
/// characters.
#[verifier::external_body]
fn utf8_to_string(bytes: &[u8]) -> (r: Option<String>)
    ensures
        r is Some <==> utf8_decode(bytes@) is Some,
        r matches Some(s) ==> Some(s@) == utf8_decode(bytes@),
{
    match core::str::from_utf8(bytes) {
        Ok(s) => Some(s.to_owned()),
        Err(_) => None,
    }
}

/// `bytes` with its trailing run of NUL (0x00) and space (0x20) bytes
/// removed.
pub open spec fn trim_padding(bytes: Seq<u8>) -> Seq<u8>
    decreases bytes.len(),
{
    if bytes.len() > 0 && (bytes.last() == 0x00u8 || bytes.last() == 0x20u8) {
        trim_padding(bytes.drop_last())
    } else {
        bytes
    }
}

/// The decoded name carried by a text payload: padding stripped, then UTF-8
/// decoded, with the empty sequence for an invalid encoding.
pub open spec fn name_of(bytes: Seq<u8>) -> Seq<char> {
    match utf8_decode(trim_padding(bytes)) {
        Some(s) => s,
        None => Seq::empty(),
    }
}

/// Decode a fixed-width text payload.
pub fn trim_gds_ascii(bytes: &[u8]) -> (r: String)
    ensures
        r@ == name_of(bytes@),
{
    let mut end: usize = bytes.len();
    proof {
        assert(bytes@.subrange(0, end as int) =~= bytes@);
    }
    while end > 0 && (bytes[end - 1] == 0x00u8 || bytes[end - 1] == 0x20u8)
        invariant
            end <= bytes@.len(),
            trim_padding(bytes@) == trim_padding(bytes@.subrange(0, end as int)),
        decreases end,
    {
        proof {
            let sub = bytes@.subrange(0, end as int);
            assert(sub.drop_last() =~= bytes@.subrange(0, end - 1));
        }
        end = end - 1;
    }
    proof {
        if end == 0 {
            assert(bytes@.subrange(0, 0) =~= Seq::<u8>::empty());
        }
        assert(trim_padding(bytes@) =~= bytes@.subrange(0, end as int));
    }
    match utf8_to_string(&bytes[0..end]) {
        Some(s) => s,
        None => String::new(),
    }
}

} // verus!
