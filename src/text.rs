//! Turning printed words into text.
use vstd::prelude::*;
use vstd::utf8::{decode_utf8, valid_utf8};

verus! {

/// The text that a byte sequence encodes as UTF-8, or `None` where it is no
/// valid UTF-8.
pub open spec fn utf8_text(b: Seq<u8>) -> Option<Seq<char>> {
    if valid_utf8(b) {
        Some(decode_utf8(b))
    } else {
        None
    }
}

/// Relies on `String::from_utf8`: it succeeds exactly on valid UTF-8 and
/// then holds the characters the bytes encode.
#[verifier::external_body]
fn decode_utf8_bytes(b: Vec<u8>) -> (r: Option<String>)
    ensures
        r is Some <==> valid_utf8(b@),
        r matches Some(t) ==> t@ == decode_utf8(b@),
{
    String::from_utf8(b).ok()
}

/// Whether every word is a byte.
pub open spec fn all_bytes(ws: Seq<u16>) -> bool {
    forall|i: int| 0 <= i < ws.len() ==> #[trigger] ws[i] < 256
}

/// The bytes of words that all are bytes.
pub open spec fn as_bytes(ws: Seq<u16>) -> Seq<u8> {
    ws.map_values(|w: u16| w as u8)
}

/// The text of a sequence of words, one byte each; `None` where a word is no
/// byte or the bytes are no UTF-8.
pub open spec fn text_of(ws: Seq<u16>) -> Option<Seq<char>> {
    if all_bytes(ws) {
        utf8_text(as_bytes(ws))
    } else {
        None
    }
}

/// Returns the text of the words, one byte each, or `None` where a word is
/// no byte or the bytes are no valid UTF-8.
pub fn get_str_from_bytes(ws: &Vec<u16>) -> (r: Option<String>)
    ensures
        match r {
            Some(t) => text_of(ws@) == Some(t@),
            None => text_of(ws@) is None,
        },
{
    let mut b: Vec<u8> = Vec::new();
    let mut i: usize = 0;
    while i < ws.len()
        invariant
            i <= ws@.len(),
            all_bytes(ws@.subrange(0, i as int)),
            b@ == as_bytes(ws@.subrange(0, i as int)),
        decreases ws@.len() - i,
    {
        if ws[i] > 255 {
            assert(!all_bytes(ws@));
            return None;
        }
        b.push(ws[i] as u8);
        i += 1;
        assert(ws@.subrange(0, i as int) =~= ws@.subrange(0, i - 1 as int).push(ws@[i - 1]));
        assert(b@ =~= as_bytes(ws@.subrange(0, i as int)));
    }
    assert(ws@.subrange(0, i as int) =~= ws@);
    decode_utf8_bytes(b)
}

} // verus!
