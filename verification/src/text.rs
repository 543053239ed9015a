//! Record text as a string: ASCII bytes and the characters they stand for.

use vstd::prelude::*;
use vstd::utf8::{encode_utf8, is_ascii_chars, is_ascii_chars_encode_utf8};

verus! {

/// Whether every byte of `bytes` is an ASCII character.
pub open spec fn is_ascii(bytes: Seq<u8>) -> bool {
    forall|i: int| 0 <= i < bytes.len() ==> #[trigger] bytes[i] < 128
}

/// The characters that ASCII bytes stand for.
pub open spec fn ascii_text(bytes: Seq<u8>) -> Seq<char> {
    Seq::new(bytes.len(), |i: int| bytes[i] as char)
}

/// `String::push`: the character is appended at the end.
pub assume_specification[ String::push ](s: &mut String, c: char)
    ensures
        final(s)@ == old(s)@.push(c),
;

/// The UTF-8 bytes of the text of ASCII bytes are those bytes.
pub proof fn lemma_ascii_text_bytes(bytes: Seq<u8>)
    requires
        is_ascii(bytes),
    ensures
        is_ascii_chars(ascii_text(bytes)),
        encode_utf8(ascii_text(bytes)) == bytes,
{
    let chars = ascii_text(bytes);
    assert forall|i: int| 0 <= i < chars.len() implies '\0' <= #[trigger] chars[i] <= '\u{7f}' by {
        assert(bytes[i] < 128);
    }
    is_ascii_chars_encode_utf8(chars);
    assert forall|i: int| 0 <= i < bytes.len() implies encode_utf8(chars)[i] == bytes[i] by {
        assert(bytes[i] < 128);
        assert(chars[i] as u8 == encode_utf8(chars)[i]);
    }
    assert(encode_utf8(chars) =~= bytes);
}

/// The string that ASCII bytes spell.
pub(crate) fn ascii_string(bytes: &[u8]) -> (s: String)
    requires
        is_ascii(bytes@),
    ensures
        s@ == ascii_text(bytes@),
        encode_utf8(s@) == bytes@,
{
    let mut s = String::new();
    let len = bytes.len();
    let mut i: usize = 0;
    while i < len
        invariant
            len == bytes@.len(),
            0 <= i <= len,
            s@ == ascii_text(bytes@.take(i as int)),
        decreases len - i,
    {
        let b = bytes[i];
        s.push(b as char);
        proof {
            assert(s@ =~= ascii_text(bytes@.take(i + 1)));
        }
        i = i + 1;
    }
    proof {
        assert(bytes@.take(len as int) =~= bytes@);
        lemma_ascii_text_bytes(bytes@);
    }
    s
}

} // verus!
