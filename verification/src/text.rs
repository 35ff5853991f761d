//! Bytes to text.
//!
//! The streams of a child process are bytes; a line becomes text only once it
//! is known to be well-formed UTF-8.

use vstd::prelude::*;
use vstd::utf8::*;

verus! {

/// The byte that ends a line.
pub const LINE_FEED: u8 = 0x0A;

/// The byte that may precede the line feed and is then dropped with it.
pub const CARRIAGE_RETURN: u8 = 0x0D;

/// No byte of `bytes` is a line feed.
pub open spec fn holds_no_line_feed(bytes: Seq<u8>) -> bool {
    forall|i: int| 0 <= i < bytes.len() ==> bytes[i] != LINE_FEED
}

/// A line of text: no character of `text` is a line feed.
pub open spec fn is_single_line(text: Seq<char>) -> bool {
    forall|i: int| 0 <= i < text.len() ==> text[i] != '\n'
}

/// Every line in `lines` is well-formed UTF-8.
pub open spec fn all_text(lines: Seq<Seq<u8>>) -> bool {
    forall|k: int| 0 <= k < lines.len() ==> valid_utf8(#[trigger] lines[k])
}

/// The text of each line in `lines`, in order.
pub open spec fn texts_of(lines: Seq<Seq<u8>>) -> Seq<Seq<char>> {
    Seq::new(lines.len(), |k: int| decode_utf8(lines[k]))
}

/// `String::from_utf8`, with the error dropped. Trusted, not proved: the bytes
/// become a `String` exactly when they are well-formed UTF-8, and the string
/// then holds the characters that the bytes encode.
#[verifier::external_body]
pub(crate) fn utf8_text(bytes: Vec<u8>) -> (text: Option<String>)
    ensures
        text is Some <==> valid_utf8(bytes@),
        text matches Some(s) ==> s@ == decode_utf8(bytes@),
{
    match String::from_utf8(bytes) {
        Ok(text) => Some(text),
        Err(_) => None,
    }
}

proof fn lemma_line_feed_encoding()
    ensures
        encode_scalar(0x0A) == seq![LINE_FEED],
{
    assert(has_width_1_encoding(0x0A));
    assert((0x0Au32 & 0x7f) as u8 == 0x0Au8) by (bit_vector);
    assert(encode_scalar(0x0A) =~= seq![LINE_FEED]);
}

/// Text decoded from bytes that hold no line feed holds no newline character.
pub proof fn lemma_decoded_text_is_single_line(bytes: Seq<u8>)
    requires
        valid_utf8(bytes),
        holds_no_line_feed(bytes),
    ensures
        is_single_line(decode_utf8(bytes)),
    decreases bytes.len(),
{
    if bytes.len() > 0 {
        let rest = pop_first_scalar(bytes);
        let first = decode_first_scalar(bytes);
        assert(1 <= length_of_first_scalar(bytes) <= bytes.len());
        assert forall|i: int| 0 <= i < rest.len() implies rest[i] != LINE_FEED by {
            assert(rest[i] == bytes[i + length_of_first_scalar(bytes)]);
        }
        lemma_decoded_text_is_single_line(rest);
        let text = decode_utf8(bytes);
        assert(text == seq![first as char] + decode_utf8(rest));
        assert((first as char) != '\n') by {
            if (first as char) == '\n' {
                decode_utf8_first_scalar(bytes);
                lemma_line_feed_encoding();
                assert(take_first_scalar(bytes)[0] == bytes[0]);
            }
        }
        assert forall|i: int| 0 <= i < text.len() implies text[i] != '\n' by {
            if i > 0 {
                assert(text[i] == decode_utf8(rest)[i - 1]);
            }
        }
    }
}

} // verus!
