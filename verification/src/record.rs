//! Log lines and their wire format.
//!
//! A record on the wire is `<origin>: <text>` followed by one line feed.

use crate::text::{
    holds_no_line_feed, is_single_line, lemma_decoded_text_is_single_line, utf8_text, LINE_FEED,
};
use vstd::prelude::*;
use vstd::string::*;
use vstd::utf8::{decode_utf8, valid_utf8};

verus! {

/// Which output stream of the child process a line was captured from.
#[derive(Clone, Copy, Debug, PartialEq, Eq, Hash, Structural)]
pub enum Origin {
    Stdout,
    Stderr,
}

impl Origin {
    /// The tag that precedes every line of this origin on the wire.
    pub open spec fn tag_spec(self) -> Seq<char> {
        match self {
            Origin::Stdout => seq!['s', 't', 'd', 'o', 'u', 't'],
            Origin::Stderr => seq!['s', 't', 'd', 'e', 'r', 'r'],
        }
    }

    /// The other of the two origins.
    pub open spec fn sibling(self) -> Origin {
        match self {
            Origin::Stdout => Origin::Stderr,
            Origin::Stderr => Origin::Stdout,
        }
    }

    /// The tag of this origin.
    pub fn tag(self) -> (tag: &'static str)
        ensures
            tag@ == self.tag_spec(),
    {
        match self {
            Origin::Stdout => {
                proof {
                    reveal_strlit("stdout");
                }
                assert("stdout"@ =~= Origin::Stdout.tag_spec());
                "stdout"
            },
            Origin::Stderr => {
                proof {
                    reveal_strlit("stderr");
                }
                assert("stderr"@ =~= Origin::Stderr.tag_spec());
                "stderr"
            },
        }
    }
}

/// What stands between the tag and the text of a record.
pub open spec fn separator() -> Seq<char> {
    seq![':', ' ']
}

/// The character that ends every record on the wire.
pub open spec fn terminator() -> char {
    '\n'
}

/// Length of the tag and separator that precede the text of every record.
pub open spec fn prefix_len() -> int {
    8
}

/// The record for one line: `<origin>: <text>` and the terminator.
pub open spec fn record_of(origin: Origin, text: Seq<char>) -> Seq<char> {
    origin.tag_spec() + separator() + text + seq![terminator()]
}

/// Whether `record` carries the tag of `origin`.
pub open spec fn has_tag(record: Seq<char>, origin: Origin) -> bool {
    record.len() > prefix_len() && record.subrange(0, prefix_len()) == origin.tag_spec()
        + separator()
}

/// The text that a record carries between its prefix and its terminator.
pub open spec fn payload(record: Seq<char>) -> Seq<char> {
    record.subrange(prefix_len(), record.len() - 1)
}

/// A record is one frame: it ends with the terminator and holds no other.
pub open spec fn is_frame(record: Seq<char>) -> bool {
    record.len() > 0 && record.last() == terminator() && is_single_line(record.drop_last())
}

/// One captured line of output, tagged with the stream it came from.
///
/// The text never holds a line feed, so its record is exactly one frame.
#[derive(Debug, PartialEq, Eq)]
pub struct LogLine {
    origin: Origin,
    text: String,
}

impl LogLine {
    #[verifier::type_invariant]
    spec fn single_line(self) -> bool {
        is_single_line(self.text@)
    }

    /// The stream that the line came from.
    pub closed spec fn origin_spec(&self) -> Origin {
        self.origin
    }

    /// The text of the line, without a line terminator.
    pub closed spec fn text_spec(&self) -> Seq<char> {
        self.text@
    }

    /// The record of this line as it appears on the wire.
    pub open spec fn record_spec(&self) -> Seq<char> {
        record_of(self.origin_spec(), self.text_spec())
    }

    /// A line of `origin` with the given text.
    pub(crate) fn new(origin: Origin, text: String) -> (line: LogLine)
        requires
            is_single_line(text@),
        ensures
            line.origin_spec() == origin,
            line.text_spec() == text@,
    {
        LogLine { origin, text }
    }

    /// Makes a line of `origin` from the bytes of its text. There is a line
    /// exactly when the bytes are well-formed UTF-8 and hold no line feed.
    pub fn from_bytes(origin: Origin, bytes: Vec<u8>) -> (line: Option<LogLine>)
        ensures
            line is Some <==> valid_utf8(bytes@) && holds_no_line_feed(bytes@),
            line matches Some(l) ==> l.origin_spec() == origin && l.text_spec() == decode_utf8(
                bytes@,
            ),
    {
        let mut i: usize = 0;
        while i < bytes.len()
            invariant
                i <= bytes.len(),
                forall|j: int| 0 <= j < i ==> bytes[j] != LINE_FEED,
            decreases bytes.len() - i,
        {
            if bytes[i] == LINE_FEED {
                return None;
            }
            i += 1;
        }
        let ghost raw = bytes@;
        match utf8_text(bytes) {
            Some(text) => {
                proof {
                    lemma_decoded_text_is_single_line(raw);
                }
                Some(LogLine::new(origin, text))
            },
            None => None,
        }
    }

    /// The stream that the line came from.
    pub fn origin(&self) -> (origin: Origin)
        ensures
            origin == self.origin_spec(),
    {
        self.origin
    }

    /// The text of the line, without a line terminator.
    pub fn text(&self) -> (text: &str)
        ensures
            text@ == self.text_spec(),
            is_single_line(text@),
    {
        proof {
            use_type_invariant(self);
        }
        self.text.as_str()
    }

    /// Formats the line for the wire. The result is meant to be handed to the
    /// connection in a single write.
    pub fn to_record(&self) -> (record: String)
        ensures
            record@ == self.record_spec(),
            is_frame(record@),
            has_tag(record@, self.origin_spec()),
            payload(record@) == self.text_spec(),
    {
        let mut record = String::from_str(self.origin.tag());
        record.append(": ");
        record.append(self.text.as_str());
        record.append("\n");
        proof {
            use_type_invariant(self);
            reveal_strlit(": ");
            reveal_strlit("\n");
            assert(": "@ =~= separator());
            assert("\n"@ =~= seq![terminator()]);
            lemma_record_shape(self.origin, self.text@);
        }
        record
    }
}

impl Clone for LogLine {
    fn clone(&self) -> (copy: LogLine)
        ensures
            copy == *self,
    {
        proof {
            use_type_invariant(self);
        }
        LogLine { origin: self.origin, text: self.text.clone() }
    }
}

/// A record built from a single-line text is one frame, carries the tag of its
/// origin and no other, and gives its text back as payload.
pub proof fn lemma_record_shape(origin: Origin, text: Seq<char>)
    requires
        is_single_line(text),
    ensures
        is_frame(record_of(origin, text)),
        has_tag(record_of(origin, text), origin),
        !has_tag(record_of(origin, text), origin.sibling()),
        payload(record_of(origin, text)) == text,
        record_of(origin, text).len() == text.len() + prefix_len() + 1,
{
    let record = record_of(origin, text);
    let prefix = origin.tag_spec() + separator();
    assert(prefix.len() == prefix_len());
    assert(record.subrange(0, prefix_len()) =~= prefix);
    assert(payload(record) =~= text);
    assert(record.subrange(0, prefix_len())[3] == origin.tag_spec()[3]);
    assert((origin.sibling().tag_spec() + separator())[3] != origin.tag_spec()[3]);
    assert forall|i: int| 0 <= i < record.drop_last().len() implies record.drop_last()[i]
        != terminator() by {
        if i < prefix_len() {
            assert(record.drop_last()[i] == prefix[i]);
        } else {
            assert(record.drop_last()[i] == text[i - prefix_len()]);
        }
    }
}

} // verus!
