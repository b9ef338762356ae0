//! Application-level message values: UTF-8 text, raw binary, and the
//! tagged union of the two that crosses the engine/application boundary.

use vstd::prelude::*;
use vstd::string::StringSliceAdditionalSpecFns;
use vstd::utf8::{
    codepoint_width_2, codepoint_width_3, codepoint_width_4, decode_utf8, encode_utf8,
    encode_utf8_valid_utf8, is_continuation_byte, is_leading_byte_width_2,
    length_of_first_scalar, partial_valid_partial_invalid_utf8, partial_valid_utf8,
    partial_valid_utf8_extend, valid_first_scalar, valid_utf8,
};

use crate::error::InvalidFrame;

verus! {

/// An immutable byte buffer that is always valid UTF-8.
#[derive(Debug, Clone)]
pub struct Text {
    bytes: Vec<u8>,
}

impl View for Text {
    type V = Seq<u8>;

    closed spec fn view(&self) -> Seq<u8> {
        self.bytes@
    }
}

impl Text {
    /// The invariant carried by every constructed `Text`.
    pub open spec fn wf(self) -> bool {
        valid_utf8(self@)
    }

    /// Builds a `Text` from raw bytes, validating that they are UTF-8.
    pub fn try_from_bytes(raw: Vec<u8>) -> (r: Result<Text, InvalidFrame>)
        ensures
            valid_utf8(raw@) <==> r is Ok,
            r matches Ok(t) ==> t@ == raw@ && t.wf(),
            r matches Err(e) ==> e == InvalidFrame::Text,
    {
        if utf8_check(&raw) {
            Ok(Text { bytes: raw })
        } else {
            Err(InvalidFrame::Text)
        }
    }

    /// Builds a `Text` from an already-validated string; infallible.
    pub fn from_str(s: &str) -> (t: Text)
        ensures
            t@ == encode_utf8(s@),
            t.wf(),
    {
        proof {
            broadcast use encode_utf8_valid_utf8;
        }
        let bytes = vstd::slice::slice_to_vec(s.as_bytes());
        Text { bytes }
    }

    /// The UTF-8 bytes of the text.
    pub fn as_bytes(&self) -> (r: &Vec<u8>)
        ensures
            r@ == self@,
    {
        &self.bytes
    }

    /// The text as a string slice.
    ///
    /// Relies on `str::from_utf8`: it returns `Ok` exactly on valid UTF-8,
    /// and the returned slice is backed by the given bytes.  The type's
    /// invariant guarantees validity, so the call cannot fail.
    #[verifier::external_body]
    pub fn as_str(&self) -> (r: &str)
        requires
            self.wf(),
        ensures
            r@ == decode_utf8(self@),
            r.spec_bytes() == self@,
    {
        std::str::from_utf8(self.bytes.as_slice()).unwrap()
    }

    /// Length of the text in bytes.
    pub fn len(&self) -> (n: usize)
        ensures
            n == self@.len(),
    {
        self.bytes.len()
    }

    /// Consumes the text and hands back its bytes.
    pub fn into_bytes(self) -> (r: Vec<u8>)
        ensures
            r@ == self@,
    {
        self.bytes
    }
}

/// An immutable byte buffer with no content constraint.
#[derive(Debug, Clone)]
pub struct Binary {
    bytes: Vec<u8>,
}

impl View for Binary {
    type V = Seq<u8>;

    closed spec fn view(&self) -> Seq<u8> {
        self.bytes@
    }
}

impl Binary {
    /// Builds a `Binary` from raw bytes; infallible.
    pub fn from_bytes(raw: Vec<u8>) -> (b: Binary)
        ensures
            b@ == raw@,
    {
        Binary { bytes: raw }
    }

    /// The payload bytes.
    pub fn as_bytes(&self) -> (r: &Vec<u8>)
        ensures
            r@ == self@,
    {
        &self.bytes
    }

    /// Length of the payload in bytes.
    pub fn len(&self) -> (n: usize)
        ensures
            n == self@.len(),
    {
        self.bytes.len()
    }

    /// Consumes the value and hands back its bytes.
    pub fn into_bytes(self) -> (r: Vec<u8>)
        ensures
            r@ == self@,
    {
        self.bytes
    }
}

/// The mathematical value of a message: its kind and its payload bytes.
#[verifier::ext_equal]
pub enum MessageView {
    Text(Seq<u8>),
    Binary(Seq<u8>),
}

/// An application-level message: either text or binary.
#[derive(Debug, Clone)]
pub enum Message {
    Text(Text),
    Binary(Binary),
}

impl View for Message {
    type V = MessageView;

    open spec fn view(&self) -> MessageView {
        match self {
            Message::Text(t) => MessageView::Text(t@),
            Message::Binary(b) => MessageView::Binary(b@),
        }
    }
}

impl Message {
    /// The invariant carried by every constructed `Message`.
    pub open spec fn wf(self) -> bool {
        self@ matches MessageView::Text(s) ==> valid_utf8(s)
    }

    /// The payload bytes, whichever kind the message is.
    pub open spec fn payload(self) -> Seq<u8> {
        match self@ {
            MessageView::Text(s) => s,
            MessageView::Binary(s) => s,
        }
    }

    /// True when the message is text.
    pub fn is_text(&self) -> (r: bool)
        ensures
            r == (self@ matches MessageView::Text(_)),
    {
        match self {
            Message::Text(_) => true,
            Message::Binary(_) => false,
        }
    }

    /// True when the message is binary.
    pub fn is_binary(&self) -> (r: bool)
        ensures
            r == (self@ matches MessageView::Binary(_)),
    {
        match self {
            Message::Text(_) => false,
            Message::Binary(_) => true,
        }
    }

    /// Extracts the text value.
    pub fn unwrap_text(self) -> (t: Text)
        requires
            self@ matches MessageView::Text(_),
        ensures
            self@ == MessageView::Text(t@),
    {
        match self {
            Message::Text(text) => text,
            Message::Binary(_) => unreached(),
        }
    }

    /// Extracts the binary value.
    pub fn unwrap_binary(self) -> (b: Binary)
        requires
            self@ matches MessageView::Binary(_),
        ensures
            self@ == MessageView::Binary(b@),
    {
        match self {
            Message::Binary(binary) => binary,
            Message::Text(_) => unreached(),
        }
    }
}

proof fn bv_ascii(b0: u8)
    by (bit_vector)
    requires
        b0 <= 0x7f,
    ensures
        b0 & 0x7F == b0,
{
}

proof fn bv_two(b0: u8, b1: u8)
    by (bit_vector)
    requires
        0xc0 <= b0 <= 0xdf,
        0x80 <= b1 <= 0xbf,
    ensures
        codepoint_width_2(b0, b1) <= 0x7ff,
        (codepoint_width_2(b0, b1) >= 0x80) == (b0 >= 0xc2),
{
}

proof fn bv_three(b0: u8, b1: u8, b2: u8)
    by (bit_vector)
    requires
        0xe0 <= b0 <= 0xef,
        0x80 <= b1 <= 0xbf,
        0x80 <= b2 <= 0xbf,
    ensures
        codepoint_width_3(b0, b1, b2) <= 0xffff,
        (codepoint_width_3(b0, b1, b2) >= 0x800) == (b0 != 0xe0 || b1 >= 0xa0),
        (0xd800 <= codepoint_width_3(b0, b1, b2) <= 0xdfff) == (b0 == 0xed && b1 >= 0xa0),
{
}

proof fn bv_four(b0: u8, b1: u8, b2: u8, b3: u8)
    by (bit_vector)
    requires
        0xf0 <= b0 <= 0xf7,
        0x80 <= b1 <= 0xbf,
        0x80 <= b2 <= 0xbf,
        0x80 <= b3 <= 0xbf,
    ensures
        (codepoint_width_4(b0, b1, b2, b3) >= 0x10000) == (b0 != 0xf0 || b1 >= 0x90),
        (codepoint_width_4(b0, b1, b2, b3) <= 0x10ffff) == (b0 < 0xf4 || (b0 == 0xf4 && b1
            <= 0x8f)),
{
}

/// A valid prefix followed by bytes that do not begin a well-formed
/// scalar encoding makes the whole sequence invalid.
proof fn invalid_here(s: Seq<u8>, i: int)
    requires
        0 <= i < s.len(),
        partial_valid_utf8(s, i),
        !valid_first_scalar(s.subrange(i, s.len() as int)),
    ensures
        !valid_utf8(s),
{
    let sub = s.subrange(i, s.len() as int);
    assert(!valid_utf8(sub));
    partial_valid_partial_invalid_utf8(s, i);
}

/// Checks a byte buffer for UTF-8 validity: one pass over the bytes,
/// following RFC 3629's well-formed byte ranges, proved equivalent to
/// the mathematical definition.
fn utf8_check(bytes: &Vec<u8>) -> (r: bool)
    ensures
        r == valid_utf8(bytes@),
{
    let ghost s = bytes@;
    let n = bytes.len();
    let mut i: usize = 0;
    proof {
        assert(s.subrange(0, 0) =~= Seq::<u8>::empty());
    }
    while i < n
        invariant
            i <= n,
            n == s.len(),
            s == bytes@,
            partial_valid_utf8(s, i as int),
        decreases n - i,
    {
        let ghost sub = s.subrange(i as int, n as int);
        let b0 = bytes[i];
        proof {
            assert(sub[0] == b0);
        }
        if b0 <= 0x7F {
            proof {
                bv_ascii(b0);
                assert(valid_first_scalar(sub));
                assert(length_of_first_scalar(sub) == 1);
                partial_valid_utf8_extend(s, i as int);
            }
            i = i + 1;
        } else if b0 < 0xC2 {
            // A stray continuation byte, or an overlong two-byte lead.
            proof {
                assert(!valid_first_scalar(sub)) by {
                    if is_leading_byte_width_2(b0) && sub.len() >= 2 && is_continuation_byte(
                        sub[1],
                    ) {
                        bv_two(b0, sub[1]);
                    }
                }
                invalid_here(s, i as int);
            }
            return false;
        } else if b0 <= 0xDF {
            if n - i < 2 || !(0x80 <= bytes[i + 1] && bytes[i + 1] <= 0xBF) {
                proof {
                    invalid_here(s, i as int);
                }
                return false;
            }
            proof {
                bv_two(b0, sub[1]);
                assert(valid_first_scalar(sub));
                assert(length_of_first_scalar(sub) == 2);
                partial_valid_utf8_extend(s, i as int);
            }
            i = i + 2;
        } else if b0 <= 0xEF {
            if n - i < 3 || !(0x80 <= bytes[i + 1] && bytes[i + 1] <= 0xBF) || !(0x80 <= bytes[i
                + 2] && bytes[i + 2] <= 0xBF) {
                proof {
                    invalid_here(s, i as int);
                }
                return false;
            }
            let b1 = bytes[i + 1];
            if (b0 == 0xE0 && b1 < 0xA0) || (b0 == 0xED && b1 >= 0xA0) {
                // An overlong encoding, or a surrogate.
                proof {
                    bv_three(b0, sub[1], sub[2]);
                    invalid_here(s, i as int);
                }
                return false;
            }
            proof {
                bv_three(b0, sub[1], sub[2]);
                assert(valid_first_scalar(sub));
                assert(length_of_first_scalar(sub) == 3);
                partial_valid_utf8_extend(s, i as int);
            }
            i = i + 3;
        } else if b0 <= 0xF4 {
            if n - i < 4 || !(0x80 <= bytes[i + 1] && bytes[i + 1] <= 0xBF) || !(0x80 <= bytes[i
                + 2] && bytes[i + 2] <= 0xBF) || !(0x80 <= bytes[i + 3] && bytes[i + 3] <= 0xBF) {
                proof {
                    invalid_here(s, i as int);
                }
                return false;
            }
            let b1 = bytes[i + 1];
            if (b0 == 0xF0 && b1 < 0x90) || (b0 == 0xF4 && b1 > 0x8F) {
                // An overlong encoding, or a codepoint past U+10FFFF.
                proof {
                    bv_four(b0, sub[1], sub[2], sub[3]);
                    invalid_here(s, i as int);
                }
                return false;
            }
            proof {
                bv_four(b0, sub[1], sub[2], sub[3]);
                assert(valid_first_scalar(sub));
                assert(length_of_first_scalar(sub) == 4);
                partial_valid_utf8_extend(s, i as int);
            }
            i = i + 4;
        } else {
            // 0xF5 through 0xFF: no well-formed encoding starts here.
            proof {
                assert(!valid_first_scalar(sub)) by {
                    if b0 <= 0xf7 && sub.len() >= 4 && is_continuation_byte(sub[1])
                        && is_continuation_byte(sub[2]) && is_continuation_byte(sub[3]) {
                        bv_four(b0, sub[1], sub[2], sub[3]);
                    }
                }
                invalid_here(s, i as int);
            }
            return false;
        }
    }
    proof {
        assert(s.subrange(0, n as int) =~= s);
    }
    true
}

} // verus!
