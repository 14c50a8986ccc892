//! The RESP value model: the tagged union shared by the codec and the
//! command handler, its ghost view, and the codec's error taxonomy.
use vstd::prelude::*;

verus! {

broadcast use vstd::std_specs::vec::axiom_vec_index_decreases;

/// A RESP value. Payloads are kept as raw byte sequences so that the codec
/// and the store are byte-accurate; text decoding happens only where a
/// command name is matched.
#[derive(Debug, PartialEq, Eq)]
pub enum RespType {
    /// A short trusted-content line, framed `+...\r\n`.
    SimpleString(Vec<u8>),
    /// An error line, framed `-...\r\n`.
    Error(Vec<u8>),
    /// A signed 64-bit integer, framed `:<decimal>\r\n`.
    Integer(i64),
    /// A length-prefixed byte payload, framed `$<len>\r\n<bytes>\r\n`.
    BulkString(Vec<u8>),
    /// An ordered sequence of values, framed `*<count>\r\n<elements...>`.
    Array(Vec<RespType>),
}

/// The mathematical model of a [`RespType`]: the same tree over `Seq<u8>`
/// and `int`. Contracts speak of this model.
#[verifier::ext_equal]
pub enum ValueView {
    SimpleString(Seq<u8>),
    Error(Seq<u8>),
    Integer(int),
    BulkString(Seq<u8>),
    Array(Seq<ValueView>),
}

impl RespType {
    /// The model of this value.
    pub open spec fn view(self) -> ValueView
        decreases self,
    {
        match self {
            RespType::SimpleString(s) => ValueView::SimpleString(s@),
            RespType::Error(s) => ValueView::Error(s@),
            RespType::Integer(i) => ValueView::Integer(i as int),
            RespType::BulkString(s) => ValueView::BulkString(s@),
            RespType::Array(elems) => ValueView::Array(
                Seq::new(
                    elems@.len(),
                    |i: int|
                        if 0 <= i < elems@.len() {
                            elems[i].view()
                        } else {
                            ValueView::Integer(0)
                        },
                ),
            ),
        }
    }
}

pub const CR: u8 = 13;
pub const LF: u8 = 10;

/// `s` nowhere contains the two-byte sequence CRLF. Simple-string and error
/// payloads must satisfy this, or the wire framing could not delimit them.
pub open spec fn crlf_free(s: Seq<u8>) -> bool {
    forall|i: int| 0 <= i < s.len() - 1 ==> !(#[trigger] s[i] == CR && s[i + 1] == LF)
}

/// A value the serializer can frame so that parsing recovers it exactly:
/// line payloads contain no CRLF, integers fit in 64 signed bits, and
/// payload and element counts fit in the wire's signed length field.
/// Every value built from `RespType` satisfies the numeric bounds by
/// construction; the CRLF condition is a genuine restriction.
pub open spec fn valid_value(v: ValueView) -> bool
    decreases v,
{
    match v {
        ValueView::SimpleString(s) => crlf_free(s),
        ValueView::Error(s) => crlf_free(s),
        ValueView::Integer(i) => i64::MIN <= i <= i64::MAX,
        ValueView::BulkString(s) => s.len() <= i64::MAX,
        ValueView::Array(elems) => elems.len() <= i64::MAX && forall|i: int|
            0 <= i < elems.len() ==> valid_value(#[trigger] elems[i]),
    }
}

/// Why a buffer failed to parse. `Incomplete` and `Truncated` mean the
/// buffer holds a proper prefix of a message and more bytes may still
/// complete it; the others mean the bytes can never become a message.
#[derive(Clone, Copy, PartialEq, Eq, Structural, Debug)]
pub enum ProtocolError {
    /// The first byte is none of `+ - : $ *`.
    UnknownTag,
    /// A line that must end in CRLF runs past the end of the buffer.
    Incomplete,
    /// A declared bulk-string payload (or its closing CRLF) runs past the
    /// end of the buffer.
    Truncated,
    /// A declared bulk-string or array length is negative.
    NegativeLength,
    /// A decimal integer field could not be parsed as one.
    InvalidInteger,
}

/// The failures a reader should answer by fetching more bytes: the buffer
/// holds a proper prefix of a message, not a malformed one.
pub open spec fn spec_needs_more(e: ProtocolError) -> bool {
    e == ProtocolError::Incomplete || e == ProtocolError::Truncated
}

impl ProtocolError {
    /// True for the failures a reader should answer by fetching more bytes
    /// and retrying, false for the ones that condemn the buffer for good.
    pub fn needs_more_bytes(&self) -> (r: bool)
        ensures
            r == spec_needs_more(*self),
    {
        match self {
            ProtocolError::Incomplete => true,
            ProtocolError::Truncated => true,
            _ => false,
        }
    }
}

} // verus!
