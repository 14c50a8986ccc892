//! The RESP wire codec: a spec-level parser and serializer over byte
//! sequences, and verified executable counterparts. The parser consumes a
//! prefix of its buffer and reports exactly how many bytes it used, so a
//! streaming reader can accumulate bytes and retry.
use vstd::prelude::*;
use vstd::slice::slice_subrange;
use vstd::slice::slice_to_vec;

use crate::numbers::dec_int;
use crate::numbers::int_line_value;
use crate::numbers::parse_int;
use crate::numbers::u64_to_decimal;
use crate::numbers::i64_to_decimal;
use crate::value::ProtocolError;
use crate::value::RespType;
use crate::value::ValueView;
use crate::value::CR;
use crate::value::LF;

verus! {

broadcast use vstd::std_specs::vec::axiom_vec_index_decreases;

/// Wire tag of a simple string, `+`.
pub const TAG_SIMPLE: u8 = 43;

/// Wire tag of an error, `-`.
pub const TAG_ERROR: u8 = 45;

/// Wire tag of an integer, `:`.
pub const TAG_INTEGER: u8 = 58;

/// Wire tag of a bulk string, `$`.
pub const TAG_BULK: u8 = 36;

/// Wire tag of an array, `*`.
pub const TAG_ARRAY: u8 = 42;

/// The two-byte line terminator.
pub open spec fn crlf() -> Seq<u8> {
    seq![CR, LF]
}

/// What parsing a buffer yields: a value and the bytes consumed, or a
/// protocol error.
#[verifier::ext_equal]
pub enum SpecParsed {
    Found(ValueView, int),
    Fail(ProtocolError),
}

/// What parsing a run of consecutive values yields.
#[verifier::ext_equal]
pub enum SpecElems {
    Found(Seq<ValueView>, int),
    Fail(ProtocolError),
}

/// The index of the first CRLF pair in `s`, if any.
pub open spec fn find_crlf(s: Seq<u8>) -> Option<int>
    decreases s.len(),
{
    if s.len() < 2 {
        None
    } else if s[0] == CR && s[1] == LF {
        Some(0)
    } else {
        match find_crlf(s.drop_first()) {
            Some(i) => Some(i + 1),
            None => None,
        }
    }
}

/// What one RESP value at the front of `s` means. The buffer may extend
/// past the value; the consumed count delimits it.
pub open spec fn spec_parse(s: Seq<u8>) -> SpecParsed
    decreases s.len(), 0int,
{
    if s.len() == 0 {
        SpecParsed::Fail(ProtocolError::Incomplete)
    } else {
        let tag = s[0];
        if tag == TAG_SIMPLE || tag == TAG_ERROR || tag == TAG_INTEGER {
            match find_crlf(s.skip(1)) {
                None => SpecParsed::Fail(ProtocolError::Incomplete),
                Some(k) => {
                    let line = s.subrange(1, 1 + k);
                    if tag == TAG_SIMPLE {
                        SpecParsed::Found(ValueView::SimpleString(line), 3 + k)
                    } else if tag == TAG_ERROR {
                        SpecParsed::Found(ValueView::Error(line), 3 + k)
                    } else {
                        match int_line_value(line) {
                            None => SpecParsed::Fail(ProtocolError::InvalidInteger),
                            Some(v) => SpecParsed::Found(ValueView::Integer(v), 3 + k),
                        }
                    }
                },
            }
        } else if tag == TAG_BULK {
            match find_crlf(s.skip(1)) {
                None => SpecParsed::Fail(ProtocolError::Incomplete),
                Some(k) => match int_line_value(s.subrange(1, 1 + k)) {
                    None => SpecParsed::Fail(ProtocolError::InvalidInteger),
                    Some(len) => if len < 0 {
                        SpecParsed::Fail(ProtocolError::NegativeLength)
                    } else if s.len() < 3 + k + len + 2 {
                        SpecParsed::Fail(ProtocolError::Truncated)
                    } else {
                        SpecParsed::Found(
                            ValueView::BulkString(s.subrange(3 + k, 3 + k + len)),
                            3 + k + len + 2,
                        )
                    },
                },
            }
        } else if tag == TAG_ARRAY {
            match find_crlf(s.skip(1)) {
                None => SpecParsed::Fail(ProtocolError::Incomplete),
                Some(k) => match int_line_value(s.subrange(1, 1 + k)) {
                    None => SpecParsed::Fail(ProtocolError::InvalidInteger),
                    Some(count) => if count < 0 {
                        SpecParsed::Fail(ProtocolError::NegativeLength)
                    } else if !(0 <= k && 3 + k <= s.len()) {
                        // Never reached: a found CRLF lies within the
                        // buffer. The branch keeps the recursion visibly
                        // bounded.
                        SpecParsed::Fail(ProtocolError::Incomplete)
                    } else {
                        match spec_parse_elems(s.skip(3 + k), count) {
                            SpecElems::Fail(e) => SpecParsed::Fail(e),
                            SpecElems::Found(vs, m) => SpecParsed::Found(
                                ValueView::Array(vs),
                                3 + k + m,
                            ),
                        }
                    },
                },
            }
        } else {
            SpecParsed::Fail(ProtocolError::UnknownTag)
        }
    }
}

/// What `count` consecutive RESP values at the front of `s` mean.
pub open spec fn spec_parse_elems(s: Seq<u8>, count: int) -> SpecElems
    decreases s.len(), 1int, count,
{
    if count <= 0 {
        SpecElems::Found(Seq::empty(), 0)
    } else {
        match spec_parse(s) {
            SpecParsed::Fail(e) => SpecElems::Fail(e),
            SpecParsed::Found(v, n) => {
                if !(1 <= n <= s.len()) {
                    // Never reached: a parsed value consumes at least one
                    // byte and never more than the buffer holds. The
                    // branch keeps the recursion visibly bounded.
                    SpecElems::Fail(ProtocolError::Incomplete)
                } else {
                    match spec_parse_elems(s.skip(n), count - 1) {
                        SpecElems::Fail(e) => SpecElems::Fail(e),
                        SpecElems::Found(vs, m) => SpecElems::Found(seq![v] + vs, n + m),
                    }
                }
            },
        }
    }
}

/// Prepends already-parsed values and consumed bytes to the outcome of
/// parsing the remaining values.
pub open spec fn spec_elems_prepend(vs: Seq<ValueView>, n: int, e: SpecElems) -> SpecElems {
    match e {
        SpecElems::Found(vs2, m) => SpecElems::Found(vs + vs2, n + m),
        SpecElems::Fail(err) => SpecElems::Fail(err),
    }
}

/// The models of a vector of values, in order.
pub open spec fn views_of(items: Seq<RespType>) -> Seq<ValueView> {
    Seq::new(items.len(), |i: int| items[i]@)
}

/// The wire bytes of a value.
pub open spec fn spec_serialize(v: ValueView) -> Seq<u8>
    decreases v,
{
    match v {
        ValueView::SimpleString(s) => seq![TAG_SIMPLE] + s + crlf(),
        ValueView::Error(s) => seq![TAG_ERROR] + s + crlf(),
        ValueView::Integer(i) => seq![TAG_INTEGER] + dec_int(i) + crlf(),
        ValueView::BulkString(s) => seq![TAG_BULK] + dec_int(s.len() as int) + crlf() + s
            + crlf(),
        ValueView::Array(vs) => seq![TAG_ARRAY] + dec_int(vs.len() as int) + crlf()
            + spec_serialize_elems(vs),
    }
}

/// The wire bytes of a run of values, concatenated in order.
pub open spec fn spec_serialize_elems(vs: Seq<ValueView>) -> Seq<u8>
    decreases vs,
{
    if vs.len() == 0 {
        Seq::empty()
    } else {
        spec_serialize(vs[0]) + spec_serialize_elems(vs.drop_first())
    }
}

/// The executable parse outcome agrees with the spec-level one.
pub open spec fn parse_result_matches(
    r: Result<(RespType, usize), ProtocolError>,
    sp: SpecParsed,
) -> bool {
    match r {
        Ok((v, n)) => sp == SpecParsed::Found(v@, n as int),
        Err(e) => sp == SpecParsed::Fail(e),
    }
}

pub proof fn lemma_find_crlf_from_scan(s: Seq<u8>, k: int)
    requires
        0 <= k,
        k + 2 <= s.len(),
        s[k] == CR,
        s[k + 1] == LF,
        forall|j: int| 0 <= j < k ==> !(#[trigger] s[j] == CR && s[j + 1] == LF),
    ensures
        find_crlf(s) == Some(k),
    decreases k,
{
    if k == 0 {
    } else {
        let t = s.drop_first();
        assert forall|j: int| 0 <= j < k - 1 implies !(#[trigger] t[j] == CR && t[j + 1] == LF) by {
            assert(t[j] == s[j + 1]);
            assert(t[j + 1] == s[j + 2]);
        }
        assert(t[k - 1] == s[k]);
        assert(t[k] == s[k + 1]);
        lemma_find_crlf_from_scan(t, k - 1);
    }
}

pub proof fn lemma_find_crlf_none(s: Seq<u8>)
    requires
        forall|j: int| 0 <= j < s.len() - 1 ==> !(#[trigger] s[j] == CR && s[j + 1] == LF),
    ensures
        find_crlf(s) is None,
    decreases s.len(),
{
    if s.len() >= 2 {
        let t = s.drop_first();
        assert forall|j: int| 0 <= j < t.len() - 1 implies !(#[trigger] t[j] == CR && t[j + 1]
            == LF) by {
            assert(t[j] == s[j + 1]);
            assert(t[j + 1] == s[j + 2]);
        }
        lemma_find_crlf_none(t);
    }
}

/// Byte-for-byte equality of two slices.
pub(crate) fn slices_eq(a: &[u8], b: &[u8]) -> (r: bool)
    ensures
        r == (a@ == b@),
{
    if a.len() != b.len() {
        return false;
    }
    let n = a.len();
    let mut i: usize = 0;
    while i < n
        invariant
            n == a@.len() == b@.len(),
            0 <= i <= n,
            forall|j: int| 0 <= j < i ==> a@[j] == b@[j],
        decreases n - i,
    {
        if a[i] != b[i] {
            return false;
        }
        i = i + 1;
    }
    proof {
        assert(a@ =~= b@);
    }
    true
}

/// Scans for the first CRLF. On success returns the bytes before it and
/// the count of bytes consumed through the CRLF itself.
pub fn read_until_crlf(buffer: &[u8]) -> (r: Option<(&[u8], usize)>)
    ensures
        match r {
            Some(p) => {
                &&& 2 <= p.1 <= buffer@.len()
                &&& find_crlf(buffer@) == Some(p.1 - 2)
                &&& p.0@ == buffer@.take(p.1 - 2)
            },
            None => find_crlf(buffer@) is None,
        },
{
    let n = buffer.len();
    let mut i: usize = 1;
    while i < n
        invariant
            1 <= i,
            n == buffer@.len(),
            forall|j: int| 0 <= j < i - 1 ==> !(#[trigger] buffer@[j] == CR && buffer@[j + 1]
                == LF),
        decreases n - i,
    {
        if buffer[i - 1] == CR && buffer[i] == LF {
            proof {
                lemma_find_crlf_from_scan(buffer@, i - 1);
            }
            let line = slice_subrange(buffer, 0, i - 1);
            return Some((line, i + 1));
        }
        i = i + 1;
    }
    proof {
        lemma_find_crlf_none(buffer@);
    }
    None
}

/// Parses one RESP value from the front of the buffer, returning it with
/// the number of bytes it occupied. The result, success or failure, is
/// exactly what [`spec_parse`] assigns to the buffer's contents. An empty
/// buffer is `Incomplete`: a reader that has not yet received a byte of
/// the next message simply needs more.
pub fn parse_message(buffer: &[u8]) -> (r: Result<(RespType, usize), ProtocolError>)
    ensures
        parse_result_matches(r, spec_parse(buffer@)),
        r matches Ok(p) ==> 3 <= p.1 <= buffer@.len(),
    decreases buffer@.len(), 1int,
{
    if buffer.len() == 0 {
        return Err(ProtocolError::Incomplete);
    }
    let tag = buffer[0];
    if tag == TAG_SIMPLE {
        parse_simple_string(buffer)
    } else if tag == TAG_ERROR {
        parse_error(buffer)
    } else if tag == TAG_INTEGER {
        parse_integer(buffer)
    } else if tag == TAG_BULK {
        parse_bulk_string(buffer)
    } else if tag == TAG_ARRAY {
        parse_array(buffer)
    } else {
        Err(ProtocolError::UnknownTag)
    }
}

/// Parses a simple-string message, `+<payload>\r\n`.
pub(crate) fn parse_simple_string(buffer: &[u8]) -> (r: Result<(RespType, usize), ProtocolError>)
    requires
        buffer@.len() >= 1,
        buffer@[0] == TAG_SIMPLE,
    ensures
        parse_result_matches(r, spec_parse(buffer@)),
        r matches Ok(p) ==> 3 <= p.1 <= buffer@.len(),
{
    let rest = slice_subrange(buffer, 1, buffer.len());
    proof {
        assert(rest@ =~= buffer@.skip(1));
    }
    match read_until_crlf(rest) {
        None => Err(ProtocolError::Incomplete),
        Some((line, consumed)) => {
            let payload = slice_to_vec(line);
            proof {
                assert(line@ =~= buffer@.subrange(1, 1 + (consumed - 2)));
                assert(spec_parse(buffer@) =~= SpecParsed::Found(
                    ValueView::SimpleString(line@),
                    consumed + 1,
                ));
            }
            Ok((RespType::SimpleString(payload), consumed + 1))
        },
    }
}

/// Parses an error message, `-<payload>\r\n`.
pub(crate) fn parse_error(buffer: &[u8]) -> (r: Result<(RespType, usize), ProtocolError>)
    requires
        buffer@.len() >= 1,
        buffer@[0] == TAG_ERROR,
    ensures
        parse_result_matches(r, spec_parse(buffer@)),
        r matches Ok(p) ==> 3 <= p.1 <= buffer@.len(),
{
    let rest = slice_subrange(buffer, 1, buffer.len());
    proof {
        assert(rest@ =~= buffer@.skip(1));
    }
    match read_until_crlf(rest) {
        None => Err(ProtocolError::Incomplete),
        Some((line, consumed)) => {
            let payload = slice_to_vec(line);
            proof {
                assert(line@ =~= buffer@.subrange(1, 1 + (consumed - 2)));
                assert(spec_parse(buffer@) =~= SpecParsed::Found(
                    ValueView::Error(line@),
                    consumed + 1,
                ));
            }
            Ok((RespType::Error(payload), consumed + 1))
        },
    }
}

/// Parses an integer message, `:<decimal>\r\n`.
pub(crate) fn parse_integer(buffer: &[u8]) -> (r: Result<(RespType, usize), ProtocolError>)
    requires
        buffer@.len() >= 1,
        buffer@[0] == TAG_INTEGER,
    ensures
        parse_result_matches(r, spec_parse(buffer@)),
        r matches Ok(p) ==> 3 <= p.1 <= buffer@.len(),
{
    let rest = slice_subrange(buffer, 1, buffer.len());
    proof {
        assert(rest@ =~= buffer@.skip(1));
    }
    match read_until_crlf(rest) {
        None => Err(ProtocolError::Incomplete),
        Some((line, consumed)) => {
            proof {
                assert(line@ =~= buffer@.subrange(1, 1 + (consumed - 2)));
            }
            match parse_int(line) {
                Err(_) => Err(ProtocolError::InvalidInteger),
                Ok(i) => {
                    proof {
                        assert(spec_parse(buffer@) =~= SpecParsed::Found(
                            ValueView::Integer(i as int),
                            consumed + 1,
                        ));
                    }
                    Ok((RespType::Integer(i), consumed + 1))
                },
            }
        },
    }
}

/// Parses a bulk-string message, `$<len>\r\n<len bytes>\r\n`. As the
/// framing is length-directed, the two bytes after the payload are
/// skipped without inspection.
pub(crate) fn parse_bulk_string(buffer: &[u8]) -> (r: Result<(RespType, usize), ProtocolError>)
    requires
        buffer@.len() >= 1,
        buffer@[0] == TAG_BULK,
    ensures
        parse_result_matches(r, spec_parse(buffer@)),
        r matches Ok(p) ==> 3 <= p.1 <= buffer@.len(),
{
    let rest = slice_subrange(buffer, 1, buffer.len());
    proof {
        assert(rest@ =~= buffer@.skip(1));
    }
    match read_until_crlf(rest) {
        None => Err(ProtocolError::Incomplete),
        Some((line, consumed)) => {
            proof {
                assert(line@ =~= buffer@.subrange(1, 1 + (consumed - 2)));
            }
            match parse_int(line) {
                Err(_) => Err(ProtocolError::InvalidInteger),
                Ok(len_i) => {
                    if len_i < 0 {
                        return Err(ProtocolError::NegativeLength);
                    }
                    let header = consumed + 1;
                    let remaining = buffer.len() - header;
                    if (remaining as u64) < (len_i as u64) + 2 {
                        return Err(ProtocolError::Truncated);
                    }
                    let len_u = len_i as usize;
                    let payload_slice = slice_subrange(buffer, header, header + len_u);
                    let payload = slice_to_vec(payload_slice);
                    proof {
                        assert(payload_slice@ =~= buffer@.subrange(
                            header as int,
                            header + len_i,
                        ));
                        assert(spec_parse(buffer@) =~= SpecParsed::Found(
                            ValueView::BulkString(payload_slice@),
                            header + len_i + 2,
                        ));
                    }
                    Ok((RespType::BulkString(payload), header + len_u + 2))
                },
            }
        },
    }
}

/// Parses an array message, `*<count>\r\n` followed by `count` values
/// back to back.
pub(crate) fn parse_array(buffer: &[u8]) -> (r: Result<(RespType, usize), ProtocolError>)
    requires
        buffer@.len() >= 1,
        buffer@[0] == TAG_ARRAY,
    ensures
        parse_result_matches(r, spec_parse(buffer@)),
        r matches Ok(p) ==> 3 <= p.1 <= buffer@.len(),
    decreases buffer@.len(), 0int,
{
    let rest = slice_subrange(buffer, 1, buffer.len());
    proof {
        assert(rest@ =~= buffer@.skip(1));
    }
    match read_until_crlf(rest) {
        None => Err(ProtocolError::Incomplete),
        Some((line, consumed)) => {
            proof {
                assert(line@ =~= buffer@.subrange(1, 1 + (consumed - 2)));
            }
            match parse_int(line) {
                Err(_) => Err(ProtocolError::InvalidInteger),
                Ok(count_i) => {
                    if count_i < 0 {
                        return Err(ProtocolError::NegativeLength);
                    }
                    let ghost k = consumed - 2;
                    let header = consumed + 1;
                    let count = count_i as u64;
                    let mut items: Vec<RespType> = Vec::new();
                    let mut pos: usize = header;
                    let mut idx: u64 = 0;
                    while idx < count
                        invariant
                            3 <= header <= pos <= buffer@.len(),
                            buffer@[0] == TAG_ARRAY,
                            0 <= k,
                            header == k + 3,
                            find_crlf(buffer@.skip(1)) == Some(k),
                            int_line_value(buffer@.subrange(1, 1 + k)) == Some(count_i as int),
                            0 <= count_i,
                            count == count_i as u64,
                            idx <= count,
                            items@.len() == idx,
                            spec_parse_elems(buffer@.skip(header as int), count_i as int)
                                == spec_elems_prepend(
                                views_of(items@),
                                pos - header,
                                spec_parse_elems(buffer@.skip(pos as int), count_i - idx),
                            ),
                        decreases count - idx,
                    {
                        let sub = slice_subrange(buffer, pos, buffer.len());
                        proof {
                            assert(sub@ =~= buffer@.skip(pos as int));
                        }
                        match parse_message(sub) {
                            Err(e) => {
                                proof {
                                    assert(spec_parse_elems(
                                        buffer@.skip(pos as int),
                                        count_i - idx,
                                    ) == SpecElems::Fail(e));
                                    assert(spec_parse_elems(
                                        buffer@.skip(header as int),
                                        count_i as int,
                                    ) == SpecElems::Fail(e));
                                    assert(spec_parse(buffer@) == SpecParsed::Fail(e));
                                }
                                return Err(e);
                            },
                            Ok((v, n)) => {
                                proof {
                                    let s_pos = buffer@.skip(pos as int);
                                    let inner = spec_parse_elems(
                                        buffer@.skip(pos + n),
                                        count_i - idx - 1,
                                    );
                                    assert(s_pos.skip(n as int) =~= buffer@.skip(pos + n));
                                    assert(spec_parse_elems(s_pos, count_i - idx)
                                        == spec_elems_prepend(seq![v@], n as int, inner));
                                    lemma_elems_prepend_assoc(
                                        views_of(items@),
                                        pos - header,
                                        seq![v@],
                                        n as int,
                                        inner,
                                    );
                                    assert(views_of(items@) + seq![v@] =~= views_of(
                                        items@.push(v),
                                    ));
                                }
                                items.push(v);
                                pos = pos + n;
                                idx = idx + 1;
                            },
                        }
                    }
                    proof {
                        assert(spec_parse_elems(buffer@.skip(pos as int), 0) == SpecElems::Found(
                            Seq::<ValueView>::empty(),
                            0,
                        ));
                        assert(views_of(items@) + Seq::<ValueView>::empty() =~= views_of(
                            items@,
                        ));
                        assert(spec_parse_elems(buffer@.skip(header as int), count_i as int)
                            == SpecElems::Found(views_of(items@), pos - header));
                        let vv = RespType::Array(items)@;
                        let vs = vv->Array_0;
                        assert(vs.len() == items@.len());
                        assert forall|j: int| 0 <= j < vs.len() implies vs[j] == views_of(
                            items@,
                        )[j] by {}
                        assert(vs =~= views_of(items@));
                        assert(RespType::Array(items)@ == ValueView::Array(views_of(items@)));
                        assert(spec_parse(buffer@) =~= SpecParsed::Found(
                            ValueView::Array(views_of(items@)),
                            pos as int,
                        ));
                    }
                    Ok((RespType::Array(items), pos))
                },
            }
        },
    }
}

/// Prepending distributes over itself.
proof fn lemma_elems_prepend_assoc(
    vs1: Seq<ValueView>,
    n1: int,
    vs2: Seq<ValueView>,
    n2: int,
    e: SpecElems,
)
    ensures
        spec_elems_prepend(vs1, n1, spec_elems_prepend(vs2, n2, e)) == spec_elems_prepend(
            vs1 + vs2,
            n1 + n2,
            e,
        ),
{
    match e {
        SpecElems::Found(vs3, m) => {
            assert(vs1 + (vs2 + vs3) =~= (vs1 + vs2) + vs3);
        },
        SpecElems::Fail(_) => {},
    }
}

impl RespType {
    /// Frames this value as RESP wire bytes.
    pub fn serialize(&self) -> (r: Vec<u8>)
        ensures
            r@ == spec_serialize(self@),
        decreases *self,
    {
        match self {
            RespType::SimpleString(s) => {
                let mut out: Vec<u8> = Vec::new();
                out.push(TAG_SIMPLE);
                out.extend_from_slice(s.as_slice());
                out.push(CR);
                out.push(LF);
                proof {
                    assert(out@ =~= spec_serialize(self@));
                }
                out
            },
            RespType::Error(s) => {
                let mut out: Vec<u8> = Vec::new();
                out.push(TAG_ERROR);
                out.extend_from_slice(s.as_slice());
                out.push(CR);
                out.push(LF);
                proof {
                    assert(out@ =~= spec_serialize(self@));
                }
                out
            },
            RespType::Integer(i) => {
                let mut out: Vec<u8> = Vec::new();
                out.push(TAG_INTEGER);
                let mut digits = i64_to_decimal(*i);
                out.append(&mut digits);
                out.push(CR);
                out.push(LF);
                proof {
                    assert(out@ =~= spec_serialize(self@));
                }
                out
            },
            RespType::BulkString(s) => {
                let mut out: Vec<u8> = Vec::new();
                out.push(TAG_BULK);
                let mut digits = u64_to_decimal(s.len() as u64);
                out.append(&mut digits);
                out.push(CR);
                out.push(LF);
                out.extend_from_slice(s.as_slice());
                out.push(CR);
                out.push(LF);
                proof {
                    assert(out@ =~= spec_serialize(self@));
                }
                out
            },
            RespType::Array(elems) => {
                let mut out: Vec<u8> = Vec::new();
                out.push(TAG_ARRAY);
                let mut digits = u64_to_decimal(elems.len() as u64);
                out.append(&mut digits);
                out.push(CR);
                out.push(LF);
                let ghost head = out@;
                let n = elems.len();
                let mut i: usize = 0;
                while i < n
                    invariant
                        *self == RespType::Array(*elems),
                        n == elems@.len(),
                        0 <= i <= n,
                        out@ == head + spec_serialize_elems(views_of(elems@).take(i as int)),
                    decreases n - i,
                {
                    proof {
                        assert(decreases_to!(*self => (*self)->Array_0));
                        assert(decreases_to!((*self)->Array_0 => (*self)->Array_0@));
                        assert(decreases_to!((*self)->Array_0@ => (*self)->Array_0@[i as int]));
                        assert(decreases_to!(*self => elems@[i as int]));
                    }
                    let mut piece = elems[i].serialize();
                    proof {
                        lemma_serialize_elems_take_snoc(views_of(elems@), i as int);
                        assert(views_of(elems@)[i as int] == elems@[i as int]@);
                        assert((head + spec_serialize_elems(views_of(elems@).take(i as int)))
                            + spec_serialize(views_of(elems@)[i as int]) =~= head
                            + spec_serialize_elems(views_of(elems@).take(i + 1)));
                    }
                    out.append(&mut piece);
                    i = i + 1;
                }
                proof {
                    assert(views_of(elems@).take(n as int) =~= views_of(elems@));
                    let vv = self@;
                    let vs = vv->Array_0;
                    assert(vs.len() == elems@.len());
                    assert forall|j: int| 0 <= j < vs.len() implies vs[j] == views_of(
                        elems@,
                    )[j] by {}
                    assert(vs =~= views_of(elems@));
                    assert(self@ == ValueView::Array(views_of(elems@)));
                    assert(out@ =~= spec_serialize(self@));
                }
                out
            },
        }
    }
}

/// Serializing one more value appends its bytes.
proof fn lemma_serialize_elems_take_snoc(vs: Seq<ValueView>, i: int)
    requires
        0 <= i < vs.len(),
    ensures
        spec_serialize_elems(vs.take(i + 1)) == spec_serialize_elems(vs.take(i)) + spec_serialize(
            vs[i],
        ),
    decreases i,
{
    if i == 0 {
        let t = vs.take(1);
        assert(t[0] == vs[0]);
        assert(vs.take(0) =~= Seq::<ValueView>::empty());
        assert(t.drop_first() =~= vs.take(0));
        assert(spec_serialize_elems(vs.take(0)) == Seq::<u8>::empty());
        assert(spec_serialize_elems(t) == spec_serialize(vs[0]) + spec_serialize_elems(
            vs.take(0),
        ));
        assert(spec_serialize(vs[0]) + Seq::<u8>::empty() =~= Seq::<u8>::empty()
            + spec_serialize(vs[0]));
        assert(spec_serialize_elems(vs.take(1)) =~= spec_serialize_elems(vs.take(0))
            + spec_serialize(vs[0]));
    } else {
        lemma_serialize_elems_take_snoc(vs.drop_first(), i - 1);
        let a = vs.take(i + 1);
        let b = vs.take(i);
        assert(a[0] == vs[0]);
        assert(b[0] == vs[0]);
        assert(a.drop_first() =~= vs.drop_first().take(i));
        assert(b.drop_first() =~= vs.drop_first().take(i - 1));
        assert(vs.drop_first()[i - 1] == vs[i]);
        assert(spec_serialize(vs[0]) + (spec_serialize_elems(vs.drop_first().take(i - 1))
            + spec_serialize(vs[i])) =~= (spec_serialize(vs[0]) + spec_serialize_elems(
            vs.drop_first().take(i - 1),
        )) + spec_serialize(vs[i]));
    }
}

} // verus!
