//! The codec's two framing laws: serializing then parsing recovers the
//! value exactly, and a strict prefix of a serialized value parses to a
//! retryable failure, never to a wrong value or a fatal error.
use vstd::prelude::*;

use crate::numbers::dec_int;
use crate::numbers::int_line_value;
use crate::numbers::lemma_int_line_dec;
use crate::resp::crlf;
use crate::resp::find_crlf;
use crate::resp::lemma_find_crlf_from_scan;
use crate::resp::lemma_find_crlf_none;
use crate::resp::spec_parse;
use crate::resp::spec_parse_elems;
use crate::resp::spec_serialize;
use crate::resp::spec_serialize_elems;
use crate::resp::SpecElems;
use crate::resp::SpecParsed;
use crate::resp::TAG_ARRAY;
use crate::resp::TAG_BULK;
use crate::resp::TAG_ERROR;
use crate::resp::TAG_INTEGER;
use crate::resp::TAG_SIMPLE;
use crate::value::crlf_free;
use crate::value::spec_needs_more;
use crate::value::valid_value;
use crate::value::ProtocolError;
use crate::value::ValueView;
use crate::value::CR;
use crate::value::LF;

verus! {

/// In `content ++ CRLF ++ suffix` with CRLF-free content, the first CRLF
/// is the one after the content.
pub proof fn lemma_find_crlf_at(content: Seq<u8>, suffix: Seq<u8>)
    requires
        crlf_free(content),
    ensures
        find_crlf(content + crlf() + suffix) == Some(content.len() as int),
{
    let w = content + crlf() + suffix;
    let k = content.len() as int;
    assert(w[k] == CR);
    assert(w[k + 1] == LF);
    assert forall|j: int| 0 <= j < k implies !(#[trigger] w[j] == CR && w[j + 1] == LF) by {
        if j + 1 < k {
            assert(w[j] == content[j]);
            assert(w[j + 1] == content[j + 1]);
        } else {
            assert(w[j] == content[j]);
            assert(w[j + 1] == CR);
        }
    }
    lemma_find_crlf_from_scan(w, k);
}

/// A prefix that ends at or before the CRLF terminator of a CRLF-free
/// line contains no CRLF at all.
pub proof fn lemma_find_crlf_prefix_none(content: Seq<u8>, suffix: Seq<u8>, m: int)
    requires
        crlf_free(content),
        0 <= m <= content.len() + 1,
        m <= (content + crlf() + suffix).len(),
    ensures
        find_crlf((content + crlf() + suffix).take(m)) is None,
{
    let w = content + crlf() + suffix;
    let p = w.take(m);
    assert forall|j: int| 0 <= j < p.len() - 1 implies !(#[trigger] p[j] == CR && p[j + 1]
        == LF) by {
        if j + 1 < content.len() {
            assert(p[j] == content[j]);
            assert(p[j + 1] == content[j + 1]);
        } else {
            assert(j + 1 == content.len());
            assert(p[j + 1] == CR);
        }
    }
    lemma_find_crlf_none(p);
}

/// A serialized value is at least three bytes: a tag, then at worst an
/// empty line, then CRLF.
pub proof fn lemma_serialize_len(v: ValueView)
    ensures
        spec_serialize(v).len() >= 3,
{
    match v {
        ValueView::SimpleString(_) => {},
        ValueView::Error(_) => {},
        ValueView::Integer(_) => {},
        ValueView::BulkString(_) => {},
        ValueView::Array(_) => {},
    }
}

/// Serializing and then parsing recovers the value and its exact length,
/// whatever bytes follow the message on the wire.
pub proof fn lemma_parse_serialize_with(v: ValueView, rest: Seq<u8>)
    requires
        valid_value(v),
    ensures
        spec_parse(spec_serialize(v) + rest) == SpecParsed::Found(
            v,
            spec_serialize(v).len() as int,
        ),
    decreases v,
{
    let w = spec_serialize(v) + rest;
    match v {
        ValueView::SimpleString(s) => {
            assert(w =~= seq![TAG_SIMPLE] + (s + crlf() + rest));
            assert(w.skip(1) =~= s + crlf() + rest);
            lemma_find_crlf_at(s, rest);
            assert(w.subrange(1, 1 + s.len() as int) =~= s);
            assert(spec_parse(w) =~= SpecParsed::Found(v, 3 + s.len() as int));
        },
        ValueView::Error(s) => {
            assert(w =~= seq![TAG_ERROR] + (s + crlf() + rest));
            assert(w.skip(1) =~= s + crlf() + rest);
            lemma_find_crlf_at(s, rest);
            assert(w.subrange(1, 1 + s.len() as int) =~= s);
            assert(spec_parse(w) =~= SpecParsed::Found(v, 3 + s.len() as int));
        },
        ValueView::Integer(i) => {
            let d = dec_int(i);
            lemma_int_line_dec(i);
            assert(crlf_free(d));
            assert(w =~= seq![TAG_INTEGER] + (d + crlf() + rest));
            assert(w.skip(1) =~= d + crlf() + rest);
            lemma_find_crlf_at(d, rest);
            assert(w.subrange(1, 1 + d.len() as int) =~= d);
            assert(spec_parse(w) =~= SpecParsed::Found(v, 3 + d.len() as int));
        },
        ValueView::BulkString(s) => {
            let d = dec_int(s.len() as int);
            lemma_int_line_dec(s.len() as int);
            assert(crlf_free(d));
            let tail = s + crlf() + rest;
            assert(w =~= seq![TAG_BULK] + (d + crlf() + tail));
            assert(w.skip(1) =~= d + crlf() + tail);
            lemma_find_crlf_at(d, tail);
            let k = d.len() as int;
            assert(w.subrange(1, 1 + k) =~= d);
            assert(int_line_value(d) == Some(s.len() as int));
            assert(w.len() >= 3 + k + s.len() + 2);
            assert(w.subrange(3 + k, 3 + k + s.len() as int) =~= s);
            assert(spec_parse(w) =~= SpecParsed::Found(v, 3 + k + s.len() + 2));
        },
        ValueView::Array(vs) => {
            let d = dec_int(vs.len() as int);
            lemma_int_line_dec(vs.len() as int);
            assert(crlf_free(d));
            let body = spec_serialize_elems(vs);
            let tail = body + rest;
            assert(w =~= seq![TAG_ARRAY] + (d + crlf() + tail));
            assert(w.skip(1) =~= d + crlf() + tail);
            lemma_find_crlf_at(d, tail);
            let k = d.len() as int;
            assert(w.subrange(1, 1 + k) =~= d);
            assert(int_line_value(d) == Some(vs.len() as int));
            assert(w.skip(3 + k) =~= body + rest);
            lemma_parse_serialize_elems(vs, rest);
            assert(spec_parse(w) =~= SpecParsed::Found(v, 3 + k + body.len() as int));
        },
    }
}

/// Serializing and then parsing a run of values recovers them all.
pub proof fn lemma_parse_serialize_elems(vs: Seq<ValueView>, rest: Seq<u8>)
    requires
        forall|i: int| 0 <= i < vs.len() ==> valid_value(#[trigger] vs[i]),
    ensures
        spec_parse_elems(spec_serialize_elems(vs) + rest, vs.len() as int) == SpecElems::Found(
            vs,
            spec_serialize_elems(vs).len() as int,
        ),
    decreases vs,
{
    if vs.len() == 0 {
        assert(spec_serialize_elems(vs) + rest =~= rest);
        assert(vs =~= Seq::<ValueView>::empty());
        assert(spec_parse_elems(rest, 0) =~= SpecElems::Found(vs, 0));
    } else {
        let head = spec_serialize(vs[0]);
        let tail_vs = vs.drop_first();
        let tail_bytes = spec_serialize_elems(tail_vs);
        let w = spec_serialize_elems(vs) + rest;
        assert(w =~= head + (tail_bytes + rest));
        lemma_parse_serialize_with(vs[0], tail_bytes + rest);
        lemma_serialize_len(vs[0]);
        let n0 = head.len() as int;
        assert(spec_parse(w) == SpecParsed::Found(vs[0], n0));
        assert(w.skip(n0) =~= tail_bytes + rest);
        lemma_parse_serialize_elems(tail_vs, rest);
        assert(spec_parse_elems(w.skip(n0), vs.len() - 1) == SpecElems::Found(
            tail_vs,
            tail_bytes.len() as int,
        ));
        assert(seq![vs[0]] + tail_vs =~= vs);
        assert(spec_parse_elems(w, vs.len() as int) =~= SpecElems::Found(
            vs,
            spec_serialize_elems(vs).len() as int,
        ));
    }
}

/// Partial-buffer safety: a proper prefix of a serialized value parses to
/// a failure that asks for more bytes — never to a value, and never to a
/// fatal error. A reader that accumulates bytes and retries therefore
/// succeeds exactly when the whole message has arrived.
pub proof fn lemma_strict_prefix_needs_more(v: ValueView, n: int)
    requires
        valid_value(v),
        0 <= n < spec_serialize(v).len(),
    ensures
        spec_parse(spec_serialize(v).take(n)) matches SpecParsed::Fail(e) && spec_needs_more(e),
    decreases v,
{
    let w = spec_serialize(v);
    let p = w.take(n);
    if n == 0 {
        assert(p =~= Seq::<u8>::empty());
    } else {
        match v {
            ValueView::SimpleString(s) => {
                assert(p[0] == TAG_SIMPLE);
                assert(p.skip(1) =~= (s + crlf() + Seq::<u8>::empty()).take(n - 1));
                lemma_find_crlf_prefix_none(s, Seq::empty(), n - 1);
            },
            ValueView::Error(s) => {
                assert(p[0] == TAG_ERROR);
                assert(p.skip(1) =~= (s + crlf() + Seq::<u8>::empty()).take(n - 1));
                lemma_find_crlf_prefix_none(s, Seq::empty(), n - 1);
            },
            ValueView::Integer(i) => {
                let d = dec_int(i);
                lemma_int_line_dec(i);
                assert(p[0] == TAG_INTEGER);
                assert(p.skip(1) =~= (d + crlf() + Seq::<u8>::empty()).take(n - 1));
                lemma_find_crlf_prefix_none(d, Seq::empty(), n - 1);
            },
            ValueView::BulkString(s) => {
                let d = dec_int(s.len() as int);
                lemma_int_line_dec(s.len() as int);
                let k = d.len() as int;
                assert(p[0] == TAG_BULK);
                if n <= k + 2 {
                    assert(p.skip(1) =~= (d + crlf() + (s + crlf())).take(n - 1));
                    lemma_find_crlf_prefix_none(d, s + crlf(), n - 1);
                } else {
                    assert(p.skip(1) =~= d + crlf() + ((s + crlf()).take(n - 3 - k)));
                    lemma_find_crlf_at(d, (s + crlf()).take(n - 3 - k));
                    assert(p.subrange(1, 1 + k) =~= d);
                    assert(int_line_value(d) == Some(s.len() as int));
                    assert(p.len() == n < 3 + k + s.len() + 2);
                    assert(spec_parse(p) == SpecParsed::Fail(ProtocolError::Truncated));
                }
            },
            ValueView::Array(vs) => {
                let d = dec_int(vs.len() as int);
                lemma_int_line_dec(vs.len() as int);
                let k = d.len() as int;
                let body = spec_serialize_elems(vs);
                assert(p[0] == TAG_ARRAY);
                if n <= k + 2 {
                    assert(p.skip(1) =~= (d + crlf() + body).take(n - 1));
                    lemma_find_crlf_prefix_none(d, body, n - 1);
                } else {
                    let m = n - 3 - k;
                    assert(p.skip(1) =~= d + crlf() + body.take(m));
                    lemma_find_crlf_at(d, body.take(m));
                    assert(p.subrange(1, 1 + k) =~= d);
                    assert(int_line_value(d) == Some(vs.len() as int));
                    assert(p.skip(3 + k) =~= body.take(m));
                    lemma_elems_prefix_needs_more(vs, m);
                }
            },
        }
    }
}

/// Partial-buffer safety for a run of values: a proper prefix of their
/// concatenated bytes parses to a failure that asks for more bytes.
proof fn lemma_elems_prefix_needs_more(vs: Seq<ValueView>, m: int)
    requires
        forall|i: int| 0 <= i < vs.len() ==> valid_value(#[trigger] vs[i]),
        0 <= m < spec_serialize_elems(vs).len(),
    ensures
        spec_parse_elems(spec_serialize_elems(vs).take(m), vs.len() as int) matches SpecElems::Fail(
            e,
        ) && spec_needs_more(e),
    decreases vs,
{
    let body = spec_serialize_elems(vs);
    let q = body.take(m);
    let head = spec_serialize(vs[0]);
    let tail_vs = vs.drop_first();
    let tail_bytes = spec_serialize_elems(tail_vs);
    let n0 = head.len() as int;
    lemma_serialize_len(vs[0]);
    if m < n0 {
        assert(q =~= head.take(m));
        lemma_strict_prefix_needs_more(vs[0], m);
        assert(spec_parse_elems(q, vs.len() as int) == SpecElems::Fail(
            spec_parse(q)->Fail_0,
        ));
    } else {
        assert(q =~= head + tail_bytes.take(m - n0));
        lemma_parse_serialize_with(vs[0], tail_bytes.take(m - n0));
        assert(spec_parse(q) == SpecParsed::Found(vs[0], n0));
        assert(q.skip(n0) =~= tail_bytes.take(m - n0));
        lemma_elems_prefix_needs_more(tail_vs, m - n0);
    }
}

/// Round trip: parsing a serialized value yields that value back, having
/// consumed exactly the serialized bytes.
pub proof fn lemma_round_trip(v: ValueView)
    requires
        valid_value(v),
    ensures
        spec_parse(spec_serialize(v)) == SpecParsed::Found(v, spec_serialize(v).len() as int),
{
    lemma_parse_serialize_with(v, Seq::empty());
    assert(spec_serialize(v) + Seq::<u8>::empty() =~= spec_serialize(v));
}

} // verus!
