use resp_kv::parse_int;
use resp_kv::parse_message;
use resp_kv::read_until_crlf;
use resp_kv::MessageBuffer;
use resp_kv::ProtocolError;
use resp_kv::RespType;

fn bulk(s: &[u8]) -> RespType {
    RespType::BulkString(s.to_vec())
}

fn simple(s: &[u8]) -> RespType {
    RespType::SimpleString(s.to_vec())
}

#[test]
fn serialize_simple_string() {
    assert_eq!(simple(b"PONG").serialize(), b"+PONG\r\n".to_vec());
    assert_eq!(simple(b"").serialize(), b"+\r\n".to_vec());
}

#[test]
fn serialize_error() {
    assert_eq!(
        RespType::Error(b"Key not found".to_vec()).serialize(),
        b"-Key not found\r\n".to_vec()
    );
}

#[test]
fn serialize_integer() {
    assert_eq!(RespType::Integer(0).serialize(), b":0\r\n".to_vec());
    assert_eq!(RespType::Integer(42).serialize(), b":42\r\n".to_vec());
    assert_eq!(RespType::Integer(-7).serialize(), b":-7\r\n".to_vec());
    assert_eq!(
        RespType::Integer(i64::MAX).serialize(),
        b":9223372036854775807\r\n".to_vec()
    );
    assert_eq!(
        RespType::Integer(i64::MIN).serialize(),
        b":-9223372036854775808\r\n".to_vec()
    );
}

#[test]
fn serialize_bulk_string() {
    assert_eq!(bulk(b"hello").serialize(), b"$5\r\nhello\r\n".to_vec());
    assert_eq!(bulk(b"").serialize(), b"$0\r\n\r\n".to_vec());
    // Raw bytes, CRLF included, survive length-prefixed framing.
    assert_eq!(bulk(b"a\r\nb").serialize(), b"$4\r\na\r\nb\r\n".to_vec());
}

#[test]
fn serialize_array() {
    let v = RespType::Array(vec![bulk(b"echo"), bulk(b"hi")]);
    assert_eq!(v.serialize(), b"*2\r\n$4\r\necho\r\n$2\r\nhi\r\n".to_vec());
    assert_eq!(RespType::Array(vec![]).serialize(), b"*0\r\n".to_vec());
}

#[test]
fn serialize_nested_array() {
    let v = RespType::Array(vec![
        RespType::Integer(1),
        RespType::Array(vec![simple(b"a")]),
    ]);
    assert_eq!(v.serialize(), b"*2\r\n:1\r\n*1\r\n+a\r\n".to_vec());
}

#[test]
fn parse_round_trip() {
    let values = vec![
        simple(b"OK"),
        RespType::Error(b"oops".to_vec()),
        RespType::Integer(-123),
        bulk(b"hello"),
        bulk(b""),
        RespType::Array(vec![]),
        RespType::Array(vec![bulk(b"get"), bulk(b"k")]),
        RespType::Array(vec![
            RespType::Integer(7),
            RespType::Array(vec![simple(b"x"), bulk(b"\r\n")]),
        ]),
    ];
    for v in values {
        let bytes = v.serialize();
        let (parsed, used) = parse_message(&bytes).expect("round trip must parse");
        assert_eq!(parsed, v);
        assert_eq!(used, bytes.len());
    }
}

#[test]
fn parse_leaves_trailing_bytes() {
    let mut bytes = bulk(b"abc").serialize();
    bytes.extend_from_slice(b"+more\r\n");
    let (parsed, used) = parse_message(&bytes).unwrap();
    assert_eq!(parsed, bulk(b"abc"));
    assert_eq!(used, b"$3\r\nabc\r\n".len());
}

#[test]
fn parse_empty_buffer_needs_more() {
    assert_eq!(parse_message(b""), Err(ProtocolError::Incomplete));
}

#[test]
fn parse_unknown_tag() {
    assert_eq!(parse_message(b"!x\r\n"), Err(ProtocolError::UnknownTag));
}

#[test]
fn parse_incomplete_line() {
    assert_eq!(parse_message(b"+abc"), Err(ProtocolError::Incomplete));
    assert_eq!(parse_message(b"+abc\r"), Err(ProtocolError::Incomplete));
    assert_eq!(parse_message(b":12"), Err(ProtocolError::Incomplete));
    assert_eq!(parse_message(b"*2\r\n+a\r\n"), Err(ProtocolError::Incomplete));
}

#[test]
fn parse_truncated_bulk_payload() {
    assert_eq!(parse_message(b"$5\r\nab"), Err(ProtocolError::Truncated));
    assert_eq!(parse_message(b"$5\r\nhello"), Err(ProtocolError::Truncated));
    assert_eq!(parse_message(b"$5\r\nhello\r"), Err(ProtocolError::Truncated));
}

#[test]
fn parse_negative_length() {
    assert_eq!(parse_message(b"$-1\r\n"), Err(ProtocolError::NegativeLength));
    assert_eq!(parse_message(b"*-1\r\n"), Err(ProtocolError::NegativeLength));
}

#[test]
fn parse_bad_integer() {
    assert_eq!(parse_message(b":12x\r\n"), Err(ProtocolError::InvalidInteger));
    assert_eq!(parse_message(b":\r\n"), Err(ProtocolError::InvalidInteger));
    assert_eq!(parse_message(b"$abc\r\n"), Err(ProtocolError::InvalidInteger));
}

#[test]
fn parse_int_accepts_decimal() {
    assert_eq!(parse_int(b"123"), Ok(123));
    assert_eq!(parse_int(b"-45"), Ok(-45));
    assert_eq!(parse_int(b"+7"), Ok(7));
    assert_eq!(parse_int(b"0"), Ok(0));
    assert_eq!(parse_int(b"00012"), Ok(12));
    assert_eq!(parse_int(b"9223372036854775807"), Ok(i64::MAX));
    assert_eq!(parse_int(b"-9223372036854775808"), Ok(i64::MIN));
}

#[test]
fn parse_int_rejects_garbage() {
    assert!(parse_int(b"").is_err());
    assert!(parse_int(b"abc").is_err());
    assert!(parse_int(b"12a").is_err());
    assert!(parse_int(b"-").is_err());
    assert!(parse_int(b"+").is_err());
    assert!(parse_int(b"9223372036854775808").is_err());
    assert!(parse_int(b"-9223372036854775809").is_err());
    assert!(parse_int(b"99999999999999999999999999").is_err());
}

#[test]
fn read_until_crlf_finds_first_terminator() {
    assert_eq!(read_until_crlf(b"ab\r\ncd"), Some((&b"ab"[..], 4)));
    assert_eq!(read_until_crlf(b"\r\nx"), Some((&b""[..], 2)));
    assert_eq!(read_until_crlf(b"abc"), None);
    assert_eq!(read_until_crlf(b"abc\r"), None);
}

#[test]
fn prefixes_ask_for_more_bytes() {
    let v = RespType::Array(vec![bulk(b"set"), bulk(b"foo"), bulk(b"bar")]);
    let bytes = v.serialize();
    for n in 0..bytes.len() {
        match parse_message(&bytes[..n]) {
            Err(e) => assert!(e.needs_more_bytes(), "prefix of {} bytes", n),
            Ok(_) => panic!("prefix of {} bytes must not parse", n),
        }
    }
    let (parsed, used) = parse_message(&bytes).unwrap();
    assert_eq!(parsed, v);
    assert_eq!(used, bytes.len());
}

#[test]
fn buffer_one_byte_at_a_time() {
    let v = RespType::Array(vec![bulk(b"echo"), bulk(b"hi")]);
    let bytes = v.serialize();
    let mut buffer = MessageBuffer::new();
    for (i, b) in bytes.iter().enumerate() {
        buffer.feed(&[*b]);
        let step = buffer.next_message();
        if i + 1 < bytes.len() {
            assert_eq!(step, Ok(None), "after {} bytes", i + 1);
        } else {
            assert_eq!(step, Ok(Some(RespType::Array(vec![bulk(b"echo"), bulk(b"hi")]))));
        }
    }
    assert_eq!(buffer.len(), 0);
}

#[test]
fn buffer_holds_back_to_back_messages() {
    let a = simple(b"one");
    let b = RespType::Integer(2);
    let mut buffer = MessageBuffer::new();
    let mut bytes = a.serialize();
    bytes.extend_from_slice(&b.serialize());
    buffer.feed(&bytes);
    assert_eq!(buffer.next_message(), Ok(Some(a)));
    assert_eq!(buffer.next_message(), Ok(Some(b)));
    assert_eq!(buffer.next_message(), Ok(None));
}

#[test]
fn buffer_reports_malformed_without_consuming() {
    let mut buffer = MessageBuffer::new();
    buffer.feed(b"!bad\r\n");
    assert_eq!(buffer.next_message(), Err(ProtocolError::UnknownTag));
    assert_eq!(buffer.len(), 6);
}
