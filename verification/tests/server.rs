use resp_kv::dispatch;
use resp_kv::get_command;
use resp_kv::unpack_bulk_string;
use resp_kv::CommandError;
use resp_kv::MessageBuffer;
use resp_kv::RespType;
use resp_kv::ServerState;

/// Feeds one whole request to the codec, dispatches it at `now`, and
/// returns the serialized reply, as a connection handler would.
fn roundtrip(state: &mut ServerState, request: &[u8], now: u64) -> Vec<u8> {
    let mut buffer = MessageBuffer::new();
    buffer.feed(request);
    let value = buffer
        .next_message()
        .expect("request must be well-formed")
        .expect("request must be complete");
    assert_eq!(buffer.len(), 0, "request must be exactly one message");
    dispatch(value, state, now).serialize()
}

#[test]
fn ping_answers_pong() {
    let mut state = ServerState::new();
    let reply = roundtrip(&mut state, b"*1\r\n$4\r\nping\r\n", 0);
    assert_eq!(reply, b"+PONG\r\n".to_vec());
}

#[test]
fn echo_answers_its_argument() {
    let mut state = ServerState::new();
    let reply = roundtrip(&mut state, b"*2\r\n$4\r\necho\r\n$5\r\nhello\r\n", 0);
    assert_eq!(reply, b"$5\r\nhello\r\n".to_vec());
}

#[test]
fn set_then_get_round_trips_through_the_wire() {
    let mut state = ServerState::new();
    let reply = roundtrip(&mut state, b"*3\r\n$3\r\nset\r\n$3\r\nfoo\r\n$3\r\nbar\r\n", 0);
    assert_eq!(reply, b"+OK\r\n".to_vec());
    let reply = roundtrip(&mut state, b"*2\r\n$3\r\nget\r\n$3\r\nfoo\r\n", 1);
    assert_eq!(reply, b"$3\r\nbar\r\n".to_vec());
}

#[test]
fn get_of_missing_key_reports_it() {
    let mut state = ServerState::new();
    let reply = roundtrip(&mut state, b"*2\r\n$3\r\nget\r\n$7\r\nmissing\r\n", 0);
    assert_eq!(reply, b"-Key not found\r\n".to_vec());
}

#[test]
fn zero_ttl_set_expires_by_the_next_second() {
    let mut state = ServerState::new();
    let reply = roundtrip(
        &mut state,
        b"*4\r\n$3\r\nset\r\n$1\r\nk\r\n$1\r\nv\r\n$1\r\n0\r\n",
        10,
    );
    assert_eq!(reply, b"+OK\r\n".to_vec());
    let reply = roundtrip(&mut state, b"*2\r\n$3\r\nget\r\n$1\r\nk\r\n", 11);
    assert_eq!(reply, b"-Key not found\r\n".to_vec());
}

#[test]
fn unparseable_ttl_is_rejected() {
    let mut state = ServerState::new();
    let reply = roundtrip(
        &mut state,
        b"*4\r\n$3\r\nset\r\n$1\r\nk\r\n$1\r\nv\r\n$3\r\nabc\r\n",
        0,
    );
    assert_eq!(reply, b"-Invalid TTL: must be a valid integer\r\n".to_vec());
}

#[test]
fn negative_ttl_is_rejected() {
    let mut state = ServerState::new();
    let reply = roundtrip(
        &mut state,
        b"*4\r\n$3\r\nset\r\n$1\r\nk\r\n$1\r\nv\r\n$2\r\n-1\r\n",
        0,
    );
    assert_eq!(reply, b"-Invalid TTL: must be a valid integer\r\n".to_vec());
}

#[test]
fn command_names_match_case_insensitively() {
    let mut state = ServerState::new();
    let reply = roundtrip(&mut state, b"*1\r\n$4\r\nPING\r\n", 0);
    assert_eq!(reply, b"+PONG\r\n".to_vec());
    let reply = roundtrip(&mut state, b"*1\r\n$4\r\nPing\r\n", 0);
    assert_eq!(reply, b"+PONG\r\n".to_vec());
}

#[test]
fn unknown_command_is_invalid() {
    let mut state = ServerState::new();
    let reply = roundtrip(&mut state, b"*1\r\n$4\r\nquit\r\n", 0);
    assert_eq!(reply, b"-Invalid command\r\n".to_vec());
}

#[test]
fn non_array_request_is_invalid() {
    let mut state = ServerState::new();
    let reply = roundtrip(&mut state, b"+ping\r\n", 0);
    assert_eq!(reply, b"-Invalid command\r\n".to_vec());
}

#[test]
fn echo_without_argument_is_invalid() {
    let mut state = ServerState::new();
    let reply = roundtrip(&mut state, b"*1\r\n$4\r\necho\r\n", 0);
    assert_eq!(reply, b"-Invalid command\r\n".to_vec());
}

#[test]
fn get_with_non_bulk_key_is_invalid() {
    let mut state = ServerState::new();
    let reply = roundtrip(&mut state, b"*2\r\n$3\r\nget\r\n:5\r\n", 0);
    assert_eq!(reply, b"-Invalid command\r\n".to_vec());
}

#[test]
fn set_with_too_few_arguments_reports_arity() {
    let mut state = ServerState::new();
    let reply = roundtrip(&mut state, b"*2\r\n$3\r\nset\r\n$1\r\nk\r\n", 0);
    assert_eq!(
        reply,
        b"-Invalid command: set requires at least a key and a value\r\n".to_vec()
    );
}

#[test]
fn set_with_non_bulk_arguments_reports_types() {
    let mut state = ServerState::new();
    let reply = roundtrip(&mut state, b"*3\r\n$3\r\nset\r\n:1\r\n:2\r\n", 0);
    assert_eq!(
        reply,
        b"-Invalid command: key and value must be bulk strings\r\n".to_vec()
    );
    let reply = roundtrip(&mut state, b"*4\r\n$3\r\nset\r\n:1\r\n:2\r\n:3\r\n", 0);
    assert_eq!(
        reply,
        b"-Invalid command: key, value, and ttl must be bulk strings\r\n".to_vec()
    );
}

#[test]
fn get_command_splits_name_and_arguments() {
    let request = RespType::Array(vec![
        RespType::BulkString(b"get".to_vec()),
        RespType::BulkString(b"k".to_vec()),
    ]);
    let (name, args) = get_command(request).unwrap();
    assert_eq!(name, b"get".to_vec());
    assert_eq!(args, vec![RespType::BulkString(b"k".to_vec())]);
}

#[test]
fn get_command_rejects_non_arrays() {
    assert_eq!(
        get_command(RespType::Integer(3)),
        Err(CommandError::InvalidCommand)
    );
    assert_eq!(
        get_command(RespType::Array(vec![])),
        Err(CommandError::InvalidCommand)
    );
    assert_eq!(
        get_command(RespType::Array(vec![RespType::Integer(1)])),
        Err(CommandError::InvalidCommand)
    );
}

#[test]
fn unpack_bulk_string_takes_only_bulk_strings() {
    assert_eq!(
        unpack_bulk_string(RespType::BulkString(b"x".to_vec())),
        Ok(b"x".to_vec())
    );
    assert_eq!(
        unpack_bulk_string(RespType::Integer(1)),
        Err(CommandError::InvalidCommand)
    );
}

#[test]
fn pipelined_requests_are_served_in_order() {
    let mut state = ServerState::new();
    let mut buffer = MessageBuffer::new();
    let mut bytes = Vec::new();
    bytes.extend_from_slice(b"*3\r\n$3\r\nset\r\n$1\r\na\r\n$1\r\n1\r\n");
    bytes.extend_from_slice(b"*2\r\n$3\r\nget\r\n$1\r\na\r\n");
    buffer.feed(&bytes);
    let first = buffer.next_message().unwrap().unwrap();
    assert_eq!(dispatch(first, &mut state, 0).serialize(), b"+OK\r\n".to_vec());
    let second = buffer.next_message().unwrap().unwrap();
    assert_eq!(
        dispatch(second, &mut state, 0).serialize(),
        b"$1\r\n1\r\n".to_vec()
    );
}
