//! A minimal in-memory key-value server core speaking a Redis-like wire
//! protocol (RESP): a verified streaming codec for the five RESP value
//! shapes, a TTL-aware key-value store with lazy expiry, and the command
//! dispatch that ties the two together.
pub mod buffer;
pub mod handler;
pub mod numbers;
pub mod resp;
pub mod roundtrip;
pub mod state;
pub mod value;

pub use buffer::MessageBuffer;
pub use handler::dispatch;
pub use handler::get_command;
pub use handler::unpack_bulk_string;
pub use handler::CommandError;
pub use numbers::parse_int;
pub use state::ExpiryValue;
pub use state::ServerState;
pub use resp::parse_message;
pub use resp::read_until_crlf;
pub use value::ProtocolError;
pub use value::RespType;
pub use value::ValueView;
