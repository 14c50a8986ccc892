//! The per-connection accumulation buffer: bytes read from a stream are
//! fed in as they arrive, and one whole message is taken off the front as
//! soon as the bytes for it are all present. Partial messages are held,
//! never lost; malformed ones are reported and left in place.
use vstd::prelude::*;
use vstd::slice::slice_subrange;
use vstd::slice::slice_to_vec;

use crate::resp::parse_message;
use crate::resp::spec_parse;
use crate::resp::SpecParsed;
use crate::value::spec_needs_more;
use crate::value::ProtocolError;
use crate::value::RespType;

verus! {

/// A byte buffer that accumulates stream reads and yields one parsed
/// message at a time.
pub struct MessageBuffer {
    data: Vec<u8>,
}

impl MessageBuffer {
    /// The bytes currently held.
    pub closed spec fn view(self) -> Seq<u8> {
        self.data@
    }

    /// An empty buffer.
    pub fn new() -> (r: MessageBuffer)
        ensures
            r@ == Seq::<u8>::empty(),
    {
        MessageBuffer { data: Vec::new() }
    }

    /// How many bytes are waiting.
    pub fn len(&self) -> (r: usize)
        ensures
            r == self@.len(),
    {
        self.data.len()
    }

    /// Appends freshly read bytes.
    pub fn feed(&mut self, bytes: &[u8])
        ensures
            final(self)@ == old(self)@ + bytes@,
    {
        self.data.extend_from_slice(bytes);
    }

    /// Tries to take one whole message off the front of the buffer.
    ///
    /// `Ok(Some(v))` yields the parsed value and removes exactly its bytes,
    /// leaving any following message in place. `Ok(None)` means the buffer
    /// holds only a prefix of a message: nothing is removed, and the caller
    /// should feed more bytes and retry. `Err(e)` means the front of the
    /// buffer can never become a message; nothing is removed.
    pub fn next_message(&mut self) -> (r: Result<Option<RespType>, ProtocolError>)
        ensures
            match r {
                Ok(Some(v)) => {
                    &&& spec_parse(old(self)@) matches SpecParsed::Found(vv, n) && vv == v@
                        && final(self)@ == old(self)@.skip(n)
                },
                Ok(None) => {
                    &&& spec_parse(old(self)@) matches SpecParsed::Fail(e) && spec_needs_more(e)
                    &&& final(self)@ == old(self)@
                },
                Err(e) => {
                    &&& spec_parse(old(self)@) == SpecParsed::Fail(e)
                    &&& !spec_needs_more(e)
                    &&& final(self)@ == old(self)@
                },
            },
    {
        match parse_message(self.data.as_slice()) {
            Ok((v, n)) => {
                let rest = slice_to_vec(slice_subrange(self.data.as_slice(), n, self.data.len()));
                proof {
                    assert(rest@ =~= old(self)@.skip(n as int));
                }
                self.data = rest;
                Ok(Some(v))
            },
            Err(e) => {
                if e.needs_more_bytes() {
                    Ok(None)
                } else {
                    Err(e)
                }
            },
        }
    }
}

} // verus!
