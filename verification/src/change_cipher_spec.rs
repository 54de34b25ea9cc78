use vstd::prelude::*;

use crate::error::TlsError;
use crate::socket::{read_exact, Socket};

verus! {

/// A ChangeCipherSpec record body. The message carries no information the
/// handshake acts on; its bytes are kept as received.
#[derive(Debug, PartialEq, Eq)]
pub struct ChangeCipherSpec {
    pub data: Vec<u8>,
}

impl ChangeCipherSpec {
    pub fn new(data: Vec<u8>) -> (r: ChangeCipherSpec)
        ensures
            r.data@ == data@,
    {
        ChangeCipherSpec { data }
    }

    /// Reads the declared number of body bytes from the transport.
    pub fn read<S: Socket>(socket: &mut S, content_length: u16) -> (r: Result<
        ChangeCipherSpec,
        TlsError,
    >)
        ensures
            match r {
                Ok(ccs) => {
                    &&& content_length as int <= old(socket).recv_data().len()
                    &&& ccs.data@ == old(socket).recv_data().take(content_length as int)
                    &&& final(socket).recv_data() == old(socket).recv_data().skip(
                        content_length as int,
                    )
                },
                Err(e) => e == TlsError::ConnectionClosed,
            },
    {
        let data = match read_exact(socket, content_length as usize) {
            Ok(v) => v,
            Err(e) => {
                return Err(e);
            },
        };
        Ok(ChangeCipherSpec { data })
    }
}

} // verus!
