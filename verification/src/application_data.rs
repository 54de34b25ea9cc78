use vstd::prelude::*;
use vstd::slice::slice_to_vec;

use crate::error::TlsError;
use crate::socket::{read_exact, Socket};

verus! {

/// An opaque application-data payload, together with the 5-byte record
/// header it arrived under; the header is kept because this content type's
/// payload format embeds header context, such as associated data for
/// decryption.
#[derive(Debug, PartialEq, Eq)]
pub struct ApplicationData {
    pub header: Vec<u8>,
    pub data: Vec<u8>,
}

impl ApplicationData {
    /// An outbound payload; outbound records carry no received header.
    pub fn new(data: Vec<u8>) -> (r: ApplicationData)
        ensures
            r.data@ == data@,
            r.header@ == Seq::<u8>::empty(),
    {
        ApplicationData { header: Vec::new(), data }
    }

    /// Reads the declared number of payload bytes from the transport,
    /// keeping the record header they arrived under.
    pub fn read<S: Socket>(socket: &mut S, content_length: u16, header: &[u8]) -> (r: Result<
        ApplicationData,
        TlsError,
    >)
        ensures
            match r {
                Ok(ad) => {
                    &&& content_length as int <= old(socket).recv_data().len()
                    &&& ad.data@ == old(socket).recv_data().take(content_length as int)
                    &&& ad.header@ == header@
                    &&& final(socket).recv_data() == old(socket).recv_data().skip(
                        content_length as int,
                    )
                },
                Err(e) => e == TlsError::ConnectionClosed,
            },
    {
        let data = match read_exact(socket, content_length as usize) {
            Ok(v) => v,
            Err(e) => {
                return Err(e);
            },
        };
        Ok(ApplicationData { header: slice_to_vec(header), data })
    }
}

} // verus!
