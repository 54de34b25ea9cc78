use vstd::prelude::*;
use vstd::slice::{slice_subrange, slice_to_vec};

use crate::error::TlsError;

verus! {

/// A byte-stream transport the record layer reads from. A read may return
/// fewer bytes than asked for — embedded sockets commonly deliver partial
/// fragments — but never bytes out of order, never invented bytes, and
/// never an empty success while data was requested: a stream with nothing
/// left to deliver fails instead, so a closed transport surfaces as an
/// error rather than a silent stall.
pub trait Socket: Sized {
    /// The bytes the stream has yet to deliver.
    spec fn recv_data(&self) -> Seq<u8>;

    /// Reads at most `max` bytes from the front of the stream.
    fn read(&mut self, max: usize) -> (r: Result<Vec<u8>, TlsError>)
        ensures
            match r {
                Ok(v) => {
                    &&& v@.len() <= max
                    &&& v@.len() <= old(self).recv_data().len()
                    &&& (v@.len() > 0 || max == 0)
                    &&& v@ == old(self).recv_data().take(v@.len() as int)
                    &&& final(self).recv_data() == old(self).recv_data().skip(v@.len() as int)
                },
                Err(e) => e == TlsError::ConnectionClosed && final(self).recv_data() == old(
                    self,
                ).recv_data(),
            },
    ;
}

/// Reads exactly `n` bytes, looping on partial reads until all `n` are
/// obtained. Which fragments the transport chose cannot influence the
/// result: on success the bytes are exactly the first `n` of the stream.
#[verifier::loop_isolation(false)]
pub fn read_exact<S: Socket>(socket: &mut S, n: usize) -> (r: Result<Vec<u8>, TlsError>)
    ensures
        match r {
            Ok(v) => {
                &&& n <= old(socket).recv_data().len()
                &&& v@.len() == n
                &&& v@ == old(socket).recv_data().take(n as int)
                &&& final(socket).recv_data() == old(socket).recv_data().skip(n as int)
            },
            Err(e) => e == TlsError::ConnectionClosed && exists|k: int|
                0 <= k <= old(socket).recv_data().len() && final(socket).recv_data() == old(
                    socket,
                ).recv_data().skip(k),
        },
{
    let ghost stream = old(socket).recv_data();
    let mut acc: Vec<u8> = Vec::new();
    while acc.len() < n
        invariant
            acc@.len() <= n,
            acc@.len() <= stream.len(),
            acc@ == stream.take(acc@.len() as int),
            socket.recv_data() == stream.skip(acc@.len() as int),
        decreases n - acc@.len(),
    {
        let want = n - acc.len();
        let mut got = match socket.read(want) {
            Ok(v) => v,
            Err(e) => {
                proof {
                    let k = acc@.len() as int;
                    assert(0 <= k <= stream.len() && socket.recv_data() == stream.skip(k));
                    assert(exists|j: int|
                        0 <= j <= stream.len() && socket.recv_data() == #[trigger] stream.skip(j));
                }
                return Err(e);
            },
        };
        proof {
            let a = acc@.len() as int;
            let g = got@.len() as int;
            assert(stream.skip(a).take(g) =~= stream.subrange(a, a + g));
            assert(acc@ + got@ =~= stream.take(a + g));
            assert(stream.skip(a).skip(g) =~= stream.skip(a + g));
        }
        acc.append(&mut got);
    }
    proof {
        assert(acc@.len() == n);
    }
    Ok(acc)
}

/// An in-memory byte-stream transport: it delivers a fixed byte sequence
/// in fragments of at most `chunk` bytes, then reports the stream closed.
/// It drives the record layer in tests exactly as a network socket would,
/// including partial reads and early closure.
pub struct BufferSocket {
    data: Vec<u8>,
    pos: usize,
    chunk: usize,
}

impl BufferSocket {
    #[verifier::type_invariant]
    spec fn type_inv(&self) -> bool {
        &&& self.pos <= self.data@.len()
        &&& self.chunk >= 1
    }

    /// A stream that will deliver `data`, at most `chunk` bytes per read.
    pub fn new(data: Vec<u8>, chunk: usize) -> (r: BufferSocket)
        requires
            chunk >= 1,
        ensures
            r.recv_data() == data@,
    {
        BufferSocket { data, pos: 0, chunk }
    }
}

impl Socket for BufferSocket {
    closed spec fn recv_data(&self) -> Seq<u8> {
        self.data@.skip(self.pos as int)
    }

    /// Delivers the next fragment: at least one byte when any remain and
    /// any were asked for, and a closed-connection error once the stream
    /// is exhausted.
    fn read(&mut self, max: usize) -> (r: Result<Vec<u8>, TlsError>) {
        proof {
            use_type_invariant(&*self);
        }
        if self.pos == self.data.len() {
            return Err(TlsError::ConnectionClosed);
        }
        if max == 0 {
            return Ok(Vec::new());
        }
        let remaining = self.data.len() - self.pos;
        let mut take_n = if max < remaining {
            max
        } else {
            remaining
        };
        if self.chunk < take_n {
            take_n = self.chunk;
        }
        let s = slice_subrange(self.data.as_slice(), self.pos, self.pos + take_n);
        let v = slice_to_vec(s);
        let ghost prev = self.pos as int;
        self.pos = self.pos + take_n;
        proof {
            assert(v@ =~= self.data@.skip(prev).take(take_n as int));
            assert(self.data@.skip(prev).skip(take_n as int) =~= self.data@.skip(
                prev + take_n as int,
            ));
        }
        Ok(v)
    }
}

} // verus!
