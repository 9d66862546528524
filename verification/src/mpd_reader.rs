//! The byte source adapter: a pull-style supply of manifest bytes.
//!
//! The adapter hands out as many bytes as fit the caller's buffer and
//! returns 0 only at end of input; a supply that dries up early is
//! indistinguishable from a legitimate end, and is treated as one.

use vstd::prelude::*;

verus! {

/// Specification state of a byte source: the bytes it serves and how many
/// it has already handed out.
pub struct MPDReaderV {
    pub data: Seq<u8>,
    pub pos: nat,
}

/// A pull-style byte source over an in-memory buffer.
pub struct MPDReader {
    data: Vec<u8>,
    pos: usize,
}

impl View for MPDReader {
    type V = MPDReaderV;

    closed spec fn view(&self) -> MPDReaderV {
        MPDReaderV { data: self.data@, pos: self.pos as nat }
    }
}

impl MPDReader {
    /// A source positioned at the start of the given bytes.
    pub fn new(data: Vec<u8>) -> (r: MPDReader)
        ensures
            r@.data == data@,
            r@.pos == 0,
    {
        MPDReader { data, pos: 0 }
    }

    /// Fills the front of `buf` with the next bytes of the supply, as many
    /// as are available up to `buf`'s length, and returns how many were
    /// written.  Returns 0 only at end of input (or for an empty buffer);
    /// repeated calls walk the supply to its end.
    pub fn read(&mut self, buf: &mut Vec<u8>) -> (n: usize)
        requires
            old(self)@.pos <= old(self)@.data.len(),
        ensures
            final(self)@.data == old(self)@.data,
            n == vstd::math::min(
                old(buf)@.len() as int,
                old(self)@.data.len() - old(self)@.pos,
            ),
            final(self)@.pos == old(self)@.pos + n,
            final(buf)@.len() == old(buf)@.len(),
            forall|k: int|
                0 <= k < n ==> final(buf)@[k] == old(self)@.data[old(self)@.pos + k],
            forall|k: int| n <= k < old(buf)@.len() ==> final(buf)@[k] == old(buf)@[k],
            (n == 0 <==> (old(self)@.pos == old(self)@.data.len() || old(buf)@.len() == 0)),
    {
        let avail = self.data.len() - self.pos;
        let want = buf.len();
        let n = if want < avail {
            want
        } else {
            avail
        };
        let mut k: usize = 0;
        while k < n
            invariant
                k <= n,
                n <= buf@.len(),
                self.pos + n <= self.data@.len(),
                self.data@.len() <= usize::MAX,
                buf@.len() == old(buf)@.len(),
                self@.data == old(self)@.data,
                self@.pos == old(self)@.pos,
                n <= avail,
                avail == self.data@.len() - self.pos,
                forall|j: int| 0 <= j < k ==> buf@[j] == self.data@[self.pos + j],
                forall|j: int| k <= j < buf@.len() ==> buf@[j] == old(buf)@[j],
            decreases n - k,
        {
            let b = self.data[self.pos + k];
            buf[k] = b;
            k += 1;
        }
        self.pos = self.pos + n;
        n
    }
}

/// Drains a byte source to its end, returning everything it still held.
pub fn read_all(src: &mut MPDReader) -> (out: Vec<u8>)
    requires
        old(src)@.pos <= old(src)@.data.len(),
    ensures
        final(src)@.data == old(src)@.data,
        final(src)@.pos == old(src)@.data.len(),
        out@ == old(src)@.data.skip(old(src)@.pos as int),
{
    let mut out: Vec<u8> = Vec::new();
    let mut chunk: Vec<u8> = Vec::new();
    let mut i: usize = 0;
    while i < 1024
        invariant
            chunk@.len() == i,
            i <= 1024,
        decreases 1024 - i,
    {
        chunk.push(0);
        i += 1;
    }
    loop
        invariant
            chunk@.len() == 1024,
            src@.data == old(src)@.data,
            old(src)@.pos <= src@.pos <= src@.data.len(),
            out@ == old(src)@.data.subrange(old(src)@.pos as int, src@.pos as int),
        ensures
            src@.data == old(src)@.data,
            src@.pos == src@.data.len(),
            old(src)@.pos <= src@.pos,
            out@ == old(src)@.data.subrange(old(src)@.pos as int, src@.pos as int),
        decreases src@.data.len() - src@.pos,
    {
        let ghost out_before = out@;
        let ghost pos_before = src@.pos;
        let n = src.read(&mut chunk);
        if n == 0 {
            break ;
        }
        let mut j: usize = 0;
        while j < n
            invariant
                j <= n <= chunk@.len(),
                src@.data == old(src)@.data,
                pos_before + n <= src@.data.len(),
                src@.pos == pos_before + n,
                forall|k: int| 0 <= k < n ==> chunk@[k] == src@.data[pos_before + k],
                out@ == out_before + chunk@.subrange(0, j as int),
            decreases n - j,
        {
            out.push(chunk[j]);
            proof {
                assert(chunk@.subrange(0, j + 1) =~= chunk@.subrange(0, j as int).push(
                    chunk@[j as int],
                ));
                assert(out@ =~= out_before + chunk@.subrange(0, j + 1));
            }
            j += 1;
        }
        proof {
            assert(out_before == old(src)@.data.subrange(old(src)@.pos as int, pos_before as int));
            assert(out@ == out_before + chunk@.subrange(0, n as int));
            assert(chunk@.subrange(0, n as int) =~= old(src)@.data.subrange(
                pos_before as int,
                pos_before + n,
            ));
            assert(out@ =~= old(src)@.data.subrange(old(src)@.pos as int, src@.pos as int));
        }
    }
    proof {
        assert(out@ =~= old(src)@.data.skip(old(src)@.pos as int));
    }
    out
}

} // verus!
