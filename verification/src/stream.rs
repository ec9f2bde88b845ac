//! In-memory byte streams: a seekable reader with an absolute position and
//! a diagnostic sink for skipped boxes, and an append-only writer. Network
//! byte order (big-endian) primitives live here together with their
//! byte-level round-trip lemmas.

use vstd::prelude::*;

use crate::error::Error;
use crate::types::BoxType;

verus! {

/// One diagnostic record: a skipped box's type tag and declared size.
#[derive(Clone, Copy, Debug, PartialEq, Eq, Structural)]
pub struct SkipRecord {
    pub name: BoxType,
    pub size: u64,
}

/// The value that 4 big-endian bytes denote.
pub open spec fn spec_be32(b: Seq<u8>) -> u32
    recommends
        b.len() == 4,
{
    (b[0] as u32) << 24 | (b[1] as u32) << 16 | (b[2] as u32) << 8 | (b[3] as u32)
}

/// The 4 big-endian bytes that denote a 32-bit value.
pub open spec fn spec_be32_bytes(v: u32) -> Seq<u8> {
    seq![
        ((v >> 24) & 0xff) as u8,
        ((v >> 16) & 0xff) as u8,
        ((v >> 8) & 0xff) as u8,
        (v & 0xff) as u8,
    ]
}

/// The value that 8 big-endian bytes denote.
pub open spec fn spec_be64(b: Seq<u8>) -> u64
    recommends
        b.len() == 8,
{
    (b[0] as u64) << 56 | (b[1] as u64) << 48 | (b[2] as u64) << 40 | (b[3] as u64) << 32
        | (b[4] as u64) << 24 | (b[5] as u64) << 16 | (b[6] as u64) << 8 | (b[7] as u64)
}

/// The 8 big-endian bytes that denote a 64-bit value.
pub open spec fn spec_be64_bytes(v: u64) -> Seq<u8> {
    seq![
        ((v >> 56) & 0xff) as u8,
        ((v >> 48) & 0xff) as u8,
        ((v >> 40) & 0xff) as u8,
        ((v >> 32) & 0xff) as u8,
        ((v >> 24) & 0xff) as u8,
        ((v >> 16) & 0xff) as u8,
        ((v >> 8) & 0xff) as u8,
        (v & 0xff) as u8,
    ]
}

/// Reading back the 4 bytes written for a 32-bit value gives the value.
pub proof fn lemma_be32_round_trip(v: u32)
    ensures
        spec_be32(spec_be32_bytes(v)) == v,
{
    assert((((((v >> 24) & 0xff) as u8) as u32) << 24 | ((((v >> 16) & 0xff) as u8) as u32) << 16
        | ((((v >> 8) & 0xff) as u8) as u32) << 8 | (((v & 0xff) as u8) as u32)) == v)
        by (bit_vector);
}

/// Reading back the 8 bytes written for a 64-bit value gives the value.
pub proof fn lemma_be64_round_trip(v: u64)
    ensures
        spec_be64(spec_be64_bytes(v)) == v,
{
    assert((((((v >> 56) & 0xff) as u8) as u64) << 56 | ((((v >> 48) & 0xff) as u8) as u64) << 48
        | ((((v >> 40) & 0xff) as u8) as u64) << 40 | ((((v >> 32) & 0xff) as u8) as u64) << 32
        | ((((v >> 24) & 0xff) as u8) as u64) << 24 | ((((v >> 16) & 0xff) as u8) as u64) << 16
        | ((((v >> 8) & 0xff) as u8) as u64) << 8 | (((v & 0xff) as u8) as u64)) == v)
        by (bit_vector);
}

/// A readable, seekable byte stream over in-memory data. `pos` is the
/// absolute cursor. `skipped` is the diagnostic side channel: one record
/// per box the container engine skipped, in stream order.
#[derive(Debug, Clone)]
pub struct ByteReader {
    pub data: Vec<u8>,
    pub pos: usize,
    pub skipped: Vec<SkipRecord>,
}

impl ByteReader {
    /// The cursor never points past the end of the data.
    pub open spec fn wf(&self) -> bool {
        self.pos <= self.data@.len()
    }

    /// A reader positioned at the start of the given data, with an empty
    /// diagnostic record.
    pub fn new(data: Vec<u8>) -> (r: ByteReader)
        ensures
            r.data == data,
            r.pos == 0,
            r.skipped@ == Seq::<SkipRecord>::empty(),
            r.wf(),
    {
        let r = ByteReader { data, pos: 0, skipped: Vec::new() };
        proof {
            assert(r.skipped@ =~= Seq::<SkipRecord>::empty());
        }
        r
    }

    /// The current absolute offset of the cursor.
    pub fn position(&self) -> (r: u64)
        ensures
            r == self.pos as u64,
    {
        self.pos as u64
    }

    /// Reads 4 bytes in network byte order. Fails with `TruncatedHeader`,
    /// leaving the cursor in place, when fewer than 4 bytes remain.
    pub fn read_u32_be(&mut self) -> (r: Result<u32, Error>)
        requires
            old(self).wf(),
        ensures
            final(self).data == old(self).data,
            final(self).skipped == old(self).skipped,
            final(self).wf(),
            match r {
                Ok(v) => {
                    &&& old(self).pos + 4 <= old(self).data@.len()
                    &&& final(self).pos == old(self).pos + 4
                    &&& v == spec_be32(
                        old(self).data@.subrange(old(self).pos as int, old(self).pos + 4),
                    )
                },
                Err(e) => {
                    &&& e == Error::TruncatedHeader
                    &&& old(self).pos + 4 > old(self).data@.len()
                    &&& final(self).pos == old(self).pos
                },
            },
    {
        if self.data.len() - self.pos < 4 {
            return Err(Error::TruncatedHeader);
        }
        let b0 = self.data[self.pos];
        let b1 = self.data[self.pos + 1];
        let b2 = self.data[self.pos + 2];
        let b3 = self.data[self.pos + 3];
        self.pos = self.pos + 4;
        Ok((b0 as u32) << 24 | (b1 as u32) << 16 | (b2 as u32) << 8 | (b3 as u32))
    }

    /// Reads 8 bytes in network byte order. Fails with `TruncatedHeader`,
    /// leaving the cursor in place, when fewer than 8 bytes remain.
    pub fn read_u64_be(&mut self) -> (r: Result<u64, Error>)
        requires
            old(self).wf(),
        ensures
            final(self).data == old(self).data,
            final(self).skipped == old(self).skipped,
            final(self).wf(),
            match r {
                Ok(v) => {
                    &&& old(self).pos + 8 <= old(self).data@.len()
                    &&& final(self).pos == old(self).pos + 8
                    &&& v == spec_be64(
                        old(self).data@.subrange(old(self).pos as int, old(self).pos + 8),
                    )
                },
                Err(e) => {
                    &&& e == Error::TruncatedHeader
                    &&& old(self).pos + 8 > old(self).data@.len()
                    &&& final(self).pos == old(self).pos
                },
            },
    {
        if self.data.len() - self.pos < 8 {
            return Err(Error::TruncatedHeader);
        }
        let b0 = self.data[self.pos];
        let b1 = self.data[self.pos + 1];
        let b2 = self.data[self.pos + 2];
        let b3 = self.data[self.pos + 3];
        let b4 = self.data[self.pos + 4];
        let b5 = self.data[self.pos + 5];
        let b6 = self.data[self.pos + 6];
        let b7 = self.data[self.pos + 7];
        self.pos = self.pos + 8;
        Ok(
            (b0 as u64) << 56 | (b1 as u64) << 48 | (b2 as u64) << 40 | (b3 as u64) << 32
                | (b4 as u64) << 24 | (b5 as u64) << 16 | (b6 as u64) << 8 | (b7 as u64),
        )
    }

    /// Reads exactly `n` payload bytes. Fails with `IOError`, leaving the
    /// cursor in place, when the stream cannot supply them.
    pub fn read_exact(&mut self, n: u64) -> (r: Result<Vec<u8>, Error>)
        requires
            old(self).wf(),
        ensures
            final(self).data == old(self).data,
            final(self).skipped == old(self).skipped,
            final(self).wf(),
            match r {
                Ok(v) => {
                    &&& old(self).pos + n <= old(self).data@.len()
                    &&& final(self).pos == old(self).pos + n
                    &&& v@ == old(self).data@.subrange(
                        old(self).pos as int,
                        old(self).pos + n,
                    )
                },
                Err(e) => {
                    &&& e == Error::IOError
                    &&& old(self).pos + n > old(self).data@.len()
                    &&& final(self).pos == old(self).pos
                },
            },
    {
        if n > (self.data.len() - self.pos) as u64 {
            return Err(Error::IOError);
        }
        let count: usize = n as usize;
        let mut out: Vec<u8> = Vec::new();
        let mut i: usize = 0;
        while i < count
            invariant
                self.wf(),
                i <= count,
                count == n,
                self.pos + count <= self.data@.len(),
                self.data@.len() <= usize::MAX,
                out@ == self.data@.subrange(self.pos as int, self.pos + i),
            decreases count - i,
        {
            out.push(self.data[self.pos + i]);
            i = i + 1;
            proof {
                assert(out@ =~= self.data@.subrange(self.pos as int, self.pos + i));
            }
        }
        self.pos = self.pos + count;
        Ok(out)
    }

    /// Seeks the cursor to an absolute offset. Fails with `IOError`,
    /// leaving the cursor in place, when the target lies past the end of
    /// the data.
    pub fn skip_to(&mut self, target: u64) -> (r: Result<(), Error>)
        requires
            old(self).wf(),
        ensures
            final(self).data == old(self).data,
            final(self).skipped == old(self).skipped,
            final(self).wf(),
            match r {
                Ok(_) => {
                    &&& target <= old(self).data@.len()
                    &&& final(self).pos == target
                },
                Err(e) => {
                    &&& e == Error::IOError
                    &&& target > old(self).data@.len()
                    &&& final(self).pos == old(self).pos
                },
            },
    {
        if target > self.data.len() as u64 {
            return Err(Error::IOError);
        }
        self.pos = target as usize;
        Ok(())
    }

    /// Appends one record to the diagnostic side channel.
    pub fn record_skip(&mut self, rec: SkipRecord)
        ensures
            final(self).data == old(self).data,
            final(self).pos == old(self).pos,
            final(self).skipped@ == old(self).skipped@.push(rec),
    {
        self.skipped.push(rec);
    }
}

/// An append-only byte stream collecting serialized output in memory.
#[derive(Debug, Clone)]
pub struct ByteWriter {
    pub data: Vec<u8>,
}

impl ByteWriter {
    /// An empty writer.
    pub fn new() -> (r: ByteWriter)
        ensures
            r.data@ == Seq::<u8>::empty(),
    {
        let r = ByteWriter { data: Vec::new() };
        proof {
            assert(r.data@ =~= Seq::<u8>::empty());
        }
        r
    }

    /// Appends 4 bytes in network byte order.
    pub fn write_u32_be(&mut self, v: u32)
        ensures
            final(self).data@ == old(self).data@ + spec_be32_bytes(v),
    {
        proof {
            assert((v >> 24) & 0xff < 256 && (v >> 16) & 0xff < 256 && (v >> 8) & 0xff < 256 && v
                & 0xff < 256) by (bit_vector);
        }
        self.data.push(((v >> 24) & 0xff) as u8);
        self.data.push(((v >> 16) & 0xff) as u8);
        self.data.push(((v >> 8) & 0xff) as u8);
        self.data.push((v & 0xff) as u8);
        proof {
            assert(self.data@ =~= old(self).data@ + spec_be32_bytes(v));
        }
    }

    /// Appends 8 bytes in network byte order.
    pub fn write_u64_be(&mut self, v: u64)
        ensures
            final(self).data@ == old(self).data@ + spec_be64_bytes(v),
    {
        proof {
            assert((v >> 56) & 0xff < 256 && (v >> 48) & 0xff < 256 && (v >> 40) & 0xff < 256 && (v
                >> 32) & 0xff < 256 && (v >> 24) & 0xff < 256 && (v >> 16) & 0xff < 256 && (v >> 8)
                & 0xff < 256 && v & 0xff < 256) by (bit_vector);
        }
        self.data.push(((v >> 56) & 0xff) as u8);
        self.data.push(((v >> 48) & 0xff) as u8);
        self.data.push(((v >> 40) & 0xff) as u8);
        self.data.push(((v >> 32) & 0xff) as u8);
        self.data.push(((v >> 24) & 0xff) as u8);
        self.data.push(((v >> 16) & 0xff) as u8);
        self.data.push(((v >> 8) & 0xff) as u8);
        self.data.push((v & 0xff) as u8);
        proof {
            assert(self.data@ =~= old(self).data@ + spec_be64_bytes(v));
        }
    }

    /// Appends the given bytes unchanged.
    pub fn write_bytes(&mut self, b: &Vec<u8>)
        ensures
            final(self).data@ == old(self).data@ + b@,
    {
        let mut i: usize = 0;
        while i < b.len()
            invariant
                i <= b@.len(),
                self.data@ == old(self).data@ + b@.subrange(0, i as int),
            decreases b@.len() - i,
        {
            self.data.push(b[i]);
            i = i + 1;
            proof {
                assert(old(self).data@ + b@.subrange(0, i as int) =~= (old(self).data@
                    + b@.subrange(0, i - 1)).push(b@[i - 1]));
            }
        }
        proof {
            assert(b@.subrange(0, b@.len() as int) =~= b@);
        }
    }
}

} // verus!
