//! The box header codec: the 8-byte compact form (4-byte big-endian size,
//! 4-byte type tag) and the 16-byte extended form (size field 1 followed by
//! an 8-byte big-endian size), with read and write proved symmetric.

use vstd::prelude::*;

use crate::error::Error;
use crate::stream::{
    lemma_be32_round_trip, lemma_be64_round_trip, spec_be32, spec_be32_bytes, spec_be64,
    spec_be64_bytes, ByteReader, ByteWriter,
};
use crate::types::{lemma_fourcc_round_trip, spec_box_type, spec_fourcc, BoxType, HEADER_SIZE};

verus! {

/// A box header: the type tag and the declared size, the byte count the
/// box asserts for itself, header included. A declared size of 0 means
/// "extends to the end of the stream" and is only valid at the top level.
#[derive(Clone, Copy, Debug, PartialEq, Eq, Structural)]
pub struct BoxHeader {
    pub name: BoxType,
    pub size: u64,
}

/// The header length a declared size is written with: the extended form is
/// used exactly when the size does not fit the 4-byte field.
pub open spec fn spec_header_len(size: u64) -> int {
    if size > u32::MAX {
        16
    } else {
        8
    }
}

/// The bytes of a header on the wire.
pub open spec fn spec_header_bytes(h: BoxHeader) -> Seq<u8> {
    if h.size > u32::MAX {
        spec_be32_bytes(1) + spec_be32_bytes(spec_fourcc(h.name)) + spec_be64_bytes(h.size)
    } else {
        spec_be32_bytes(h.size as u32) + spec_be32_bytes(spec_fourcc(h.name))
    }
}

/// Parses a header at an absolute offset: the header and the number of
/// bytes it occupied, or `TruncatedHeader` when fewer bytes are available
/// than the form requires.
pub open spec fn spec_parse_header(data: Seq<u8>, pos: int) -> Result<(BoxHeader, int), Error> {
    if pos + 8 > data.len() {
        Err(Error::TruncatedHeader)
    } else {
        let s32 = spec_be32(data.subrange(pos, pos + 4));
        let tag = spec_box_type(spec_be32(data.subrange(pos + 4, pos + 8)));
        if s32 == 1 {
            if pos + 16 > data.len() {
                Err(Error::TruncatedHeader)
            } else {
                Ok((BoxHeader { name: tag, size: spec_be64(data.subrange(pos + 8, pos + 16)) }, 16))
            }
        } else {
            Ok((BoxHeader { name: tag, size: s32 as u64 }, 8))
        }
    }
}

impl BoxHeader {
    /// A well-formed header: the tag reads back as itself, and a nonzero
    /// declared size covers at least the compact header.
    pub open spec fn wf(self) -> bool {
        &&& self.name.wf()
        &&& self.size == 0 || self.size >= HEADER_SIZE
    }

    pub fn new(name: BoxType, size: u64) -> (r: BoxHeader)
        ensures
            r.name == name,
            r.size == size,
    {
        BoxHeader { name, size }
    }

    /// Reads a compact or extended header from the stream.
    pub fn read(reader: &mut ByteReader) -> (r: Result<BoxHeader, Error>)
        requires
            old(reader).wf(),
        ensures
            final(reader).data == old(reader).data,
            final(reader).skipped == old(reader).skipped,
            final(reader).wf(),
            match r {
                Ok(h) => spec_parse_header(old(reader).data@, old(reader).pos as int) == Ok::<
                    (BoxHeader, int),
                    Error,
                >((h, final(reader).pos - old(reader).pos)),
                Err(e) => {
                    &&& spec_parse_header(old(reader).data@, old(reader).pos as int) == Err::<
                        (BoxHeader, int),
                        Error,
                    >(e)
                    &&& final(reader).pos >= old(reader).pos
                },
            },
    {
        let s32 = match reader.read_u32_be() {
            Ok(v) => v,
            Err(e) => {
                return Err(e);
            },
        };
        let tag = match reader.read_u32_be() {
            Ok(v) => v,
            Err(e) => {
                return Err(e);
            },
        };
        if s32 == 1 {
            let big = match reader.read_u64_be() {
                Ok(v) => v,
                Err(e) => {
                    return Err(e);
                },
            };
            Ok(BoxHeader { name: BoxType::from_fourcc(tag), size: big })
        } else {
            Ok(BoxHeader { name: BoxType::from_fourcc(tag), size: s32 as u64 })
        }
    }

    /// Writes the compact or extended form, symmetric to `read`: the
    /// extended form is chosen exactly when the size does not fit the
    /// 4-byte field. Writing to memory cannot fail, so the result is
    /// always the header length written.
    pub fn write(&self, writer: &mut ByteWriter) -> (r: Result<u64, Error>)
        ensures
            final(writer).data@ == old(writer).data@ + spec_header_bytes(*self),
            r matches Ok(n) && n == spec_header_len(self.size),
    {
        if self.size > u32::MAX as u64 {
            writer.write_u32_be(1);
            writer.write_u32_be(self.name.fourcc());
            writer.write_u64_be(self.size);
            proof {
                assert(writer.data@ =~= old(writer).data@ + spec_header_bytes(*self));
            }
            Ok(16)
        } else {
            writer.write_u32_be(self.size as u32);
            writer.write_u32_be(self.name.fourcc());
            proof {
                assert(writer.data@ =~= old(writer).data@ + spec_header_bytes(*self));
            }
            Ok(8)
        }
    }
}

/// Parsing at an offset where a well-formed header was laid down gives
/// that header back, whatever bytes surround it.
pub proof fn lemma_parse_header_at(data: Seq<u8>, pos: int, h: BoxHeader)
    requires
        h.wf(),
        0 <= pos,
        pos + spec_header_len(h.size) <= data.len(),
        data.subrange(pos, pos + spec_header_len(h.size)) == spec_header_bytes(h),
    ensures
        spec_parse_header(data, pos) == Ok::<(BoxHeader, int), Error>((
            h,
            spec_header_len(h.size),
        )),
{
    let hb = spec_header_bytes(h);
    lemma_fourcc_round_trip(h.name);
    let s0 = data.subrange(pos, pos + 4);
    let s1 = data.subrange(pos + 4, pos + 8);
    if h.size > u32::MAX {
        let a = spec_be32_bytes(1);
        let b = spec_be32_bytes(spec_fourcc(h.name));
        let c = spec_be64_bytes(h.size);
        let s2 = data.subrange(pos + 8, pos + 16);
        assert(forall|i: int| 0 <= i < 16 ==> data[pos + i] == #[trigger] hb[i]) by {
            assert(forall|i: int|
                0 <= i < 16 ==> data.subrange(pos, pos + 16)[i] == #[trigger] data[pos + i]);
        }
        assert(a.len() == 4 && b.len() == 4 && c.len() == 8);
        assert(hb == (a + b) + c);
        assert(forall|i: int| 0 <= i < 4 ==> (a + b)[4 + i] == #[trigger] b[i]);
        assert(forall|i: int| 0 <= i < 8 ==> ((a + b) + c)[8 + i] == #[trigger] c[i]);
        assert(forall|i: int| 0 <= i < 4 ==> ((a + b) + c)[4 + i] == #[trigger] b[i]);
        assert(s0[0] == a[0] && s0[1] == a[1] && s0[2] == a[2] && s0[3] == a[3]);
        assert(s1[0] == b[0] && s1[1] == b[1] && s1[2] == b[2] && s1[3] == b[3]);
        assert(s2[0] == c[0] && s2[1] == c[1] && s2[2] == c[2] && s2[3] == c[3] && s2[4] == c[4]
            && s2[5] == c[5] && s2[6] == c[6] && s2[7] == c[7]);
        assert(spec_be32(s0) == spec_be32(a));
        assert(spec_be32(s1) == spec_be32(b));
        assert(spec_be64(s2) == spec_be64(c));
        lemma_be32_round_trip(1);
        lemma_be32_round_trip(spec_fourcc(h.name));
        lemma_be64_round_trip(h.size);
    } else {
        let a = spec_be32_bytes(h.size as u32);
        let b = spec_be32_bytes(spec_fourcc(h.name));
        assert(forall|i: int| 0 <= i < 8 ==> data[pos + i] == #[trigger] hb[i]) by {
            assert(forall|i: int|
                0 <= i < 8 ==> data.subrange(pos, pos + 8)[i] == #[trigger] data[pos + i]);
        }
        assert(a.len() == 4 && b.len() == 4);
        assert(hb == a + b);
        assert(forall|i: int| 0 <= i < 4 ==> (a + b)[4 + i] == #[trigger] b[i]);
        assert(s0[0] == a[0] && s0[1] == a[1] && s0[2] == a[2] && s0[3] == a[3]);
        assert(s1[0] == b[0] && s1[1] == b[1] && s1[2] == b[2] && s1[3] == b[3]);
        assert(spec_be32(s0) == spec_be32(a));
        assert(spec_be32(s1) == spec_be32(b));
        lemma_be32_round_trip(h.size as u32);
        lemma_be32_round_trip(spec_fourcc(h.name));
    }
}

/// Reading back the bytes written for a well-formed header gives the
/// header: the postcondition of the header codec.
pub proof fn lemma_header_round_trip(h: BoxHeader)
    requires
        h.wf(),
    ensures
        spec_parse_header(spec_header_bytes(h), 0) == Ok::<(BoxHeader, int), Error>((
            h,
            spec_header_len(h.size),
        )),
{
    let hb = spec_header_bytes(h);
    assert(hb.subrange(0, spec_header_len(h.size)) =~= hb);
    lemma_parse_header_at(hb, 0, h);
}

} // verus!
