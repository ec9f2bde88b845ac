//! Leaf boxes: collaborators of the container engine whose payload is
//! opaque binary data. The engine consumes and produces their headers; the
//! payload's internal field layout is interpreted elsewhere.

use vstd::prelude::*;

use crate::error::Error;
use crate::header::{spec_header_bytes, spec_header_len, BoxHeader};
use crate::stream::{ByteReader, ByteWriter};
use crate::types::{BoxType, HEADER_SIZE};

verus! {

/// The total encoded size of a box whose header is followed by `body_len`
/// bytes: the extended header is needed exactly when the compact total
/// would not fit the 4-byte size field.
pub open spec fn spec_sized_total(body_len: int) -> int {
    if 8 + body_len <= u32::MAX {
        8 + body_len
    } else {
        16 + body_len
    }
}

/// The bytes a leaf box of the given type and payload writes.
pub open spec fn spec_leaf_bytes(tag: BoxType, p: Seq<u8>) -> Seq<u8> {
    spec_header_bytes(BoxHeader { name: tag, size: spec_sized_total(p.len() as int) as u64 }) + p
}

/// Reading a leaf box positioned immediately after its header, given the
/// declared total size: the payload and the cursor's landing offset, or
/// the failure the stream forces.
pub open spec fn spec_read_leaf(data: Seq<u8>, pos: int, size: u64) -> Result<
    (Seq<u8>, int),
    Error,
> {
    if size < 8 {
        Err(Error::SizeMismatch)
    } else if pos - 8 + size > data.len() {
        Err(Error::IOError)
    } else {
        Ok((data.subrange(pos, pos - 8 + size), pos - 8 + size))
    }
}

/// The bytes of a well-sized leaf box are exactly as many as its total
/// encoded size says.
pub proof fn lemma_leaf_bytes_len(tag: BoxType, p: Seq<u8>)
    requires
        spec_sized_total(p.len() as int) <= u64::MAX,
    ensures
        spec_leaf_bytes(tag, p).len() == spec_sized_total(p.len() as int),
        spec_header_len(spec_sized_total(p.len() as int) as u64) + p.len() == spec_sized_total(
            p.len() as int,
        ),
{
}

/// Computes the total encoded size for a payload of the given length.
fn leaf_total_size(body_len: usize) -> (r: u64)
    requires
        spec_sized_total(body_len as int) <= u64::MAX,
    ensures
        r == spec_sized_total(body_len as int),
{
    if body_len as u64 <= u32::MAX as u64 - 8 {
        8 + body_len as u64
    } else {
        16 + body_len as u64
    }
}

/// Reads the payload of a leaf box: the stream stands immediately after
/// the compact header and `size` is the declared total size. Consumes
/// exactly the payload bytes.
fn read_leaf_payload(reader: &mut ByteReader, size: u64) -> (r: Result<Vec<u8>, Error>)
    requires
        old(reader).wf(),
        old(reader).pos >= 8,
    ensures
        final(reader).data == old(reader).data,
        final(reader).skipped == old(reader).skipped,
        final(reader).wf(),
        match r {
            Ok(p) => spec_read_leaf(old(reader).data@, old(reader).pos as int, size) matches Ok(pr)
                && p@ == pr.0 && final(reader).pos == pr.1,
            Err(e) => {
                &&& spec_read_leaf(old(reader).data@, old(reader).pos as int, size) == Err::<
                    (Seq<u8>, int),
                    Error,
                >(e)
                &&& final(reader).pos == old(reader).pos
            },
        },
{
    if size < HEADER_SIZE {
        return Err(Error::SizeMismatch);
    }
    if size - HEADER_SIZE > (reader.data.len() - reader.pos) as u64 {
        return Err(Error::IOError);
    }
    reader.read_exact(size - HEADER_SIZE)
}

/// Writes a leaf box: header with the recomputed total size, then the
/// payload. Writing to memory cannot fail, so the result is always the
/// number of bytes written.
fn write_leaf(writer: &mut ByteWriter, tag: BoxType, p: &Vec<u8>) -> (r: Result<u64, Error>)
    requires
        spec_sized_total(p@.len() as int) <= u64::MAX,
    ensures
        final(writer).data@ == old(writer).data@ + spec_leaf_bytes(tag, p@),
        r matches Ok(n) && n == spec_sized_total(p@.len() as int),
{
    let size = leaf_total_size(p.len());
    let header = BoxHeader::new(tag, size);
    let _ = header.write(writer);
    writer.write_bytes(p);
    proof {
        assert(writer.data@ =~= old(writer).data@ + spec_leaf_bytes(tag, p@));
    }
    Ok(size)
}

/// The movie header box, the mandatory singleton child of the exemplar
/// container; its payload is opaque to the engine.
#[derive(Debug, Clone, PartialEq, Default)]
pub struct MvhdBox {
    pub payload: Vec<u8>,
}

/// The movie extends box, an optional singleton child.
#[derive(Debug, Clone, PartialEq, Default)]
pub struct MvexBox {
    pub payload: Vec<u8>,
}

/// A track box, a repeated child whose stream order is significant.
#[derive(Debug, Clone, PartialEq, Default)]
pub struct TrakBox {
    pub payload: Vec<u8>,
}

/// A positioning-data box, an optional singleton child.
#[derive(Debug, Clone, PartialEq, Default)]
pub struct GpsBox {
    pub payload: Vec<u8>,
}

impl View for MvhdBox {
    type V = Seq<u8>;

    open spec fn view(&self) -> Seq<u8> {
        self.payload@
    }
}

impl View for MvexBox {
    type V = Seq<u8>;

    open spec fn view(&self) -> Seq<u8> {
        self.payload@
    }
}

impl View for TrakBox {
    type V = Seq<u8>;

    open spec fn view(&self) -> Seq<u8> {
        self.payload@
    }
}

impl View for GpsBox {
    type V = Seq<u8>;

    open spec fn view(&self) -> Seq<u8> {
        self.payload@
    }
}

impl MvhdBox {
    pub fn box_type(&self) -> (r: BoxType)
        ensures
            r == BoxType::MvhdBox,
    {
        BoxType::MvhdBox
    }

    /// Total encoded size, recomputed from the payload, never cached.
    pub fn box_size(&self) -> (r: u64)
        requires
            spec_sized_total(self@.len() as int) <= u64::MAX,
        ensures
            r == spec_sized_total(self@.len() as int),
    {
        leaf_total_size(self.payload.len())
    }

    /// Reads the box from a stream positioned immediately after its
    /// header, given the declared total size.
    pub fn read_box(reader: &mut ByteReader, size: u64) -> (r: Result<MvhdBox, Error>)
        requires
            old(reader).wf(),
            old(reader).pos >= 8,
        ensures
            final(reader).data == old(reader).data,
            final(reader).skipped == old(reader).skipped,
            final(reader).wf(),
            match r {
                Ok(b) => spec_read_leaf(old(reader).data@, old(reader).pos as int, size) matches Ok(
                    pr,
                ) && b@ == pr.0 && final(reader).pos == pr.1,
                Err(e) => {
                    &&& spec_read_leaf(old(reader).data@, old(reader).pos as int, size) == Err::<
                        (Seq<u8>, int),
                        Error,
                    >(e)
                    &&& final(reader).pos == old(reader).pos
                },
            },
    {
        match read_leaf_payload(reader, size) {
            Ok(p) => Ok(MvhdBox { payload: p }),
            Err(e) => Err(e),
        }
    }

    /// Writes header and payload; the bytes written equal `box_size`.
    pub fn write_box(&self, writer: &mut ByteWriter) -> (r: Result<u64, Error>)
        requires
            spec_sized_total(self@.len() as int) <= u64::MAX,
        ensures
            final(writer).data@ == old(writer).data@ + spec_leaf_bytes(BoxType::MvhdBox, self@),
            r matches Ok(n) && n == spec_sized_total(self@.len() as int),
    {
        write_leaf(writer, BoxType::MvhdBox, &self.payload)
    }
}

impl MvexBox {
    pub fn box_type(&self) -> (r: BoxType)
        ensures
            r == BoxType::MvexBox,
    {
        BoxType::MvexBox
    }

    /// Total encoded size, recomputed from the payload, never cached.
    pub fn box_size(&self) -> (r: u64)
        requires
            spec_sized_total(self@.len() as int) <= u64::MAX,
        ensures
            r == spec_sized_total(self@.len() as int),
    {
        leaf_total_size(self.payload.len())
    }

    /// Reads the box from a stream positioned immediately after its
    /// header, given the declared total size.
    pub fn read_box(reader: &mut ByteReader, size: u64) -> (r: Result<MvexBox, Error>)
        requires
            old(reader).wf(),
            old(reader).pos >= 8,
        ensures
            final(reader).data == old(reader).data,
            final(reader).skipped == old(reader).skipped,
            final(reader).wf(),
            match r {
                Ok(b) => spec_read_leaf(old(reader).data@, old(reader).pos as int, size) matches Ok(
                    pr,
                ) && b@ == pr.0 && final(reader).pos == pr.1,
                Err(e) => {
                    &&& spec_read_leaf(old(reader).data@, old(reader).pos as int, size) == Err::<
                        (Seq<u8>, int),
                        Error,
                    >(e)
                    &&& final(reader).pos == old(reader).pos
                },
            },
    {
        match read_leaf_payload(reader, size) {
            Ok(p) => Ok(MvexBox { payload: p }),
            Err(e) => Err(e),
        }
    }

    /// Writes header and payload; the bytes written equal `box_size`.
    pub fn write_box(&self, writer: &mut ByteWriter) -> (r: Result<u64, Error>)
        requires
            spec_sized_total(self@.len() as int) <= u64::MAX,
        ensures
            final(writer).data@ == old(writer).data@ + spec_leaf_bytes(BoxType::MvexBox, self@),
            r matches Ok(n) && n == spec_sized_total(self@.len() as int),
    {
        write_leaf(writer, BoxType::MvexBox, &self.payload)
    }
}

impl TrakBox {
    pub fn box_type(&self) -> (r: BoxType)
        ensures
            r == BoxType::TrakBox,
    {
        BoxType::TrakBox
    }

    /// Total encoded size, recomputed from the payload, never cached.
    pub fn box_size(&self) -> (r: u64)
        requires
            spec_sized_total(self@.len() as int) <= u64::MAX,
        ensures
            r == spec_sized_total(self@.len() as int),
    {
        leaf_total_size(self.payload.len())
    }

    /// Reads the box from a stream positioned immediately after its
    /// header, given the declared total size.
    pub fn read_box(reader: &mut ByteReader, size: u64) -> (r: Result<TrakBox, Error>)
        requires
            old(reader).wf(),
            old(reader).pos >= 8,
        ensures
            final(reader).data == old(reader).data,
            final(reader).skipped == old(reader).skipped,
            final(reader).wf(),
            match r {
                Ok(b) => spec_read_leaf(old(reader).data@, old(reader).pos as int, size) matches Ok(
                    pr,
                ) && b@ == pr.0 && final(reader).pos == pr.1,
                Err(e) => {
                    &&& spec_read_leaf(old(reader).data@, old(reader).pos as int, size) == Err::<
                        (Seq<u8>, int),
                        Error,
                    >(e)
                    &&& final(reader).pos == old(reader).pos
                },
            },
    {
        match read_leaf_payload(reader, size) {
            Ok(p) => Ok(TrakBox { payload: p }),
            Err(e) => Err(e),
        }
    }

    /// Writes header and payload; the bytes written equal `box_size`.
    pub fn write_box(&self, writer: &mut ByteWriter) -> (r: Result<u64, Error>)
        requires
            spec_sized_total(self@.len() as int) <= u64::MAX,
        ensures
            final(writer).data@ == old(writer).data@ + spec_leaf_bytes(BoxType::TrakBox, self@),
            r matches Ok(n) && n == spec_sized_total(self@.len() as int),
    {
        write_leaf(writer, BoxType::TrakBox, &self.payload)
    }
}

impl GpsBox {
    pub fn box_type(&self) -> (r: BoxType)
        ensures
            r == BoxType::GpsBox,
    {
        BoxType::GpsBox
    }

    /// Total encoded size, recomputed from the payload, never cached.
    pub fn box_size(&self) -> (r: u64)
        requires
            spec_sized_total(self@.len() as int) <= u64::MAX,
        ensures
            r == spec_sized_total(self@.len() as int),
    {
        leaf_total_size(self.payload.len())
    }

    /// Reads the box from a stream positioned immediately after its
    /// header, given the declared total size.
    pub fn read_box(reader: &mut ByteReader, size: u64) -> (r: Result<GpsBox, Error>)
        requires
            old(reader).wf(),
            old(reader).pos >= 8,
        ensures
            final(reader).data == old(reader).data,
            final(reader).skipped == old(reader).skipped,
            final(reader).wf(),
            match r {
                Ok(b) => spec_read_leaf(old(reader).data@, old(reader).pos as int, size) matches Ok(
                    pr,
                ) && b@ == pr.0 && final(reader).pos == pr.1,
                Err(e) => {
                    &&& spec_read_leaf(old(reader).data@, old(reader).pos as int, size) == Err::<
                        (Seq<u8>, int),
                        Error,
                    >(e)
                    &&& final(reader).pos == old(reader).pos
                },
            },
    {
        match read_leaf_payload(reader, size) {
            Ok(p) => Ok(GpsBox { payload: p }),
            Err(e) => Err(e),
        }
    }

    /// Writes header and payload; the bytes written equal `box_size`.
    pub fn write_box(&self, writer: &mut ByteWriter) -> (r: Result<u64, Error>)
        requires
            spec_sized_total(self@.len() as int) <= u64::MAX,
        ensures
            final(writer).data@ == old(writer).data@ + spec_leaf_bytes(BoxType::GpsBox, self@),
            r matches Ok(n) && n == spec_sized_total(self@.len() as int),
    {
        write_leaf(writer, BoxType::GpsBox, &self.payload)
    }
}

} // verus!
