//! The container-box engine, shown on its exemplar container: an ordered
//! collection with one mandatory singleton child, a repeated child
//! sequence whose stream order is significant, and optional singleton
//! children. Reading scans the declared range child by child, skipping
//! unexpected types without losing alignment and recording each skip;
//! writing re-emits the children in canonical order with sizes recomputed
//! bottom-up.

use vstd::prelude::*;

use crate::error::Error;
use crate::header::{spec_header_bytes, spec_header_len, spec_parse_header, BoxHeader};
use crate::leaf::{
    spec_leaf_bytes, spec_read_leaf, spec_sized_total, GpsBox, MvexBox, MvhdBox, TrakBox,
};
use crate::stream::{ByteReader, ByteWriter, SkipRecord};
use crate::types::{BoxType, EXT_HEADER_SIZE, HEADER_SIZE};

verus! {

/// The abstract value of a parsed container: each child reduced to its
/// payload bytes, the repeated children in stream order.
#[verifier::ext_equal]
pub struct MoovView {
    pub mvhd: Seq<u8>,
    pub mvex: Option<Seq<u8>>,
    pub traks: Seq<Seq<u8>>,
    pub gps: Option<Seq<u8>>,
}

/// The state a child scan accumulates: the slots filled so far and the
/// diagnostic records of skipped unknown boxes, in stream order.
#[verifier::ext_equal]
pub struct ScanState {
    pub mvhd: Option<Seq<u8>>,
    pub mvex: Option<Seq<u8>>,
    pub traks: Seq<Seq<u8>>,
    pub gps: Option<Seq<u8>>,
    pub skipped: Seq<SkipRecord>,
}

impl ScanState {
    pub open spec fn make(
        mvhd: Option<Seq<u8>>,
        mvex: Option<Seq<u8>>,
        traks: Seq<Seq<u8>>,
        gps: Option<Seq<u8>>,
        skipped: Seq<SkipRecord>,
    ) -> ScanState {
        ScanState { mvhd, mvex, traks, gps, skipped }
    }
}

/// The empty scan state: no slot filled, nothing skipped.
pub open spec fn spec_scan_init() -> ScanState {
    ScanState::make(None, None, Seq::empty(), None, Seq::empty())
}

/// The payload of an optional child, when present.
pub open spec fn spec_opt_payload<T: View<V = Seq<u8>>>(o: Option<T>) -> Option<Seq<u8>> {
    match o {
        Option::Some(b) => Option::Some(b@),
        Option::None => Option::None,
    }
}

/// The payloads of the repeated children, in order.
pub open spec fn spec_traks_view(ts: Seq<TrakBox>) -> Seq<Seq<u8>> {
    Seq::new(ts.len(), |i: int| ts[i]@)
}

/// How one scanned child changes the state: known singleton slots are
/// overwritten (last one wins, the documented duplicate policy), known
/// repeated children are appended in order, and every other type —
/// recognized-but-unexpected (`udta`) as much as vendor-private — is
/// skipped with one diagnostic record.
pub open spec fn spec_step(st: ScanState, name: BoxType, size: u64, body: Seq<u8>) -> ScanState {
    match name {
        BoxType::MvhdBox => ScanState { mvhd: Some(body), ..st },
        BoxType::MvexBox => ScanState { mvex: Some(body), ..st },
        BoxType::TrakBox => ScanState { traks: st.traks.push(body), ..st },
        BoxType::GpsBox => ScanState { gps: Some(body), ..st },
        _ => ScanState { skipped: st.skipped.push(SkipRecord { name, size }), ..st },
    }
}

/// Scans the children lying in `[cur, end)`. Each child must declare at
/// least its own header's bytes and must not extend past `end` (else
/// `SizeMismatch`), and the stream must hold its bytes (else the error
/// the stream forces). The scan lands exactly on `end`.
pub open spec fn spec_scan(data: Seq<u8>, cur: int, end: int, st: ScanState) -> Result<
    ScanState,
    Error,
>
    decreases end - cur,
{
    if cur >= end {
        Ok(st)
    } else {
        match spec_parse_header(data, cur) {
            Err(e) => Err(e),
            Ok((h, hl)) => {
                if h.size < hl {
                    Err(Error::SizeMismatch)
                } else if cur + h.size > end {
                    Err(Error::SizeMismatch)
                } else if cur + h.size > data.len() {
                    Err(Error::IOError)
                } else {
                    spec_scan(
                        data,
                        cur + h.size,
                        end,
                        spec_step(st, h.name, h.size, data.subrange(cur + hl, cur + h.size)),
                    )
                }
            },
        }
    }
}

/// Reading a container positioned immediately after its compact header,
/// given the declared total size: scan the child range, then demand the
/// mandatory child.
pub open spec fn spec_read_moov(data: Seq<u8>, pos: int, size: u64) -> Result<
    (MoovView, Seq<SkipRecord>),
    Error,
> {
    if pos - 8 + size > u64::MAX {
        Err(Error::SizeMismatch)
    } else {
        match spec_scan(data, pos, pos - 8 + size, spec_scan_init()) {
            Err(e) => Err(e),
            Ok(st) => match st.mvhd {
                None => Err(Error::BoxNotFound(BoxType::MvhdBox)),
                Some(p) => Ok(
                    (MoovView { mvhd: p, mvex: st.mvex, traks: st.traks, gps: st.gps }, st.skipped),
                ),
            },
        }
    }
}

/// Reading a container from the start of its own header. A declared size
/// of 0 means the box extends to the end of the stream; that convention
/// is resolved here, at the top level, and nowhere else.
pub open spec fn spec_read_top(data: Seq<u8>, pos: int) -> Result<
    (MoovView, Seq<SkipRecord>),
    Error,
> {
    match spec_parse_header(data, pos) {
        Err(e) => Err(e),
        Ok((h, hl)) => {
            if h.name != BoxType::MoovBox {
                Err(Error::BoxNotFound(BoxType::MoovBox))
            } else if h.size == 0 {
                if data.len() - (pos + hl) + 8 > u64::MAX {
                    Err(Error::SizeMismatch)
                } else {
                    spec_read_moov(data, pos + hl, (data.len() - (pos + hl) + 8) as u64)
                }
            } else if h.size < hl {
                Err(Error::SizeMismatch)
            } else {
                spec_read_moov(data, pos + hl, (h.size - (hl - 8)) as u64)
            }
        },
    }
}

/// The encoded size of an optional child: its box when present, else
/// nothing.
pub open spec fn spec_opt_size(o: Option<Seq<u8>>) -> int {
    match o {
        Some(p) => spec_sized_total(p.len() as int),
        None => 0,
    }
}

/// The summed encoded sizes of the repeated children.
pub open spec fn spec_traks_size(ts: Seq<Seq<u8>>) -> int
    decreases ts.len(),
{
    if ts.len() == 0 {
        0
    } else {
        spec_sized_total(ts[0].len() as int) + spec_traks_size(ts.subrange(1, ts.len() as int))
    }
}

/// The summed encoded sizes of all present children, in canonical order:
/// mandatory singleton, repeated children, optional singletons.
pub open spec fn spec_moov_children_size(v: MoovView) -> int {
    spec_sized_total(v.mvhd.len() as int) + spec_traks_size(v.traks) + spec_opt_size(v.mvex)
        + spec_opt_size(v.gps)
}

/// The container's total encoded size: its own header plus its children,
/// always recomputed, never cached.
pub open spec fn spec_moov_size(v: MoovView) -> int {
    spec_sized_total(spec_moov_children_size(v))
}

/// The bytes of an optional child: its box when present, else nothing.
pub open spec fn spec_opt_bytes(tag: BoxType, o: Option<Seq<u8>>) -> Seq<u8> {
    match o {
        Some(p) => spec_leaf_bytes(tag, p),
        None => Seq::empty(),
    }
}

/// The concatenated bytes of the repeated children, in order.
pub open spec fn spec_traks_bytes(ts: Seq<Seq<u8>>) -> Seq<u8>
    decreases ts.len(),
{
    if ts.len() == 0 {
        Seq::empty()
    } else {
        spec_leaf_bytes(BoxType::TrakBox, ts[0]) + spec_traks_bytes(
            ts.subrange(1, ts.len() as int),
        )
    }
}

/// The children bytes in canonical write order.
pub open spec fn spec_moov_children_bytes(v: MoovView) -> Seq<u8> {
    spec_leaf_bytes(BoxType::MvhdBox, v.mvhd) + spec_traks_bytes(v.traks) + spec_opt_bytes(
        BoxType::MvexBox,
        v.mvex,
    ) + spec_opt_bytes(BoxType::GpsBox, v.gps)
}

/// The container's bytes: header with the recomputed total size, then the
/// children in canonical order.
pub open spec fn spec_moov_bytes(v: MoovView) -> Seq<u8> {
    spec_header_bytes(
        BoxHeader { name: BoxType::MoovBox, size: spec_moov_size(v) as u64 },
    ) + spec_moov_children_bytes(v)
}

/// The summed size of repeated children is never negative.
pub proof fn lemma_traks_size_nonneg(ts: Seq<Seq<u8>>)
    ensures
        spec_traks_size(ts) >= 0,
    decreases ts.len(),
{
    if ts.len() > 0 {
        lemma_traks_size_nonneg(ts.subrange(1, ts.len() as int));
    }
}

/// Splitting the repeated children at any index splits their summed size.
pub proof fn lemma_traks_size_split(ts: Seq<Seq<u8>>, i: int)
    requires
        0 <= i <= ts.len(),
    ensures
        spec_traks_size(ts) == spec_traks_size(ts.subrange(0, i)) + spec_traks_size(
            ts.subrange(i, ts.len() as int),
        ),
    decreases i,
{
    let l = ts.len() as int;
    if i == 0 {
        assert(ts.subrange(0, 0) =~= Seq::<Seq<u8>>::empty());
        assert(ts.subrange(0, l) =~= ts);
    } else {
        let rest = ts.subrange(1, l);
        lemma_traks_size_split(rest, i - 1);
        assert(ts.subrange(0, i).subrange(1, i) =~= rest.subrange(0, i - 1));
        assert(ts.subrange(i, l) =~= rest.subrange(i - 1, rest.len() as int));
        assert(ts.subrange(0, i)[0] == ts[0]);
    }
}

/// One repeated child's contribution, with the nonnegativity of what
/// stands around it.
pub proof fn lemma_traks_size_elem(ts: Seq<Seq<u8>>, i: int)
    requires
        0 <= i < ts.len(),
    ensures
        spec_traks_size(ts) == spec_traks_size(ts.subrange(0, i)) + spec_sized_total(
            ts[i].len() as int,
        ) + spec_traks_size(ts.subrange(i + 1, ts.len() as int)),
        spec_traks_size(ts.subrange(0, i)) >= 0,
        spec_traks_size(ts.subrange(i + 1, ts.len() as int)) >= 0,
{
    let l = ts.len() as int;
    lemma_traks_size_split(ts, i);
    let tail = ts.subrange(i, l);
    assert(tail[0] == ts[i]);
    assert(tail.subrange(1, tail.len() as int) =~= ts.subrange(i + 1, l));
    lemma_traks_size_nonneg(ts.subrange(0, i));
    lemma_traks_size_nonneg(ts.subrange(i + 1, l));
}

/// Extending a prefix of the repeated children by one adds that child's
/// size.
pub proof fn lemma_traks_size_snoc(ts: Seq<Seq<u8>>, i: int)
    requires
        0 <= i < ts.len(),
    ensures
        spec_traks_size(ts.subrange(0, i + 1)) == spec_traks_size(ts.subrange(0, i))
            + spec_sized_total(ts[i].len() as int),
{
    let p = ts.subrange(0, i + 1);
    lemma_traks_size_elem(p, i);
    assert(p.subrange(0, i) =~= ts.subrange(0, i));
    assert(p.subrange(i + 1, p.len() as int) =~= Seq::<Seq<u8>>::empty());
    assert(p[i] == ts[i]);
}

/// Every part of a well-sized container is bounded by the whole: the
/// facts the size computation and the writer need to stay inside 64 bits.
pub proof fn lemma_moov_child_bounds(v: MoovView)
    requires
        spec_moov_size(v) <= u64::MAX,
    ensures
        spec_moov_children_size(v) <= u64::MAX - 8,
        spec_sized_total(v.mvhd.len() as int) >= 8,
        spec_traks_size(v.traks) >= 0,
        spec_opt_size(v.mvex) >= 0,
        spec_opt_size(v.gps) >= 0,
        spec_sized_total(v.mvhd.len() as int) <= u64::MAX,
        spec_opt_size(v.mvex) <= u64::MAX,
        spec_opt_size(v.gps) <= u64::MAX,
        forall|k: int|
            0 <= k < v.traks.len() ==> spec_sized_total((#[trigger] v.traks[k]).len() as int)
                <= u64::MAX,
{
    lemma_traks_size_nonneg(v.traks);
    assert forall|k: int| 0 <= k < v.traks.len() implies spec_sized_total(
        (#[trigger] v.traks[k]).len() as int,
    ) <= u64::MAX by {
        lemma_traks_size_elem(v.traks, k);
    }
}

/// The exemplar container box: the mandatory movie header, an optional
/// extends box, the ordered track sequence, and an optional positioning
/// box. The mandatory child is present in every successfully parsed
/// value; a programmatically built value may hold anything, and sizes
/// are recomputed at write time.
#[derive(Debug, Clone, PartialEq, Default)]
pub struct MoovBox {
    pub mvhd: MvhdBox,
    pub mvex: Option<MvexBox>,
    pub traks: Vec<TrakBox>,
    pub gps: Option<GpsBox>,
}

impl View for MoovBox {
    type V = MoovView;

    open spec fn view(&self) -> MoovView {
        MoovView {
            mvhd: self.mvhd@,
            mvex: spec_opt_payload(self.mvex),
            traks: spec_traks_view(self.traks@),
            gps: spec_opt_payload(self.gps),
        }
    }
}

impl MoovBox {
    /// The constant type tag of this container.
    pub fn get_type(&self) -> (r: BoxType)
        ensures
            r == BoxType::MoovBox,
    {
        BoxType::MoovBox
    }

    /// Total encoded size: own header plus the sum of the present
    /// children's sizes, recomputed bottom-up, never read from a cached
    /// field.
    pub fn get_size(&self) -> (r: u64)
        requires
            spec_moov_size(self@) <= u64::MAX,
        ensures
            r == spec_moov_size(self@),
    {
        proof {
            lemma_moov_child_bounds(self@);
            assert(self@.traks.subrange(0, 0) =~= Seq::<Seq<u8>>::empty());
        }
        let mut size: u64 = self.mvhd.box_size();
        let mut i: usize = 0;
        while i < self.traks.len()
            invariant
                spec_moov_size(self@) <= u64::MAX,
                i <= self.traks@.len(),
                size == spec_sized_total(self@.mvhd.len() as int) + spec_traks_size(
                    self@.traks.subrange(0, i as int),
                ),
            decreases self.traks@.len() - i,
        {
            proof {
                lemma_moov_child_bounds(self@);
                lemma_traks_size_elem(self@.traks, i as int);
                lemma_traks_size_snoc(self@.traks, i as int);
            }
            size = size + self.traks[i].box_size();
            i = i + 1;
        }
        proof {
            assert(self@.traks.subrange(0, self@.traks.len() as int) =~= self@.traks);
            lemma_moov_child_bounds(self@);
        }
        if let Some(mvex) = &self.mvex {
            size = size + mvex.box_size();
        }
        if let Some(gps) = &self.gps {
            size = size + gps.box_size();
        }
        if size <= u32::MAX as u64 - 8 {
            HEADER_SIZE + size
        } else {
            EXT_HEADER_SIZE + size
        }
    }

    /// The type tag reported through the common box contract.
    pub fn box_type(&self) -> (r: BoxType)
        ensures
            r == BoxType::MoovBox,
    {
        self.get_type()
    }

    /// The encoded size reported through the common box contract.
    pub fn box_size(&self) -> (r: u64)
        requires
            spec_moov_size(self@) <= u64::MAX,
        ensures
            r == spec_moov_size(self@),
    {
        self.get_size()
    }

    /// A short diagnostic description: child counts and presence flags.
    /// The text is informational only and not part of the wire contract.
    pub fn summary(&self) -> (r: Result<String, Error>)
        ensures
            r is Ok,
    {
        Ok(fmt_summary(self.traks.len(), self.gps.is_some()))
    }

    /// Reads the container from a stream positioned immediately after its
    /// compact header, given the declared total size. The child range is
    /// scanned in order: known singleton children fill their slot (a
    /// duplicate overwrites, last one wins — the documented policy),
    /// repeated children append in stream order, and any other type is
    /// skipped by exactly its declared size, each skip leaving one
    /// diagnostic record `(type tag, declared size)`. A child that
    /// declares fewer bytes than its own header or extends past the
    /// parent's end is a `SizeMismatch`; an absent mandatory child is
    /// `BoxNotFound`; a child the stream cannot supply is the stream's
    /// error. On success the cursor lands exactly on the parent's end.
    #[verifier::loop_isolation(false)]
    pub fn read_box(reader: &mut ByteReader, size: u64) -> (r: Result<MoovBox, Error>)
        requires
            old(reader).wf(),
            old(reader).pos >= 8,
        ensures
            final(reader).wf(),
            final(reader).data == old(reader).data,
            match r {
                Ok(m) => spec_read_moov(old(reader).data@, old(reader).pos as int, size) matches Ok(
                    pr,
                ) && pr.0 == m@ && final(reader).skipped@ == old(reader).skipped@ + pr.1
                    && final(reader).pos as int == old(reader).pos - 8 + size,
                Err(e) => spec_read_moov(old(reader).data@, old(reader).pos as int, size) == Err::<
                    (MoovView, Seq<SkipRecord>),
                    Error,
                >(e),
            },
    {
        let ghost data0 = reader.data;
        let ghost pos0 = reader.pos as int;
        let ghost skipped0 = reader.skipped@;
        let start: u64 = reader.position() - HEADER_SIZE;
        if size > u64::MAX - start {
            return Err(Error::SizeMismatch);
        }
        let end: u64 = start + size;
        let ghost end_i = end as int;
        let mut mvhd: Option<MvhdBox> = None;
        let mut mvex: Option<MvexBox> = None;
        let mut traks: Vec<TrakBox> = Vec::new();
        let mut gps: Option<GpsBox> = None;
        let ghost mut recs: Seq<SkipRecord> = Seq::empty();
        proof {
            assert(traks@ =~= Seq::<TrakBox>::empty());
            assert(ScanState::make(
                spec_opt_payload(mvhd),
                spec_opt_payload(mvex),
                spec_traks_view(traks@),
                spec_opt_payload(gps),
                recs,
            ) =~~= spec_scan_init());
        }
        while (reader.pos as u64) < end
            invariant
                reader.wf(),
                reader.data == data0,
                pos0 >= 8,
                end_i == pos0 - 8 + size,
                end == end_i,
                reader.pos as u64 <= end || (reader.pos as int == pos0 && mvhd is None),
                reader.skipped@ == skipped0 + recs,
                spec_scan(
                    data0@,
                    reader.pos as int,
                    end_i,
                    ScanState::make(
                        spec_opt_payload(mvhd),
                        spec_opt_payload(mvex),
                        spec_traks_view(traks@),
                        spec_opt_payload(gps),
                        recs,
                    ),
                ) == spec_scan(data0@, pos0, end_i, spec_scan_init()),
            decreases end_i - reader.pos,
        {
            let ghost st_b = ScanState::make(
                spec_opt_payload(mvhd),
                spec_opt_payload(mvex),
                spec_traks_view(traks@),
                spec_opt_payload(gps),
                recs,
            );
            let child_start: u64 = reader.position();
            let ghost cs = reader.pos as int;
            let h = match BoxHeader::read(reader) {
                Ok(h) => h,
                Err(e) => {
                    proof {
                        assert(spec_scan(data0@, cs, end_i, st_b) == Err::<ScanState, Error>(e));
                    }
                    return Err(e);
                },
            };
            let hl: u64 = reader.position() - child_start;
            let ghost hl_i = hl as int;
            if h.size < hl {
                proof {
                    assert(spec_scan(data0@, cs, end_i, st_b) == Err::<ScanState, Error>(
                        Error::SizeMismatch,
                    ));
                }
                return Err(Error::SizeMismatch);
            }
            if h.size > end - child_start {
                proof {
                    assert(spec_scan(data0@, cs, end_i, st_b) == Err::<ScanState, Error>(
                        Error::SizeMismatch,
                    ));
                }
                return Err(Error::SizeMismatch);
            }
            let child_end: u64 = child_start + h.size;
            let adj: u64 = h.size - (hl - HEADER_SIZE);
            match h.name {
                BoxType::MvhdBox => {
                    match MvhdBox::read_box(reader, adj) {
                        Ok(b) => {
                            mvhd = Some(b);
                        },
                        Err(e) => {
                            proof {
                                assert(spec_scan(data0@, cs, end_i, st_b) == Err::<
                                    ScanState,
                                    Error,
                                >(e));
                            }
                            return Err(e);
                        },
                    }
                },
                BoxType::MvexBox => {
                    match MvexBox::read_box(reader, adj) {
                        Ok(b) => {
                            mvex = Some(b);
                        },
                        Err(e) => {
                            proof {
                                assert(spec_scan(data0@, cs, end_i, st_b) == Err::<
                                    ScanState,
                                    Error,
                                >(e));
                            }
                            return Err(e);
                        },
                    }
                },
                BoxType::TrakBox => {
                    match TrakBox::read_box(reader, adj) {
                        Ok(b) => {
                            let ghost tv_b = spec_traks_view(traks@);
                            traks.push(b);
                            proof {
                                assert(spec_traks_view(traks@) =~= tv_b.push(b@));
                            }
                        },
                        Err(e) => {
                            proof {
                                assert(spec_scan(data0@, cs, end_i, st_b) == Err::<
                                    ScanState,
                                    Error,
                                >(e));
                            }
                            return Err(e);
                        },
                    }
                },
                BoxType::GpsBox => {
                    match GpsBox::read_box(reader, adj) {
                        Ok(b) => {
                            gps = Some(b);
                        },
                        Err(e) => {
                            proof {
                                assert(spec_scan(data0@, cs, end_i, st_b) == Err::<
                                    ScanState,
                                    Error,
                                >(e));
                            }
                            return Err(e);
                        },
                    }
                },
                _ => {
                    reader.record_skip(SkipRecord { name: h.name, size: h.size });
                    proof {
                        recs = recs.push(SkipRecord { name: h.name, size: h.size });
                    }
                    match reader.skip_to(child_end) {
                        Ok(_) => {},
                        Err(e) => {
                            proof {
                                assert(spec_scan(data0@, cs, end_i, st_b) == Err::<
                                    ScanState,
                                    Error,
                                >(e));
                            }
                            return Err(e);
                        },
                    }
                },
            }
            proof {
                let st_a = ScanState::make(
                    spec_opt_payload(mvhd),
                    spec_opt_payload(mvex),
                    spec_traks_view(traks@),
                    spec_opt_payload(gps),
                    recs,
                );
                let body = data0@.subrange(cs + hl_i, cs + h.size);
                assert(reader.pos as int == cs + h.size);
                assert(st_a =~~= spec_step(st_b, h.name, h.size, body));
                assert(spec_scan(data0@, cs, end_i, st_b) == spec_scan(
                    data0@,
                    cs + h.size,
                    end_i,
                    spec_step(st_b, h.name, h.size, body),
                ));
            }
        }
        if let Some(b) = mvhd {
            match reader.skip_to(end) {
                Ok(_) => {},
                Err(e) => {
                    proof {
                        assert(false);
                    }
                    return Err(e);
                },
            }
            let m = MoovBox { mvhd: b, mvex, traks, gps };
            proof {
                let st_f = ScanState::make(
                    Some(b@),
                    spec_opt_payload(mvex),
                    spec_traks_view(traks@),
                    spec_opt_payload(gps),
                    recs,
                );
                assert(spec_scan(data0@, reader.pos as int, end_i, st_f) == Ok::<
                    ScanState,
                    Error,
                >(st_f));
                assert(m@ =~~= MoovView {
                    mvhd: b@,
                    mvex: spec_opt_payload(mvex),
                    traks: spec_traks_view(traks@),
                    gps: spec_opt_payload(gps),
                });
            }
            Ok(m)
        } else {
            proof {
                let st_f = ScanState::make(
                    None,
                    spec_opt_payload(mvex),
                    spec_traks_view(traks@),
                    spec_opt_payload(gps),
                    recs,
                );
                assert(spec_scan(data0@, reader.pos as int, end_i, st_f) == Ok::<
                    ScanState,
                    Error,
                >(st_f));
            }
            Err(Error::BoxNotFound(BoxType::MvhdBox))
        }
    }

    /// Reads the container from the start of its own header. A declared
    /// size of 0 means the box extends to the end of the stream; that
    /// convention is resolved here, at the top level, and never for a
    /// nested child. A stream whose first box is not this container fails
    /// with `BoxNotFound`.
    pub fn read_from(reader: &mut ByteReader) -> (r: Result<MoovBox, Error>)
        requires
            old(reader).wf(),
        ensures
            final(reader).wf(),
            final(reader).data == old(reader).data,
            match r {
                Ok(m) => spec_read_top(old(reader).data@, old(reader).pos as int) matches Ok(pr)
                    && pr.0 == m@ && final(reader).skipped@ == old(reader).skipped@ + pr.1,
                Err(e) => spec_read_top(old(reader).data@, old(reader).pos as int) == Err::<
                    (MoovView, Seq<SkipRecord>),
                    Error,
                >(e),
            },
    {
        let top_start: u64 = reader.position();
        let h = match BoxHeader::read(reader) {
            Ok(h) => h,
            Err(e) => {
                return Err(e);
            },
        };
        let hl: u64 = reader.position() - top_start;
        if !matches!(h.name, BoxType::MoovBox) {
            return Err(Error::BoxNotFound(BoxType::MoovBox));
        }
        if h.size == 0 {
            let remaining: usize = reader.data.len() - reader.pos;
            if remaining as u64 > u64::MAX - 8 {
                return Err(Error::SizeMismatch);
            }
            MoovBox::read_box(reader, remaining as u64 + 8)
        } else if h.size < hl {
            Err(Error::SizeMismatch)
        } else {
            MoovBox::read_box(reader, h.size - (hl - HEADER_SIZE))
        }
    }

    /// Writes the container: header with the recomputed total size, then
    /// each present child in canonical order (mandatory singleton first,
    /// repeated children in original order, optional singletons last).
    /// The canonical order is a design choice: it need not reproduce an
    /// arbitrary input's byte order. Writing to memory cannot fail, so
    /// the result is always the byte count written, which equals the
    /// total encoded size.
    pub fn write_box(&self, writer: &mut ByteWriter) -> (r: Result<u64, Error>)
        requires
            spec_moov_size(self@) <= u64::MAX,
        ensures
            final(writer).data@ == old(writer).data@ + spec_moov_bytes(self@),
            r matches Ok(n) && n == spec_moov_size(self@),
    {
        let ghost d0 = writer.data@;
        let ghost v = self@;
        proof {
            lemma_moov_child_bounds(v);
            assert(v.traks.subrange(0, 0) =~= Seq::<Seq<u8>>::empty());
        }
        let size = self.box_size();
        let header = BoxHeader::new(self.box_type(), size);
        let _ = header.write(writer);
        let _ = self.mvhd.write_box(writer);
        let ghost hb = spec_header_bytes(BoxHeader { name: BoxType::MoovBox, size: size });
        proof {
            assert(writer.data@ =~= d0 + hb + spec_leaf_bytes(BoxType::MvhdBox, v.mvhd)
                + spec_traks_bytes(v.traks.subrange(0, 0)));
        }
        let mut i: usize = 0;
        while i < self.traks.len()
            invariant
                spec_moov_size(v) <= u64::MAX,
                v == self@,
                i <= self.traks@.len(),
                size == spec_moov_size(v),
                hb == spec_header_bytes(BoxHeader { name: BoxType::MoovBox, size: size }),
                writer.data@ == d0 + hb + spec_leaf_bytes(BoxType::MvhdBox, v.mvhd)
                    + spec_traks_bytes(v.traks.subrange(0, i as int)),
            decreases self.traks@.len() - i,
        {
            proof {
                lemma_moov_child_bounds(v);
                assert(v.traks[i as int] == self.traks@[i as int]@);
            }
            let _ = self.traks[i].write_box(writer);
            i = i + 1;
            proof {
                lemma_traks_bytes_snoc(v.traks, i - 1);
                assert(writer.data@ =~= d0 + hb + spec_leaf_bytes(BoxType::MvhdBox, v.mvhd)
                    + spec_traks_bytes(v.traks.subrange(0, i as int)));
            }
        }
        proof {
            assert(v.traks.subrange(0, v.traks.len() as int) =~= v.traks);
            lemma_moov_child_bounds(v);
        }
        if let Some(mvex) = &self.mvex {
            let _ = mvex.write_box(writer);
        }
        if let Some(gps) = &self.gps {
            let _ = gps.write_box(writer);
        }
        proof {
            assert(writer.data@ =~= d0 + spec_moov_bytes(v));
        }
        Ok(size)
    }
}

/// Extending a prefix of the repeated children by one appends that
/// child's bytes.
pub proof fn lemma_traks_bytes_snoc(ts: Seq<Seq<u8>>, i: int)
    requires
        0 <= i < ts.len(),
    ensures
        spec_traks_bytes(ts.subrange(0, i + 1)) == spec_traks_bytes(ts.subrange(0, i))
            + spec_leaf_bytes(BoxType::TrakBox, ts[i]),
    decreases i,
{
    let l = ts.len() as int;
    if i == 0 {
        let p = ts.subrange(0, 1);
        assert(p[0] == ts[0]);
        assert(p.subrange(1, 1) =~= Seq::<Seq<u8>>::empty());
        assert(ts.subrange(0, 0) =~= Seq::<Seq<u8>>::empty());
        assert(spec_traks_bytes(ts.subrange(0, 0)) == Seq::<u8>::empty());
        assert(spec_traks_bytes(p) =~= spec_traks_bytes(ts.subrange(0, 0)) + spec_leaf_bytes(
            BoxType::TrakBox,
            ts[0],
        ));
    } else {
        let rest = ts.subrange(1, l);
        lemma_traks_bytes_snoc(rest, i - 1);
        assert(ts.subrange(0, i + 1)[0] == ts[0]);
        assert(ts.subrange(0, i)[0] == ts[0]);
        assert(ts.subrange(0, i + 1).subrange(1, i + 1) =~= rest.subrange(0, i));
        assert(ts.subrange(0, i).subrange(1, i) =~= rest.subrange(0, i - 1));
        assert(rest[i - 1] == ts[i]);
        assert(spec_leaf_bytes(BoxType::TrakBox, ts[0]) + (spec_traks_bytes(rest.subrange(0, i - 1))
            + spec_leaf_bytes(BoxType::TrakBox, ts[i])) =~= (spec_leaf_bytes(
            BoxType::TrakBox,
            ts[0],
        ) + spec_traks_bytes(rest.subrange(0, i - 1))) + spec_leaf_bytes(BoxType::TrakBox, ts[i]));
    }
}

/// Relies on std's `format!` to render the diagnostic text; the string is
/// informational only and carries no contract.
#[verifier::external_body]
fn fmt_summary(traks: usize, gps_found: bool) -> String {
    format!("traks={}, gps_found={}", traks, gps_found)
}

} // verus!
