//! The engine's laws: the size a container computes before writing equals
//! the bytes it actually writes, and parsing what was written gives the
//! same tree back, with no diagnostic records.

use vstd::prelude::*;

use crate::error::Error;
use crate::header::{lemma_parse_header_at, spec_header_bytes, spec_header_len, BoxHeader};
use crate::leaf::{lemma_leaf_bytes_len, spec_leaf_bytes, spec_sized_total};
use crate::moov::{
    lemma_moov_child_bounds, lemma_traks_size_nonneg, spec_moov_bytes, spec_moov_children_bytes,
    spec_moov_children_size, spec_moov_size, spec_opt_bytes, spec_opt_size, spec_read_top,
    spec_scan, spec_scan_init, spec_step, spec_traks_bytes, spec_traks_size, MoovView, ScanState,
};
use crate::stream::SkipRecord;
use crate::types::BoxType;

verus! {

/// A subrange of a subrange, addressed from the outer sequence.
proof fn lemma_nested_subrange(data: Seq<u8>, cur: int, total: int, a: int, b: int)
    requires
        0 <= cur,
        cur + total <= data.len(),
        0 <= a <= b <= total,
    ensures
        data.subrange(cur + a, cur + b) == data.subrange(cur, cur + total).subrange(a, b),
{
    assert(data.subrange(cur + a, cur + b) =~= data.subrange(cur, cur + total).subrange(a, b));
}

/// The concatenated bytes of the repeated children are exactly as many as
/// their summed size.
pub proof fn lemma_traks_bytes_len(ts: Seq<Seq<u8>>)
    requires
        forall|k: int|
            0 <= k < ts.len() ==> spec_sized_total((#[trigger] ts[k]).len() as int) <= u64::MAX,
    ensures
        spec_traks_bytes(ts).len() == spec_traks_size(ts),
    decreases ts.len(),
{
    if ts.len() > 0 {
        let rest = ts.subrange(1, ts.len() as int);
        assert(forall|k: int| 0 <= k < rest.len() ==> rest[k] == ts[k + 1]);
        lemma_traks_bytes_len(rest);
        lemma_leaf_bytes_len(BoxType::TrakBox, ts[0]);
    }
}

/// Size accuracy: the total encoded size a container reports equals the
/// length of the bytes it writes, for every container, empty optional
/// children and multi-child cases included.
pub proof fn lemma_moov_size_accuracy(v: MoovView)
    requires
        spec_moov_size(v) <= u64::MAX,
    ensures
        spec_moov_bytes(v).len() == spec_moov_size(v),
        spec_moov_children_bytes(v).len() == spec_moov_children_size(v),
{
    lemma_moov_child_bounds(v);
    lemma_leaf_bytes_len(BoxType::MvhdBox, v.mvhd);
    lemma_traks_bytes_len(v.traks);
    match v.mvex {
        Some(p) => lemma_leaf_bytes_len(BoxType::MvexBox, p),
        None => (),
    }
    match v.gps {
        Some(p) => lemma_leaf_bytes_len(BoxType::GpsBox, p),
        None => (),
    }
}

/// Scanning a range that starts with one well-formed leaf box advances
/// over exactly that box and applies its step to the state.
proof fn lemma_scan_leaf_step(
    data: Seq<u8>,
    cur: int,
    end: int,
    st: ScanState,
    tag: BoxType,
    p: Seq<u8>,
)
    requires
        tag.wf(),
        spec_sized_total(p.len() as int) <= u64::MAX,
        0 <= cur,
        cur + spec_sized_total(p.len() as int) <= end,
        end <= data.len(),
        data.subrange(cur, cur + spec_sized_total(p.len() as int)) == spec_leaf_bytes(tag, p),
    ensures
        spec_scan(data, cur, end, st) == spec_scan(
            data,
            cur + spec_sized_total(p.len() as int),
            end,
            spec_step(st, tag, spec_sized_total(p.len() as int) as u64, p),
        ),
{
    let sz = spec_sized_total(p.len() as int);
    let h = BoxHeader { name: tag, size: sz as u64 };
    let hl = spec_header_len(h.size);
    lemma_leaf_bytes_len(tag, p);
    let hb = spec_header_bytes(h);
    lemma_nested_subrange(data, cur, sz, 0, hl);
    lemma_nested_subrange(data, cur, sz, hl, sz);
    assert((hb + p).subrange(0, hl) =~= hb);
    assert((hb + p).subrange(hl, sz) =~= p);
    assert(data.subrange(cur, cur + hl) == hb);
    assert(data.subrange(cur + hl, cur + sz) == p);
    lemma_parse_header_at(data, cur, h);
    assert(spec_scan(data, cur, end, st) == spec_scan(
        data,
        cur + sz,
        end,
        spec_step(st, h.name, h.size, data.subrange(cur + hl, cur + sz)),
    ));
}

/// Scanning a range holding the concatenated repeated children appends
/// them all, in order, to the state's sequence and touches nothing else.
proof fn lemma_scan_traks(data: Seq<u8>, cur: int, end: int, st: ScanState, ts: Seq<Seq<u8>>)
    requires
        forall|k: int|
            0 <= k < ts.len() ==> spec_sized_total((#[trigger] ts[k]).len() as int) <= u64::MAX,
        0 <= cur,
        cur + spec_traks_size(ts) <= end,
        end <= data.len(),
        data.subrange(cur, cur + spec_traks_size(ts)) == spec_traks_bytes(ts),
    ensures
        spec_scan(data, cur, end, st) == spec_scan(
            data,
            cur + spec_traks_size(ts),
            end,
            ScanState::make(st.mvhd, st.mvex, st.traks + ts, st.gps, st.skipped),
        ),
    decreases ts.len(),
{
    lemma_traks_size_nonneg(ts);
    if ts.len() == 0 {
        assert(st.traks + ts =~= st.traks);
        assert(ScanState::make(st.mvhd, st.mvex, st.traks + ts, st.gps, st.skipped) =~~= st);
    } else {
        let p = ts[0];
        let s1 = spec_sized_total(p.len() as int);
        let s_all = spec_traks_size(ts);
        let rest = ts.subrange(1, ts.len() as int);
        assert(forall|k: int| 0 <= k < rest.len() ==> rest[k] == ts[k + 1]);
        lemma_traks_size_nonneg(rest);
        lemma_traks_bytes_len(ts);
        lemma_traks_bytes_len(rest);
        lemma_leaf_bytes_len(BoxType::TrakBox, p);
        let b_first = spec_leaf_bytes(BoxType::TrakBox, p);
        let b_rest = spec_traks_bytes(rest);
        lemma_nested_subrange(data, cur, s_all, 0, s1);
        lemma_nested_subrange(data, cur, s_all, s1, s_all);
        assert((b_first + b_rest).subrange(0, s1) =~= b_first);
        assert((b_first + b_rest).subrange(s1, s_all) =~= b_rest);
        assert(data.subrange(cur, cur + s1) == b_first);
        assert(data.subrange(cur + s1, cur + s_all) == b_rest);
        lemma_scan_leaf_step(data, cur, end, st, BoxType::TrakBox, p);
        let st1 = spec_step(st, BoxType::TrakBox, s1 as u64, p);
        assert(st1.traks == st.traks.push(p));
        lemma_scan_traks(data, cur + s1, end, st1, rest);
        assert(st.traks.push(p) + rest =~= st.traks + ts);
        assert(ScanState::make(st1.mvhd, st1.mvex, st1.traks + rest, st1.gps, st1.skipped)
            =~~= ScanState::make(st.mvhd, st.mvex, st.traks + ts, st.gps, st.skipped));
    }
}

/// Scanning the range that holds a container's children, written in
/// canonical order, fills exactly the container's slots: mandatory
/// singleton, repeated children in order, optional singletons, and
/// nothing skipped.
#[verifier::spinoff_prover]
proof fn lemma_scan_children(data: Seq<u8>, cur: int, end: int, v: MoovView)
    requires
        spec_moov_size(v) <= u64::MAX,
        0 <= cur,
        cur + spec_moov_children_size(v) == end,
        end <= data.len(),
        data.subrange(cur, end) == spec_moov_children_bytes(v),
    ensures
        spec_scan(data, cur, end, spec_scan_init()) == Ok::<ScanState, Error>(
            ScanState::make(Some(v.mvhd), v.mvex, v.traks, v.gps, Seq::<SkipRecord>::empty()),
        ),
{
    lemma_moov_child_bounds(v);
    lemma_moov_size_accuracy(v);
    let ch = spec_moov_children_bytes(v);
    let b_mv = spec_leaf_bytes(BoxType::MvhdBox, v.mvhd);
    let b_tr = spec_traks_bytes(v.traks);
    let b_ex = spec_opt_bytes(BoxType::MvexBox, v.mvex);
    let b_gp = spec_opt_bytes(BoxType::GpsBox, v.gps);
    let s_mv = spec_sized_total(v.mvhd.len() as int);
    let s_tr = spec_traks_size(v.traks);
    let s_ex = spec_opt_size(v.mvex);
    let s_gp = spec_opt_size(v.gps);
    let s_all = spec_moov_children_size(v);
    lemma_leaf_bytes_len(BoxType::MvhdBox, v.mvhd);
    lemma_traks_bytes_len(v.traks);
    match v.mvex {
        Some(p) => lemma_leaf_bytes_len(BoxType::MvexBox, p),
        None => (),
    }
    match v.gps {
        Some(p) => lemma_leaf_bytes_len(BoxType::GpsBox, p),
        None => (),
    }
    lemma_nested_subrange(data, cur, s_all, 0, s_mv);
    lemma_nested_subrange(data, cur, s_all, s_mv, s_mv + s_tr);
    lemma_nested_subrange(data, cur, s_all, s_mv + s_tr, s_mv + s_tr + s_ex);
    lemma_nested_subrange(data, cur, s_all, s_mv + s_tr + s_ex, s_all);
    assert(ch.subrange(0, s_mv) =~= b_mv);
    assert(ch.subrange(s_mv, s_mv + s_tr) =~= b_tr);
    assert(ch.subrange(s_mv + s_tr, s_mv + s_tr + s_ex) =~= b_ex);
    assert(ch.subrange(s_mv + s_tr + s_ex, s_all) =~= b_gp);
    assert(data.subrange(cur, cur + s_mv) == b_mv);
    assert(data.subrange(cur + s_mv, cur + s_mv + s_tr) == b_tr);
    assert(data.subrange(cur + s_mv + s_tr, cur + s_mv + s_tr + s_ex) == b_ex);
    assert(data.subrange(cur + s_mv + s_tr + s_ex, cur + s_all) == b_gp);
    let st0 = spec_scan_init();
    lemma_scan_leaf_step(data, cur, end, st0, BoxType::MvhdBox, v.mvhd);
    let st1 = spec_step(st0, BoxType::MvhdBox, s_mv as u64, v.mvhd);
    lemma_scan_traks(data, cur + s_mv, end, st1, v.traks);
    let st2 = ScanState::make(st1.mvhd, st1.mvex, st1.traks + v.traks, st1.gps, st1.skipped);
    assert(st1.traks + v.traks =~= v.traks);
    let st3 = match v.mvex {
        Some(p) => {
            lemma_scan_leaf_step(data, cur + s_mv + s_tr, end, st2, BoxType::MvexBox, p);
            spec_step(st2, BoxType::MvexBox, s_ex as u64, p)
        },
        None => st2,
    };
    let st4 = match v.gps {
        Some(p) => {
            lemma_scan_leaf_step(data, cur + s_mv + s_tr + s_ex, end, st3, BoxType::GpsBox, p);
            spec_step(st3, BoxType::GpsBox, s_gp as u64, p)
        },
        None => st3,
    };
    assert(spec_scan(data, cur + s_all, end, st4) == Ok::<ScanState, Error>(st4));
    assert(st4 =~~= ScanState::make(
        Some(v.mvhd),
        v.mvex,
        v.traks,
        v.gps,
        Seq::<SkipRecord>::empty(),
    ));
}

/// Round-trip: reading back the bytes written for any box tree gives the
/// tree, field for field, with no diagnostic record — children written in
/// canonical order parse back into the same slots, and the repeated
/// children keep their order.
#[verifier::spinoff_prover]
pub proof fn lemma_read_write_round_trip(v: MoovView)
    requires
        spec_moov_size(v) <= u64::MAX,
    ensures
        spec_read_top(spec_moov_bytes(v), 0) == Ok::<(MoovView, Seq<SkipRecord>), Error>(
            (v, Seq::empty()),
        ),
{
    let total = spec_moov_size(v);
    let data = spec_moov_bytes(v);
    lemma_moov_size_accuracy(v);
    lemma_moov_child_bounds(v);
    let h = BoxHeader { name: BoxType::MoovBox, size: total as u64 };
    let hl = spec_header_len(h.size);
    let hb = spec_header_bytes(h);
    let ch = spec_moov_children_bytes(v);
    assert(data == hb + ch);
    lemma_nested_subrange(data, 0, total, 0, hl);
    assert((hb + ch).subrange(0, hl) =~= hb);
    assert(data.subrange(0, hl) == hb);
    assert(h.wf());
    lemma_parse_header_at(data, 0, h);
    assert((hb + ch).subrange(hl, total) =~= ch);
    assert(data.subrange(hl, total) == ch);
    lemma_scan_children(data, hl, total, v);
    let st4 = ScanState::make(Some(v.mvhd), v.mvex, v.traks, v.gps, Seq::<SkipRecord>::empty());
    assert(MoovView { mvhd: v.mvhd, mvex: st4.mvex, traks: st4.traks, gps: st4.gps } =~~= v);
}

} // verus!
