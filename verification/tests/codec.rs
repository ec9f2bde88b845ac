use mp4box::error::Error;
use mp4box::header::BoxHeader;
use mp4box::leaf::{GpsBox, MvexBox, MvhdBox, TrakBox};
use mp4box::moov::MoovBox;
use mp4box::stream::{ByteReader, ByteWriter, SkipRecord};
use mp4box::types::BoxType;

fn be32(v: u32) -> [u8; 4] {
    [(v >> 24) as u8, (v >> 16) as u8, (v >> 8) as u8, v as u8]
}

fn push_header(out: &mut Vec<u8>, size: u32, tag: &[u8; 4]) {
    out.extend_from_slice(&be32(size));
    out.extend_from_slice(tag);
}

fn sample_moov() -> MoovBox {
    MoovBox {
        mvhd: MvhdBox { payload: vec![1, 2, 3, 4] },
        mvex: Some(MvexBox { payload: vec![9, 8] }),
        traks: vec![
            TrakBox { payload: vec![10, 11, 12] },
            TrakBox { payload: vec![13] },
        ],
        gps: Some(GpsBox { payload: vec![42] }),
    }
}

#[test]
fn header_round_trip_compact() {
    let h = BoxHeader::new(BoxType::TrakBox, 24);
    let mut w = ByteWriter::new();
    assert_eq!(h.write(&mut w), Ok(8));
    assert_eq!(w.data, vec![0, 0, 0, 24, 0x74, 0x72, 0x61, 0x6b]);
    let mut r = ByteReader::new(w.data);
    assert_eq!(BoxHeader::read(&mut r), Ok(h));
    assert_eq!(r.pos, 8);
}

#[test]
fn header_round_trip_extended() {
    let h = BoxHeader::new(BoxType::MoovBox, 0x1_0000_0000);
    let mut w = ByteWriter::new();
    assert_eq!(h.write(&mut w), Ok(16));
    assert_eq!(
        w.data,
        vec![0, 0, 0, 1, 0x6d, 0x6f, 0x6f, 0x76, 0, 0, 0, 1, 0, 0, 0, 0]
    );
    let mut r = ByteReader::new(w.data);
    assert_eq!(BoxHeader::read(&mut r), Ok(h));
    assert_eq!(r.pos, 16);
}

#[test]
fn header_truncated() {
    let mut r = ByteReader::new(vec![0, 0, 0]);
    assert_eq!(BoxHeader::read(&mut r), Err(Error::TruncatedHeader));
}

#[test]
fn header_truncated_extended() {
    let mut r = ByteReader::new(vec![0, 0, 0, 1, 0x6d, 0x6f, 0x6f, 0x76, 0, 0]);
    assert_eq!(BoxHeader::read(&mut r), Err(Error::TruncatedHeader));
}

#[test]
fn moov_round_trip() {
    let m = sample_moov();
    let mut w = ByteWriter::new();
    let written = m.write_box(&mut w).unwrap();
    assert_eq!(written, m.get_size());
    assert_eq!(written as usize, w.data.len());
    let mut r = ByteReader::new(w.data);
    let m2 = MoovBox::read_from(&mut r).unwrap();
    assert_eq!(m2, m);
    assert!(r.skipped.is_empty());
}

#[test]
fn moov_round_trip_minimal() {
    let m = MoovBox {
        mvhd: MvhdBox { payload: vec![] },
        mvex: None,
        traks: vec![],
        gps: None,
    };
    let mut w = ByteWriter::new();
    m.write_box(&mut w).unwrap();
    let mut r = ByteReader::new(w.data);
    assert_eq!(MoovBox::read_from(&mut r).unwrap(), m);
}

#[test]
fn size_accuracy_empty_optionals() {
    let m = MoovBox {
        mvhd: MvhdBox { payload: vec![] },
        mvex: None,
        traks: vec![],
        gps: None,
    };
    assert_eq!(m.get_size(), 16);
    let mut w = ByteWriter::new();
    assert_eq!(m.write_box(&mut w), Ok(16));
    assert_eq!(w.data.len(), 16);
}

#[test]
fn size_accuracy_multi_child() {
    let m = sample_moov();
    // header 8, mvhd 8+4, traks 8+3 and 8+1, mvex 8+2, gps 8+1
    assert_eq!(m.get_size(), 8 + 12 + 11 + 9 + 10 + 9);
    let mut w = ByteWriter::new();
    let written = m.write_box(&mut w).unwrap();
    assert_eq!(written, m.get_size());
    assert_eq!(w.data.len() as u64, m.get_size());
}

#[test]
fn write_exact_bytes() {
    let m = MoovBox {
        mvhd: MvhdBox { payload: vec![0xAA] },
        mvex: None,
        traks: vec![],
        gps: None,
    };
    let mut w = ByteWriter::new();
    assert_eq!(m.write_box(&mut w), Ok(17));
    let mut expected = Vec::new();
    push_header(&mut expected, 17, b"moov");
    push_header(&mut expected, 9, b"mvhd");
    expected.push(0xAA);
    assert_eq!(w.data, expected);
}

#[test]
fn unknown_box_is_skipped_with_one_record() {
    let mut data = Vec::new();
    push_header(&mut data, 8 + 12 + 10, b"moov");
    push_header(&mut data, 12, b"mvhd");
    data.extend_from_slice(&[1, 2, 3, 4]);
    push_header(&mut data, 10, b"abcd");
    data.extend_from_slice(&[0xFF, 0xFE]);
    let mut r = ByteReader::new(data);
    let m = MoovBox::read_from(&mut r).unwrap();
    assert_eq!(m.mvhd.payload, vec![1, 2, 3, 4]);
    assert_eq!(m.mvex, None);
    assert!(m.traks.is_empty());
    assert_eq!(m.gps, None);
    assert_eq!(
        r.skipped,
        vec![SkipRecord { name: BoxType::UnknownBox(0x6162_6364), size: 10 }]
    );
}

#[test]
fn udta_is_skipped_with_record() {
    let mut data = Vec::new();
    push_header(&mut data, 8 + 12 + 9, b"moov");
    push_header(&mut data, 12, b"mvhd");
    data.extend_from_slice(&[1, 2, 3, 4]);
    push_header(&mut data, 9, b"udta");
    data.push(0);
    let mut r = ByteReader::new(data);
    let m = MoovBox::read_from(&mut r).unwrap();
    assert_eq!(m.mvhd.payload, vec![1, 2, 3, 4]);
    assert_eq!(
        r.skipped,
        vec![SkipRecord { name: BoxType::UdtaBox, size: 9 }]
    );
}

#[test]
fn missing_mandatory_child_fails() {
    let mut data = Vec::new();
    push_header(&mut data, 8 + 10 + 10, b"moov");
    push_header(&mut data, 10, b"trak");
    data.extend_from_slice(&[1, 2]);
    push_header(&mut data, 10, b"mvex");
    data.extend_from_slice(&[3, 4]);
    let mut r = ByteReader::new(data);
    assert_eq!(
        MoovBox::read_from(&mut r),
        Err(Error::BoxNotFound(BoxType::MvhdBox))
    );
}

#[test]
fn truncated_child_payload_is_size_mismatch() {
    // the mvhd box declares 4 payload bytes but the stream holds 3; the
    // parent's declared size is left unchanged, so the scan drifts into
    // the next sibling's header and must report the inconsistency
    let mut data = Vec::new();
    push_header(&mut data, 8 + 12 + 10, b"moov");
    push_header(&mut data, 12, b"mvhd");
    data.extend_from_slice(&[9, 9, 9]);
    push_header(&mut data, 10, b"trak");
    data.extend_from_slice(&[5, 5]);
    let mut r = ByteReader::new(data);
    assert_eq!(MoovBox::read_from(&mut r), Err(Error::SizeMismatch));
}

#[test]
fn repeated_children_keep_order() {
    let m = MoovBox {
        mvhd: MvhdBox { payload: vec![] },
        mvex: None,
        traks: vec![
            TrakBox { payload: vec![1] },
            TrakBox { payload: vec![2] },
            TrakBox { payload: vec![3] },
        ],
        gps: None,
    };
    let mut w = ByteWriter::new();
    m.write_box(&mut w).unwrap();
    let mut r = ByteReader::new(w.data);
    let m2 = MoovBox::read_from(&mut r).unwrap();
    let payloads: Vec<Vec<u8>> = m2.traks.iter().map(|t| t.payload.clone()).collect();
    assert_eq!(payloads, vec![vec![1], vec![2], vec![3]]);
}

#[test]
fn nested_zero_size_child_is_size_mismatch() {
    let mut data = Vec::new();
    push_header(&mut data, 8 + 12 + 8, b"moov");
    push_header(&mut data, 12, b"mvhd");
    data.extend_from_slice(&[1, 2, 3, 4]);
    push_header(&mut data, 0, b"free");
    let mut r = ByteReader::new(data);
    assert_eq!(MoovBox::read_from(&mut r), Err(Error::SizeMismatch));
}

#[test]
fn zero_size_top_level_extends_to_stream_end() {
    let mut data = Vec::new();
    push_header(&mut data, 0, b"moov");
    push_header(&mut data, 12, b"mvhd");
    data.extend_from_slice(&[1, 2, 3, 4]);
    let mut r = ByteReader::new(data);
    let m = MoovBox::read_from(&mut r).unwrap();
    assert_eq!(m.mvhd.payload, vec![1, 2, 3, 4]);
    assert_eq!(r.pos, 20);
}

#[test]
fn top_level_wrong_tag_fails() {
    let mut data = Vec::new();
    push_header(&mut data, 8, b"ftyp");
    let mut r = ByteReader::new(data);
    assert_eq!(
        MoovBox::read_from(&mut r),
        Err(Error::BoxNotFound(BoxType::MoovBox))
    );
}

#[test]
fn child_beyond_stream_end_is_io_error() {
    let mut data = Vec::new();
    push_header(&mut data, 120, b"moov");
    push_header(&mut data, 100, b"mvhd");
    let mut r = ByteReader::new(data);
    assert_eq!(MoovBox::read_from(&mut r), Err(Error::IOError));
}

#[test]
fn truncated_header_inside_children() {
    let mut data = Vec::new();
    push_header(&mut data, 20, b"moov");
    data.extend_from_slice(&[0, 0, 0, 12]);
    let mut r = ByteReader::new(data);
    assert_eq!(MoovBox::read_from(&mut r), Err(Error::TruncatedHeader));
}

#[test]
fn duplicate_singleton_last_wins() {
    let mut data = Vec::new();
    push_header(&mut data, 8 + 9 + 9, b"moov");
    push_header(&mut data, 9, b"mvhd");
    data.push(1);
    push_header(&mut data, 9, b"mvhd");
    data.push(2);
    let mut r = ByteReader::new(data);
    let m = MoovBox::read_from(&mut r).unwrap();
    assert_eq!(m.mvhd.payload, vec![2]);
}

#[test]
fn extended_header_child_is_read() {
    let mut data = Vec::new();
    push_header(&mut data, 8 + 20, b"moov");
    push_header(&mut data, 1, b"mvhd");
    data.extend_from_slice(&[0, 0, 0, 0, 0, 0, 0, 20]);
    data.extend_from_slice(&[7, 7, 7, 7]);
    let mut r = ByteReader::new(data);
    let m = MoovBox::read_from(&mut r).unwrap();
    assert_eq!(m.mvhd.payload, vec![7, 7, 7, 7]);
    assert_eq!(r.pos, 28);
}

#[test]
fn summary_reports_counts_and_presence() {
    let m = sample_moov();
    assert_eq!(m.summary(), Ok(String::from("traks=2, gps_found=true")));
    let bare = MoovBox::default();
    assert_eq!(bare.summary(), Ok(String::from("traks=0, gps_found=false")));
}

#[test]
fn type_tags_are_constant() {
    let m = MoovBox::default();
    assert_eq!(m.get_type(), BoxType::MoovBox);
    assert_eq!(m.box_type(), BoxType::MoovBox);
    assert_eq!(MvhdBox::default().box_type(), BoxType::MvhdBox);
    assert_eq!(TrakBox::default().box_type(), BoxType::TrakBox);
}

#[test]
fn fourcc_round_trips() {
    assert_eq!(BoxType::from_fourcc(0x6d6f_6f76), BoxType::MoovBox);
    assert_eq!(BoxType::MoovBox.fourcc(), 0x6d6f_6f76);
    assert_eq!(BoxType::from_fourcc(0x6770_7320), BoxType::GpsBox);
    let odd = BoxType::from_fourcc(0x0102_0304);
    assert_eq!(odd, BoxType::UnknownBox(0x0102_0304));
    assert_eq!(odd.fourcc(), 0x0102_0304);
}

#[test]
fn leaf_round_trip_and_size() {
    let t = TrakBox { payload: vec![1, 2, 3] };
    assert_eq!(t.box_size(), 11);
    let mut w = ByteWriter::new();
    assert_eq!(t.write_box(&mut w), Ok(11));
    assert_eq!(w.data.len(), 11);
    let mut r = ByteReader::new(w.data);
    let h = BoxHeader::read(&mut r).unwrap();
    assert_eq!(h, BoxHeader::new(BoxType::TrakBox, 11));
    let t2 = TrakBox::read_box(&mut r, h.size).unwrap();
    assert_eq!(t2, t);
}
