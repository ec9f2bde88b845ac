//! Box type tags: the 4-byte codes that identify each box's semantic type,
//! and the classification of codes into known and unknown types.

use vstd::prelude::*;

verus! {

/// Length in bytes of the compact box header: 4-byte size + 4-byte tag.
pub const HEADER_SIZE: u64 = 8;

/// Length in bytes of the extended box header: compact header followed by
/// an 8-byte extended size field.
pub const EXT_HEADER_SIZE: u64 = 16;

pub const MOOV_TAG: u32 = 0x6d6f_6f76;
pub const MVHD_TAG: u32 = 0x6d76_6864;
pub const MVEX_TAG: u32 = 0x6d76_6578;
pub const TRAK_TAG: u32 = 0x7472_616b;
pub const GPS_TAG: u32 = 0x6770_7320;
pub const UDTA_TAG: u32 = 0x7564_7461;

/// The semantic type of a box, as identified by its 4-byte tag. Codes that
/// the engine does not recognize are carried verbatim in `UnknownBox`, so
/// that skipping them keeps the diagnostic record exact.
#[derive(Clone, Copy, Debug, PartialEq, Eq, Structural)]
pub enum BoxType {
    MoovBox,
    MvhdBox,
    MvexBox,
    TrakBox,
    GpsBox,
    UdtaBox,
    UnknownBox(u32),
}

/// The 4-byte code that a box type writes on the wire.
pub open spec fn spec_fourcc(t: BoxType) -> u32 {
    match t {
        BoxType::MoovBox => MOOV_TAG,
        BoxType::MvhdBox => MVHD_TAG,
        BoxType::MvexBox => MVEX_TAG,
        BoxType::TrakBox => TRAK_TAG,
        BoxType::GpsBox => GPS_TAG,
        BoxType::UdtaBox => UDTA_TAG,
        BoxType::UnknownBox(v) => v,
    }
}

/// The box type that a 4-byte code on the wire denotes.
pub open spec fn spec_box_type(v: u32) -> BoxType {
    if v == MOOV_TAG {
        BoxType::MoovBox
    } else if v == MVHD_TAG {
        BoxType::MvhdBox
    } else if v == MVEX_TAG {
        BoxType::MvexBox
    } else if v == TRAK_TAG {
        BoxType::TrakBox
    } else if v == GPS_TAG {
        BoxType::GpsBox
    } else if v == UDTA_TAG {
        BoxType::UdtaBox
    } else {
        BoxType::UnknownBox(v)
    }
}

impl BoxType {
    /// A well-formed type never hides a known code inside `UnknownBox`,
    /// so the tag written on the wire reads back as the same type.
    pub open spec fn wf(self) -> bool {
        match self {
            BoxType::UnknownBox(v) => spec_box_type(v) == BoxType::UnknownBox(v),
            _ => true,
        }
    }

    /// The 4-byte code identifying this type on the wire.
    pub fn fourcc(self) -> (r: u32)
        ensures
            r == spec_fourcc(self),
    {
        match self {
            BoxType::MoovBox => MOOV_TAG,
            BoxType::MvhdBox => MVHD_TAG,
            BoxType::MvexBox => MVEX_TAG,
            BoxType::TrakBox => TRAK_TAG,
            BoxType::GpsBox => GPS_TAG,
            BoxType::UdtaBox => UDTA_TAG,
            BoxType::UnknownBox(v) => v,
        }
    }

    /// Classifies a 4-byte code read from the wire.
    pub fn from_fourcc(v: u32) -> (r: BoxType)
        ensures
            r == spec_box_type(v),
    {
        if v == MOOV_TAG {
            BoxType::MoovBox
        } else if v == MVHD_TAG {
            BoxType::MvhdBox
        } else if v == MVEX_TAG {
            BoxType::MvexBox
        } else if v == TRAK_TAG {
            BoxType::TrakBox
        } else if v == GPS_TAG {
            BoxType::GpsBox
        } else if v == UDTA_TAG {
            BoxType::UdtaBox
        } else {
            BoxType::UnknownBox(v)
        }
    }
}

/// Writing a well-formed type's code and classifying it again gives the
/// type back.
pub proof fn lemma_fourcc_round_trip(t: BoxType)
    requires
        t.wf(),
    ensures
        spec_box_type(spec_fourcc(t)) == t,
{
}

} // verus!
