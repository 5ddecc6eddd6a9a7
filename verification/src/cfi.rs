//! The entries of a call frame information section.

use vstd::prelude::*;

verus! {

/// Which of the two section conventions the bytes follow. They differ in
/// the identifier that marks a common information entry.
#[derive(Clone, Copy, Debug, PartialEq, Eq, Structural)]
pub enum FrameFormat {
    /// `.eh_frame`: a common information entry has the identifier 0.
    EhFrame,
    /// `.debug_frame`: a common information entry has an identifier of all
    /// ones, as wide as the identifier field.
    DebugFrame,
}

/// The prefix that every entry starts with.
#[derive(Clone, Copy, Debug, PartialEq, Eq, Structural)]
pub struct CFIHeader {
    /// The number of bytes of the entry that follow the length field.
    pub length: u64,
    /// The mark of a common information entry, or else the reference of a
    /// frame description to its common information entry.
    pub entry_id: u64,
    /// Whether the length was given in the 64-bit form.
    pub is_64bit: bool,
}

impl CFIHeader {
    /// Whether the identifier marks a common information entry.
    pub open spec fn marks_common_info(self, format: FrameFormat) -> bool {
        match format {
            FrameFormat::EhFrame => self.entry_id == 0,
            FrameFormat::DebugFrame => if self.is_64bit {
                self.entry_id == 0xffff_ffff_ffff_ffff
            } else {
                self.entry_id == 0xffff_ffff
            },
        }
    }

    /// The key under which the index knows the common information entry
    /// that a frame description with this header, at the offset
    /// `position` of its section, refers to: the offset of that entry in
    /// the section. In `.debug_frame` the identifier is that offset. In
    /// `.eh_frame` the identifier is the distance back to it from the
    /// identifier field, which follows the length field.
    pub open spec fn reference_key(self, format: FrameFormat, position: u64) -> u64 {
        match format {
            FrameFormat::EhFrame => position.wrapping_add(
                if self.is_64bit {
                    12
                } else {
                    4
                },
            ).wrapping_sub(self.entry_id),
            FrameFormat::DebugFrame => self.entry_id,
        }
    }

    /// The key under which the index knows the common information entry
    /// of a frame description with this header, at the offset `position`
    /// of its section.
    pub fn cie_key(&self, format: FrameFormat, position: u64) -> (r: u64)
        ensures
            r == self.reference_key(format, position),
    {
        match format {
            FrameFormat::EhFrame => {
                let width: u64 = if self.is_64bit {
                    12
                } else {
                    4
                };
                position.wrapping_add(width).wrapping_sub(self.entry_id)
            },
            FrameFormat::DebugFrame => self.entry_id,
        }
    }

    /// Whether the identifier marks a common information entry.
    pub fn is_common_info(&self, format: FrameFormat) -> (r: bool)
        ensures
            r == self.marks_common_info(format),
    {
        match format {
            FrameFormat::EhFrame => self.entry_id == 0,
            FrameFormat::DebugFrame => if self.is_64bit {
                self.entry_id == 0xffff_ffff_ffff_ffff
            } else {
                self.entry_id == 0xffff_ffff
            },
        }
    }
}

/// A common information entry: what a group of frame descriptions share.
#[derive(Clone, Debug)]
pub struct CommonInfo {
    pub header: CFIHeader,
    pub version: u8,
    /// The augmentation string, without its terminating zero.
    pub augmentation: Vec<u8>,
    /// Present from version 4 on.
    pub address_size: Option<u8>,
    /// Present from version 4 on.
    pub segment_size: Option<u8>,
    /// Empty unless the augmentation string begins with `z`.
    pub augmentation_data: Vec<u8>,
    pub code_alignment_factor: u64,
    pub data_alignment_factor: i64,
    pub return_address_register: u64,
    pub initial_instructions: Vec<u8>,
}

/// The mathematical value of a `CommonInfo`.
pub struct CommonInfoView {
    pub header: CFIHeader,
    pub version: u8,
    pub augmentation: Seq<u8>,
    pub address_size: Option<u8>,
    pub segment_size: Option<u8>,
    pub augmentation_data: Seq<u8>,
    pub code_alignment_factor: u64,
    pub data_alignment_factor: i64,
    pub return_address_register: u64,
    pub initial_instructions: Seq<u8>,
}

impl View for CommonInfo {
    type V = CommonInfoView;

    open spec fn view(&self) -> CommonInfoView {
        CommonInfoView {
            header: self.header,
            version: self.version,
            augmentation: self.augmentation@,
            address_size: self.address_size,
            segment_size: self.segment_size,
            augmentation_data: self.augmentation_data@,
            code_alignment_factor: self.code_alignment_factor,
            data_alignment_factor: self.data_alignment_factor,
            return_address_register: self.return_address_register,
            initial_instructions: self.initial_instructions@,
        }
    }
}

/// A frame description entry: the unwind instructions of one address range.
#[derive(Clone, Debug)]
pub struct FrameDescription {
    pub header: CFIHeader,
    /// The key under which the owning common information entry is known.
    pub cie_reference: u64,
    pub initial_location: u64,
    pub address_range: u64,
    pub augmentation_data: Vec<u8>,
    pub instructions: Vec<u8>,
}

/// The mathematical value of a `FrameDescription`.
pub struct FrameDescriptionView {
    pub header: CFIHeader,
    pub cie_reference: u64,
    pub initial_location: u64,
    pub address_range: u64,
    pub augmentation_data: Seq<u8>,
    pub instructions: Seq<u8>,
}

impl View for FrameDescription {
    type V = FrameDescriptionView;

    open spec fn view(&self) -> FrameDescriptionView {
        FrameDescriptionView {
            header: self.header,
            cie_reference: self.cie_reference,
            initial_location: self.initial_location,
            address_range: self.address_range,
            augmentation_data: self.augmentation_data@,
            instructions: self.instructions@,
        }
    }
}

/// One entry of the section.
#[derive(Clone, Debug)]
pub enum CFIEntry {
    CommonInfo(CommonInfo),
    FrameDescription(FrameDescription),
}

/// The mathematical value of a `CFIEntry`.
pub enum CFIEntryView {
    CommonInfo(CommonInfoView),
    FrameDescription(FrameDescriptionView),
}

impl View for CFIEntry {
    type V = CFIEntryView;

    open spec fn view(&self) -> CFIEntryView {
        match self {
            CFIEntry::CommonInfo(c) => CFIEntryView::CommonInfo(c@),
            CFIEntry::FrameDescription(d) => CFIEntryView::FrameDescription(d@),
        }
    }
}

/// What decoding a frame description needs to know of its common
/// information entry.
#[derive(Clone, Copy, Debug, PartialEq, Eq, Structural)]
pub struct CieSummary {
    /// The offset of the entry in its section.
    pub key: u64,
    /// The width in bytes of a location and of a range.
    pub address_size: u8,
    /// Whether its augmentation string begins with `z`, so that its frame
    /// descriptions carry augmentation data too.
    pub has_augmentation_data: bool,
}

/// The first summary of `entries`, at or after `from`, with the key `key`.
pub open spec fn resolve_from(entries: Seq<CieSummary>, key: u64, from: nat) -> Option<CieSummary>
    decreases entries.len() - from,
{
    if from >= entries.len() {
        None
    } else if entries[from as int].key == key {
        Some(entries[from as int])
    } else {
        resolve_from(entries, key, from + 1)
    }
}

/// The summary that `cie` has under `key`, with `default_address_size`
/// where the entry states no address size of its own.
pub open spec fn summary_of(key: u64, cie: CommonInfoView, default_address_size: u8) -> CieSummary {
    CieSummary {
        key,
        address_size: match cie.address_size {
            Some(w) => w,
            None => default_address_size,
        },
        has_augmentation_data: cie.augmentation.len() > 0 && cie.augmentation[0] == 0x7a,
    }
}

/// The common information entries seen so far, each under its offset in
/// the section. Where a key was recorded twice, the
/// first record counts.
pub struct CieIndex {
    entries: Vec<CieSummary>,
}

impl View for CieIndex {
    type V = Seq<CieSummary>;

    closed spec fn view(&self) -> Seq<CieSummary> {
        self.entries@
    }
}

impl CieIndex {
    /// An index that knows no entry.
    pub fn new() -> (r: Self)
        ensures
            r@ == Seq::<CieSummary>::empty(),
    {
        CieIndex { entries: Vec::new() }
    }

    /// Records `cie` under `key`.
    pub fn insert(&mut self, key: u64, cie: &CommonInfo, default_address_size: u8)
        ensures
            final(self)@ == old(self)@.push(summary_of(key, cie@, default_address_size)),
    {
        let address_size = match cie.address_size {
            Some(w) => w,
            None => default_address_size,
        };
        let has_augmentation_data = cie.augmentation.len() > 0 && cie.augmentation[0] == 0x7a;
        self.entries.push(CieSummary { key, address_size, has_augmentation_data });
    }

    /// The summary recorded under `key`, if any.
    pub fn resolve(&self, key: u64) -> (r: Option<CieSummary>)
        ensures
            r == resolve_from(self@, key, 0),
    {
        let mut i: usize = 0;
        while i < self.entries.len()
            invariant
                i <= self.entries@.len(),
                resolve_from(self@, key, 0) == resolve_from(self@, key, i as nat),
            decreases self.entries@.len() - i,
        {
            if self.entries[i].key == key {
                return Some(self.entries[i]);
            }
            i += 1;
        }
        None
    }
}

} // verus!
