//! Decoding one entry of a call frame information section from its bytes.

use crate::cfi::{
    resolve_from, summary_of, CFIEntry, CFIEntryView, CFIHeader, CieIndex, CieSummary, CommonInfo,
    CommonInfoView, FrameDescription, FrameDescriptionView, FrameFormat,
};
use crate::error::CfiError;
use crate::reader::{
    le_value, lemma_le_value_bound, pow256, take_bytes, take_cstr, take_sleb128, take_u8, take_uint, take_uleb128, ByteCursor,
};
use vstd::prelude::*;

verus! {

/// An entry cut out of the section: its header, the bytes of the entry
/// that follow the identifier, and the bytes of the section that follow
/// the entry.
pub struct Framing {
    pub header: CFIHeader,
    pub body: Seq<u8>,
    pub rest: Seq<u8>,
}

/// The length field at the front of `s`: whether it has the 64-bit form,
/// the length, and what follows the field. The 64-bit form is a 32-bit
/// field of all ones followed by a 64-bit length.
pub open spec fn take_length(s: Seq<u8>) -> Result<(bool, nat, Seq<u8>), CfiError> {
    match take_uint(s, 4) {
        Err(e) => Err(e),
        Ok((initial, s1)) => if initial == 0xffff_ffff {
            match take_uint(s1, 8) {
                Err(e) => Err(e),
                Ok((length, s2)) => Ok((true, length, s2)),
            }
        } else {
            Ok((false, initial, s1))
        },
    }
}

/// The width in bytes of the identifier field.
pub open spec fn id_width(is_64bit: bool) -> nat {
    if is_64bit {
        8
    } else {
        4
    }
}

/// The entry at the front of `s`. `Ok(None)` where the length is zero,
/// which ends the section. The entry's bytes are the `length` bytes that
/// follow the length field, however many the section has after them.
pub open spec fn frame_entry(s: Seq<u8>) -> Result<Option<Framing>, CfiError> {
    match take_length(s) {
        Err(e) => Err(e),
        Ok((is_64bit, length, s1)) => if length == 0 {
            Ok(None)
        } else {
            match take_bytes(s1, length) {
                Err(e) => Err(e),
                Ok((region, rest)) => match take_uint(region, id_width(is_64bit)) {
                    Err(e) => Err(e),
                    Ok((id, body)) => Ok(
                        Some(
                            Framing {
                                header: CFIHeader {
                                    length: length as u64,
                                    entry_id: id as u64,
                                    is_64bit,
                                },
                                body,
                                rest,
                            },
                        ),
                    ),
                },
            }
        },
    }
}

/// The address and segment sizes, which an entry has from version 4 on.
pub open spec fn take_sizes(s: Seq<u8>, version: u8) -> Result<
    (Option<u8>, Option<u8>, Seq<u8>),
    CfiError,
> {
    if version >= 4 {
        match take_u8(s) {
            Err(e) => Err(e),
            Ok((address_size, s1)) => match take_u8(s1) {
                Err(e) => Err(e),
                Ok((segment_size, s2)) => Ok((Some(address_size), Some(segment_size), s2)),
            },
        }
    } else {
        Ok((None, None, s))
    }
}

/// The return address register: one byte in version 1, an unsigned LEB128
/// number in every later version.
pub open spec fn take_return_register(s: Seq<u8>, version: u8) -> Result<
    (u64, Seq<u8>),
    CfiError,
> {
    if version == 1 {
        match take_u8(s) {
            Err(e) => Err(e),
            Ok((b, s1)) => Ok((b as u64, s1)),
        }
    } else {
        take_uleb128(s)
    }
}

/// The augmentation data, where an entry has any: an unsigned LEB128
/// length and that many bytes.
pub open spec fn take_augmentation_data(s: Seq<u8>, present: bool) -> Result<
    (Seq<u8>, Seq<u8>),
    CfiError,
> {
    if present {
        match take_uleb128(s) {
            Err(e) => Err(e),
            Ok((n, s1)) => take_bytes(s1, n as nat),
        }
    } else {
        Ok((Seq::<u8>::empty(), s))
    }
}

/// Whether an augmentation string is one that this decoder takes: the
/// empty one, or one that begins with `z`.
pub open spec fn augmentation_supported(augmentation: Seq<u8>) -> bool {
    augmentation.len() == 0 || augmentation[0] == 0x7a
}

/// The common information entry that `body`, the bytes after the
/// identifier, spells.
pub open spec fn common_info_of(body: Seq<u8>, header: CFIHeader) -> Result<
    CommonInfoView,
    CfiError,
> {
    match take_u8(body) {
        Err(e) => Err(e),
        Ok((version, s1)) => match take_cstr(s1) {
            Err(e) => Err(e),
            Ok((augmentation, s2)) => if !augmentation_supported(augmentation) {
                Err(CfiError::UnsupportedAugmentation)
            } else {
                match take_sizes(s2, version) {
                    Err(e) => Err(e),
                    Ok((address_size, segment_size, s3)) => match take_uleb128(s3) {
                        Err(e) => Err(e),
                        Ok((code_alignment_factor, s4)) => match take_sleb128(s4) {
                            Err(e) => Err(e),
                            Ok((data_alignment_factor, s5)) => match take_return_register(
                                s5,
                                version,
                            ) {
                                Err(e) => Err(e),
                                Ok((return_address_register, s6)) => match take_augmentation_data(
                                    s6,
                                    augmentation.len() > 0,
                                ) {
                                    Err(e) => Err(e),
                                    Ok((augmentation_data, s7)) => Ok(
                                        CommonInfoView {
                                            header,
                                            version,
                                            augmentation,
                                            address_size,
                                            segment_size,
                                            augmentation_data,
                                            code_alignment_factor,
                                            data_alignment_factor,
                                            return_address_register,
                                            initial_instructions: s7,
                                        },
                                    ),
                                },
                            },
                        },
                    },
                }
            },
        },
    }
}

/// The frame description that `body`, the bytes after the identifier,
/// spells, for locations of `address_size` bytes, least significant byte
/// first. No 64-bit location has a width of zero or of more than eight.
pub open spec fn frame_description_of(
    body: Seq<u8>,
    header: CFIHeader,
    address_size: u8,
    has_augmentation_data: bool,
) -> Result<FrameDescriptionView, CfiError> {
    if address_size == 0 || address_size > 8 {
        Err(CfiError::MalformedEncoding)
    } else {
        match take_uint(body, address_size as nat) {
            Err(e) => Err(e),
            Ok((initial_location, s1)) => match take_uint(s1, address_size as nat) {
                Err(e) => Err(e),
                Ok((address_range, s2)) => match take_augmentation_data(
                    s2,
                    has_augmentation_data,
                ) {
                    Err(e) => Err(e),
                    Ok((augmentation_data, s3)) => Ok(
                        FrameDescriptionView {
                            header,
                            cie_reference: header.entry_id,
                            initial_location: initial_location as u64,
                            address_range: address_range as u64,
                            augmentation_data,
                            instructions: s3,
                        },
                    ),
                },
            },
        }
    }
}

/// The entry that a framing at the offset `position` of its section
/// spells: a common information entry where the identifier marks one,
/// else a frame description of the common information entry that `index`
/// knows under the key that the identifier stands for.
pub open spec fn entry_of(
    f: Framing,
    format: FrameFormat,
    position: u64,
    index: Seq<CieSummary>,
) -> Result<CFIEntryView, CfiError> {
    if f.header.marks_common_info(format) {
        match common_info_of(f.body, f.header) {
            Err(e) => Err(e),
            Ok(c) => Ok(CFIEntryView::CommonInfo(c)),
        }
    } else {
        match resolve_from(index, f.header.reference_key(format, position), 0) {
            None => Err(CfiError::UnresolvedReference),
            Some(c) => match frame_description_of(
                f.body,
                f.header,
                c.address_size,
                c.has_augmentation_data,
            ) {
                Err(e) => Err(e),
                Ok(d) => Ok(CFIEntryView::FrameDescription(d)),
            },
        }
    }
}

/// The mathematical values of `entries`.
pub open spec fn entry_views(entries: Seq<CFIEntry>) -> Seq<CFIEntryView> {
    entries.map_values(|e: CFIEntry| e@)
}

/// The index after `entry`, read at the offset `position`: a common
/// information entry is recorded under its offset.
pub open spec fn index_after(
    index: Seq<CieSummary>,
    entry: CFIEntryView,
    position: u64,
    default_address_size: u8,
) -> Seq<CieSummary> {
    match entry {
        CFIEntryView::CommonInfo(c) => index.push(summary_of(position, c, default_address_size)),
        CFIEntryView::FrameDescription(_) => index,
    }
}

/// `entries` in front of the entries of `rest`, where there are any.
pub open spec fn in_front(entries: Seq<CFIEntryView>, rest: Result<Seq<CFIEntryView>, CfiError>)
    -> Result<Seq<CFIEntryView>, CfiError> {
    match rest {
        Ok(tail) => Ok(entries + tail),
        Err(e) => Err(e),
    }
}

/// The entries of the section `s`, which starts at the offset `position`,
/// up to its end or to a length of zero. Each frame description is
/// decoded with what `index`, and the common information entries before
/// it in `s`, say of its common information entry. The first entry that
/// fails to decode fails the whole.
pub open spec fn section_entries(
    s: Seq<u8>,
    format: FrameFormat,
    position: u64,
    index: Seq<CieSummary>,
    default_address_size: u8,
) -> Result<Seq<CFIEntryView>, CfiError>
    decreases s.len(),
{
    if s.len() == 0 {
        Ok(Seq::empty())
    } else {
        match frame_entry(s) {
            Err(e) => Err(e),
            Ok(None) => Ok(Seq::empty()),
            Ok(Some(f)) => match entry_of(f, format, position, index) {
                Err(e) => Err(e),
                Ok(entry) => if f.rest.len() < s.len() {
                    in_front(
                        seq![entry],
                        section_entries(
                            f.rest,
                            format,
                            (position + s.len() - f.rest.len()) as u64,
                            index_after(index, entry, position, default_address_size),
                            default_address_size,
                        ),
                    )
                } else {
                    Ok(seq![entry])
                },
            },
        }
    }
}

fn read_length(reader: &mut ByteCursor) -> (r: Result<(bool, u64), CfiError>)
    ensures
        match take_length(old(reader)@) {
            Err(e) => r == Err::<(bool, u64), CfiError>(e),
            Ok((is_64bit, length, rest)) => r == Ok::<(bool, u64), CfiError>(
                (is_64bit, length as u64),
            ) && length <= u64::MAX && final(reader)@ == rest,
        },
{
    let initial = match reader.read_u32() {
        Ok(v) => v,
        Err(e) => return Err(e),
    };
    if initial == 0xffff_ffff {
        match reader.read_u64() {
            Ok(v) => Ok((true, v)),
            Err(e) => Err(e),
        }
    } else {
        Ok((false, initial as u64))
    }
}

fn read_sizes(reader: &mut ByteCursor, version: u8) -> (r: Result<
    (Option<u8>, Option<u8>),
    CfiError,
>)
    ensures
        match take_sizes(old(reader)@, version) {
            Err(e) => r == Err::<(Option<u8>, Option<u8>), CfiError>(e),
            Ok((a, s, rest)) => r == Ok::<(Option<u8>, Option<u8>), CfiError>((a, s)) && final(reader)@ == rest,
        },
{
    if version >= 4 {
        let address_size = match reader.read_u8() {
            Ok(v) => v,
            Err(e) => return Err(e),
        };
        let segment_size = match reader.read_u8() {
            Ok(v) => v,
            Err(e) => return Err(e),
        };
        Ok((Some(address_size), Some(segment_size)))
    } else {
        Ok((None, None))
    }
}

fn read_return_register(reader: &mut ByteCursor, version: u8) -> (r: Result<u64, CfiError>)
    ensures
        match take_return_register(old(reader)@, version) {
            Err(e) => r == Err::<u64, CfiError>(e),
            Ok((v, rest)) => r == Ok::<u64, CfiError>(v) && final(reader)@ == rest,
        },
{
    if version == 1 {
        match reader.read_u8() {
            Ok(b) => Ok(b as u64),
            Err(e) => Err(e),
        }
    } else {
        reader.read_uleb128()
    }
}

fn read_augmentation_data(reader: &mut ByteCursor, present: bool) -> (r: Result<
    Vec<u8>,
    CfiError,
>)
    ensures
        match take_augmentation_data(old(reader)@, present) {
            Err(e) => r == Err::<Vec<u8>, CfiError>(e),
            Ok((bytes, rest)) => r is Ok && r->Ok_0@ == bytes && final(reader)@ == rest,
        },
{
    if present {
        let n = match reader.read_uleb128() {
            Ok(v) => v,
            Err(e) => return Err(e),
        };
        reader.read_bytes(n)
    } else {
        Ok(Vec::new())
    }
}

/// Decodes a common information entry from the bytes that follow its
/// identifier, and reads them to their end. A non-empty augmentation
/// string that does not begin with `z` is refused as soon as it is read.
pub fn read_common_info(reader: &mut ByteCursor, header: CFIHeader) -> (r: Result<
    CommonInfo,
    CfiError,
>)
    ensures
        match common_info_of(old(reader)@, header) {
            Err(e) => r is Err && r->Err_0 == e,
            Ok(c) => r is Ok && r->Ok_0@ == c && final(reader)@.len() == 0,
        },
{
    let version = match reader.read_u8() {
        Ok(v) => v,
        Err(e) => return Err(e),
    };
    let augmentation = match reader.read_utf8() {
        Ok(v) => v,
        Err(e) => return Err(e),
    };
    if augmentation.len() > 0 && augmentation[0] != 0x7a {
        return Err(CfiError::UnsupportedAugmentation);
    }
    let (address_size, segment_size) = match read_sizes(reader, version) {
        Ok(v) => v,
        Err(e) => return Err(e),
    };
    let code_alignment_factor = match reader.read_uleb128() {
        Ok(v) => v,
        Err(e) => return Err(e),
    };
    let data_alignment_factor = match reader.read_sleb128() {
        Ok(v) => v,
        Err(e) => return Err(e),
    };
    let return_address_register = match read_return_register(reader, version) {
        Ok(v) => v,
        Err(e) => return Err(e),
    };
    let augmentation_data = match read_augmentation_data(reader, augmentation.len() > 0) {
        Ok(v) => v,
        Err(e) => return Err(e),
    };
    let initial_instructions = reader.read_to_end();
    Ok(
        CommonInfo {
            header,
            version,
            augmentation,
            address_size,
            segment_size,
            augmentation_data,
            code_alignment_factor,
            data_alignment_factor,
            return_address_register,
            initial_instructions,
        },
    )
}

/// Decodes a frame description from the bytes that follow its identifier,
/// and reads them to their end. The location and the range are plain
/// numbers of `address_size` bytes, least significant byte first.
pub fn read_frame_description(
    reader: &mut ByteCursor,
    header: CFIHeader,
    address_size: u8,
    has_augmentation_data: bool,
) -> (r: Result<FrameDescription, CfiError>)
    ensures
        match frame_description_of(old(reader)@, header, address_size, has_augmentation_data) {
            Err(e) => r is Err && r->Err_0 == e,
            Ok(d) => r is Ok && r->Ok_0@ == d && final(reader)@.len() == 0,
        },
{
    if address_size == 0 || address_size > 8 {
        return Err(CfiError::MalformedEncoding);
    }
    let initial_location = match reader.read_uint(address_size as usize) {
        Ok(v) => v,
        Err(e) => return Err(e),
    };
    let address_range = match reader.read_uint(address_size as usize) {
        Ok(v) => v,
        Err(e) => return Err(e),
    };
    let augmentation_data = match read_augmentation_data(reader, has_augmentation_data) {
        Ok(v) => v,
        Err(e) => return Err(e),
    };
    let instructions = reader.read_to_end();
    Ok(
        FrameDescription {
            header,
            cie_reference: header.entry_id,
            initial_location,
            address_range,
            augmentation_data,
            instructions,
        },
    )
}

/// Reads the header of the entry at the cursor, and splits off a cursor
/// over the bytes of the entry that follow the identifier. `Ok(None)` at a
/// length of zero, which ends the section. On success the cursor stands
/// after the whole entry.
pub fn read_header<'a>(reader: &mut ByteCursor<'a>) -> (r: Result<
    Option<(CFIHeader, ByteCursor<'a>)>,
    CfiError,
>)
    ensures
        match frame_entry(old(reader)@) {
            Err(e) => r is Err && r->Err_0 == e,
            Ok(None) => r is Ok && r->Ok_0 is None,
            Ok(Some(f)) => r is Ok && r->Ok_0 is Some && r->Ok_0->Some_0.0 == f.header
                && r->Ok_0->Some_0.1@ == f.body && final(reader)@ == f.rest,
        },
{
    let (is_64bit, length) = match read_length(reader) {
        Ok(v) => v,
        Err(e) => return Err(e),
    };
    if length == 0 {
        return Ok(None);
    }
    let mut region = match reader.take(length) {
        Ok(v) => v,
        Err(e) => return Err(e),
    };
    let width: usize = if is_64bit {
        8
    } else {
        4
    };
    let entry_id = match region.read_uint(width) {
        Ok(v) => v,
        Err(e) => return Err(e),
    };
    Ok(Some((CFIHeader { length, entry_id, is_64bit }, region)))
}

/// Reads the entry at the cursor, which stands at the offset `position`
/// of its section. `Ok(None)` at a length of zero, which ends the section.
/// Where the entry's bytes are all there, the cursor moves past the whole
/// entry, whether or not its contents decode, so that the next entry can
/// be read after a failure.
pub fn read_cfi_entry(
    reader: &mut ByteCursor,
    format: FrameFormat,
    position: u64,
    index: &CieIndex,
) -> (r: Result<Option<CFIEntry>, CfiError>)
    ensures
        match frame_entry(old(reader)@) {
            Err(e) => r is Err && r->Err_0 == e,
            Ok(None) => r is Ok && r->Ok_0 is None,
            Ok(Some(f)) => final(reader)@ == f.rest && match entry_of(f, format, position, index@) {
                Err(e) => r is Err && r->Err_0 == e,
                Ok(v) => r is Ok && r->Ok_0 is Some && r->Ok_0->Some_0@ == v,
            },
        },
{
    let (header, mut region) = match read_header(reader) {
        Ok(Some(v)) => v,
        Ok(None) => return Ok(None),
        Err(e) => return Err(e),
    };
    if header.is_common_info(format) {
        match read_common_info(&mut region, header) {
            Ok(c) => Ok(Some(CFIEntry::CommonInfo(c))),
            Err(e) => Err(e),
        }
    } else {
        match index.resolve(header.cie_key(format, position)) {
            None => Err(CfiError::UnresolvedReference),
            Some(c) => match read_frame_description(
                &mut region,
                header,
                c.address_size,
                c.has_augmentation_data,
            ) {
                Ok(d) => Ok(Some(CFIEntry::FrameDescription(d))),
                Err(e) => Err(e),
            },
        }
    }
}

/// Reads all the entries of a section, up to its end or to a length of
/// zero. A frame description refers to a common information entry before
/// it in the section, by that entry's offset; where that entry states no
/// address size, locations are `default_address_size` bytes wide. Fails
/// at the first entry that fails.
pub fn read_section(data: &[u8], format: FrameFormat, default_address_size: u8) -> (r: Result<
    Vec<CFIEntry>,
    CfiError,
>)
    ensures
        match section_entries(
            data@,
            format,
            0,
            Seq::<CieSummary>::empty(),
            default_address_size,
        ) {
            Err(e) => r is Err && r->Err_0 == e,
            Ok(entries) => r is Ok && entry_views(r->Ok_0@) == entries,
        },
{
    let mut cursor = ByteCursor::new(data);
    let mut index = CieIndex::new();
    let mut out: Vec<CFIEntry> = Vec::new();
    let mut position: u64 = 0;
    proof {
        assert(entry_views(out@) + Seq::<CFIEntryView>::empty() =~= entry_views(out@));
        assert(entry_views(out@) =~= Seq::<CFIEntryView>::empty());
    }
    while cursor.remaining() > 0
        invariant
            position + cursor@.len() == data@.len(),
            section_entries(data@, format, 0, Seq::<CieSummary>::empty(), default_address_size)
                == in_front(
                entry_views(out@),
                section_entries(cursor@, format, position, index@, default_address_size),
            ),
        decreases cursor@.len(),
    {
        let ghost s = cursor@;
        let ghost before = entry_views(out@);
        let ghost old_index = index@;
        let entry = match read_cfi_entry(&mut cursor, format, position, &index) {
            Ok(Some(entry)) => entry,
            Ok(None) => {
                proof {
                    assert(before + Seq::<CFIEntryView>::empty() =~= before);
                }
                return Ok(out);
            },
            Err(e) => return Err(e),
        };
        proof {
            lemma_framing_bounds(s);
        }
        match &entry {
            CFIEntry::CommonInfo(c) => {
                index.insert(position, c, default_address_size);
            },
            CFIEntry::FrameDescription(_) => {},
        }
        proof {
            let tail = section_entries(
                cursor@,
                format,
                (position + s.len() - cursor@.len()) as u64,
                index@,
                default_address_size,
            );
            assert(index@ == index_after(old_index, entry@, position, default_address_size));
            assert(entry_views(out@.push(entry)) =~= before.push(entry@));
            match tail {
                Ok(t) => {
                    assert(before + (seq![entry@] + t) =~= before.push(entry@) + t);
                },
                Err(_) => {},
            }
        }
        out.push(entry);
        position = (data.len() - cursor.remaining()) as u64;
    }
    proof {
        assert(entry_views(out@) + Seq::<CFIEntryView>::empty() =~= entry_views(out@));
    }
    Ok(out)
}

/// The two forms of the length field. Four bytes of `0xff` announce the
/// 64-bit form: the length is then the number that the next eight bytes
/// spell. Any other four bytes are themselves the length, in the 32-bit
/// form.
pub proof fn lemma_length_forms(s: Seq<u8>)
    requires
        s.len() >= 4,
    ensures
        le_value(s.take(4)) == 0xffff_ffff <==> (s[0] == 0xff && s[1] == 0xff && s[2] == 0xff
            && s[3] == 0xff),
        le_value(s.take(4)) <= 0xffff_ffff,
        le_value(s.take(4)) != 0xffff_ffff ==> take_length(s) == Ok::<
            (bool, nat, Seq<u8>),
            CfiError,
        >((false, le_value(s.take(4)), s.skip(4))),
        le_value(s.take(4)) == 0xffff_ffff && s.len() >= 12 ==> take_length(s) == Ok::<
            (bool, nat, Seq<u8>),
            CfiError,
        >((true, le_value(s.skip(4).take(8)), s.skip(12))),
{
    let t = s.take(4);
    reveal_with_fuel(le_value, 5);
    assert(t.skip(1).skip(1).skip(1).skip(1).len() == 0);
    assert(le_value(t) == t[0] + 256 * (t.skip(1)[0] + 256 * (t.skip(1).skip(1)[0] + 256
        * t.skip(1).skip(1).skip(1)[0])));
    if s.len() >= 12 {
        assert(s.skip(4).skip(8) =~= s.skip(12));
    }
}

/// Four zero bytes, a length of zero, end the section: they are no entry
/// and no error, whatever follows them.
pub proof fn lemma_zero_length_ends(s: Seq<u8>)
    requires
        s.len() >= 4,
        s[0] == 0 && s[1] == 0 && s[2] == 0 && s[3] == 0,
    ensures
        frame_entry(s) == Ok::<Option<Framing>, CfiError>(None),
{
    let t = s.take(4);
    reveal_with_fuel(le_value, 5);
    assert(t.skip(1).skip(1).skip(1).skip(1).len() == 0);
    assert(le_value(t) == t[0] + 256 * (t.skip(1)[0] + 256 * (t.skip(1).skip(1)[0] + 256
        * t.skip(1).skip(1).skip(1)[0])));
}

/// In an `.eh_frame` section the identifier 0, and no other, marks a
/// common information entry: an entry that decodes is a common
/// information entry where its identifier is 0, and a frame description
/// where it is not.
pub proof fn lemma_eh_frame_discriminant(f: Framing, position: u64, index: Seq<CieSummary>)
    requires
        entry_of(f, FrameFormat::EhFrame, position, index) is Ok,
    ensures
        f.header.entry_id == 0 <==> entry_of(f, FrameFormat::EhFrame, position, index)->Ok_0
            is CommonInfo,
        f.header.entry_id != 0 <==> entry_of(f, FrameFormat::EhFrame, position, index)->Ok_0
            is FrameDescription,
        f.header.entry_id == 0 ==> entry_of(f, FrameFormat::EhFrame, position, index)
            == match common_info_of(f.body, f.header) {
            Err(e) => Err::<CFIEntryView, CfiError>(e),
            Ok(c) => Ok(CFIEntryView::CommonInfo(c)),
        },
{
}

/// An entry's bytes are exactly those that its length announces: the
/// identifier and the body together are `length` bytes long, and the rest
/// of the section starts right after them, whatever the body holds.
pub proof fn lemma_framing_bounds(s: Seq<u8>)
    requires
        frame_entry(s) is Ok,
        frame_entry(s)->Ok_0 is Some,
    ensures
        ({
            let f = frame_entry(s)->Ok_0->Some_0;
            let prefix = if f.header.is_64bit {
                12int
            } else {
                4int
            };
            &&& f.header.length > 0
            &&& id_width(f.header.is_64bit) + f.body.len() == f.header.length
            &&& prefix + f.header.length + f.rest.len() == s.len()
            &&& f.rest == s.skip(prefix + f.header.length)
            &&& f.body == s.subrange(
                prefix + id_width(f.header.is_64bit),
                prefix + f.header.length,
            )
        }),
{
    let (is_64bit, length, s1) = take_length(s)->Ok_0;
    let prefix = if is_64bit {
        12int
    } else {
        4int
    };
    if is_64bit {
        assert(s.skip(4).skip(8) =~= s.skip(12));
        lemma_le_value_bound(s.skip(4).take(8));
        reveal_with_fuel(pow256, 9);
    } else {
        lemma_le_value_bound(s.take(4));
        reveal_with_fuel(pow256, 5);
    }
    assert(s1 == s.skip(prefix));
    let f = frame_entry(s)->Ok_0->Some_0;
    assert(f.rest =~= s.skip(prefix + length));
    assert(f.body =~= s.subrange(prefix + id_width(is_64bit), prefix + length));
}

/// A non-empty augmentation string that does not begin with `z` is
/// refused, whatever bytes follow it.
pub proof fn lemma_unsupported_augmentation(body: Seq<u8>, header: CFIHeader)
    requires
        take_u8(body) is Ok,
        take_cstr(take_u8(body)->Ok_0.1) is Ok,
        take_cstr(take_u8(body)->Ok_0.1)->Ok_0.0.len() > 0,
        take_cstr(take_u8(body)->Ok_0.1)->Ok_0.0[0] != 0x7a,
    ensures
        common_info_of(body, header) == Err::<CommonInfoView, CfiError>(
            CfiError::UnsupportedAugmentation,
        ),
{
}

} // verus!
