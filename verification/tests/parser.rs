use unravel::cfi::{CFIEntry, CFIHeader, CieIndex, FrameFormat};
use unravel::error::CfiError;
use unravel::parser::{
    read_cfi_entry, read_common_info, read_frame_description, read_header, read_section,
};
use unravel::reader::ByteCursor;

/// A version 1 entry with the augmentation "zR", then a frame description
/// that refers back to it, then the terminator.
fn section() -> Vec<u8> {
    vec![
        // common information entry at offset 0
        0x14, 0x00, 0x00, 0x00, // length 20
        0x00, 0x00, 0x00, 0x00, // identifier 0
        0x01, // version
        0x7a, 0x52, 0x00, // "zR"
        0x01, // code alignment factor 1
        0x78, // data alignment factor -8
        0x10, // return address register 16
        0x01, // one byte of augmentation data
        0x1b, // the augmentation data
        0x0c, 0x07, 0x08, 0x90, 0x01, 0x00, 0x00, // instructions and padding
        // frame description at offset 24
        0x18, 0x00, 0x00, 0x00, // length 24
        0x1c, 0x00, 0x00, 0x00, // 28 bytes back from here: offset 0
        0x00, 0x10, 0x00, 0x00, 0x00, 0x00, 0x00, 0x00, // initial location 0x1000
        0x20, 0x00, 0x00, 0x00, 0x00, 0x00, 0x00, 0x00, // address range 0x20
        0x00, // no augmentation data
        0x44, 0x0e, 0x10, // instructions
        // terminator at offset 52
        0x00, 0x00, 0x00, 0x00,
    ]
}

#[test]
fn reads_a_whole_section() {
    let bytes = section();
    let mut cursor = ByteCursor::new(&bytes);
    let mut index = CieIndex::new();

    let first = read_cfi_entry(&mut cursor, FrameFormat::EhFrame, 0, &index).unwrap().unwrap();
    let cie = match first {
        CFIEntry::CommonInfo(c) => c,
        CFIEntry::FrameDescription(_) => panic!("expected a common information entry"),
    };
    assert_eq!(cie.header, CFIHeader { length: 20, entry_id: 0, is_64bit: false });
    assert_eq!(cie.version, 1);
    assert_eq!(cie.augmentation, vec![0x7a, 0x52]);
    assert_eq!(cie.address_size, None);
    assert_eq!(cie.segment_size, None);
    assert_eq!(cie.code_alignment_factor, 1);
    assert_eq!(cie.data_alignment_factor, -8);
    assert_eq!(cie.return_address_register, 16);
    assert_eq!(cie.augmentation_data, vec![0x1b]);
    assert_eq!(cie.initial_instructions, vec![0x0c, 0x07, 0x08, 0x90, 0x01, 0x00, 0x00]);
    assert_eq!(cursor.remaining(), bytes.len() - 24);
    index.insert(0, &cie, 8);

    let second = read_cfi_entry(&mut cursor, FrameFormat::EhFrame, 24, &index).unwrap().unwrap();
    let fde = match second {
        CFIEntry::FrameDescription(d) => d,
        CFIEntry::CommonInfo(_) => panic!("expected a frame description"),
    };
    assert_eq!(fde.header, CFIHeader { length: 24, entry_id: 28, is_64bit: false });
    assert_eq!(fde.cie_reference, 28);
    assert_eq!(fde.initial_location, 0x1000);
    assert_eq!(fde.address_range, 0x20);
    assert_eq!(fde.augmentation_data, Vec::<u8>::new());
    assert_eq!(fde.instructions, vec![0x44, 0x0e, 0x10]);
    assert_eq!(cursor.remaining(), 4);

    let end = read_cfi_entry(&mut cursor, FrameFormat::EhFrame, 52, &index).unwrap();
    assert!(end.is_none());
}

#[test]
fn header_32_bit_form() {
    let bytes = [0x08, 0x00, 0x00, 0x00, 0x2a, 0x00, 0x00, 0x00, 0xaa, 0xbb, 0xcc, 0xdd, 0xee];
    let mut cursor = ByteCursor::new(&bytes);
    let (header, mut body) = read_header(&mut cursor).unwrap().unwrap();
    assert_eq!(header, CFIHeader { length: 8, entry_id: 42, is_64bit: false });
    assert_eq!(body.remaining(), 4);
    assert_eq!(body.read_to_end(), vec![0xaa, 0xbb, 0xcc, 0xdd]);
    assert_eq!(cursor.remaining(), 1);
}

#[test]
fn header_64_bit_form() {
    let bytes = [
        0xff, 0xff, 0xff, 0xff, // escape
        0x0a, 0x00, 0x00, 0x00, 0x00, 0x00, 0x00, 0x00, // length 10
        0x01, 0x02, 0x00, 0x00, 0x00, 0x00, 0x00, 0x00, // identifier 0x201
        0xaa, 0xbb, // body
        0xcc, // the next entry
    ];
    let mut cursor = ByteCursor::new(&bytes);
    let (header, mut body) = read_header(&mut cursor).unwrap().unwrap();
    assert_eq!(header, CFIHeader { length: 10, entry_id: 0x201, is_64bit: true });
    assert_eq!(body.read_to_end(), vec![0xaa, 0xbb]);
    assert_eq!(cursor.remaining(), 1);
}

#[test]
fn header_just_below_the_escape_is_a_length() {
    let bytes = [0xfe, 0xff, 0xff, 0xff, 0x00, 0x00, 0x00, 0x00];
    let mut cursor = ByteCursor::new(&bytes);
    // the length is 0xfffffffe, and that many bytes are not there
    assert!(matches!(read_header(&mut cursor), Err(CfiError::UnexpectedEof)));
}

#[test]
fn zero_length_ends_the_section() {
    let bytes = [0x00, 0x00, 0x00, 0x00, 0x55, 0x66];
    let mut cursor = ByteCursor::new(&bytes);
    let index = CieIndex::new();
    let r = read_cfi_entry(&mut cursor, FrameFormat::EhFrame, 0, &index);
    assert!(matches!(r, Ok(None)));
    let mut cursor = ByteCursor::new(&bytes);
    assert!(matches!(read_header(&mut cursor), Ok(None)));
    let wide = [0xff, 0xff, 0xff, 0xff, 0, 0, 0, 0, 0, 0, 0, 0];
    let mut cursor = ByteCursor::new(&wide);
    assert!(matches!(read_header(&mut cursor), Ok(None)));
}

#[test]
fn header_cut_short() {
    let mut cursor = ByteCursor::new(&[0x08, 0x00]);
    assert!(matches!(read_header(&mut cursor), Err(CfiError::UnexpectedEof)));
    let mut cursor = ByteCursor::new(&[0xff, 0xff, 0xff, 0xff, 0x01]);
    assert!(matches!(read_header(&mut cursor), Err(CfiError::UnexpectedEof)));
    // the length says 8, and 3 bytes follow
    let mut cursor = ByteCursor::new(&[0x08, 0x00, 0x00, 0x00, 0x00, 0x00, 0x00]);
    assert!(matches!(read_header(&mut cursor), Err(CfiError::UnexpectedEof)));
    // the length leaves no room for the identifier
    let mut cursor = ByteCursor::new(&[0x02, 0x00, 0x00, 0x00, 0x00, 0x00, 0x00]);
    assert!(matches!(read_header(&mut cursor), Err(CfiError::UnexpectedEof)));
}

#[test]
fn identifier_decides_the_kind_in_eh_frame() {
    let header = CFIHeader { length: 20, entry_id: 0, is_64bit: false };
    assert!(header.is_common_info(FrameFormat::EhFrame));
    assert!(!header.is_common_info(FrameFormat::DebugFrame));
    let header = CFIHeader { length: 20, entry_id: 1, is_64bit: false };
    assert!(!header.is_common_info(FrameFormat::EhFrame));
    let header = CFIHeader { length: 20, entry_id: 0xffff_ffff, is_64bit: false };
    assert!(!header.is_common_info(FrameFormat::EhFrame));
    assert!(header.is_common_info(FrameFormat::DebugFrame));
    let header = CFIHeader { length: 20, entry_id: 0xffff_ffff, is_64bit: true };
    assert!(!header.is_common_info(FrameFormat::DebugFrame));
    let header = CFIHeader { length: 20, entry_id: u64::MAX, is_64bit: true };
    assert!(header.is_common_info(FrameFormat::DebugFrame));
}

#[test]
fn reference_keys() {
    let header = CFIHeader { length: 24, entry_id: 28, is_64bit: false };
    assert_eq!(header.cie_key(FrameFormat::EhFrame, 24), 0);
    assert_eq!(header.cie_key(FrameFormat::DebugFrame, 24), 28);
    let header = CFIHeader { length: 24, entry_id: 12, is_64bit: true };
    assert_eq!(header.cie_key(FrameFormat::EhFrame, 100), 100);
}

#[test]
fn augmentation_data_is_kept_apart_from_instructions() {
    // "zR", one byte of augmentation data, then two instruction bytes
    let body = [0x01, 0x7a, 0x52, 0x00, 0x01, 0x7c, 0x08, 0x01, 0x1b, 0x0c, 0x07];
    let header = CFIHeader { length: 15, entry_id: 0, is_64bit: false };
    let mut cursor = ByteCursor::new(&body);
    let cie = read_common_info(&mut cursor, header).unwrap();
    assert_eq!(cie.augmentation, vec![0x7a, 0x52]);
    assert_eq!(cie.augmentation_data, vec![0x1b]);
    assert_eq!(cie.initial_instructions, vec![0x0c, 0x07]);
    assert_eq!(cie.data_alignment_factor, -4);
    assert_eq!(cie.return_address_register, 8);
    assert_eq!(cursor.remaining(), 0);
}

#[test]
fn empty_augmentation_has_no_data() {
    let body = [0x03, 0x00, 0x04, 0x7c, 0x90, 0x01, 0x0c, 0x07, 0x08];
    let header = CFIHeader { length: 13, entry_id: 0, is_64bit: false };
    let mut cursor = ByteCursor::new(&body);
    let cie = read_common_info(&mut cursor, header).unwrap();
    assert_eq!(cie.version, 3);
    assert_eq!(cie.augmentation, Vec::<u8>::new());
    assert_eq!(cie.augmentation_data, Vec::<u8>::new());
    assert_eq!(cie.code_alignment_factor, 4);
    // from version 3 on the return address register is a LEB128 number
    assert_eq!(cie.return_address_register, 144);
    assert_eq!(cie.initial_instructions, vec![0x0c, 0x07, 0x08]);
}

#[test]
fn version_one_return_register_is_one_byte() {
    let body = [0x01, 0x00, 0x01, 0x7c, 0x90, 0x01];
    let header = CFIHeader { length: 10, entry_id: 0, is_64bit: false };
    let mut cursor = ByteCursor::new(&body);
    let cie = read_common_info(&mut cursor, header).unwrap();
    assert_eq!(cie.return_address_register, 0x90);
    assert_eq!(cie.initial_instructions, vec![0x01]);
}

#[test]
fn version_four_has_sizes() {
    let body = [0x04, 0x00, 0x08, 0x00, 0x01, 0x78, 0x10];
    let header = CFIHeader { length: 11, entry_id: 0, is_64bit: false };
    let mut cursor = ByteCursor::new(&body);
    let cie = read_common_info(&mut cursor, header).unwrap();
    assert_eq!(cie.address_size, Some(8));
    assert_eq!(cie.segment_size, Some(0));
    assert_eq!(cie.code_alignment_factor, 1);
    assert_eq!(cie.data_alignment_factor, -8);
    assert_eq!(cie.return_address_register, 16);
    assert_eq!(cie.initial_instructions, Vec::<u8>::new());
}

#[test]
fn unsupported_augmentation() {
    // "eh"
    let body = [0x01, 0x65, 0x68, 0x00, 0x01, 0x78, 0x10, 0x00];
    let header = CFIHeader { length: 12, entry_id: 0, is_64bit: false };
    let mut cursor = ByteCursor::new(&body);
    let r = read_common_info(&mut cursor, header);
    assert!(matches!(r, Err(CfiError::UnsupportedAugmentation)));
    // refused as soon as the string is read: nothing after it was consumed
    assert_eq!(cursor.remaining(), 4);
    // "R" alone, cut off right after the string
    let body = [0x01, 0x52, 0x00];
    let mut cursor = ByteCursor::new(&body);
    let r = read_common_info(&mut cursor, header);
    assert!(matches!(r, Err(CfiError::UnsupportedAugmentation)));
}

#[test]
fn common_info_cut_short() {
    let header = CFIHeader { length: 12, entry_id: 0, is_64bit: false };
    let r = read_common_info(&mut ByteCursor::new(&[]), header);
    assert!(matches!(r, Err(CfiError::UnexpectedEof)));
    let r = read_common_info(&mut ByteCursor::new(&[0x01, 0x7a, 0x52]), header);
    assert!(matches!(r, Err(CfiError::UnexpectedEof)));
    let r = read_common_info(&mut ByteCursor::new(&[0x01, 0x00, 0x81]), header);
    assert!(matches!(r, Err(CfiError::MalformedEncoding)));
    // two bytes of augmentation data announced, one there
    let body = [0x01, 0x7a, 0x00, 0x01, 0x78, 0x10, 0x02, 0x1b];
    let r = read_common_info(&mut ByteCursor::new(&body), header);
    assert!(matches!(r, Err(CfiError::UnexpectedEof)));
}

#[test]
fn frame_description_fields() {
    let header = CFIHeader { length: 16, entry_id: 0x30, is_64bit: false };
    let body = [0x00, 0x20, 0x00, 0x00, 0x40, 0x00, 0x00, 0x00, 0x02, 0xaa, 0xbb, 0x44, 0x0a];
    let mut cursor = ByteCursor::new(&body);
    let fde = read_frame_description(&mut cursor, header, 4, true).unwrap();
    assert_eq!(fde.header, header);
    assert_eq!(fde.cie_reference, 0x30);
    assert_eq!(fde.initial_location, 0x2000);
    assert_eq!(fde.address_range, 0x40);
    assert_eq!(fde.augmentation_data, vec![0xaa, 0xbb]);
    assert_eq!(fde.instructions, vec![0x44, 0x0a]);

    let mut cursor = ByteCursor::new(&body);
    let fde = read_frame_description(&mut cursor, header, 4, false).unwrap();
    assert_eq!(fde.augmentation_data, Vec::<u8>::new());
    assert_eq!(fde.instructions, vec![0x02, 0xaa, 0xbb, 0x44, 0x0a]);
}

#[test]
fn frame_description_failures() {
    let header = CFIHeader { length: 16, entry_id: 0x30, is_64bit: false };
    let body = [0x00, 0x20, 0x00, 0x00, 0x40, 0x00, 0x00];
    let r = read_frame_description(&mut ByteCursor::new(&body), header, 4, false);
    assert!(matches!(r, Err(CfiError::UnexpectedEof)));
    let r = read_frame_description(&mut ByteCursor::new(&body), header, 0, false);
    assert!(matches!(r, Err(CfiError::MalformedEncoding)));
    let r = read_frame_description(&mut ByteCursor::new(&body), header, 9, false);
    assert!(matches!(r, Err(CfiError::MalformedEncoding)));
}

#[test]
fn unresolved_reference() {
    let bytes = section();
    let mut cursor = ByteCursor::new(&bytes[24..]);
    let index = CieIndex::new();
    let r = read_cfi_entry(&mut cursor, FrameFormat::EhFrame, 24, &index);
    assert!(matches!(r, Err(CfiError::UnresolvedReference)));
    // the cursor stands after the entry all the same
    assert_eq!(cursor.remaining(), 4);
}

#[test]
fn index_keeps_the_first_record_of_a_key() {
    let bytes = section();
    let mut cursor = ByteCursor::new(&bytes);
    let mut index = CieIndex::new();
    assert!(index.resolve(0).is_none());
    let cie = match read_cfi_entry(&mut cursor, FrameFormat::EhFrame, 0, &index) {
        Ok(Some(CFIEntry::CommonInfo(c))) => c,
        _ => panic!("expected a common information entry"),
    };
    index.insert(7, &cie, 4);
    index.insert(7, &cie, 8);
    let summary = index.resolve(7).unwrap();
    assert_eq!(summary.key, 7);
    assert_eq!(summary.address_size, 4);
    assert!(summary.has_augmentation_data);
    assert!(index.resolve(8).is_none());
}

#[test]
fn a_failed_entry_does_not_lose_the_next() {
    let mut bytes = vec![
        0x08, 0x00, 0x00, 0x00, // length 8
        0x00, 0x00, 0x00, 0x00, // a common information entry
        0x01, 0x65, 0x68, 0x00, // version 1, "eh"
    ];
    bytes.extend_from_slice(&section());
    let mut cursor = ByteCursor::new(&bytes);
    let index = CieIndex::new();
    let r = read_cfi_entry(&mut cursor, FrameFormat::EhFrame, 0, &index);
    assert!(matches!(r, Err(CfiError::UnsupportedAugmentation)));
    let r = read_cfi_entry(&mut cursor, FrameFormat::EhFrame, 12, &index);
    assert!(matches!(r, Ok(Some(CFIEntry::CommonInfo(_)))));
}

#[test]
fn debug_frame_marks_with_all_ones() {
    let bytes = [
        0x0a, 0x00, 0x00, 0x00, // length 10
        0xff, 0xff, 0xff, 0xff, // the mark
        0x03, 0x00, 0x01, 0x7c, 0x10, 0x00,
    ];
    let index = CieIndex::new();
    let mut cursor = ByteCursor::new(&bytes);
    let r = read_cfi_entry(&mut cursor, FrameFormat::DebugFrame, 0, &index);
    assert!(matches!(r, Ok(Some(CFIEntry::CommonInfo(_)))));
    // read as .eh_frame the same bytes are a frame description of an unknown entry
    let mut cursor = ByteCursor::new(&bytes);
    let r = read_cfi_entry(&mut cursor, FrameFormat::EhFrame, 0, &index);
    assert!(matches!(r, Err(CfiError::UnresolvedReference)));
}

#[test]
fn reads_all_entries_of_a_section() {
    let bytes = section();
    let entries = read_section(&bytes, FrameFormat::EhFrame, 8).unwrap();
    assert_eq!(entries.len(), 2);
    assert!(matches!(entries[0], CFIEntry::CommonInfo(_)));
    match &entries[1] {
        CFIEntry::FrameDescription(d) => {
            assert_eq!(d.initial_location, 0x1000);
            assert_eq!(d.address_range, 0x20);
            assert_eq!(d.instructions, vec![0x44, 0x0e, 0x10]);
        }
        CFIEntry::CommonInfo(_) => panic!("expected a frame description"),
    }
    // without the terminator the section ends where the bytes end
    let entries = read_section(&bytes[..52], FrameFormat::EhFrame, 8).unwrap();
    assert_eq!(entries.len(), 2);
    // what follows the terminator is not read
    let mut longer = bytes.clone();
    longer.extend_from_slice(&[0xff, 0xff]);
    assert_eq!(read_section(&longer, FrameFormat::EhFrame, 8).unwrap().len(), 2);
    assert_eq!(read_section(&[], FrameFormat::EhFrame, 8).unwrap().len(), 0);
}

#[test]
fn default_address_size_is_used_where_none_is_stated() {
    let bytes = section();
    // with four-byte locations the range is 0 and the byte 0x20 announces
    // more augmentation data than the entry holds
    let r = read_section(&bytes, FrameFormat::EhFrame, 4);
    assert!(matches!(r, Err(CfiError::UnexpectedEof)));
    // a frame description made for four-byte locations
    let mut narrow = bytes[..24].to_vec();
    narrow.extend_from_slice(&[
        0x10, 0x00, 0x00, 0x00, // length 16
        0x1c, 0x00, 0x00, 0x00, // 28 bytes back from here: offset 0
        0x00, 0x10, 0x00, 0x00, // initial location 0x1000
        0x20, 0x00, 0x00, 0x00, // address range 0x20
        0x01, 0x09, // one byte of augmentation data
        0x44, 0x0a, // instructions
    ]);
    let entries = read_section(&narrow, FrameFormat::EhFrame, 4).unwrap();
    match &entries[1] {
        CFIEntry::FrameDescription(d) => {
            assert_eq!(d.initial_location, 0x1000);
            assert_eq!(d.address_range, 0x20);
            assert_eq!(d.augmentation_data, vec![0x09]);
            assert_eq!(d.instructions, vec![0x44, 0x0a]);
        }
        CFIEntry::CommonInfo(_) => panic!("expected a frame description"),
    }
}

#[test]
fn a_section_fails_at_its_first_bad_entry() {
    let bytes = section();
    // the frame description alone: its common information entry is unknown
    let r = read_section(&bytes[24..], FrameFormat::EhFrame, 8);
    assert!(matches!(r, Err(CfiError::UnresolvedReference)));
    // cut in the middle of the second entry
    let r = read_section(&bytes[..40], FrameFormat::EhFrame, 8);
    assert!(matches!(r, Err(CfiError::UnexpectedEof)));
}
