use klc::pe::PeBuilder;

#[test]
fn test_empty_pe() {
    let builder = PeBuilder::new();
    let pe = builder.build();
    assert!(pe.len() >= 512);
    assert_eq!(&pe[0..2], b"MZ");
    let e_lfanew = i32::from_le_bytes([pe[0x3C], pe[0x3D], pe[0x3E], pe[0x3F]]);
    assert_eq!(&pe[e_lfanew as usize..e_lfanew as usize + 4], b"PE\0\0");
}

#[test]
fn test_pe_with_code() {
    let mut builder = PeBuilder::new();
    builder.add_code(&[0x31, 0xC0, 0xC3]);
    builder.set_entry_point(0x1000);
    let pe = builder.build();
    assert_eq!(pe.len(), 1024);
    assert_eq!(&pe[0x200..0x203], &[0x31, 0xC0, 0xC3]);
}

// ---------------------------------------------------------------------------

#[test]
fn entry_point_lands_in_optional_header() {
    let mut builder = PeBuilder::new();
    builder.add_code(&[0xC3]);
    builder.set_entry_point(0x1000);
    let pe = builder.build();
    // optional header starts at 0x80 + 4 + 20; AddressOfEntryPoint is at +16
    let at = 0x80 + 4 + 20 + 16;
    assert_eq!(u32::from_le_bytes([pe[at], pe[at + 1], pe[at + 2], pe[at + 3]]), 0x1000);
}

#[test]
fn code_is_padded_to_file_alignment() {
    let mut builder = PeBuilder::new();
    builder.add_code(&vec![0x90u8; 0x201]);
    let pe = builder.build();
    assert_eq!(pe.len(), 0x200 + 0x400);
    assert_eq!(pe[0x200 + 0x200], 0x90);
    assert_eq!(pe[0x200 + 0x201], 0);
}

#[test]
fn code_sizes_that_fit() {
    assert!(klc::pe::pe_fits(0));
    assert!(klc::pe::pe_fits(1024));
    assert!(!klc::pe::pe_fits(0xFFFF_FF00));
}
