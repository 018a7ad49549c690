use klc::imports::{ImportDirectoryEntry, ImportTableBuilder};

#[test]
fn test_import_table_structure() {
    assert_eq!(std::mem::size_of::<ImportDirectoryEntry>(), 20);
}

#[test]
fn test_build_imports() {
    let mut builder = ImportTableBuilder::new();
    builder.set_base_rva(0x2000);

    let _exit_rva = builder.add_import("kernel32.dll", "ExitProcess");
    let _getstd_rva = builder.add_import("kernel32.dll", "GetStdHandle");

    let (data, import_rva, import_size) = builder.build();

    assert_eq!(import_rva, 0x2000);
    assert!(!data.is_empty());
    assert!(import_size > 0);

    let kernel32_pos = data.windows(12).position(|w| w == b"kernel32.dll");
    assert!(kernel32_pos.is_some(), "data中应包含 'kernel32.dll' 字符串");

    let exit_pos = data.windows(12).position(|w| w == b"ExitProcess\0");
    assert!(exit_pos.is_some(), "应包含 'ExitProcess' 字符串");
}

// ---------------------------------------------------------------------------

fn u64_at(data: &[u8], at: usize) -> u64 {
    let mut b = [0u8; 8];
    b.copy_from_slice(&data[at..at + 8]);
    u64::from_le_bytes(b)
}

#[test]
fn returned_rva_is_the_slot_naming_the_function() {
    let mut builder = ImportTableBuilder::new();
    builder.set_base_rva(0x2000);
    let exit_rva = builder.add_import("kernel32.dll", "ExitProcess");
    let getstd_rva = builder.add_import("kernel32.dll", "GetStdHandle");
    // directory: 2 entries * 20 = 40; slots follow
    assert_eq!(exit_rva, 0x2000 + 40);
    assert_eq!(getstd_rva, 0x2000 + 48);
    let (data, _, size) = builder.build();
    assert_eq!(size, 40);
    for (rva, name) in [(exit_rva, &b"ExitProcess\0"[..]), (getstd_rva, &b"GetStdHandle\0"[..])] {
        let slot = (rva - 0x2000) as usize;
        let hint_rva = u64_at(&data, slot) as usize;
        let hint = hint_rva - 0x2000;
        assert_eq!(&data[hint..hint + 2], &[0, 0]);
        assert_eq!(&data[hint + 2..hint + 2 + name.len()], name);
    }
}

#[test]
fn adding_a_function_twice_returns_the_same_rva() {
    let mut builder = ImportTableBuilder::new();
    let a = builder.add_import("kernel32.dll", "ExitProcess");
    let b = builder.add_import("kernel32.dll", "ExitProcess");
    assert_eq!(a, b);
    let (data, _, _) = builder.build();
    let count = data.windows(12).filter(|w| *w == b"ExitProcess\0").count();
    assert_eq!(count, 1);
}

#[test]
fn directory_entry_points_at_name_and_iat() {
    let mut builder = ImportTableBuilder::new();
    builder.set_base_rva(0x3000);
    builder.add_import("user32.dll", "MessageBoxA");
    let (data, rva, _) = builder.build();
    assert_eq!(rva, 0x3000);
    let u32_at = |at: usize| u32::from_le_bytes([data[at], data[at + 1], data[at + 2], data[at + 3]]);
    // one DLL: directory 40 bytes, IAT at 40
    assert_eq!(u32_at(0), 0x3000 + 40);
    assert_eq!(u32_at(16), 0x3000 + 40);
    let name = (u32_at(12) - 0x3000) as usize;
    assert_eq!(&data[name..name + 11], b"user32.dll\0");
    // terminator entry is zero
    assert!(data[20..40].iter().all(|b| *b == 0));
}

#[test]
fn registered_dll_fixes_directory_size() {
    let mut builder = ImportTableBuilder::new();
    builder.register_dll("kernel32.dll");
    builder.register_dll("user32.dll");
    builder.register_dll("kernel32.dll");
    let (_, _, size) = builder.build();
    assert_eq!(size, 60);
}

#[test]
fn directory_entry_constructors() {
    let e = ImportDirectoryEntry::new(1, 2, 3);
    assert_eq!((e.original_first_thunk, e.time_date_stamp, e.forwarder_chain, e.name, e.first_thunk), (1, 0, 0, 2, 3));
    let t = ImportDirectoryEntry::terminator();
    assert_eq!((t.original_first_thunk, t.name, t.first_thunk), (0, 0, 0));
}

#[test]
fn imports_fit_in_a_small_table() {
    let mut b = ImportTableBuilder::new();
    assert!(b.import_fits("kernel32.dll", "ExitProcess"));
    b.add_import("kernel32.dll", "ExitProcess");
    assert!(b.import_fits("kernel32.dll", "ExitProcess"));
    b.set_base_rva(0xFFFF_FFF0);
    assert!(!b.import_fits("user32.dll", "MessageBoxA"));
}

#[test]
fn adding_dll_by_dll_keeps_returned_rvas() {
    let mut b = ImportTableBuilder::new();
    b.register_dll("a.dll");
    b.register_dll("b.dll");
    let x = b.add_import("a.dll", "X");
    let y = b.add_import("a.dll", "Y");
    let f = b.add_import("b.dll", "F");
    let (data, base, _) = b.build();
    for (rva, name) in [(x, "X\0"), (y, "Y\0"), (f, "F\0")] {
        let o = (rva - base) as usize;
        let thunk = u64::from_le_bytes(data[o..o + 8].try_into().unwrap()) as u32;
        let h = (thunk - base) as usize + 2;
        assert_eq!(&data[h..h + name.len()], name.as_bytes());
    }
}
