use klc::dwarf::{write_sleb128, write_uleb128, DebugFunction, DebugInfoSource, DwarfGenerator};

#[test]
fn test_uleb128() {
    let mut buf = Vec::new();
    write_uleb128(&mut buf, 0);
    assert_eq!(buf, vec![0]);

    let mut buf = Vec::new();
    write_uleb128(&mut buf, 127);
    assert_eq!(buf, vec![127]);

    let mut buf = Vec::new();
    write_uleb128(&mut buf, 128);
    assert_eq!(buf, vec![0x80, 1]);

    let mut buf = Vec::new();
    write_uleb128(&mut buf, 300);
    assert_eq!(buf, vec![0xAC, 2]);
}

#[test]
fn test_sleb128() {
    let mut buf = Vec::new();
    write_sleb128(&mut buf, 0);
    assert_eq!(buf, vec![0]);

    let mut buf = Vec::new();
    write_sleb128(&mut buf, -1);
    assert_eq!(buf, vec![0x7F]);

    let mut buf = Vec::new();
    write_sleb128(&mut buf, 128);
    assert_eq!(buf, vec![0x80, 1]);
}

#[test]
fn test_dwarf_generation() {
    let source = DebugInfoSource {
        file_path: "test.klc".to_string(),
        unit_name: "test.klc".to_string(),
        line_map: vec![(1, 0x1000), (3, 0x1020), (5, 0x1050)],
        variables: vec![],
        functions: vec![],
        code_base_rva: 0x1000,
    };

    let mut gen = DwarfGenerator::new(source);
    let sections = gen.generate(".");

    assert!(!sections.abbrev.is_empty());
    assert!(!sections.info.is_empty());
    assert!(!sections.line.is_empty());
    assert!(!sections.str_section.is_empty());
}

// ---------------------------------------------------------------------------

fn uleb_read(s: &[u8]) -> (u64, usize) {
    let mut v: u64 = 0;
    let mut shift = 0;
    for (i, b) in s.iter().enumerate() {
        v |= ((b & 0x7F) as u64) << shift;
        shift += 7;
        if b & 0x80 == 0 {
            return (v, i + 1);
        }
    }
    (v, s.len())
}

fn sleb_read(s: &[u8]) -> (i64, usize) {
    let mut v: i64 = 0;
    let mut shift = 0;
    for (i, b) in s.iter().enumerate() {
        v |= ((b & 0x7F) as i64) << shift;
        shift += 7;
        if b & 0x80 == 0 {
            if shift < 64 && (b & 0x40) != 0 {
                v |= -1i64 << shift;
            }
            return (v, i + 1);
        }
    }
    (v, s.len())
}

#[test]
fn leb128_values_read_back() {
    for v in [0u64, 1, 63, 64, 127, 128, 255, 16383, 16384, 1 << 35, u64::MAX] {
        let mut buf = Vec::new();
        write_uleb128(&mut buf, v);
        buf.push(0xAA);
        assert_eq!(uleb_read(&buf), (v, buf.len() - 1));
    }
    for v in [0i64, 1, -1, 63, 64, -64, -65, 127, 128, -128, -129, 1 << 40, -(1 << 40), i64::MAX, i64::MIN] {
        let mut buf = Vec::new();
        write_sleb128(&mut buf, v);
        buf.push(0x55);
        assert_eq!(sleb_read(&buf), (v, buf.len() - 1));
    }
}

#[test]
fn sleb128_sign_edges() {
    let enc = |v: i64| {
        let mut b = Vec::new();
        write_sleb128(&mut b, v);
        b
    };
    assert_eq!(enc(63), vec![0x3F]);
    assert_eq!(enc(64), vec![0xC0, 0x00]);
    assert_eq!(enc(-64), vec![0x40]);
    assert_eq!(enc(-65), vec![0xBF, 0x7F]);
    assert_eq!(enc(-128), vec![0x80, 0x7F]);
}

fn source_with(line_map: Vec<(u32, u32)>, functions: Vec<DebugFunction>) -> DebugInfoSource {
    DebugInfoSource {
        file_path: "a.klc".to_string(),
        unit_name: "a".to_string(),
        line_map,
        variables: vec![],
        functions,
        code_base_rva: 0x1000,
    }
}

#[test]
fn string_table_holds_the_unit_strings() {
    let mut gen = DwarfGenerator::new(source_with(vec![], vec![]));
    let s = gen.generate("/w");
    let mut expected = vec![0u8];
    expected.extend_from_slice(b"KLC Compiler v0.3.1\0a\0/w\0i64\0");
    assert_eq!(s.str_section, expected);
}

#[test]
fn info_section_layout() {
    let f = DebugFunction { name: "f".to_string(), low_pc: 0x1000, high_pc: 0x1080, line: 1 };
    let g = DebugFunction { name: "g".to_string(), low_pc: 0x1080, high_pc: 0x1040, line: 5 };
    let mut gen = DwarfGenerator::new(source_with(vec![], vec![f, g]));
    let s = gen.generate("/w");
    let info = &s.info;
    assert_eq!(info.len(), 53);
    assert_eq!(&info[0..4], &49u32.to_le_bytes());
    assert_eq!(&info[4..6], &[4, 0]);
    assert_eq!(&info[10..12], &[8, 1]);
    // producer at offset 1, unit name at 21, directory at 23, "i64" at 26
    assert_eq!(&info[12..16], &1u32.to_le_bytes());
    assert_eq!(info[16], 0x1C);
    assert_eq!(&info[17..21], &21u32.to_le_bytes());
    assert_eq!(&info[21..25], &23u32.to_le_bytes());
    assert_eq!(&info[25..33], &0x401000u64.to_le_bytes());
    assert_eq!(&info[33..41], &(0x1080u64 + 0x400000).to_le_bytes());
    assert_eq!(&info[45..48], &[2, 8, 5]);
    assert_eq!(&info[48..52], &26u32.to_le_bytes());
    assert_eq!(info[52], 0);
}

#[test]
fn high_pc_without_functions() {
    let mut gen = DwarfGenerator::new(source_with(vec![], vec![]));
    let s = gen.generate(".");
    assert_eq!(&s.info[33..41], &(0x401000u64 + 0x100).to_le_bytes());
}

#[test]
fn line_program_rows() {
    let mut gen = DwarfGenerator::new(source_with(vec![(1, 0x1000), (3, 0x1020), (3, 0x1020), (2, 0x1050)], vec![]));
    let s = gen.generate("d");
    let line = &s.line;
    let total = u32::from_le_bytes([line[0], line[1], line[2], line[3]]) as usize;
    assert_eq!(total, line.len() - 4);
    assert_eq!(&line[4..6], &[4, 0]);
    let header_len = u32::from_le_bytes([line[6], line[7], line[8], line[9]]) as usize;
    // header: 6 params + 9 opcode lengths + "d\0" + "\0" + "a.klc\0" + 3 + 1
    assert_eq!(header_len, 6 + 9 + 2 + 1 + 6 + 3 + 1);
    let program = &line[10 + header_len..];
    let mut expected = vec![0u8, 2, 2];
    expected.extend_from_slice(&0x401000u64.to_le_bytes());
    // (1, 0x1000): advance 0x1000, line unchanged, copy
    expected.extend_from_slice(&[2, 0x80, 0x20, 1]);
    // (3, 0x1020): advance 0x20, line +2, copy
    expected.extend_from_slice(&[2, 0x20, 3, 2, 1]);
    // (3, 0x1020): nothing changes, copy
    expected.extend_from_slice(&[1]);
    // (2, 0x1050): advance 0x30, line -1, copy
    expected.extend_from_slice(&[2, 0x30, 3, 0x7F, 1]);
    expected.extend_from_slice(&[0, 1, 1]);
    assert_eq!(program, &expected[..]);
}

#[test]
fn empty_line_map_gives_single_row() {
    let mut gen = DwarfGenerator::new(source_with(vec![], vec![]));
    let s = gen.generate("d");
    let line = &s.line;
    let header_len = u32::from_le_bytes([line[6], line[7], line[8], line[9]]) as usize;
    let program = &line[10 + header_len..];
    let mut expected = vec![0u8, 2, 2];
    expected.extend_from_slice(&0x401000u64.to_le_bytes());
    expected.extend_from_slice(&[3, 1, 1, 0, 1, 1]);
    assert_eq!(program, &expected[..]);
}

#[test]
fn abbreviations() {
    let mut gen = DwarfGenerator::new(source_with(vec![], vec![]));
    let s = gen.generate(".");
    let a = &s.abbrev;
    assert_eq!(&a[0..4], &[1, 0x11, 0, 0]);
    assert_eq!(&a[4..8], &[0x25, 0, 0x0E, 0]);
    assert_eq!(*a.last().unwrap(), 0);
    // 4 headers of 4 bytes, 17 attributes of 4 bytes, 4 terminators of 2, final 0
    assert_eq!(a.len(), 16 + 17 * 4 + 8 + 1);
}

#[test]
fn sections_are_dwarf_4() {
    let source = DebugInfoSource {
        file_path: "test.klc".to_string(),
        unit_name: "test.klc".to_string(),
        line_map: vec![(1, 0x1000), (3, 0x1020), (5, 0x1050)],
        variables: vec![],
        functions: vec![],
        code_base_rva: 0x1000,
    };
    let mut gen = DwarfGenerator::new(source);
    let s = gen.generate(".");
    assert_eq!(u16::from_le_bytes([s.info[4], s.info[5]]), 4);
    assert_eq!(u16::from_le_bytes([s.line[4], s.line[5]]), 4);
    assert_eq!(u32::from_le_bytes([s.info[0], s.info[1], s.info[2], s.info[3]]) as usize, s.info.len() - 4);
    assert_eq!(u32::from_le_bytes([s.line[0], s.line[1], s.line[2], s.line[3]]) as usize, s.line.len() - 4);
    assert_eq!(s.str_section[0], 0);
}

#[test]
fn sleb128_is_minimal() {
    for v in [-64i64, -1, 0, 63] {
        let mut b = Vec::new();
        write_sleb128(&mut b, v);
        assert_eq!(b.len(), 1);
    }
    for v in [-65i64, 64, 8191, -8192] {
        let mut b = Vec::new();
        write_sleb128(&mut b, v);
        assert_eq!(b.len(), 2);
    }
    let mut b = Vec::new();
    write_sleb128(&mut b, i64::MIN);
    assert_eq!(b.len(), 10);
    let mut b = Vec::new();
    write_sleb128(&mut b, i64::MAX);
    assert_eq!(b.len(), 10);
}
