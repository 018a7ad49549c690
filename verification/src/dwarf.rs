//! DWARF 4 debug information for natively compiled programs: the `.debug_abbrev`,
//! `.debug_info`, `.debug_line` and `.debug_str` sections, with 8-byte addresses.
use vstd::prelude::*;
use vstd::string::StringSliceAdditionalSpecFns;
use crate::lines::{lines_of, split_lines};
use crate::text::{chars_of, is_whitespace, unicode_whitespace};
use crate::bytes::{le16, le32, le64, push_u16_le, push_u32_le, push_u64_le, append_bytes, set_u32_le};

verus! {

// ---------------------------------------------------------------------------
// DWARF constants
// ---------------------------------------------------------------------------

pub const DW_TAG_compile_unit: u16 = 0x11;
pub const DW_TAG_subprogram: u16 = 0x2E;
pub const DW_TAG_variable: u16 = 0x34;
pub const DW_TAG_base_type: u16 = 0x24;
pub const DW_TAG_subrange_type: u16 = 0x21;

pub const DW_AT_name: u16 = 0x03;
pub const DW_AT_comp_dir: u16 = 0x1B;
pub const DW_AT_language: u16 = 0x13;
pub const DW_AT_low_pc: u16 = 0x11;
pub const DW_AT_high_pc: u16 = 0x12;
pub const DW_AT_stmt_list: u16 = 0x10;
pub const DW_AT_encoding: u16 = 0x3E;
pub const DW_AT_byte_size: u16 = 0x0B;
pub const DW_AT_type: u16 = 0x49;
pub const DW_AT_location: u16 = 0x02;
pub const DW_AT_upper_bound: u16 = 0x2F;
pub const DW_AT_producer: u16 = 0x25;

/// 8-byte address.
pub const DW_FORM_addr: u16 = 0x01;
pub const DW_FORM_data1: u16 = 0x0B;
pub const DW_FORM_data2: u16 = 0x05;
pub const DW_FORM_data4: u16 = 0x06;
pub const DW_FORM_data8: u16 = 0x07;
/// NUL-terminated inline string.
pub const DW_FORM_string: u16 = 0x08;
/// 4-byte offset into `.debug_str`.
pub const DW_FORM_strp: u16 = 0x0E;
/// 4-byte section offset.
pub const DW_FORM_sec_offset: u16 = 0x17;
pub const DW_FORM_exprloc: u16 = 0x18;
pub const DW_FORM_flag_present: u16 = 0x19;
/// 4-byte reference relative to the compile unit.
pub const DW_FORM_ref4: u16 = 0x13;

pub const DW_LANG_C: u16 = 0x0001;
pub const DW_LANG_Rust: u16 = 0x001C;

pub const DW_ATE_signed: u16 = 0x05;
pub const DW_ATE_unsigned: u16 = 0x07;
pub const DW_ATE_float: u16 = 0x04;

/// `DW_AT_high_pc` holds an address, not a length.
pub const DW_FORM_addr_high_pc: bool = true;

pub const DW_LNS_copy: u8 = 1;
pub const DW_LNS_advance_pc: u8 = 2;
pub const DW_LNS_advance_line: u8 = 3;
pub const DW_LNS_set_file: u8 = 4;
pub const DW_LNS_set_column: u8 = 5;
pub const DW_LNS_negate_stmt: u8 = 6;
pub const DW_LNS_set_prologue_end: u8 = 7;
pub const DW_LNS_set_epilogue_begin: u8 = 8;
pub const DW_LNS_set_isa: u8 = 9;
pub const DW_LNE_end_sequence: u8 = 1;
pub const DW_LNE_set_address: u8 = 2;
pub const DW_LNE_define_file: u8 = 3;

// ---------------------------------------------------------------------------
// LEB128
// ---------------------------------------------------------------------------

/// The unsigned LEB128 encoding of `v`: seven bits per byte, least significant
/// first, the high bit set on every byte but the last.
pub open spec fn uleb128(v: nat) -> Seq<u8>
    decreases v,
{
    if v < 128 {
        seq![v as u8]
    } else {
        seq![(v % 128 + 128) as u8] + uleb128(v / 128)
    }
}

/// The signed LEB128 encoding of `v`: seven bits per byte in two's complement, least
/// significant first, ending at the first byte whose sign bit (0x40) agrees with the
/// value left to encode.
pub open spec fn sleb128(v: int) -> Seq<u8>
    decreases (if v < 0 { -v } else { v }),
{
    let byte = v % 128;
    let rest = v / 128;
    if (rest == 0 && byte < 64) || (rest == -1 && byte >= 64) {
        seq![byte as u8]
    } else {
        seq![(byte + 128) as u8] + sleb128(rest)
    }
}

/// Reads an unsigned LEB128 number from the front of `s`: its value and the number
/// of bytes it takes.
pub open spec fn uleb128_read(s: Seq<u8>) -> (int, nat)
    decreases s.len(),
{
    if s.len() == 0 {
        (0, 0)
    } else if s[0] < 128 {
        (s[0] as int, 1)
    } else {
        let (r, n) = uleb128_read(s.drop_first());
        (s[0] - 128 + 128 * r, n + 1)
    }
}

/// Reads a signed LEB128 number from the front of `s`: its value and the number of
/// bytes it takes.
pub open spec fn sleb128_read(s: Seq<u8>) -> (int, nat)
    decreases s.len(),
{
    if s.len() == 0 {
        (0, 0)
    } else if s[0] < 128 {
        (if s[0] >= 64 { s[0] - 128 } else { s[0] as int }, 1)
    } else {
        let (r, n) = sleb128_read(s.drop_first());
        (s[0] - 128 + 128 * r, n + 1)
    }
}

/// Reading back an unsigned LEB128 encoding, whatever follows it, gives the value
/// and the encoding's length.
pub proof fn lemma_uleb128_roundtrip(v: nat, rest: Seq<u8>)
    ensures
        uleb128_read(uleb128(v) + rest) == (v as int, uleb128(v).len()),
    decreases v,
{
    let s = uleb128(v) + rest;
    if v >= 128 {
        lemma_uleb128_roundtrip(v / 128, rest);
        assert(s.drop_first() =~= uleb128(v / 128) + rest);
    }
}

/// Reading back a signed LEB128 encoding, whatever follows it, gives the value and
/// the encoding's length.
pub proof fn lemma_sleb128_roundtrip(v: int, rest: Seq<u8>)
    ensures
        sleb128_read(sleb128(v) + rest) == (v, sleb128(v).len()),
    decreases (if v < 0 { -v } else { v }),
{
    let s = sleb128(v) + rest;
    let byte = v % 128;
    let r = v / 128;
    if !((r == 0 && byte < 64) || (r == -1 && byte >= 64)) {
        lemma_sleb128_roundtrip(r, rest);
        assert(s.drop_first() =~= sleb128(r) + rest);
    }
}

/// Half the range of signed values that `n` LEB128 bytes can hold: 64 * 128^(n-1).
pub open spec fn sleb_limit(n: nat) -> int
    decreases n,
{
    if n <= 1 {
        64
    } else {
        128 * sleb_limit((n - 1) as nat)
    }
}

/// Whether `n` signed LEB128 bytes can hold `v`.
pub open spec fn sleb_fits(v: int, n: nat) -> bool {
    -sleb_limit(n) <= v < sleb_limit(n)
}

proof fn lemma_sleb_limit_pos(n: nat)
    ensures
        sleb_limit(n) >= 64,
    decreases n,
{
    if n > 1 {
        lemma_sleb_limit_pos((n - 1) as nat);
    }
}

proof fn lemma_sleb_fits_step(v: int, n: nat)
    requires
        n >= 1,
    ensures
        sleb_fits(v, n + 1) <==> sleb_fits(v / 128, n),
{
    lemma_sleb_limit_pos(n);
    let l = sleb_limit(n);
    assert(sleb_limit(n + 1) == 128 * l);
    let r = v / 128;
    let b = v % 128;
    assert(v == 128 * r + b && 0 <= b < 128);
    assert((-128 * l <= v < 128 * l) <==> (-l <= r < l)) by (nonlinear_arith)
        requires
            v == 128 * r + b,
            0 <= b < 128,
            l >= 1,
    ;
}

proof fn lemma_sleb_fits_len(v: int, n: nat)
    requires
        n >= 1,
    ensures
        sleb_fits(v, n) <==> sleb128(v).len() <= n,
    decreases (if v < 0 { -v } else { v }),
{
    let byte = v % 128;
    let rest = v / 128;
    lemma_sleb_len(v);
    if (rest == 0 && byte < 64) || (rest == -1 && byte >= 64) {
        lemma_sleb_limit_pos(n);
        assert(-64 <= v < 64);
    } else {
        assert(!(-64 <= v < 64));
        lemma_sleb_len(rest);
        if n >= 2 {
            lemma_sleb_fits_len(rest, (n - 1) as nat);
            lemma_sleb_fits_step(v, (n - 1) as nat);
        } else {
            assert(!sleb_fits(v, n));
        }
    }
}

/// The signed LEB128 encoding is as short as it can be: `n` bytes hold `v` exactly
/// when the encoding takes at most `n` bytes. So it takes one byte exactly for
/// -64..=63, and at most ten for any 64-bit value.
pub proof fn lemma_sleb128_minimal(v: int, n: nat)
    requires
        n >= 1,
    ensures
        sleb_fits(v, n) <==> sleb128(v).len() <= n,
        sleb128(v).len() == 1 <==> -64 <= v <= 63,
        i64::MIN <= v <= i64::MAX ==> sleb128(v).len() <= 10,
{
    lemma_sleb_fits_len(v, n);
    lemma_sleb_fits_len(v, 1);
    lemma_sleb_fits_len(v, 10);
    lemma_sleb_len(v);
    assert(sleb_limit(10) == 0x20_0000_0000_0000_0000) by {
        reveal_with_fuel(sleb_limit, 11);
    }
}

/// Appends the unsigned LEB128 encoding of `value`.
pub fn write_uleb128(buf: &mut Vec<u8>, value: u64)
    ensures
        final(buf)@ == old(buf)@ + uleb128(value as nat),
{
    let ghost v0 = value as nat;
    let mut value = value;
    loop
        invariant_except_break
            buf@ + uleb128(value as nat) == old(buf)@ + uleb128(v0),
        ensures
            buf@ == old(buf)@ + uleb128(v0),
        decreases value,
    {
        let byte = (value & 0x7F) as u8;
        assert(byte == value % 128 && (value >> 7) == value / 128) by (bit_vector)
            requires
                byte == (value & 0x7F) as u8,
        ;
        let ghost prev = value;
        value = value >> 7;
        if value != 0 {
            assert(byte | 0x80 == byte + 128) by (bit_vector)
                requires
                    byte < 128,
            ;
            buf.push(byte | 0x80);
            assert(uleb128(prev as nat) == seq![(byte + 128) as u8] + uleb128(value as nat));
        } else {
            buf.push(byte);
            break;
        }
    }
}


/// Appends the signed LEB128 encoding of `value`.
pub fn write_sleb128(buf: &mut Vec<u8>, value: i64)
    ensures
        final(buf)@ == old(buf)@ + sleb128(value as int),
{
    let ghost v0 = value as int;
    let mut value = value;
    loop
        invariant_except_break
            buf@ + sleb128(value as int) == old(buf)@ + sleb128(v0),
        ensures
            buf@ == old(buf)@ + sleb128(v0),
        decreases (if value < 0 { -(value as int) } else { value as int }),
    {
        let byte = (value & 0x7F) as u8;
        let ghost prev = value;
        let q = value >> 7;
        assert(q * 128 + byte == value && byte < 128) by (bit_vector)
            requires
                byte == (value & 0x7F) as u8,
                q == value >> 7,
        ;
        assert(byte == prev as int % 128 && q == prev as int / 128);
        value = q;
        let more = value != 0 && value != -1;
        let sign_bit = (byte & 0x40) != 0;
        assert(sign_bit == (byte >= 64)) by (bit_vector)
            requires
                sign_bit == ((byte & 0x40) != 0),
                byte < 128,
        ;
        if more || (sign_bit && value == 0) || (!sign_bit && value == -1) {
            assert(byte | 0x80 == byte + 128) by (bit_vector)
                requires
                    byte < 128,
            ;
            buf.push(byte | 0x80);
            assert(sleb128(prev as int) == seq![(byte + 128) as u8] + sleb128(value as int));
        } else {
            buf.push(byte);
            break;
        }
    }
}


// ---------------------------------------------------------------------------
// Sections
// ---------------------------------------------------------------------------

/// What the compiler collected for the debug information.
pub struct DebugInfoSource {
    /// Path of the source file.
    pub file_path: String,
    /// Name of the compile unit (usually the file name).
    pub unit_name: String,
    /// (source line, code RVA) pairs.
    pub line_map: Vec<(u32, u32)>,
    pub variables: Vec<DebugVariable>,
    pub functions: Vec<DebugFunction>,
    /// RVA where the code starts.
    pub code_base_rva: u32,
}

/// A local variable.
#[derive(Debug, Clone)]
pub struct DebugVariable {
    pub name: String,
    /// Offset in the frame (RBP - offset).
    pub stack_offset: i32,
    pub var_type: String,
    pub function_name: String,
    pub line: u32,
}

/// A function and its code range.
#[derive(Debug, Clone)]
pub struct DebugFunction {
    pub name: String,
    pub low_pc: u32,
    pub high_pc: u32,
    pub line: u32,
}

/// The generated sections.
pub struct DwarfSections {
    /// `.debug_abbrev`
    pub abbrev: Vec<u8>,
    /// `.debug_info`
    pub info: Vec<u8>,
    /// `.debug_line`
    pub line: Vec<u8>,
    /// `.debug_str`
    pub str_section: Vec<u8>,
}

/// The UTF-8 bytes of a text.
pub open spec fn text(s: Seq<char>) -> Seq<u8> {
    vstd::utf8::encode_utf8(s)
}

/// The producer named in the compile unit.
pub open spec fn producer() -> Seq<u8> {
    text("KLC Compiler v0.3.1"@)
}

/// The name of the base type.
pub open spec fn base_type_name() -> Seq<u8> {
    text("i64"@)
}

/// Images are based at 0x400000.
pub open spec fn image_base() -> int {
    0x400000
}

/// An attribute specification: attribute and form, each two bytes.
pub open spec fn attr_spec(attr: u16, form: u16) -> Seq<u8> {
    le16(attr) + le16(form)
}

/// Abbreviation 1: the compile unit, with children.
pub open spec fn abbrev_compile_unit() -> Seq<u8> {
    seq![1u8, 0x11, 0x00, 0x00] + attr_spec(DW_AT_producer, DW_FORM_strp) + attr_spec(DW_AT_language, DW_FORM_data1)
        + attr_spec(DW_AT_name, DW_FORM_strp) + attr_spec(DW_AT_comp_dir, DW_FORM_strp) + attr_spec(
        DW_AT_low_pc,
        DW_FORM_addr,
    ) + attr_spec(DW_AT_high_pc, DW_FORM_addr) + attr_spec(DW_AT_stmt_list, DW_FORM_sec_offset) + seq![0u8, 0]
}

/// Abbreviation 2: a base type.
pub open spec fn abbrev_base_type() -> Seq<u8> {
    seq![2u8, 0x24, 0x00, 0x00] + attr_spec(DW_AT_byte_size, DW_FORM_data1) + attr_spec(DW_AT_encoding, DW_FORM_data1)
        + attr_spec(DW_AT_name, DW_FORM_strp) + seq![0u8, 0]
}

/// Abbreviation 3: a subprogram, with children.
pub open spec fn abbrev_subprogram() -> Seq<u8> {
    seq![3u8, 0x2E, 0x00, 0x01] + attr_spec(DW_AT_name, DW_FORM_strp) + attr_spec(DW_AT_low_pc, DW_FORM_addr)
        + attr_spec(DW_AT_high_pc, DW_FORM_addr) + attr_spec(DW_AT_type, DW_FORM_ref4) + seq![0u8, 0]
}

/// Abbreviation 4: a variable.
pub open spec fn abbrev_variable() -> Seq<u8> {
    seq![4u8, 0x34, 0x00, 0x00] + attr_spec(DW_AT_name, DW_FORM_strp) + attr_spec(DW_AT_type, DW_FORM_ref4)
        + attr_spec(DW_AT_location, DW_FORM_exprloc) + seq![0u8, 0]
}

/// `.debug_abbrev`: the four abbreviations and the terminating zero.
pub open spec fn abbrev_bytes() -> Seq<u8> {
    abbrev_compile_unit() + abbrev_base_type() + abbrev_subprogram() + abbrev_variable() + seq![0u8]
}

/// The largest `high_pc` of the functions (0 when there are none).
pub open spec fn max_high_pc(fs: Seq<DebugFunction>) -> u64
    decreases fs.len(),
{
    if fs.len() == 0 {
        0
    } else {
        let m = max_high_pc(fs.drop_last());
        if fs.last().high_pc as u64 > m {
            fs.last().high_pc as u64
        } else {
            m
        }
    }
}

/// The compile unit's `low_pc`.
pub open spec fn unit_low_pc(code_base_rva: u32) -> u64 {
    (code_base_rva + image_base()) as u64
}

/// The compile unit's `high_pc`: the end of the last function, or 0x100 past `low_pc`.
pub open spec fn unit_high_pc(code_base_rva: u32, fs: Seq<DebugFunction>) -> u64 {
    if fs.len() > 0 {
        (max_high_pc(fs) + image_base()) as u64
    } else {
        (unit_low_pc(code_base_rva) + 0x100) as u64
    }
}

/// `.debug_info`: the unit header and the compile unit with its base type, given the
/// string offsets of the producer, unit name, directory and type name.
pub open spec fn info_bytes(p_off: int, n_off: int, d_off: int, t_off: int, low_pc: u64, high_pc: u64) -> Seq<u8> {
    le32(49) + le16(4) + le32(0) + seq![8u8, 1u8] + le32(p_off as u32) + seq![0x1Cu8] + le32(n_off as u32) + le32(
        d_off as u32,
    ) + le64(low_pc) + le64(high_pc) + le32(0) + seq![2u8, 8u8, 5u8] + le32(t_off as u32) + seq![0u8]
}

/// The line program header after the `header_length` field.
pub open spec fn line_header(dir: Seq<u8>, file: Seq<u8>) -> Seq<u8> {
    seq![1u8, 1, 1, 0xFB, 14, 1] + seq![0u8, 1, 1, 1, 1, 0, 0, 0, 1] + dir + seq![0u8, 0] + file + seq![0u8, 0, 0, 0, 0]
}

/// The address before line entry `i` (the previous entry's, or 0).
pub open spec fn prev_addr(map: Seq<(u32, u32)>, i: int) -> int {
    if i == 0 {
        0
    } else {
        map[i - 1].1 as int
    }
}

/// The line before line entry `i` (the previous entry's, or 1).
pub open spec fn prev_line(map: Seq<(u32, u32)>, i: int) -> int {
    if i == 0 {
        1
    } else {
        map[i - 1].0 as int
    }
}

/// The opcodes of line entry `i`: advance the address and the line where they change,
/// then emit a row.
pub open spec fn entry_ops(map: Seq<(u32, u32)>, i: int) -> Seq<u8> {
    let da = map[i].1 - prev_addr(map, i);
    let dl = map[i].0 - prev_line(map, i);
    (if da > 0 {
        seq![DW_LNS_advance_pc] + uleb128(da as nat)
    } else {
        Seq::empty()
    }) + (if dl != 0 {
        seq![DW_LNS_advance_line] + sleb128(dl)
    } else {
        Seq::empty()
    }) + seq![DW_LNS_copy]
}

/// The opcodes of the first `n` line entries.
pub open spec fn line_ops(map: Seq<(u32, u32)>, n: int) -> Seq<u8>
    decreases n,
{
    if n <= 0 {
        Seq::empty()
    } else {
        line_ops(map, n - 1) + entry_ops(map, n - 1)
    }
}

/// The line program: set the address, then the entries (or a single row for line 1),
/// then end the sequence.
pub open spec fn line_program(map: Seq<(u32, u32)>, base_addr: u64) -> Seq<u8> {
    seq![0u8, 2, DW_LNE_set_address] + le64(base_addr) + (if map.len() > 0 {
        line_ops(map, map.len() as int)
    } else {
        seq![DW_LNS_advance_line] + sleb128(1) + seq![DW_LNS_copy]
    }) + seq![0u8, 1, DW_LNE_end_sequence]
}

/// `.debug_line`: unit length, version 4, header length, header, program.
pub open spec fn line_bytes(dir: Seq<u8>, file: Seq<u8>, map: Seq<(u32, u32)>, base_addr: u64) -> Seq<u8> {
    let h = line_header(dir, file);
    let p = line_program(map, base_addr);
    le32((2 + 4 + h.len() + p.len()) as u32) + le16(4) + le32(h.len() as u32) + h + p
}

/// Whether the code RVAs of the line map never decrease.
pub open spec fn line_map_sorted(map: Seq<(u32, u32)>) -> bool {
    forall|i: int, j: int| 0 <= i < j < map.len() ==> map[i].1 <= map[j].1
}


/// Generator of the DWARF sections of one compile unit.
pub struct DwarfGenerator {
    /// `.debug_str` so far.
    string_table: Vec<u8>,
    source: DebugInfoSource,
}

impl DwarfGenerator {
    /// The string table so far.
    pub closed spec fn table(&self) -> Seq<u8> {
        self.string_table@
    }

    /// What the sections describe.
    pub closed spec fn source(&self) -> DebugInfoSource {
        self.source
    }

    /// A generator for `source` with an empty string table.
    pub fn new(source: DebugInfoSource) -> (g: Self)
        ensures
            g.table() == Seq::<u8>::empty(),
            g.source() == source,
    {
        DwarfGenerator { string_table: Vec::new(), source }
    }

    /// Appends `s` and a NUL to the string table and returns where it starts.
    fn add_string(&mut self, s: &str) -> (off: u32)
        ensures
            off == old(self).table().len() as u32,
            final(self).table() == old(self).table() + s.spec_bytes() + seq![0u8],
            final(self).source() == old(self).source(),
    {
        let offset = self.string_table.len() as u32;
        append_bytes(&mut self.string_table, s.as_bytes());
        self.string_table.push(0);
        offset
    }

    fn push_abbrev_attr(&self, buf: &mut Vec<u8>, attr: u16, form: u16)
        ensures
            final(buf)@ == old(buf)@ + attr_spec(attr, form),
    {
        push_u16_le(buf, attr);
        push_u16_le(buf, form);
    }

    fn push_tag(&self, buf: &mut Vec<u8>, code: u8, tag: u8, children: u8)
        ensures
            final(buf)@ == old(buf)@ + seq![code, tag, 0u8, children],
    {
        buf.push(code);
        buf.push(tag);
        buf.push(0x00);
        buf.push(children);
        assert(buf@ =~= old(buf)@ + seq![code, tag, 0u8, children]);
    }

    fn push_end(&self, buf: &mut Vec<u8>)
        ensures
            final(buf)@ == old(buf)@ + seq![0u8, 0u8],
    {
        buf.push(0);
        buf.push(0);
        assert(buf@ =~= old(buf)@ + seq![0u8, 0u8]);
    }

    fn abbrev_unit(&self, buf: &mut Vec<u8>)
        ensures
            final(buf)@ == old(buf)@ + abbrev_compile_unit(),
    {
        self.push_tag(buf, 1, 0x11, 0x00);
        self.push_abbrev_attr(buf, DW_AT_producer, DW_FORM_strp);
        self.push_abbrev_attr(buf, DW_AT_language, DW_FORM_data1);
        self.push_abbrev_attr(buf, DW_AT_name, DW_FORM_strp);
        self.push_abbrev_attr(buf, DW_AT_comp_dir, DW_FORM_strp);
        self.push_abbrev_attr(buf, DW_AT_low_pc, DW_FORM_addr);
        self.push_abbrev_attr(buf, DW_AT_high_pc, DW_FORM_addr);
        self.push_abbrev_attr(buf, DW_AT_stmt_list, DW_FORM_sec_offset);
        self.push_end(buf);
        assert(buf@ =~= old(buf)@ + abbrev_compile_unit());
    }

    fn abbrev_base(&self, buf: &mut Vec<u8>)
        ensures
            final(buf)@ == old(buf)@ + abbrev_base_type(),
    {
        self.push_tag(buf, 2, 0x24, 0x00);
        self.push_abbrev_attr(buf, DW_AT_byte_size, DW_FORM_data1);
        self.push_abbrev_attr(buf, DW_AT_encoding, DW_FORM_data1);
        self.push_abbrev_attr(buf, DW_AT_name, DW_FORM_strp);
        self.push_end(buf);
        assert(buf@ =~= old(buf)@ + abbrev_base_type());
    }

    fn abbrev_sub(&self, buf: &mut Vec<u8>)
        ensures
            final(buf)@ == old(buf)@ + abbrev_subprogram(),
    {
        self.push_tag(buf, 3, 0x2E, 0x01);
        self.push_abbrev_attr(buf, DW_AT_name, DW_FORM_strp);
        self.push_abbrev_attr(buf, DW_AT_low_pc, DW_FORM_addr);
        self.push_abbrev_attr(buf, DW_AT_high_pc, DW_FORM_addr);
        self.push_abbrev_attr(buf, DW_AT_type, DW_FORM_ref4);
        self.push_end(buf);
        assert(buf@ =~= old(buf)@ + abbrev_subprogram());
    }

    fn abbrev_var(&self, buf: &mut Vec<u8>)
        ensures
            final(buf)@ == old(buf)@ + abbrev_variable(),
    {
        self.push_tag(buf, 4, 0x34, 0x00);
        self.push_abbrev_attr(buf, DW_AT_name, DW_FORM_strp);
        self.push_abbrev_attr(buf, DW_AT_type, DW_FORM_ref4);
        self.push_abbrev_attr(buf, DW_AT_location, DW_FORM_exprloc);
        self.push_end(buf);
        assert(buf@ =~= old(buf)@ + abbrev_variable());
    }

    /// Builds `.debug_abbrev`.
    fn generate_abbrev(&self) -> (buf: Vec<u8>)
        ensures
            buf@ == abbrev_bytes(),
    {
        let mut buf: Vec<u8> = Vec::new();
        self.abbrev_unit(&mut buf);
        self.abbrev_base(&mut buf);
        self.abbrev_sub(&mut buf);
        self.abbrev_var(&mut buf);
        buf.push(0);
        assert(buf@ =~= abbrev_bytes());
        buf
    }

    /// The largest `high_pc` of the source's functions.
    fn max_function_high_pc(&self) -> (m: u64)
        ensures
            m == max_high_pc(self.source.functions@),
            m <= u32::MAX,
    {
        let fs = &self.source.functions;
        let mut m: u64 = 0;
        let mut i: usize = 0;
        while i < fs.len()
            invariant
                i <= fs@.len(),
                m == max_high_pc(fs@.take(i as int)),
                m <= u32::MAX,
            decreases fs@.len() - i,
        {
            assert(fs@.take(i as int + 1).drop_last() =~= fs@.take(i as int));
            let h = fs[i].high_pc as u64;
            if h > m {
                m = h;
            }
            i = i + 1;
        }
        assert(fs@.take(fs@.len() as int) =~= fs@);
        m
    }

    /// Builds `.debug_info`, adding the producer, unit name, `comp_dir` and base type
    /// name to the string table.
    fn generate_info(&mut self, comp_dir: &str) -> (buf: Vec<u8>)
        ensures
            ({
                let st = old(self).table();
                let src = old(self).source();
                let unit = text(src.unit_name@);
                let p = st.len() as int;
                let n = p + producer().len() + 1;
                let d = n + unit.len() + 1;
                let t = d + comp_dir.spec_bytes().len() + 1;
                &&& buf@ == info_bytes(
                    p,
                    n,
                    d,
                    t,
                    unit_low_pc(src.code_base_rva),
                    unit_high_pc(src.code_base_rva, src.functions@),
                )
                &&& final(self).table() == st + producer() + seq![0u8] + unit + seq![0u8] + comp_dir.spec_bytes()
                    + seq![0u8] + base_type_name() + seq![0u8]
            }),
            final(self).source() == old(self).source(),
    {
        let ghost st = self.table();
        let mut buf: Vec<u8> = Vec::new();
        push_u32_le(&mut buf, 0);
        push_u16_le(&mut buf, 4);
        push_u32_le(&mut buf, 0);
        buf.push(8);
        buf.push(1);
        let producer_off = self.add_string("KLC Compiler v0.3.1");
        push_u32_le(&mut buf, producer_off);
        buf.push(0x1C);
        let unit_name = self.source.unit_name.clone();
        let name_off = self.add_string(unit_name.as_str());
        push_u32_le(&mut buf, name_off);
        let dir_off = self.add_string(comp_dir);
        push_u32_le(&mut buf, dir_off);
        let low_pc = self.source.code_base_rva as u64 + 0x00400000;
        push_u64_le(&mut buf, low_pc);
        let high_pc = if self.source.functions.len() > 0 {
            self.max_function_high_pc() + 0x00400000
        } else {
            low_pc + 0x100
        };
        push_u64_le(&mut buf, high_pc);
        push_u32_le(&mut buf, 0);
        buf.push(2);
        buf.push(8);
        buf.push(DW_ATE_signed as u8);
        let i64_off = self.add_string("i64");
        push_u32_le(&mut buf, i64_off);
        buf.push(0);
        let ghost body = buf@.subrange(4, buf@.len() as int);
        assert(buf@.len() == 53);
        let total = (buf.len() - 4) as u32;
        set_u32_le(&mut buf, 0, total);
        proof {
            let src = old(self).source();
            let unit = text(src.unit_name@);
            let p = st.len() as int;
            let n = p + producer().len() + 1;
            let d = n + unit.len() + 1;
            let t = d + comp_dir.spec_bytes().len() + 1;
            assert(buf@ =~= info_bytes(
                p,
                n,
                d,
                t,
                unit_low_pc(src.code_base_rva),
                unit_high_pc(src.code_base_rva, src.functions@),
            ));
            assert(self.table() =~= st + producer() + seq![0u8] + unit + seq![0u8] + comp_dir.spec_bytes()
                + seq![0u8] + base_type_name() + seq![0u8]);
        }
        buf
    }

    fn push_line_header(&self, buf: &mut Vec<u8>, dir: &[u8], file: &[u8])
        ensures
            final(buf)@ == old(buf)@ + line_header(dir@, file@),
    {
        let ghost b0 = buf@;
        buf.push(1);
        buf.push(1);
        buf.push(1);
        // line_base = -5
        buf.push(0xFB);
        buf.push(14);
        buf.push(1);
        // argument counts of the standard opcodes 1..=9
        buf.push(0);
        buf.push(1);
        buf.push(1);
        buf.push(1);
        buf.push(1);
        buf.push(0);
        buf.push(0);
        buf.push(0);
        buf.push(1);
        let ghost b1 = buf@;
        assert(b1 =~= b0 + seq![1u8, 1, 1, 0xFB, 14, 1] + seq![0u8, 1, 1, 1, 1, 0, 0, 0, 1]);
        append_bytes(buf, dir);
        buf.push(0);
        buf.push(0);
        append_bytes(buf, file);
        buf.push(0);
        buf.push(0);
        buf.push(0);
        buf.push(0);
        buf.push(0);
        assert(buf@ =~= old(buf)@ + line_header(dir@, file@));
    }

    fn push_line_program(&self, buf: &mut Vec<u8>)
        requires
            line_map_sorted(self.source.line_map@),
        ensures
            final(buf)@ == old(buf)@ + line_program(
                self.source.line_map@,
                unit_low_pc(self.source.code_base_rva),
            ),
    {
        let map = &self.source.line_map;
        let ghost m = map@;
        buf.push(0);
        buf.push(2);
        buf.push(DW_LNE_set_address);
        let base_addr = self.source.code_base_rva as u64 + 0x00400000;
        push_u64_le(buf, base_addr);
        let ghost start = buf@;
        assert(start =~= old(buf)@ + seq![0u8, 2, DW_LNE_set_address] + le64(base_addr));
        if map.len() > 0 {
            let mut address: u64 = 0;
            let mut line: i64 = 1;
            let mut i: usize = 0;
            while i < map.len()
                invariant
                    m == map@,
                    line_map_sorted(m),
                    i <= m.len(),
                    buf@ == start + line_ops(m, i as int),
                    address == prev_addr(m, i as int),
                    line == prev_line(m, i as int),
                decreases m.len() - i,
            {
                let (src_line, code_rva) = map[i];
                let target = code_rva as u64;
                assert(prev_addr(m, i as int) <= code_rva);
                let ghost b = buf@;
                let addr_diff = target - address;
                if addr_diff > 0 {
                    buf.push(DW_LNS_advance_pc);
                    write_uleb128(buf, addr_diff);
                    address = target;
                }
                let ghost b2 = buf@;
                let line_diff = src_line as i64 - line;
                if line_diff != 0 {
                    buf.push(DW_LNS_advance_line);
                    write_sleb128(buf, line_diff);
                    line = src_line as i64;
                }
                let ghost b3 = buf@;
                buf.push(DW_LNS_copy);
                proof {
                    let da = code_rva - prev_addr(m, i as int);
                    let dl = src_line - prev_line(m, i as int);
                    let pa = if da > 0 {
                        seq![DW_LNS_advance_pc] + uleb128(da as nat)
                    } else {
                        Seq::empty()
                    };
                    let pl = if dl != 0 {
                        seq![DW_LNS_advance_line] + sleb128(dl)
                    } else {
                        Seq::empty()
                    };
                    assert(b2 =~= b + pa);
                    assert(b3 =~= b2 + pl);
                    assert(buf@ =~= b + entry_ops(m, i as int));
                }
                i = i + 1;
            }
        } else {
            buf.push(DW_LNS_advance_line);
            write_sleb128(buf, 1);
            buf.push(DW_LNS_copy);
        }
        buf.push(0);
        buf.push(1);
        buf.push(DW_LNE_end_sequence);
        assert(buf@ =~= old(buf)@ + line_program(m, unit_low_pc(self.source.code_base_rva)));
    }

    /// Builds `.debug_line` for a single file in directory `comp_dir`.
    fn generate_line(&self, comp_dir: &str) -> (buf: Vec<u8>)
        requires
            line_map_sorted(self.source().line_map@),
        ensures
            buf@ == line_bytes(
                comp_dir.spec_bytes(),
                text(self.source().file_path@),
                self.source().line_map@,
                unit_low_pc(self.source().code_base_rva),
            ),
    {
        let mut buf: Vec<u8> = Vec::new();
        push_u32_le(&mut buf, 0);
        push_u16_le(&mut buf, 4);
        let header_length_pos = buf.len();
        push_u32_le(&mut buf, 0);
        let file_name = self.source.file_path.clone();
        self.push_line_header(&mut buf, comp_dir.as_bytes(), file_name.as_str().as_bytes());
        let header_end = buf.len();
        let header_length = (header_end - header_length_pos - 4) as u32;
        set_u32_le(&mut buf, header_length_pos, header_length);
        let ghost b1 = buf@;
        self.push_line_program(&mut buf);
        let total_length = (buf.len() - 4) as u32;
        set_u32_le(&mut buf, 0, total_length);
        proof {
            let h = line_header(comp_dir.spec_bytes(), text(self.source.file_path@));
            let p = line_program(self.source.line_map@, unit_low_pc(self.source.code_base_rva));
            assert(b1 =~= le32(0) + le16(4) + le32(h.len() as u32) + h);
            assert(buf@ =~= line_bytes(
                comp_dir.spec_bytes(),
                text(self.source.file_path@),
                self.source.line_map@,
                unit_low_pc(self.source.code_base_rva),
            ));
        }
        buf
    }

    /// Generates the four sections. `comp_dir` is the compilation directory named in
    /// the compile unit and the line program. The string table starts with a NUL
    /// (offset 0 is the empty string) and then holds the unit's strings.
    pub fn generate(&mut self, comp_dir: &str) -> (sections: DwarfSections)
        requires
            line_map_sorted(old(self).source().line_map@),
        ensures
            ({
                let st = old(self).table() + seq![0u8];
                let src = old(self).source();
                let unit = text(src.unit_name@);
                let p = st.len() as int;
                let n = p + producer().len() + 1;
                let d = n + unit.len() + 1;
                let t = d + comp_dir.spec_bytes().len() + 1;
                &&& sections.abbrev@ == abbrev_bytes()
                &&& sections.info@ == info_bytes(
                    p,
                    n,
                    d,
                    t,
                    unit_low_pc(src.code_base_rva),
                    unit_high_pc(src.code_base_rva, src.functions@),
                )
                &&& sections.line@ == line_bytes(
                    comp_dir.spec_bytes(),
                    text(src.file_path@),
                    src.line_map@,
                    unit_low_pc(src.code_base_rva),
                )
                &&& final(self).table() == st + producer() + seq![0u8] + unit + seq![0u8] + comp_dir.spec_bytes()
                    + seq![0u8] + base_type_name() + seq![0u8]
                &&& sections.str_section@ == final(self).table()
            }),
            final(self).source() == old(self).source(),
    {
        self.string_table.push(0);
        let abbrev = self.generate_abbrev();
        let info = self.generate_info(comp_dir);
        let line = self.generate_line(comp_dir);
        let mut str_section: Vec<u8> = Vec::new();
        append_bytes(&mut str_section, self.string_table.as_slice());
        assert(str_section@ =~= self.table());
        DwarfSections { abbrev, info, line, str_section }
    }
}


// ---------------------------------------------------------------------------
// Line map of a source file
// ---------------------------------------------------------------------------

/// Index of the first character of `line` that is not white space (its length if
/// there is none).
pub open spec fn first_non_space(line: Seq<char>, i: int) -> int
    decreases line.len() - i,
{
    if 0 <= i < line.len() && unicode_whitespace(line[i]) {
        first_non_space(line, i + 1)
    } else {
        i
    }
}

/// Whether a line holds code: something that is not white space, not starting `--`.
pub open spec fn code_line(line: Seq<char>) -> bool {
    let i = first_non_space(line, 0);
    i < line.len() && !(line[i] == '-' && i + 1 < line.len() && line[i + 1] == '-')
}

/// The line map of the first `k` lines: each code line (1-based number) gets the next
/// 16-byte slot from RVA 0x1000.
pub open spec fn line_map_of(lines: Seq<Seq<char>>, k: int) -> Seq<(u32, u32)>
    decreases k,
{
    if k <= 0 || k > lines.len() {
        Seq::empty()
    } else {
        let m = line_map_of(lines, k - 1);
        if code_line(lines[k - 1]) {
            m.push((k as u32, (0x1000 + 16 * m.len()) as u32))
        } else {
            m
        }
    }
}

proof fn lemma_line_map_len(lines: Seq<Seq<char>>, k: int)
    requires
        0 <= k <= lines.len(),
    ensures
        line_map_of(lines, k).len() <= k,
    decreases k,
{
    if k > 0 {
        lemma_line_map_len(lines, k - 1);
    }
}

fn is_code_line(line: &Vec<char>) -> (b: bool)
    ensures
        b == code_line(line@),
{
    let mut i: usize = 0;
    while i < line.len() && is_whitespace(line[i])
        invariant
            i <= line@.len(),
            first_non_space(line@, i as int) == first_non_space(line@, 0),
        decreases line@.len() - i,
    {
        i = i + 1;
    }
    if i >= line.len() {
        return false;
    }
    // not a comment: the trimmed line does not start with "--"
    !(line[i] == '-' && i + 1 < line.len() && line[i + 1] == '-')
}

/// An estimated line map for the debug information: every line that holds code, by
/// 1-based number, gets the next 16 bytes of code from RVA 0x1000; blank lines and
/// comment lines get none.
pub fn collect_line_map(source: &str) -> (map: Vec<(u32, u32)>)
    requires
        lines_of(source@).len() * 16 + 0x1000 <= u32::MAX,
    ensures
        map@ == line_map_of(lines_of(source@), lines_of(source@).len() as int),
{
    let chars = chars_of(source);
    let lines = split_lines(chars.as_slice());
    let ghost ls = lines@.map_values(|l: Vec<char>| l@);
    let mut line_map: Vec<(u32, u32)> = Vec::new();
    let mut line_num: u32 = 1;
    let mut addr_offset: u32 = 0;
    let mut i: usize = 0;
    while i < lines.len()
        invariant
            ls == lines@.map_values(|l: Vec<char>| l@),
            ls == lines_of(source@),
            ls.len() * 16 + 0x1000 <= u32::MAX,
            i <= ls.len(),
            line_num == i + 1,
            line_map@ == line_map_of(ls, i as int),
            addr_offset == 16 * line_map@.len(),
        decreases ls.len() - i,
    {
        proof {
            lemma_line_map_len(ls, i as int);
        }
        assert(ls[i as int] == lines@[i as int]@);
        if is_code_line(&lines[i]) {
            line_map.push((line_num, 0x1000 + addr_offset));
            addr_offset = addr_offset + 0x10;
        }
        line_num = line_num + 1;
        i = i + 1;
    }
    line_map
}


// ---------------------------------------------------------------------------
// Reading the line program back
// ---------------------------------------------------------------------------

/// The rows a line-number program emits: starting from `addr` and `line`,
/// `DW_LNS_advance_pc` (unsigned LEB128 operand) moves the address,
/// `DW_LNS_advance_line` (signed LEB128 operand) moves the line, and `DW_LNS_copy`
/// emits a (line, address) row. Reading stops at any other byte.
pub open spec fn line_rows(b: Seq<u8>, addr: int, line: int) -> Seq<(int, int)>
    decreases b.len(),
{
    if b.len() == 0 {
        Seq::empty()
    } else if b[0] == DW_LNS_copy {
        seq![(line, addr)] + line_rows(b.drop_first(), addr, line)
    } else if b[0] == DW_LNS_advance_pc {
        let (v, n) = uleb128_read(b.drop_first());
        if n == 0 || 1 + n > b.len() {
            Seq::empty()
        } else {
            line_rows(b.subrange(1 + n as int, b.len() as int), addr + v, line)
        }
    } else if b[0] == DW_LNS_advance_line {
        let (v, n) = sleb128_read(b.drop_first());
        if n == 0 || 1 + n > b.len() {
            Seq::empty()
        } else {
            line_rows(b.subrange(1 + n as int, b.len() as int), addr, line + v)
        }
    } else {
        Seq::empty()
    }
}

/// The (line, address) rows of the first `k` entries of a line map.
pub open spec fn map_rows(map: Seq<(u32, u32)>, k: int) -> Seq<(int, int)> {
    Seq::new(k as nat, |i: int| (map[i].0 as int, map[i].1 as int))
}

proof fn lemma_uleb_len(v: nat)
    ensures
        uleb128(v).len() >= 1,
    decreases v,
{
    if v >= 128 {
        lemma_uleb_len(v / 128);
    }
}

proof fn lemma_sleb_len(v: int)
    ensures
        sleb128(v).len() >= 1,
    decreases (if v < 0 { -v } else { v }),
{
    let byte = v % 128;
    let rest = v / 128;
    if !((rest == 0 && byte < 64) || (rest == -1 && byte >= 64)) {
        lemma_sleb_len(rest);
    }
}

/// Reading the opcodes of one line entry emits that entry's row.
proof fn lemma_entry_rows(map: Seq<(u32, u32)>, i: int, rest: Seq<u8>)
    requires
        line_map_sorted(map),
        0 <= i < map.len(),
    ensures
        line_rows(entry_ops(map, i) + rest, prev_addr(map, i), prev_line(map, i)) == seq![
            (map[i].0 as int, map[i].1 as int),
        ] + line_rows(rest, map[i].1 as int, map[i].0 as int),
{
    let pa = prev_addr(map, i);
    let pl = prev_line(map, i);
    let da = map[i].1 - pa;
    let dl = map[i].0 - pl;
    assert(da >= 0) by {
        if i > 0 {
            assert(map[i - 1].1 <= map[i].1);
        }
    }
    let tail = seq![DW_LNS_copy] + rest;
    // after the line step
    let after_line = line_rows(tail, map[i].1 as int, map[i].0 as int);
    assert(tail.drop_first() =~= rest);
    assert(after_line == seq![(map[i].0 as int, map[i].1 as int)] + line_rows(rest, map[i].1 as int, map[i].0 as int));
    let bl = if dl != 0 {
        seq![DW_LNS_advance_line] + sleb128(dl)
    } else {
        Seq::empty()
    };
    assert(line_rows(bl + tail, map[i].1 as int, pl) == after_line) by {
        if dl != 0 {
            let x = bl + tail;
            lemma_sleb128_roundtrip(dl, tail);
            lemma_sleb_len(dl);
            assert(x.drop_first() =~= sleb128(dl) + tail);
            assert(x.subrange(1 + sleb128(dl).len() as int, x.len() as int) =~= tail);
        } else {
            assert(bl + tail =~= tail);
        }
    }
    let ba = if da > 0 {
        seq![DW_LNS_advance_pc] + uleb128(da as nat)
    } else {
        Seq::empty()
    };
    assert(line_rows(ba + (bl + tail), pa, pl) == line_rows(bl + tail, map[i].1 as int, pl)) by {
        if da > 0 {
            let x = ba + (bl + tail);
            lemma_uleb128_roundtrip(da as nat, bl + tail);
            lemma_uleb_len(da as nat);
            assert(x.drop_first() =~= uleb128(da as nat) + (bl + tail));
            assert(x.subrange(1 + uleb128(da as nat).len() as int, x.len() as int) =~= bl + tail);
        } else {
            assert(ba + (bl + tail) =~= bl + tail);
        }
    }
    assert(entry_ops(map, i) + rest =~= ba + (bl + tail));
}

proof fn lemma_line_ops_rows(map: Seq<(u32, u32)>, k: int, rest: Seq<u8>)
    requires
        line_map_sorted(map),
        0 <= k <= map.len(),
    ensures
        line_rows(line_ops(map, k) + rest, 0, 1) == map_rows(map, k) + line_rows(
            rest,
            prev_addr(map, k),
            prev_line(map, k),
        ),
    decreases k,
{
    if k == 0 {
        assert(line_ops(map, 0) + rest =~= rest);
        assert(map_rows(map, 0) + line_rows(rest, 0, 1) =~= line_rows(rest, 0, 1));
    } else {
        let r2 = entry_ops(map, k - 1) + rest;
        lemma_line_ops_rows(map, k - 1, r2);
        assert(line_ops(map, k) + rest =~= line_ops(map, k - 1) + r2);
        lemma_entry_rows(map, k - 1, rest);
        assert(map_rows(map, k - 1) + (seq![(map[k - 1].0 as int, map[k - 1].1 as int)] + line_rows(
            rest,
            map[k - 1].1 as int,
            map[k - 1].0 as int,
        )) =~= map_rows(map, k) + line_rows(rest, prev_addr(map, k), prev_line(map, k)));
    }
}

/// Reading back the rows of a line map's opcodes gives the map: one (line, address)
/// row per entry, in order.
pub proof fn lemma_line_table_roundtrip(map: Seq<(u32, u32)>)
    requires
        line_map_sorted(map),
    ensures
        line_rows(line_ops(map, map.len() as int), 0, 1) == map_rows(map, map.len() as int),
{
    lemma_line_ops_rows(map, map.len() as int, Seq::empty());
    assert(line_ops(map, map.len() as int) + Seq::<u8>::empty() =~= line_ops(map, map.len() as int));
    assert(map_rows(map, map.len() as int) + line_rows(Seq::empty(), prev_addr(map, map.len() as int), prev_line(map, map.len() as int)) =~= map_rows(map, map.len() as int));
}


/// The length fields of `.debug_line` describe it: the unit length is the size after
/// that field and the header length is the size of the header after its own field.
pub proof fn lemma_line_section_lengths(dir: Seq<u8>, file: Seq<u8>, map: Seq<(u32, u32)>, base_addr: u64)
    requires
        line_bytes(dir, file, map, base_addr).len() - 4 <= u32::MAX,
    ensures
        ({
            let b = line_bytes(dir, file, map, base_addr);
            &&& b.subrange(0, 4) == le32((b.len() - 4) as u32)
            &&& b.subrange(6, 10) == le32(line_header(dir, file).len() as u32)
            &&& b.subrange(10, 10 + line_header(dir, file).len() as int) == line_header(dir, file)
        }),
{
    let h = line_header(dir, file);
    let p = line_program(map, base_addr);
    let b = line_bytes(dir, file, map, base_addr);
    assert(b.len() == 4 + 2 + 4 + h.len() + p.len());
    assert(b.subrange(0, 4) =~= le32((2 + 4 + h.len() + p.len()) as u32));
    assert(b.subrange(6, 10) =~= le32(h.len() as u32));
    assert(b.subrange(10, 10 + h.len() as int) =~= h);
}

/// The unit length of `.debug_info` is its size after that field.
pub proof fn lemma_info_section_length(p_off: int, n_off: int, d_off: int, t_off: int, low_pc: u64, high_pc: u64)
    ensures
        ({
            let b = info_bytes(p_off, n_off, d_off, t_off, low_pc, high_pc);
            &&& b.len() == 53
            &&& b.subrange(0, 4) == le32((b.len() - 4) as u32)
        }),
{
    let b = info_bytes(p_off, n_off, d_off, t_off, low_pc, high_pc);
    assert(b.subrange(0, 4) =~= le32(49));
}

} // verus!
