//! Minimal PE32+ (Windows x64) image writer: one `.text` section holding the code.
//!
//! Headers are written field by field in declaration order, little-endian and
//! without padding, which is the on-disk layout of the packed PE structures.
use vstd::prelude::*;
use crate::bytes::{le16, le32, le64, push_u16_le, push_u32_le, push_u64_le, append_bytes, lemma_le32_zero};

verus! {

/// RVA of the code section.
pub const CODE_RVA: u32 = 0x1000;
/// RVA of the import data section.
pub const IDATA_RVA: u32 = 0x2000;
const FILE_ALIGNMENT: u32 = 0x200;
const PE_SIGNATURE_OFFSET: u32 = 0x80;
const SECTION_DATA_OFFSET: u32 = 0x200;
const PE_SIGNATURE: u32 = 0x0000_4550;

/// Offset of the optional header's checksum field in the image.
pub open spec fn checksum_offset() -> int {
    0xD8int
}

/// The 64-byte real-mode stub that follows the DOS header.
pub open spec fn dos_stub() -> Seq<u8> {
    seq![
        0x0Eu8, 0x1F, 0xBA, 0x0E, 0x00, 0xB4, 0x09, 0xCD,
        0x21, 0xB8, 0x01, 0x4C, 0xCD, 0x21,
        0x54, 0x68, 0x69, 0x73, 0x20, 0x70, 0x72, 0x6F,
        0x67, 0x72, 0x61, 0x6D, 0x20, 0x63, 0x61, 0x6E,
        0x6E, 0x6F, 0x74, 0x20, 0x62, 0x65, 0x20, 0x72,
        0x75, 0x6E, 0x20, 0x69, 0x6E, 0x20, 0x44, 0x4F,
        0x53, 0x20, 0x6D, 0x6F, 0x64, 0x65, 0x2E, 0x0D,
        0x0D, 0x0A, 0x24, 0x00, 0x00, 0x00, 0x00, 0x00,
        0x00, 0x00,
    ]
}

/// `n` zero bytes.
pub open spec fn zeros(n: nat) -> Seq<u8> {
    Seq::new(n, |i: int| 0u8)
}

/// `n` rounded up to a multiple of `a` by masking, as `(n + a - 1) & !(a - 1)`.
pub open spec fn align_up_mask(n: u32, a: u32) -> u32 {
    ((n + a - 1) as u32) & !((a - 1) as u32)
}

/// IMAGE_DOS_HEADER.
#[derive(Debug, Clone)]
pub struct DosHeader {
    pub e_magic: u16,
    pub e_cblp: u16,
    pub e_cp: u16,
    pub e_crlc: u16,
    pub e_cparhdr: u16,
    pub e_minalloc: u16,
    pub e_maxalloc: u16,
    pub e_ss: u16,
    pub e_sp: u16,
    pub e_csum: u16,
    pub e_ip: u16,
    pub e_cs: u16,
    pub e_lfarlc: u16,
    pub e_ovno: u16,
    pub e_res: [u16; 4],
    pub e_oemid: u16,
    pub e_oeminfo: u16,
    pub e_res2: [u16; 10],
    pub e_lfanew: i32,
}

/// The 64 bytes of a DOS header.
pub open spec fn dos_header_bytes(h: DosHeader) -> Seq<u8> {
    le16(h.e_magic) + le16(h.e_cblp) + le16(h.e_cp) + le16(h.e_crlc) + le16(h.e_cparhdr) + le16(
        h.e_minalloc,
    ) + le16(h.e_maxalloc) + le16(h.e_ss) + le16(h.e_sp) + le16(h.e_csum) + le16(h.e_ip) + le16(
        h.e_cs,
    ) + le16(h.e_lfarlc) + le16(h.e_ovno) + le16(h.e_res[0]) + le16(h.e_res[1]) + le16(h.e_res[2])
        + le16(h.e_res[3]) + le16(h.e_oemid) + le16(h.e_oeminfo) + le16(h.e_res2[0]) + le16(
        h.e_res2[1],
    ) + le16(h.e_res2[2]) + le16(h.e_res2[3]) + le16(h.e_res2[4]) + le16(h.e_res2[5]) + le16(
        h.e_res2[6],
    ) + le16(h.e_res2[7]) + le16(h.e_res2[8]) + le16(h.e_res2[9]) + le32(h.e_lfanew as u32)
}

impl DosHeader {
    /// The DOS header of every image this writer produces: "MZ", PE header at 0x80.
    pub open spec fn spec_standard() -> DosHeader {
        DosHeader {
            e_magic: 0x5A4D,
            e_cblp: 0x0090,
            e_cp: 0x0003,
            e_crlc: 0x0000,
            e_cparhdr: 0x0004,
            e_minalloc: 0x0000,
            e_maxalloc: 0xFFFF,
            e_ss: 0x0000,
            e_sp: 0x00B8,
            e_csum: 0x0000,
            e_ip: 0x0000,
            e_cs: 0x0000,
            e_lfarlc: 0x0040,
            e_ovno: 0x0000,
            e_res: [0u16, 0, 0, 0],
            e_oemid: 0x0000,
            e_oeminfo: 0x0000,
            e_res2: [0u16, 0, 0, 0, 0, 0, 0, 0, 0, 0],
            e_lfanew: 0x0000_0080,
        }
    }

    /// Builds the standard DOS header.
    pub fn standard() -> (h: Self)
        ensures
            h == Self::spec_standard(),
    {
        DosHeader {
            e_magic: 0x5A4D,
            e_cblp: 0x0090,
            e_cp: 0x0003,
            e_crlc: 0x0000,
            e_cparhdr: 0x0004,
            e_minalloc: 0x0000,
            e_maxalloc: 0xFFFF,
            e_ss: 0x0000,
            e_sp: 0x00B8,
            e_csum: 0x0000,
            e_ip: 0x0000,
            e_cs: 0x0000,
            e_lfarlc: 0x0040,
            e_ovno: 0x0000,
            e_res: [0u16, 0, 0, 0],
            e_oemid: 0x0000,
            e_oeminfo: 0x0000,
            e_res2: [0u16, 0, 0, 0, 0, 0, 0, 0, 0, 0],
            e_lfanew: 0x0000_0080,
        }
    }

    #[verifier::rlimit(60)]
    fn write(&self, buf: &mut Vec<u8>)
        ensures
            final(buf)@ == old(buf)@ + dos_header_bytes(*self),
    {
        push_u16_le(buf, self.e_magic);
        push_u16_le(buf, self.e_cblp);
        push_u16_le(buf, self.e_cp);
        push_u16_le(buf, self.e_crlc);
        push_u16_le(buf, self.e_cparhdr);
        push_u16_le(buf, self.e_minalloc);
        push_u16_le(buf, self.e_maxalloc);
        push_u16_le(buf, self.e_ss);
        push_u16_le(buf, self.e_sp);
        push_u16_le(buf, self.e_csum);
        push_u16_le(buf, self.e_ip);
        push_u16_le(buf, self.e_cs);
        push_u16_le(buf, self.e_lfarlc);
        push_u16_le(buf, self.e_ovno);
        push_u16_le(buf, self.e_res[0]);
        push_u16_le(buf, self.e_res[1]);
        push_u16_le(buf, self.e_res[2]);
        push_u16_le(buf, self.e_res[3]);
        push_u16_le(buf, self.e_oemid);
        push_u16_le(buf, self.e_oeminfo);
        push_u16_le(buf, self.e_res2[0]);
        push_u16_le(buf, self.e_res2[1]);
        push_u16_le(buf, self.e_res2[2]);
        push_u16_le(buf, self.e_res2[3]);
        push_u16_le(buf, self.e_res2[4]);
        push_u16_le(buf, self.e_res2[5]);
        push_u16_le(buf, self.e_res2[6]);
        push_u16_le(buf, self.e_res2[7]);
        push_u16_le(buf, self.e_res2[8]);
        push_u16_le(buf, self.e_res2[9]);
        push_u32_le(buf, self.e_lfanew as u32);
        assert(buf@ =~= old(buf)@ + dos_header_bytes(*self));
    }
}

/// IMAGE_FILE_HEADER.
#[derive(Debug, Clone)]
pub struct CoffHeader {
    pub machine: u16,
    pub number_of_sections: u16,
    pub time_date_stamp: u32,
    pub pointer_to_symbol_table: u32,
    pub number_of_symbols: u32,
    pub size_of_optional_header: u16,
    pub characteristics: u16,
}

/// The 20 bytes of a COFF file header.
pub open spec fn coff_header_bytes(h: CoffHeader) -> Seq<u8> {
    le16(h.machine) + le16(h.number_of_sections) + le32(h.time_date_stamp) + le32(
        h.pointer_to_symbol_table,
    ) + le32(h.number_of_symbols) + le16(h.size_of_optional_header) + le16(h.characteristics)
}

impl CoffHeader {
    /// AMD64 machine, one section, executable with large-address awareness.
    pub open spec fn spec_standard_x64() -> CoffHeader {
        CoffHeader {
            machine: 0x8664,
            number_of_sections: 1,
            time_date_stamp: 0,
            pointer_to_symbol_table: 0,
            number_of_symbols: 0,
            size_of_optional_header: 0x00F0,
            characteristics: 0x0022,
        }
    }

    /// Builds the standard x64 COFF header.
    pub fn standard_x64() -> (h: Self)
        ensures
            h == Self::spec_standard_x64(),
    {
        CoffHeader {
            machine: 0x8664,
            number_of_sections: 1,
            time_date_stamp: 0,
            pointer_to_symbol_table: 0,
            number_of_symbols: 0,
            size_of_optional_header: 0x00F0,
            characteristics: 0x0022,
        }
    }

    fn write(&self, buf: &mut Vec<u8>)
        ensures
            final(buf)@ == old(buf)@ + coff_header_bytes(*self),
    {
        push_u16_le(buf, self.machine);
        push_u16_le(buf, self.number_of_sections);
        push_u32_le(buf, self.time_date_stamp);
        push_u32_le(buf, self.pointer_to_symbol_table);
        push_u32_le(buf, self.number_of_symbols);
        push_u16_le(buf, self.size_of_optional_header);
        push_u16_le(buf, self.characteristics);
        assert(buf@ =~= old(buf)@ + coff_header_bytes(*self));
    }
}

/// IMAGE_OPTIONAL_HEADER64 without its data directories.
#[derive(Debug, Clone)]
pub struct OptionalHeader64 {
    pub magic: u16,
    pub major_linker_version: u8,
    pub minor_linker_version: u8,
    pub size_of_code: u32,
    pub size_of_initialized_data: u32,
    pub size_of_uninitialized_data: u32,
    pub address_of_entry_point: u32,
    pub base_of_code: u32,
    pub image_base: u64,
    pub section_alignment: u32,
    pub file_alignment: u32,
    pub major_os_version: u16,
    pub minor_os_version: u16,
    pub major_image_version: u16,
    pub minor_image_version: u16,
    pub major_subsystem_version: u16,
    pub minor_subsystem_version: u16,
    pub win32_version_value: u32,
    pub size_of_image: u32,
    pub size_of_headers: u32,
    pub checksum: u32,
    pub subsystem: u16,
    pub dll_characteristics: u16,
    pub size_of_stack_reserve: u64,
    pub size_of_stack_commit: u64,
    pub size_of_heap_reserve: u64,
    pub size_of_heap_commit: u64,
    pub loader_flags: u32,
    pub number_of_rva_and_sizes: u32,
}

/// The 112 bytes of an optional header (data directories excluded).
pub open spec fn optional_header_bytes(h: OptionalHeader64) -> Seq<u8> {
    le16(h.magic) + seq![h.major_linker_version, h.minor_linker_version] + le32(h.size_of_code)
        + le32(h.size_of_initialized_data) + le32(h.size_of_uninitialized_data) + le32(
        h.address_of_entry_point,
    ) + le32(h.base_of_code) + le64(h.image_base) + le32(h.section_alignment) + le32(
        h.file_alignment,
    ) + le16(h.major_os_version) + le16(h.minor_os_version) + le16(h.major_image_version) + le16(
        h.minor_image_version,
    ) + le16(h.major_subsystem_version) + le16(h.minor_subsystem_version) + le32(
        h.win32_version_value,
    ) + le32(h.size_of_image) + le32(h.size_of_headers) + le32(h.checksum) + le16(h.subsystem)
        + le16(h.dll_characteristics) + le64(h.size_of_stack_reserve) + le64(
        h.size_of_stack_commit,
    ) + le64(h.size_of_heap_reserve) + le64(h.size_of_heap_commit) + le32(h.loader_flags) + le32(
        h.number_of_rva_and_sizes,
    )
}

/// Image size claimed by a console optional header for `code_size` bytes of code:
/// two pages of headers plus the code rounded up to a page (at least one page).
pub open spec fn console_image_size(code_size: u32) -> u32 {
    let c: u32 = if code_size >= 1 { code_size } else { 1 };
    (0x2000 + (((c + 0xFFF) as u32) & !0xFFFu32)) as u32
}

/// Whether `standard_console` can compute the image size without overflow.
pub open spec fn console_size_fits(code_size: u32) -> bool {
    let c: u32 = if code_size >= 1 { code_size } else { 1 };
    &&& c + 0xFFF <= u32::MAX
    &&& 0x2000 + (((c + 0xFFF) as u32) & !0xFFFu32) <= u32::MAX
}

impl OptionalHeader64 {
    /// A console-subsystem header with the given entry point, code size and image base.
    pub open spec fn spec_standard_console(entry_point: u32, code_size: u32, image_base: u64) -> OptionalHeader64 {
        OptionalHeader64 {
            magic: 0x020B,
            major_linker_version: 1,
            minor_linker_version: 0,
            size_of_code: code_size,
            size_of_initialized_data: 0,
            size_of_uninitialized_data: 0,
            address_of_entry_point: entry_point,
            base_of_code: 0x1000,
            image_base,
            section_alignment: 0x1000,
            file_alignment: 0x0200,
            major_os_version: 6,
            minor_os_version: 1,
            major_image_version: 0,
            minor_image_version: 0,
            major_subsystem_version: 6,
            minor_subsystem_version: 1,
            win32_version_value: 0,
            size_of_image: console_image_size(code_size),
            size_of_headers: 0x0200,
            checksum: 0,
            subsystem: 0x0003,
            dll_characteristics: 0x8160,
            size_of_stack_reserve: 0x0010_0000,
            size_of_stack_commit: 0x0000_1000,
            size_of_heap_reserve: 0x0010_0000,
            size_of_heap_commit: 0x0000_1000,
            loader_flags: 0,
            number_of_rva_and_sizes: 16,
        }
    }

    /// Builds a console-subsystem optional header.
    pub fn standard_console(entry_point: u32, code_size: u32, image_base: u64) -> (h: Self)
        requires
            console_size_fits(code_size),
        ensures
            h == Self::spec_standard_console(entry_point, code_size, image_base),
    {
        let c = if code_size >= 1 { code_size } else { 1 };
        OptionalHeader64 {
            magic: 0x020B,
            major_linker_version: 1,
            minor_linker_version: 0,
            size_of_code: code_size,
            size_of_initialized_data: 0,
            size_of_uninitialized_data: 0,
            address_of_entry_point: entry_point,
            base_of_code: 0x1000,
            image_base,
            section_alignment: 0x1000,
            file_alignment: 0x0200,
            major_os_version: 6,
            minor_os_version: 1,
            major_image_version: 0,
            minor_image_version: 0,
            major_subsystem_version: 6,
            minor_subsystem_version: 1,
            win32_version_value: 0,
            size_of_image: (0x2000 + ((c + 0xFFF) & !0xFFF)),
            size_of_headers: 0x0200,
            checksum: 0,
            subsystem: 0x0003,
            dll_characteristics: 0x8160,
            size_of_stack_reserve: 0x0010_0000,
            size_of_stack_commit: 0x0000_1000,
            size_of_heap_reserve: 0x0010_0000,
            size_of_heap_commit: 0x0000_1000,
            loader_flags: 0,
            number_of_rva_and_sizes: 16,
        }
    }

    fn write(&self, buf: &mut Vec<u8>)
        ensures
            final(buf)@ == old(buf)@ + optional_header_bytes(*self),
    {
        push_u16_le(buf, self.magic);
        buf.push(self.major_linker_version);
        buf.push(self.minor_linker_version);
        push_u32_le(buf, self.size_of_code);
        push_u32_le(buf, self.size_of_initialized_data);
        push_u32_le(buf, self.size_of_uninitialized_data);
        push_u32_le(buf, self.address_of_entry_point);
        push_u32_le(buf, self.base_of_code);
        push_u64_le(buf, self.image_base);
        push_u32_le(buf, self.section_alignment);
        push_u32_le(buf, self.file_alignment);
        push_u16_le(buf, self.major_os_version);
        push_u16_le(buf, self.minor_os_version);
        push_u16_le(buf, self.major_image_version);
        push_u16_le(buf, self.minor_image_version);
        push_u16_le(buf, self.major_subsystem_version);
        push_u16_le(buf, self.minor_subsystem_version);
        push_u32_le(buf, self.win32_version_value);
        push_u32_le(buf, self.size_of_image);
        push_u32_le(buf, self.size_of_headers);
        push_u32_le(buf, self.checksum);
        push_u16_le(buf, self.subsystem);
        push_u16_le(buf, self.dll_characteristics);
        push_u64_le(buf, self.size_of_stack_reserve);
        push_u64_le(buf, self.size_of_stack_commit);
        push_u64_le(buf, self.size_of_heap_reserve);
        push_u64_le(buf, self.size_of_heap_commit);
        push_u32_le(buf, self.loader_flags);
        push_u32_le(buf, self.number_of_rva_and_sizes);
        assert(buf@ =~= old(buf)@ + optional_header_bytes(*self));
    }
}

/// IMAGE_DATA_DIRECTORY.
#[derive(Debug, Clone, Copy)]
pub struct DataDirectory {
    pub virtual_address: u32,
    pub size: u32,
}

impl DataDirectory {
    /// A directory entry with address and size zero.
    pub fn empty() -> (d: Self)
        ensures
            d.virtual_address == 0,
            d.size == 0,
    {
        DataDirectory { virtual_address: 0, size: 0 }
    }

    fn write(&self, buf: &mut Vec<u8>)
        ensures
            final(buf)@ == old(buf)@ + le32(self.virtual_address) + le32(self.size),
    {
        push_u32_le(buf, self.virtual_address);
        push_u32_le(buf, self.size);
    }
}

/// IMAGE_SECTION_HEADER.
#[derive(Debug, Clone)]
pub struct SectionHeader {
    pub name: [u8; 8],
    pub virtual_size: u32,
    pub virtual_address: u32,
    pub size_of_raw_data: u32,
    pub pointer_to_raw_data: u32,
    pub pointer_to_relocations: u32,
    pub pointer_to_linenumbers: u32,
    pub number_of_relocations: u16,
    pub number_of_linenumbers: u16,
    pub characteristics: u32,
}

/// The 40 bytes of a section header.
pub open spec fn section_header_bytes(h: SectionHeader) -> Seq<u8> {
    h.name@ + le32(h.virtual_size) + le32(h.virtual_address) + le32(h.size_of_raw_data) + le32(
        h.pointer_to_raw_data,
    ) + le32(h.pointer_to_relocations) + le32(h.pointer_to_linenumbers) + le16(
        h.number_of_relocations,
    ) + le16(h.number_of_linenumbers) + le32(h.characteristics)
}

impl SectionHeader {
    /// A `.text` section (code, execute, read) of `code_bytes_len` bytes at `code_rva`,
    /// stored at file offset `raw_offset` and padded to `file_alignment`.
    pub open spec fn spec_text_section(code_bytes_len: u32, code_rva: u32, file_alignment: u32, raw_offset: u32) -> SectionHeader {
        SectionHeader {
            name: [0x2Eu8, 0x74, 0x65, 0x78, 0x74, 0, 0, 0],
            virtual_size: code_bytes_len,
            virtual_address: code_rva,
            size_of_raw_data: align_up_mask(code_bytes_len, file_alignment),
            pointer_to_raw_data: raw_offset,
            pointer_to_relocations: 0,
            pointer_to_linenumbers: 0,
            number_of_relocations: 0,
            number_of_linenumbers: 0,
            characteristics: 0x6000_0020,
        }
    }

    /// Builds the `.text` section header.
    pub fn text_section(code_bytes_len: u32, code_rva: u32, file_alignment: u32, raw_offset: u32) -> (h: Self)
        requires
            file_alignment >= 1,
            code_bytes_len + file_alignment <= u32::MAX,
        ensures
            h == Self::spec_text_section(code_bytes_len, code_rva, file_alignment, raw_offset),
    {
        let raw_size = (code_bytes_len + file_alignment - 1) & !(file_alignment - 1);
        SectionHeader {
            name: [0x2Eu8, 0x74, 0x65, 0x78, 0x74, 0, 0, 0],
            virtual_size: code_bytes_len,
            virtual_address: code_rva,
            size_of_raw_data: raw_size,
            pointer_to_raw_data: raw_offset,
            pointer_to_relocations: 0,
            pointer_to_linenumbers: 0,
            number_of_relocations: 0,
            number_of_linenumbers: 0,
            characteristics: 0x6000_0020,
        }
    }

    fn write(&self, buf: &mut Vec<u8>)
        ensures
            final(buf)@ == old(buf)@ + section_header_bytes(*self),
    {
        let mut i: usize = 0;
        while i < 8
            invariant
                0 <= i <= 8,
                buf@ == old(buf)@ + self.name@.subrange(0, i as int),
            decreases 8 - i,
        {
            buf.push(self.name[i]);
            i = i + 1;
            assert(buf@ =~= old(buf)@ + self.name@.subrange(0, i as int));
        }
        assert(self.name@.subrange(0, 8) =~= self.name@);
        push_u32_le(buf, self.virtual_size);
        push_u32_le(buf, self.virtual_address);
        push_u32_le(buf, self.size_of_raw_data);
        push_u32_le(buf, self.pointer_to_raw_data);
        push_u32_le(buf, self.pointer_to_relocations);
        push_u32_le(buf, self.pointer_to_linenumbers);
        push_u16_le(buf, self.number_of_relocations);
        push_u16_le(buf, self.number_of_linenumbers);
        push_u32_le(buf, self.characteristics);
        assert(buf@ =~= old(buf)@ + section_header_bytes(*self));
    }
}

proof fn lemma_part_lengths(d: DosHeader, c: CoffHeader, o: OptionalHeader64, t: SectionHeader)
    ensures
        dos_header_bytes(d).len() == 64,
        dos_stub().len() == 64,
        coff_header_bytes(c).len() == 20,
        optional_header_bytes(o).len() == 112,
        section_header_bytes(t).len() == 40,
{
}

proof fn lemma_align_0x200(n: u32)
    requires
        n + 0x200 <= u32::MAX,
    ensures
        n <= align_up_mask(n, 0x200),
        align_up_mask(n, 0x200) < n + 0x200,
        align_up_mask(n, 0x200) % 0x200 == 0,
{
    let a = align_up_mask(n, 0x200);
    assert(a == ((n + 0x1FF) as u32) & !0x1FFu32);
    assert(n + 0x200 <= 0xFFFF_FFFFu32 ==> n <= ((n + 0x1FF) as u32) & !0x1FFu32) by (bit_vector);
    assert(n + 0x200 <= 0xFFFF_FFFFu32 ==> ((n + 0x1FF) as u32) & !0x1FFu32 < n + 0x200) by (bit_vector);
    assert((((n + 0x1FF) as u32) & !0x1FFu32) % 0x200 == 0) by (bit_vector);
}

/// Sum of the little-endian 16-bit words `data[0..2)`, `data[2..4)`, ... below `i`.
pub open spec fn word_sum(data: Seq<u8>, i: int) -> int
    decreases i,
{
    if i < 2 {
        0
    } else {
        word_sum(data, i - 2) + data[i - 2] + 256 * data[i - 1]
    }
}

/// The image checksum: all 16-bit words, a trailing odd byte, plus the length, mod 2^32.
pub open spec fn pe_checksum(data: Seq<u8>) -> u32 {
    let pairs: int = (2 * (data.len() / 2)) as int;
    let tail = if data.len() % 2 == 1 { data[data.len() - 1] as int } else { 0 };
    ((word_sum(data, pairs) + tail + data.len()) % 0x1_0000_0000) as u32
}

/// Everything in front of the section data: DOS header and stub, PE signature,
/// COFF header, optional header, sixteen empty data directories and the `.text` header.
pub open spec fn pe_headers(code_len: u32, entry: u32, image_base: u64, code_rva: u32) -> Seq<u8> {
    let aligned = align_up_mask(code_len, 0x200);
    let opt = OptionalHeader64 {
        size_of_image: 0x2000,
        ..OptionalHeader64::spec_standard_console(entry, aligned, image_base)
    };
    dos_header_bytes(DosHeader::spec_standard()) + dos_stub() + le32(0x4550) + coff_header_bytes(
        CoffHeader::spec_standard_x64(),
    ) + optional_header_bytes(opt) + zeros(128) + section_header_bytes(
        SectionHeader::spec_text_section(code_len, code_rva, 0x200, 0x200),
    )
}

/// The image before its checksum is filled in: headers padded to 0x200, then the
/// code padded to a multiple of 0x200.
pub open spec fn pe_image_unchecked(code: Seq<u8>, entry: u32, image_base: u64, code_rva: u32) -> Seq<u8> {
    let h = pe_headers(code.len() as u32, entry, image_base, code_rva);
    let aligned = align_up_mask(code.len() as u32, 0x200);
    h + zeros((0x200 - h.len()) as nat) + code + zeros((aligned - code.len()) as nat)
}

/// The complete image: the unchecked image with its checksum field set.
pub open spec fn pe_image(code: Seq<u8>, entry: u32, image_base: u64, code_rva: u32) -> Seq<u8> {
    let img = pe_image_unchecked(code, entry, image_base, code_rva);
    let ck = le32(pe_checksum(img));
    img.update(0xD8, ck[0]).update(0xD9, ck[1]).update(0xDA, ck[2]).update(0xDB, ck[3])
}

/// Code sizes for which an image can be built without 32-bit overflow.
pub open spec fn pe_size_ok(code_len: int) -> bool {
    &&& code_len + 0x200 <= u32::MAX
    &&& console_size_fits(align_up_mask(code_len as u32, 0x200))
}

/// Whether code of `len` bytes fits in the image `PeBuilder::build` lays out: the
/// aligned code and image sizes stay within 32 bits.
pub fn pe_fits(len: usize) -> (b: bool)
    ensures
        b == pe_size_ok(len as int),
{
    if len > 0xFFFF_FFFF - 0x200 {
        return false;
    }
    let n = len as u32;
    let a: u32 = ((n + 0x1FF) as u32) & !(0x1FFu32);
    assert(a == align_up_mask(n, 0x200));
    let c: u32 = if a >= 1 { a } else { 1 };
    if c > 0xFFFF_FFFF - 0xFFF {
        return false;
    }
    let r: u32 = (c + 0xFFF) & !0xFFFu32;
    r <= 0xFFFF_FFFF - 0x2000
}

/// Appends zeros until `buf` is `target` bytes long.
fn pad_zeros_to(buf: &mut Vec<u8>, target: usize)
    ensures
        old(buf)@.len() < target ==> final(buf)@ == old(buf)@ + zeros((target - old(buf)@.len()) as nat),
        old(buf)@.len() >= target ==> final(buf)@ == old(buf)@,
{
    while buf.len() < target
        invariant
            old(buf)@.len() <= buf@.len(),
            old(buf)@.len() < target ==> buf@.len() <= target,
            old(buf)@.len() >= target ==> buf@.len() == old(buf)@.len(),
            buf@ == old(buf)@ + zeros((buf@.len() - old(buf)@.len()) as nat),
        decreases target - buf@.len(),
    {
        buf.push(0);
        assert(buf@ =~= old(buf)@ + zeros((buf@.len() - old(buf)@.len()) as nat));
    }
    proof {
        if old(buf)@.len() >= target {
            assert(buf@ =~= old(buf)@);
        }
    }
}

fn push_dos_stub(buf: &mut Vec<u8>)
    ensures
        final(buf)@ == old(buf)@ + dos_stub(),
{
    let stub: [u8; 64] = [
        0x0E, 0x1F, 0xBA, 0x0E, 0x00, 0xB4, 0x09, 0xCD,
        0x21, 0xB8, 0x01, 0x4C, 0xCD, 0x21,
        0x54, 0x68, 0x69, 0x73, 0x20, 0x70, 0x72, 0x6F,
        0x67, 0x72, 0x61, 0x6D, 0x20, 0x63, 0x61, 0x6E,
        0x6E, 0x6F, 0x74, 0x20, 0x62, 0x65, 0x20, 0x72,
        0x75, 0x6E, 0x20, 0x69, 0x6E, 0x20, 0x44, 0x4F,
        0x53, 0x20, 0x6D, 0x6F, 0x64, 0x65, 0x2E, 0x0D,
        0x0D, 0x0A, 0x24, 0x00, 0x00, 0x00, 0x00, 0x00,
        0x00, 0x00,
    ];
    assert(stub@ =~= dos_stub());
    append_bytes(buf, &stub);
}

/// Builder of a PE image around a block of machine code.
#[derive(Debug, Clone)]
pub struct PeBuilder {
    code: Vec<u8>,
    entry_point: u32,
    image_base: u64,
    code_rva: u32,
}

impl PeBuilder {
    /// The code collected so far.
    pub closed spec fn code(&self) -> Seq<u8> {
        self.code@
    }

    /// The entry point RVA.
    pub closed spec fn entry(&self) -> u32 {
        self.entry_point
    }

    /// The preferred load address.
    pub closed spec fn base(&self) -> u64 {
        self.image_base
    }

    /// The RVA of the code section.
    pub closed spec fn rva(&self) -> u32 {
        self.code_rva
    }

    /// An empty builder: entry point and code at 0x1000, image base 0x400000.
    pub fn new() -> (b: Self)
        ensures
            b.code() == Seq::<u8>::empty(),
            b.entry() == CODE_RVA,
            b.base() == 0x0040_0000,
            b.rva() == CODE_RVA,
    {
        PeBuilder { code: Vec::new(), entry_point: CODE_RVA, image_base: 0x00000000_00400000, code_rva: CODE_RVA }
    }

    /// Appends machine code.
    pub fn add_code(&mut self, code: &[u8])
        ensures
            final(self).code() == old(self).code() + code@,
            final(self).entry() == old(self).entry(),
            final(self).base() == old(self).base(),
            final(self).rva() == old(self).rva(),
    {
        append_bytes(&mut self.code, code);
    }

    /// Sets the entry point RVA.
    pub fn set_entry_point(&mut self, entry_point: u32)
        ensures
            final(self).code() == old(self).code(),
            final(self).entry() == entry_point,
            final(self).base() == old(self).base(),
            final(self).rva() == old(self).rva(),
    {
        self.entry_point = entry_point;
    }
    fn compute_checksum(data: &[u8]) -> (ck: u32)
        requires
            data@.len() <= 0x100_0000_0000,
        ensures
            ck == pe_checksum(data@),
    {
        let mut sum: u64 = 0;
        let len = data.len();
        let mut i: usize = 0;
        while i + 1 < len
            invariant
                len == data@.len(),
                len <= 0x100_0000_0000,
                i % 2 == 0,
                i <= len,
                sum == word_sum(data@, i as int),
                sum <= 65536 * i,
            decreases len - i,
        {
            sum = sum + (data[i] as u64 + 256 * (data[i + 1] as u64));
            i = i + 2;
        }
        assert(i as int == 2 * (len as int / 2));
        if i < len {
            sum = sum + data[i] as u64;
        }
        sum = sum + len as u64;
        let r = (sum & 0xFFFF_FFFF) as u32;
        assert((sum & 0xFFFF_FFFF) as u32 == (sum % 0x1_0000_0000) as u32) by (bit_vector);
        r
    }

    /// Lays out the complete PE image: headers, `.text` header, padded code and checksum.
    #[verifier::rlimit(80)]
    pub fn build(&self) -> (image: Vec<u8>)
        requires
            pe_size_ok(self.code().len() as int),
        ensures
            image@ == pe_image(self.code(), self.entry(), self.base(), self.rva()),
    {
        let mut buf: Vec<u8> = Vec::with_capacity(4096);
        let code_size = self.code.len() as u32;
        let file_aligned_code_size = (code_size + FILE_ALIGNMENT - 1) & !(FILE_ALIGNMENT - 1);
        let size_of_image = 0x2000u32;
        let ghost h = pe_headers(code_size, self.entry_point, self.image_base, self.code_rva);
        proof {
            lemma_align_0x200(code_size);
            assert(file_aligned_code_size == align_up_mask(code_size, 0x200));
        }

        let dos = DosHeader::standard();
        dos.write(&mut buf);
        push_dos_stub(&mut buf);
        proof {
            lemma_part_lengths(dos, CoffHeader::spec_standard_x64(), OptionalHeader64::spec_standard_console(0, 0, 0), SectionHeader::spec_text_section(0, 0, 1, 0));
        }
        let ghost p1 = buf@;
        pad_zeros_to(&mut buf, PE_SIGNATURE_OFFSET as usize);
        assert(buf@ == p1);
        push_u32_le(&mut buf, PE_SIGNATURE);
        let mut coff = CoffHeader::standard_x64();
        coff.number_of_sections = 1;
        coff.write(&mut buf);
        let mut opt = OptionalHeader64::standard_console(
            self.entry_point,
            file_aligned_code_size,
            self.image_base,
        );
        opt.size_of_image = size_of_image;
        opt.write(&mut buf);
        proof {
            lemma_part_lengths(dos, coff, opt, SectionHeader::spec_text_section(0, 0, 1, 0));
        }
        let ghost before_dirs = buf@;
        let mut d: usize = 0;
        while d < 16
            invariant
                0 <= d <= 16,
                buf@ == before_dirs + zeros((8 * d) as nat),
            decreases 16 - d,
        {
            DataDirectory::empty().write(&mut buf);
            proof {
                lemma_le32_zero();
            }
            d = d + 1;
            assert(buf@ =~= before_dirs + zeros((8 * d) as nat));
        }
        let text_sect = SectionHeader::text_section(
            code_size,
            self.code_rva,
            FILE_ALIGNMENT,
            SECTION_DATA_OFFSET,
        );
        text_sect.write(&mut buf);
        proof {
            lemma_part_lengths(dos, coff, opt, text_sect);
            assert(buf@ =~= h);
            assert(h.len() == 432);
        }
        pad_zeros_to(&mut buf, SECTION_DATA_OFFSET as usize);
        let ghost p2 = buf@;
        assert(p2 == h + zeros((0x200 - h.len()) as nat));
        append_bytes(&mut buf, self.code.as_slice());
        let ghost p3 = buf@;
        assert(p3 == p2 + self.code@);
        assert(p3.len() <= 0x200 + file_aligned_code_size);
        pad_zeros_to(&mut buf, (SECTION_DATA_OFFSET + file_aligned_code_size) as usize);
        let ghost img = buf@;
        proof {
            if p3.len() < 0x200 + file_aligned_code_size {
                assert(img == p3 + zeros((0x200 + file_aligned_code_size - p3.len()) as nat));
            } else {
                assert(img == p3);
                assert(img =~= p3 + zeros(0));
            }
            assert(img =~= pe_image_unchecked(self.code@, self.entry_point, self.image_base, self.code_rva));
        }
        let checksum = Self::compute_checksum(buf.as_slice());
        let ck_off: usize = 0xD8;
        buf.set(ck_off, (checksum & 0xff) as u8);
        buf.set(ck_off + 1, ((checksum >> 8) & 0xff) as u8);
        buf.set(ck_off + 2, ((checksum >> 16) & 0xff) as u8);
        buf.set(ck_off + 3, ((checksum >> 24) & 0xff) as u8);
        assert(buf@ =~= pe_image(self.code@, self.entry_point, self.image_base, self.code_rva));
        buf
    }
}

/// Layout of every image the builder produces: it starts with "MZ", its DOS header
/// points at 0x80 where "PE\0\0" stands, the code follows at file offset 0x200, and the
/// file ends at the code size rounded up to 0x200.
#[verifier::rlimit(60)]
#[verifier::spinoff_prover]
pub proof fn lemma_pe_image_layout(code: Seq<u8>, entry: u32, image_base: u64, code_rva: u32)
    requires
        pe_size_ok(code.len() as int),
    ensures
        ({
            let img = pe_image(code, entry, image_base, code_rva);
            &&& img.len() == 0x200 + align_up_mask(code.len() as u32, 0x200)
            &&& img[0] == 0x4D && img[1] == 0x5A
            &&& img.subrange(0x3C, 0x40) == le32(0x80)
            &&& img.subrange(0x80, 0x84) == seq![0x50u8, 0x45, 0, 0]
            &&& img.subrange(0x200, 0x200 + code.len() as int) == code
        }),
{
    let cl = code.len() as u32;
    lemma_align_0x200(cl);
    let aligned = align_up_mask(cl, 0x200);
    let opt = OptionalHeader64 {
        size_of_image: 0x2000,
        ..OptionalHeader64::spec_standard_console(entry, aligned, image_base)
    };
    let dos = DosHeader::spec_standard();
    let coff = CoffHeader::spec_standard_x64();
    let sect = SectionHeader::spec_text_section(cl, code_rva, 0x200, 0x200);
    lemma_part_lengths(dos, coff, opt, sect);
    let h = pe_headers(cl, entry, image_base, code_rva);
    assert(h.len() == 432);
    let u = pe_image_unchecked(code, entry, image_base, code_rva);
    let img = pe_image(code, entry, image_base, code_rva);
    let d = dos_header_bytes(dos);
    assert(h.subrange(0, 64) =~= d);
    assert(u.subrange(0, 432) =~= h);
    assert(img[0] == u[0] && img[1] == u[1]);
    assert(d[0] == (0x5A4Du16 & 0xff) as u8);
    assert((0x5A4Du16 & 0xff) as u8 == 0x4D) by (bit_vector);
    assert(((0x5A4Du16 >> 8) & 0xff) as u8 == 0x5A) by (bit_vector);
    assert(d.subrange(60, 64) =~= le32(0x80));
    assert(img.subrange(0x3C, 0x40) =~= le32(0x80));
    assert(h.subrange(128, 132) =~= le32(0x4550));
    assert((0x4550u32 & 0xff) as u8 == 0x50) by (bit_vector);
    assert(((0x4550u32 >> 8) & 0xff) as u8 == 0x45) by (bit_vector);
    assert(((0x4550u32 >> 16) & 0xff) as u8 == 0) by (bit_vector);
    assert(((0x4550u32 >> 24) & 0xff) as u8 == 0) by (bit_vector);
    assert(img.subrange(0x80, 0x84) =~= seq![0x50u8, 0x45, 0, 0]);
    assert(img.subrange(0x200, 0x200 + code.len() as int) =~= code);
}

} // verus!
