//! Labels for the region types of a boot-time memory map.

use crate::utils::{
    digits, lemma_overlay_from_parts, overlay, put_bytes, put_number, BufferFull, BufferWriter,
};
use vstd::prelude::*;
use vstd::string::StringSliceAdditionalSpecFns;

verus! {

/// Memory that is free to use.
pub const USABLE: u64 = 0;

/// Memory that is reserved for good.
pub const RESERVED: u64 = 1;

/// Memory that holds ACPI tables and can be reclaimed once they were read.
pub const ACPI_RECLAIMABLE: u64 = 2;

/// Memory that ACPI keeps for itself.
pub const ACPI_NVS: u64 = 3;

/// Memory that is damaged.
pub const BAD_MEMORY: u64 = 4;

/// Memory that the bootloader used and that can be reclaimed.
pub const BOOTLOADER_RECLAIMABLE: u64 = 5;

/// Memory that holds the executable and its modules.
pub const EXECUTABLE_AND_MODULES: u64 = 6;

/// Memory that holds the framebuffer.
pub const FRAMEBUFFER: u64 = 7;

/// One region of the memory map.
#[derive(Clone, Copy, Debug, PartialEq, Eq)]
pub struct MemoryMapEntry {
    /// Physical address at which the region starts.
    pub base: u64,
    /// Length of the region in bytes.
    pub length: u64,
    /// One of the type codes above, or a code that has no name here.
    pub entry_type: u64,
}

/// The label of a region type; `Unknown` for a code without a name.
pub open spec fn region_label(typ: u64) -> &'static str {
    if typ == USABLE {
        "Usable"
    } else if typ == RESERVED {
        "Reserved"
    } else if typ == ACPI_RECLAIMABLE {
        "ACPI Reclaimable"
    } else if typ == ACPI_NVS {
        "ACPI NVS"
    } else if typ == BAD_MEMORY {
        "Bad Memory"
    } else if typ == BOOTLOADER_RECLAIMABLE {
        "Bootloader Reclaimable"
    } else if typ == EXECUTABLE_AND_MODULES {
        "Executable and Modules"
    } else if typ == FRAMEBUFFER {
        "Framebuffer"
    } else {
        "Unknown"
    }
}

/// The label of a region type; `Unknown` for a code without a name.
pub fn entry_type_to_str(typ: u64) -> (label: &'static str)
    ensures
        label == region_label(typ),
{
    match typ {
        0 => "Usable",
        1 => "Reserved",
        2 => "ACPI Reclaimable",
        3 => "ACPI NVS",
        4 => "Bad Memory",
        5 => "Bootloader Reclaimable",
        6 => "Executable and Modules",
        7 => "Framebuffer",
        _ => "Unknown",
    }
}

/// The line that describes a region: base and length in hexadecimal with a
/// `0x` in front, then the label of the type.
pub open spec fn region_line(entry: MemoryMapEntry) -> Seq<u8> {
    "Base: 0x".spec_bytes() + digits(entry.base as nat, 16) + ", Length: 0x".spec_bytes() + digits(
        entry.length as nat,
        16,
    ) + ", Type: ".spec_bytes() + region_label(entry.entry_type).spec_bytes()
}

/// Appends the line that describes `entry` to `writer`.  A line that does
/// not fit is dropped as a whole: the writer then holds what it held, though
/// the unwritten bytes of its buffer may have taken the beginning of the
/// line.
pub fn write_region_line(writer: &mut BufferWriter, entry: &MemoryMapEntry) -> (res: Result<
    (),
    BufferFull,
>)
    ensures
        final(writer).spec_capacity() == old(writer).spec_capacity(),
        res is Ok <==> old(writer)@.len() + region_line(*entry).len() <= old(
            writer,
        ).spec_capacity(),
        res is Ok ==> final(writer)@ == old(writer)@ + region_line(*entry),
        res is Ok ==> final(writer).spec_storage() == overlay(
            old(writer).spec_storage(),
            old(writer)@.len() as int,
            region_line(*entry),
        ),
        res is Err ==> final(writer)@ == old(writer)@,
{
    let ghost start = writer@;
    let ghost base = writer.spec_storage();
    let mark: usize = writer.len();
    assert(start.subrange(0, mark as int) =~= start);
    if !put_bytes(writer, mark, "Base: 0x".as_bytes(), Ghost(base)) {
        return Err(BufferFull);
    }
    if !put_number(writer, mark, entry.base, 16, Ghost(base)) {
        assert(writer@ =~= start);
        return Err(BufferFull);
    }
    if !put_bytes(writer, mark, ", Length: 0x".as_bytes(), Ghost(base)) {
        assert(writer@ =~= start);
        return Err(BufferFull);
    }
    if !put_number(writer, mark, entry.length, 16, Ghost(base)) {
        assert(writer@ =~= start);
        return Err(BufferFull);
    }
    if !put_bytes(writer, mark, ", Type: ".as_bytes(), Ghost(base)) {
        assert(writer@ =~= start);
        return Err(BufferFull);
    }
    if !put_bytes(writer, mark, entry_type_to_str(entry.entry_type).as_bytes(), Ghost(base)) {
        assert(writer@ =~= start);
        return Err(BufferFull);
    }
    assert(writer@ =~= start + region_line(*entry));
    proof {
        lemma_overlay_from_parts(writer.spec_storage(), base, start, region_line(*entry));
    }
    Ok(())
}

} // verus!
