use boot_console::entry_type::{
    entry_type_to_str, write_region_line, MemoryMapEntry, ACPI_NVS, ACPI_RECLAIMABLE, BAD_MEMORY,
    BOOTLOADER_RECLAIMABLE, EXECUTABLE_AND_MODULES, FRAMEBUFFER, RESERVED, USABLE,
};
use boot_console::utils::{BufferFull, BufferWriter};

#[test]
fn labels_of_known_types() {
    assert_eq!(entry_type_to_str(USABLE), "Usable");
    assert_eq!(entry_type_to_str(RESERVED), "Reserved");
    assert_eq!(entry_type_to_str(ACPI_RECLAIMABLE), "ACPI Reclaimable");
    assert_eq!(entry_type_to_str(ACPI_NVS), "ACPI NVS");
    assert_eq!(entry_type_to_str(BAD_MEMORY), "Bad Memory");
    assert_eq!(entry_type_to_str(BOOTLOADER_RECLAIMABLE), "Bootloader Reclaimable");
    assert_eq!(entry_type_to_str(EXECUTABLE_AND_MODULES), "Executable and Modules");
    assert_eq!(entry_type_to_str(FRAMEBUFFER), "Framebuffer");
}

#[test]
fn label_of_unknown_type() {
    assert_eq!(entry_type_to_str(8), "Unknown");
    assert_eq!(entry_type_to_str(9999), "Unknown");
    assert_eq!(entry_type_to_str(u64::MAX), "Unknown");
}

#[test]
fn type_codes_are_those_of_the_boot_protocol() {
    assert_eq!(USABLE, 0);
    assert_eq!(RESERVED, 1);
    assert_eq!(ACPI_RECLAIMABLE, 2);
    assert_eq!(ACPI_NVS, 3);
    assert_eq!(BAD_MEMORY, 4);
    assert_eq!(BOOTLOADER_RECLAIMABLE, 5);
    assert_eq!(EXECUTABLE_AND_MODULES, 6);
    assert_eq!(FRAMEBUFFER, 7);
}

#[test]
fn region_line_of_usable_memory() {
    let mut storage: [u8; 512] = [0; 512];
    let mut writer = BufferWriter::new(&mut storage);
    let entry = MemoryMapEntry { base: 0x1000, length: 0x9f000, entry_type: USABLE };
    assert_eq!(write_region_line(&mut writer, &entry), Ok(()));
    assert_eq!(writer.as_str(), "Base: 0x1000, Length: 0x9f000, Type: Usable");
    assert_eq!(writer.as_str(), format!("Base: {:#x}, Length: {:#x}, Type: {}", 0x1000, 0x9f000, "Usable"));
}

#[test]
fn region_line_of_zero_and_of_largest_numbers() {
    let mut storage: [u8; 512] = [0; 512];
    let mut writer = BufferWriter::new(&mut storage);
    let entry = MemoryMapEntry { base: 0, length: u64::MAX, entry_type: 77 };
    assert_eq!(write_region_line(&mut writer, &entry), Ok(()));
    assert_eq!(writer.as_str(), "Base: 0x0, Length: 0xffffffffffffffff, Type: Unknown");
}

#[test]
fn region_line_appends_to_what_was_written() {
    let mut storage: [u8; 512] = [0; 512];
    let mut writer = BufferWriter::new(&mut storage);
    assert_eq!(writer.write_str("> "), Ok(()));
    let entry = MemoryMapEntry { base: 0xfd00_0000, length: 0x30_0000, entry_type: FRAMEBUFFER };
    assert_eq!(write_region_line(&mut writer, &entry), Ok(()));
    assert_eq!(writer.as_str(), "> Base: 0xfd000000, Length: 0x300000, Type: Framebuffer");
}

#[test]
fn region_line_that_does_not_fit_is_dropped() {
    let line: &str = "Base: 0x1000, Length: 0x9f000, Type: Usable";
    let entry = MemoryMapEntry { base: 0x1000, length: 0x9f000, entry_type: USABLE };
    for capacity in 0..line.len() {
        let mut storage: Vec<u8> = vec![0; capacity];
        let mut writer = BufferWriter::new(&mut storage);
        assert_eq!(write_region_line(&mut writer, &entry), Err(BufferFull));
        assert_eq!(writer.len(), 0);
    }
    let mut storage: Vec<u8> = vec![0; line.len()];
    let mut writer = BufferWriter::new(&mut storage);
    assert_eq!(write_region_line(&mut writer, &entry), Ok(()));
    assert_eq!(writer.as_str(), line);
}

#[test]
fn region_line_leaves_the_rest_of_the_buffer() {
    let mut storage: [u8; 44] = [0xee; 44];
    {
        let mut writer = BufferWriter::new(&mut storage);
        let entry = MemoryMapEntry { base: 1, length: 2, entry_type: FRAMEBUFFER };
        assert_eq!(write_region_line(&mut writer, &entry), Ok(()));
        assert_eq!(writer.as_str(), "Base: 0x1, Length: 0x2, Type: Framebuffer");
    }
    assert_eq!(&storage[..41], b"Base: 0x1, Length: 0x2, Type: Framebuffer");
    assert_eq!(&storage[41..], &[0xee, 0xee, 0xee]);
}
