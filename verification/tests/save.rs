use gba_core::state::{Reader, Writer};
use gba_core::save::{Save, SaveKind};

fn rom_with(id: &[u8]) -> Vec<u8> {
    let mut rom = vec![0u8; 0x400];
    rom[0x200..0x200 + id.len()].copy_from_slice(id); // word-aligned
    rom
}

#[test]
fn detects_each_type() {
    assert_eq!(Save::detect(&rom_with(b"SRAM_V112")).kind, SaveKind::Sram);
    assert_eq!(Save::detect(&rom_with(b"FLASH_V124")).kind, SaveKind::Flash64);
    assert_eq!(Save::detect(&rom_with(b"FLASH1M_V103")).kind, SaveKind::Flash128);
    assert_eq!(Save::detect(&rom_with(b"EEPROM_V124")).kind, SaveKind::Eeprom);
    assert_eq!(Save::detect(&[0u8; 0x400]).kind, SaveKind::Absent);
}

#[test]
fn flash_id_and_program() {
    let mut s = Save::detect(&rom_with(b"FLASH1M_V103"));
    // Autoselect: AA/55/90, then read manufacturer + device.
    s.write(0x0E00_5555, 0xAA);
    s.write(0x0E00_2AAA, 0x55);
    s.write(0x0E00_5555, 0x90);
    assert_eq!(s.read(0x0E00_0000), 0x62); // Sanyo manufacturer
    assert_eq!(s.read(0x0E00_0001), 0x13); // device
    s.write(0x0E00_5555, 0xF0); // leave autoselect
    // Program a byte: AA/55/A0, then the data at its address.
    s.write(0x0E00_5555, 0xAA);
    s.write(0x0E00_2AAA, 0x55);
    s.write(0x0E00_5555, 0xA0);
    s.write(0x0E00_1234, 0x42);
    assert_eq!(s.read(0x0E00_1234), 0x42);
}

#[test]
fn eeprom_write_read_roundtrip() {
    let mut s = Save::detect(&rom_with(b"EEPROM_V124"));
    let addr = 5u64;
    let value = 0x0123_4567_89AB_CDEFu64;

    // Write stream (14-bit): [1,0] + addr(14) + data(64) + stop.
    s.eeprom_set_dma_len(81);
    for &b in &[1u8, 0] {
        s.eeprom_write_bit(b);
    }
    for i in (0..14).rev() {
        s.eeprom_write_bit(((addr >> i) & 1) as u8);
    }
    for i in (0..64).rev() {
        s.eeprom_write_bit(((value >> i) & 1) as u8);
    }
    s.eeprom_write_bit(0); // stop

    // Read request: [1,1] + addr(14) + stop.
    s.eeprom_set_dma_len(17);
    for &b in &[1u8, 1] {
        s.eeprom_write_bit(b);
    }
    for i in (0..14).rev() {
        s.eeprom_write_bit(((addr >> i) & 1) as u8);
    }
    s.eeprom_write_bit(0);

    // Read 68 bits: 4 dummy, then the 64 data bits MSB first.
    s.eeprom_set_dma_len(68);
    for _ in 0..4 {
        assert_eq!(s.eeprom_read_bit(), 0);
    }
    let mut got = 0u64;
    for _ in 0..64 {
        got = (got << 1) | s.eeprom_read_bit() as u64;
    }
    assert_eq!(got, value);
}

#[test]
fn sram_write_then_read() {
    let mut s = Save::detect(&rom_with(b"SRAM_V112"));
    assert_eq!(s.read(0x0E00_0010), 0xFF);
    s.write(0x0E00_0010, 0x5A);
    assert_eq!(s.read(0x0E00_0010), 0x5A);
    assert!(s.dirty);
}

#[test]
fn absent_backup_reads_open_bus() {
    let s = Save::detect(&[0u8; 0x400]);
    assert_eq!(s.kind, SaveKind::Absent);
    assert_eq!(s.data.len(), 0);
    assert_eq!(s.read(0x0E00_0000), 0xFF);
}

#[test]
fn save_state_of_the_chip_roundtrips() {
    let mut s = Save::detect(&rom_with(b"SRAM_V112"));
    s.write(0x0E00_0003, 0x77);
    let mut w = Writer::default();
    s.serialize(&mut w);
    let mut t = Save::detect(&rom_with(b"SRAM_V112"));
    let mut r = Reader::new(&w.buf);
    t.deserialize(&mut r);
    assert!(!r.failed);
    assert_eq!(t.read(0x0E00_0003), 0x77);
    assert_eq!(t.data, s.data);
}
