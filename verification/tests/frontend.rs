use gba_core::frontend::{
    host_memory, host_memory_size, joypad_id, memory_map, rgb555_to_xrgb8888, HostMemory, MemoryRegion,
    MEMDESC_SAVE_RAM, MEMDESC_SYSTEM_RAM, MEMORY_SAVE_RAM, MEMORY_SYSTEM_RAM,
};
use gba_core::memory::GbaBus;
use gba_core::Button;

/// A ROM carrying the save-type marker the detector looks for.
fn rom_with(marker: &[u8]) -> Vec<u8> {
    let mut rom = vec![0u8; 0x2000];
    rom[0x1000..0x1000 + marker.len()].copy_from_slice(marker);
    rom
}

fn load(marker: &[u8]) -> Vec<MemoryRegion> {
    let bus = GbaBus::new(rom_with(marker), Vec::new());
    memory_map(&bus)
}

#[test]
fn publishes_the_memory_map_rcheevos_needs() {
    let sram = load(b"SRAM_V113");
    let iwram = sram.iter().find(|d| d.start == 0x0300_0000).expect("IWRAM descriptor");
    let ewram = sram.iter().find(|d| d.start == 0x0200_0000).expect("EWRAM descriptor");
    assert_eq!(iwram.len, 32 * 1024, "IWRAM is 32 KB");
    assert_eq!(ewram.len, 256 * 1024, "EWRAM is 256 KB");
    assert_eq!(iwram.flags, MEMDESC_SYSTEM_RAM);
    assert_eq!(ewram.flags, MEMDESC_SYSTEM_RAM);

    let save = sram.iter().find(|d| d.start == 0x0E00_0000).expect("SRAM descriptor");
    assert_eq!(save.flags, MEMDESC_SAVE_RAM);

    let eeprom = load(b"EEPROM_V122");
    assert!(
        eeprom.iter().all(|d| d.start != 0x0E00_0000),
        "EEPROM must not be published as SRAM at 0x0E000000"
    );
    assert!(
        eeprom.iter().any(|d| d.start == 0x0300_0000),
        "work RAM is still published for an EEPROM cart"
    );
}

#[test]
fn flash_carts_publish_their_whole_backup_memory() {
    let flash = load(b"FLASH1M_V103");
    assert_eq!(flash.len(), 3);
    assert_eq!(flash[2], MemoryRegion { flags: MEMDESC_SAVE_RAM, start: 0x0E00_0000, len: 0x2_0000 });
    let none = load(b"");
    assert_eq!(none.len(), 2);
}

#[test]
fn xrgb_expansion_repeats_the_top_bits() {
    assert_eq!(rgb555_to_xrgb8888(0x0000), 0x0000_0000);
    assert_eq!(rgb555_to_xrgb8888(0x7FFF), 0x00FF_FFFF);
    assert_eq!(rgb555_to_xrgb8888(0x001F), 0x00FF_0000);
    assert_eq!(rgb555_to_xrgb8888(0x03E0), 0x0000_FF00);
    assert_eq!(rgb555_to_xrgb8888(0x7C00), 0x0000_00FF);
    // 0b10000 widens to 0b10000100.
    assert_eq!(rgb555_to_xrgb8888(0x0010), 0x0084_0000);
    // The unused top bit is ignored.
    assert_eq!(rgb555_to_xrgb8888(0x8000), 0);
}

#[test]
fn joypad_ids_follow_the_libretro_layout() {
    let all = [
        Button::A,
        Button::B,
        Button::Select,
        Button::Start,
        Button::Right,
        Button::Left,
        Button::Up,
        Button::Down,
        Button::R,
        Button::L,
    ];
    let ids: Vec<u32> = all.iter().map(|b| joypad_id(*b)).collect();
    assert_eq!(ids, vec![8, 0, 2, 3, 7, 6, 4, 5, 11, 10]);
    for i in 0..ids.len() {
        for j in 0..ids.len() {
            if i != j {
                assert_ne!(ids[i], ids[j]);
            }
        }
    }
}

#[test]
fn host_memory_ids_name_ewram_and_backup() {
    let sram = GbaBus::new(rom_with(b"SRAM_V113"), Vec::new());
    assert_eq!(host_memory(MEMORY_SYSTEM_RAM, &sram), Some(HostMemory::Ewram));
    assert_eq!(host_memory(MEMORY_SAVE_RAM, &sram), Some(HostMemory::Save));
    assert_eq!(host_memory(1, &sram), None);
    assert_eq!(host_memory_size(MEMORY_SYSTEM_RAM, &sram), 0x4_0000);
    assert_eq!(host_memory_size(MEMORY_SAVE_RAM, &sram), 0x8000);
    assert_eq!(host_memory_size(7, &sram), 0);

    let bare = GbaBus::new(vec![0; 0x100], Vec::new());
    assert_eq!(host_memory(MEMORY_SAVE_RAM, &bare), None);
    assert_eq!(host_memory_size(MEMORY_SAVE_RAM, &bare), 0);
}
