use gba_core::cart::{cart_header, core_state_span};
use gba_core::output::{distinct_colours, frame_png, rgb555_to_rgb8, wav_bytes};

#[test]
fn rgb555_widens_each_channel() {
    let rgb = rgb555_to_rgb8(&[0x001F, 0x03E0, 0x7C00, 0x7FFF]);
    assert_eq!(rgb, vec![0xF8, 0, 0, 0, 0xF8, 0, 0, 0, 0xF8, 0xF8, 0xF8, 0xF8]);
}

#[test]
fn distinct_colours_counts_values_once() {
    assert_eq!(distinct_colours(&[]), 0);
    assert_eq!(distinct_colours(&[5, 5, 7, 5, 0x7FFF, 7]), 3);
}

#[test]
fn a_frame_encodes_as_png() {
    let fb = vec![0x001Fu16; 240 * 160];
    let png = frame_png(&fb).ok().unwrap();
    assert_eq!(&png[..8], &[137, 80, 78, 71, 13, 10, 26, 10]);
    assert!(png.len() > 8);
}

#[test]
fn wav_header_and_samples() {
    let w = wav_bytes(&[1, -1], 32768);
    assert_eq!(&w[0..4], b"RIFF");
    assert_eq!(u32::from_le_bytes([w[4], w[5], w[6], w[7]]), 40);
    assert_eq!(&w[8..16], b"WAVEfmt ");
    assert_eq!(u32::from_le_bytes([w[24], w[25], w[26], w[27]]), 32768);
    assert_eq!(u32::from_le_bytes([w[28], w[29], w[30], w[31]]), 4 * 32768);
    assert_eq!(&w[36..40], b"data");
    assert_eq!(u32::from_le_bytes([w[40], w[41], w[42], w[43]]), 4);
    assert_eq!(&w[44..], &[1, 0, 0xFF, 0xFF]);
}

#[test]
fn cartridge_header_checksum() {
    let mut rom = vec![0u8; 0xC0];
    rom[0xA0..0xA4].copy_from_slice(b"TEST");
    rom[0xAC..0xB0].copy_from_slice(b"ABCD");
    let mut chk = 0u8;
    for &b in &rom[0xA0..0xBD] {
        chk = chk.wrapping_sub(b);
    }
    rom[0xBD] = chk.wrapping_sub(0x19);
    let h = cart_header(&rom).unwrap();
    assert_eq!(h.title, b"TEST".to_vec());
    assert_eq!(&h.code, b"ABCD");
    assert_eq!(h.stored, h.computed);
    assert!(cart_header(&rom[..0xBF]).is_none());
}

#[test]
fn container_core_block_is_found() {
    let plain = [1u8, 2, 3];
    assert_eq!(core_state_span(&plain), (0, 3));
    let mut blob = b"RASTATE\x01".to_vec();
    blob.extend_from_slice(b"OTHR");
    blob.extend_from_slice(&2u32.to_le_bytes());
    blob.extend_from_slice(&[9, 9]);
    blob.extend_from_slice(b"MEM ");
    blob.extend_from_slice(&3u32.to_le_bytes());
    blob.extend_from_slice(&[7, 8, 9]);
    let (s, e) = core_state_span(&blob);
    assert_eq!(&blob[s..e], &[7, 8, 9]);
}
