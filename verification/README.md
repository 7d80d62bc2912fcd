# gba_core

A Game Boy Advance emulator core whose logic is written in Verus: every
function of the library under `src/` carries a `requires` / `ensures`
contract that Verus proves.

## Layout

- `src/cpu.rs`, `src/cpu/` — the ARM7TDMI: register banks and PSRs
  (`psr.rs`), the barrel shifter (`barrel.rs`), the ARM and Thumb
  instruction sets (`arm.rs`, `thumb.rs`) and the high-level BIOS calls
  (`hle.rs`). The CPU talks to memory through the `Bus` trait (`src/bus.rs`),
  whose contracts fix the log of requests each instruction makes.
- `src/memory.rs` — the system bus: memory regions and their mirrors, I/O
  registers, interrupts, timers (prescaler and count-up cascade) and the four
  DMA channels, with the effect of each store stated exactly.
- `src/ppu.rs` — the picture unit: text, affine and bitmap backgrounds,
  sprites and priorities, line by line.
- `src/apu.rs` — the sound unit: the four PSG channels, Direct Sound FIFOs,
  the frame sequencer, mixing and output filtering.
- `src/save.rs`, `src/cart.rs` — cartridge backup chips (SRAM, Flash,
  EEPROM) and the cartridge header.
- `src/state.rs` — the little-endian save-state format; every unit writes
  its image and reads it back, with the round trip proved.
- `src/lib.rs` — the machine: boot, the frame loop, save states. A frame
  is stated as its 228 scanlines, each a chain of exact steps (PPU, timers,
  interrupts, DMA, the CPU's instructions and interrupt entries with the
  bus serving each request, rendering, sound).
- `src/output.rs`, `src/frontend.rs`, `src/harte.rs` — PNG and WAV output,
  the host-facing memory map and input codes, and the parser and runner for
  single-instruction conformance vectors.
- `app/` — the command-line runner and the libretro glue (file and process
  I/O, FFI), outside verification.
- `tests/` — the test suite, run against the compiled library.

The only outside crate is `png`, called from `src/output.rs` through one
trusted wrapper whose contract states what the encoder returns.
