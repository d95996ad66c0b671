//! The mathematical model of the machine: a record of plain values and
//! sequences that the executable state maps onto, together with the
//! well-formedness predicate and the initial (reset) state.

use vstd::prelude::*;

verus! {

/// Width of the framebuffer in pixels.
pub const SCREEN_WIDTH: usize = 64;

/// Height of the framebuffer in pixels.
pub const SCREEN_HEIGHT: usize = 32;

/// Cells in the framebuffer, row-major (index = x + SCREEN_WIDTH * y).
pub const SCREEN_SIZE: usize = SCREEN_WIDTH * SCREEN_HEIGHT;

/// Bytes of addressable memory.
pub const RAM_SIZE: usize = 4096;

/// Number of general-purpose 8-bit registers.
pub const NUM_REGS: usize = 16;

/// Greatest number of return addresses the call stack holds.
pub const STACK_SIZE: usize = 16;

/// Number of keys on the hexadecimal keypad.
pub const NUM_KEYS: usize = 16;

/// Address at which execution starts and ROM images are loaded.
pub const START_ADDR: u16 = 0x200;

/// Longest ROM image that fits between `START_ADDR` and the end of memory.
pub const MAX_ROM_LEN: usize = RAM_SIZE - 0x200;

/// Everything that can go wrong while driving the machine.  Each variant is
/// returned by exactly the operation that detects it, and the machine is
/// left unchanged when one is returned.
#[derive(Clone, Copy, Debug, PartialEq, Eq, Structural)]
pub enum Chip8Error {
    /// A call instruction arrived while the stack already held
    /// `STACK_SIZE` return addresses.
    StackOverflow,
    /// A return instruction arrived while the stack was empty.
    StackUnderflow,
    /// No instruction pattern matched; carries the raw instruction word.
    UnimplementedOpcode(u16),
    /// A ROM image longer than the memory past `START_ADDR` was loaded.
    OutOfRangeRomLoad,
    /// A key index outside the keypad was used.
    InvalidKeyIndex,
    /// An instruction addressed a byte past the end of memory.
    MemoryOutOfBounds,
}

/// Abstract view of one machine: every component as a plain value or a
/// sequence.  The call stack is modelled as the sequence of live return
/// addresses, oldest first, so its length is the stack depth.
#[verifier::ext_equal]
pub struct MachineView {
    /// Program counter.
    pub pc: u16,
    /// Memory contents, `RAM_SIZE` bytes.
    pub ram: Seq<u8>,
    /// Framebuffer, `SCREEN_SIZE` cells, row-major.
    pub screen: Seq<bool>,
    /// General-purpose registers, `NUM_REGS` entries.
    pub v: Seq<u8>,
    /// Index register.
    pub i: u16,
    /// Live call stack entries, at most `STACK_SIZE`.
    pub stack: Seq<u16>,
    /// Key latch, `NUM_KEYS` entries.
    pub keys: Seq<bool>,
    /// Delay timer.
    pub dt: u8,
    /// Sound timer.
    pub st: u8,
    /// True exactly when the last executed instruction was an unsatisfied
    /// wait-for-key, so the machine is blocked on input.
    pub waiting: bool,
}

/// Shape every reachable machine state keeps.
pub open spec fn wf(m: MachineView) -> bool {
    &&& m.ram.len() == RAM_SIZE
    &&& m.screen.len() == SCREEN_SIZE
    &&& m.v.len() == NUM_REGS
    &&& m.stack.len() <= STACK_SIZE
    &&& m.keys.len() == NUM_KEYS
}

/// The sixteen 5-byte font glyphs burned in at address 0: the hexadecimal
/// digits 0 through F.
pub open spec fn font_seq() -> Seq<u8> {
    seq![
        0xF0u8, 0x90, 0x90, 0x90, 0xF0, // 0
        0x20, 0x60, 0x20, 0x20, 0x70, // 1
        0xF0, 0x10, 0xF0, 0x80, 0xF0, // 2
        0xF0, 0x10, 0xF0, 0x10, 0xF0, // 3
        0x90, 0x90, 0xF0, 0x10, 0x10, // 4
        0xF0, 0x80, 0xF0, 0x10, 0xF0, // 5
        0xF0, 0x80, 0xF0, 0x90, 0xF0, // 6
        0xF0, 0x10, 0x20, 0x40, 0x40, // 7
        0xF0, 0x90, 0xF0, 0x90, 0xF0, // 8
        0xF0, 0x90, 0xF0, 0x10, 0xF0, // 9
        0xF0, 0x90, 0xF0, 0x90, 0x90, // A
        0xE0, 0x90, 0xE0, 0x90, 0xE0, // B
        0xF0, 0x80, 0x80, 0x80, 0xF0, // C
        0xE0, 0x90, 0x90, 0x90, 0xE0, // D
        0xF0, 0x80, 0xF0, 0x80, 0xF0, // E
        0xF0, 0x80, 0xF0, 0x80, 0x80, // F
    ]
}

/// Memory right after construction or reset: the font, then zeroes.
pub open spec fn initial_ram() -> Seq<u8> {
    Seq::new(RAM_SIZE as nat, |j: int| if j < 80 { font_seq()[j] } else { 0u8 })
}

/// An all-dark framebuffer.
pub open spec fn blank_screen() -> Seq<bool> {
    Seq::new(SCREEN_SIZE as nat, |j: int| false)
}

/// The machine after a ROM image is copied in at `START_ADDR`: the image
/// bytes replace that span of memory, the rest of the machine stands as it
/// was, and any pending wait-for-key is abandoned.
pub open spec fn rom_loaded(m: MachineView, rom: Seq<u8>) -> MachineView
    recommends
        wf(m),
        rom.len() <= MAX_ROM_LEN,
{
    MachineView {
        ram: Seq::new(
            m.ram.len(),
            |j: int|
                if 0x200 <= j < 0x200 + rom.len() {
                    rom[j - 0x200]
                } else {
                    m.ram[j]
                },
        ),
        waiting: false,
        ..m
    }
}

/// The state `new` constructs and `reset` restores.
pub open spec fn initial_machine() -> MachineView {
    MachineView {
        pc: START_ADDR,
        ram: initial_ram(),
        screen: blank_screen(),
        v: Seq::new(NUM_REGS as nat, |j: int| 0u8),
        i: 0,
        stack: Seq::empty(),
        keys: Seq::new(NUM_KEYS as nat, |j: int| false),
        dt: 0,
        st: 0,
        waiting: false,
    }
}

} // verus!
