//! A verified CHIP-8 interpreter core.
//!
//! The machine holds 4096 bytes of memory with a preloaded font, sixteen
//! 8-bit registers, a 16-bit index register, a call stack, a monochrome
//! 64x32 framebuffer, a sixteen-key latch and two countdown timers.  The
//! caller drives it through `tick` (execute one instruction) and
//! `tick_timer` (decrement the timers), and feeds input through `keypress`.

pub mod draw;
pub mod laws;
pub mod machine;
pub mod model;
pub mod step;

pub use machine::Chip8;
pub use model::Chip8Error;
pub use model::MachineView;
pub use model::MAX_ROM_LEN;
pub use model::NUM_KEYS;
pub use model::NUM_REGS;
pub use model::RAM_SIZE;
pub use model::SCREEN_HEIGHT;
pub use model::SCREEN_SIZE;
pub use model::SCREEN_WIDTH;
pub use model::STACK_SIZE;
pub use model::START_ADDR;
