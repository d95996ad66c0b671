//! Machine-checked statements of the behaviours the interpreter promises:
//! what clearing the screen leaves behind, how calls and returns pair up,
//! what drawing a sprite twice does, and how the wait-for-key suspension
//! behaves.  Each law is proved from the same spec functions the executable
//! operations are verified against.

use vstd::prelude::*;

verus! {

use crate::draw::draw_collision;
use crate::draw::draw_screen_spec;
use crate::draw::sprite_toggles;
use crate::model::Chip8Error;
use crate::model::MachineView;
use crate::model::MAX_ROM_LEN;
use crate::model::NUM_KEYS;
use crate::model::RAM_SIZE;
use crate::model::SCREEN_SIZE;
use crate::model::STACK_SIZE;
use crate::model::font_seq;
use crate::model::initial_machine;
use crate::model::rom_loaded;
use crate::model::wf;
use crate::step::fetch_word;
use crate::step::first_key;
use crate::step::lemma_first_key_prefix;
use crate::step::op_hi;
use crate::step::op_nn;
use crate::step::op_nnn;
use crate::step::op_result;
use crate::step::op_x;
use crate::step::step;

/// Clear-screen law: whatever the display held before, executing the clear
/// instruction leaves every cell dark and touches nothing else but the
/// program counter.
pub proof fn lemma_clear_screen(m: MachineView, rnd: u8)
    requires
        wf(m),
        m.pc + 1 < RAM_SIZE,
        fetch_word(m.ram, m.pc) == 0x00E0,
    ensures
        step(m, rnd) == Ok::<MachineView, Chip8Error>(
            MachineView {
                pc: (m.pc + 2) as u16,
                screen: crate::model::blank_screen(),
                waiting: false,
                ..m
            },
        ),
        forall|idx: int|
            0 <= idx < SCREEN_SIZE ==> !step(m, rnd)->Ok_0.screen[idx],
{
    assert((0x00E0u16 >> 12) & 0xF == 0) by (bit_vector);
}

/// Call law: with room on the stack, a call pushes the already-advanced
/// program counter and jumps to the instruction's address field.
pub proof fn lemma_call_pushes(m: MachineView, op: u16, rnd: u8)
    requires
        wf(m),
        op_hi(op) == 2,
        m.stack.len() < STACK_SIZE,
    ensures
        op_result(m, op, rnd) == Ok::<MachineView, Chip8Error>(
            MachineView { pc: op_nnn(op), stack: m.stack.push(m.pc), waiting: false, ..m },
        ),
{
}

/// Call overflow law: a call finding `STACK_SIZE` return addresses already
/// stacked fails with `StackOverflow`.
pub proof fn lemma_call_overflow(m: MachineView, op: u16, rnd: u8)
    requires
        wf(m),
        op_hi(op) == 2,
        m.stack.len() == STACK_SIZE,
    ensures
        op_result(m, op, rnd) == Err::<MachineView, Chip8Error>(Chip8Error::StackOverflow),
{
}

/// Return law: with a non-empty stack, a return pops the youngest address
/// into the program counter.
pub proof fn lemma_return_pops(m: MachineView, rnd: u8)
    requires
        wf(m),
        m.stack.len() > 0,
    ensures
        op_result(m, 0x00EE, rnd) == Ok::<MachineView, Chip8Error>(
            MachineView { pc: m.stack.last(), stack: m.stack.drop_last(), waiting: false, ..m },
        ),
{
    assert((0x00EEu16 >> 12) & 0xF == 0) by (bit_vector);
}

/// Return underflow law: a return with an empty stack fails with
/// `StackUnderflow`.
pub proof fn lemma_return_underflow(m: MachineView, rnd: u8)
    requires
        wf(m),
        m.stack.len() == 0,
    ensures
        op_result(m, 0x00EE, rnd) == Err::<MachineView, Chip8Error>(Chip8Error::StackUnderflow),
{
    assert((0x00EEu16 >> 12) & 0xF == 0) by (bit_vector);
}

/// Call/return discipline: a call followed at once by a return restores the
/// program counter and the stack to what they were before the call.
pub proof fn lemma_call_then_return(m: MachineView, op: u16, rnd1: u8, rnd2: u8)
    requires
        wf(m),
        op_hi(op) == 2,
        m.stack.len() < STACK_SIZE,
    ensures
        op_result(m, op, rnd1) is Ok,
        op_result(op_result(m, op, rnd1)->Ok_0, 0x00EE, rnd2) == Ok::<MachineView, Chip8Error>(
            MachineView { waiting: false, ..m },
        ),
{
    lemma_call_pushes(m, op, rnd1);
    let m1 = op_result(m, op, rnd1)->Ok_0;
    lemma_return_pops(m1, rnd2);
    assert(m1.stack.drop_last() =~= m.stack);
}

/// Double-draw restoration: drawing a sprite toggles exactly the cells its
/// set bits land on, so drawing it a second time at the same spot toggles
/// the same cells back.
pub proof fn lemma_double_draw_restores(
    screen: Seq<bool>,
    ram: Seq<u8>,
    i: u16,
    x0: u8,
    y0: u8,
    n: u16,
)
    ensures
        draw_screen_spec(
            draw_screen_spec(screen, ram, i, x0, y0, n),
            ram,
            i,
            x0,
            y0,
            n,
        ) == screen,
{
    assert(draw_screen_spec(draw_screen_spec(screen, ram, i, x0, y0, n), ram, i, x0, y0, n)
        =~= screen);
}

/// Double-draw collision: when the first draw lit at least one cell, the
/// second identical draw finds that cell lit and reports a collision.  (A
/// sprite whose every target cell was already lit leaves nothing lit behind,
/// so that hypothesis cannot be dropped.)
pub proof fn lemma_second_draw_collides(
    screen: Seq<bool>,
    ram: Seq<u8>,
    i: u16,
    x0: u8,
    y0: u8,
    n: u16,
)
    requires
        screen.len() == SCREEN_SIZE,
        exists|idx: int|
            0 <= idx < SCREEN_SIZE && sprite_toggles(ram, i, x0, y0, n, idx) && !screen[idx],
    ensures
        draw_collision(draw_screen_spec(screen, ram, i, x0, y0, n), ram, i, x0, y0, n),
{
    let w = choose|idx: int|
        0 <= idx < SCREEN_SIZE && sprite_toggles(ram, i, x0, y0, n, idx) && !screen[idx];
    assert(draw_screen_spec(screen, ram, i, x0, y0, n)[w]);
}

/// Wait-for-key suspension: with every key released, executing the
/// wait-for-key instruction returns the machine exactly as it stood, marked
/// waiting — in particular the program counter is unchanged, so the next
/// tick decodes the same instruction again.
pub proof fn lemma_wait_key_blocks(m: MachineView, rnd: u8)
    requires
        wf(m),
        m.pc + 1 < RAM_SIZE,
        op_hi(fetch_word(m.ram, m.pc)) == 0xF,
        op_nn(fetch_word(m.ram, m.pc)) == 0x0A,
        forall|j: int| 0 <= j < NUM_KEYS ==> !m.keys[j],
    ensures
        step(m, rnd) == Ok::<MachineView, Chip8Error>(MachineView { waiting: true, ..m }),
{
    lemma_first_key_prefix(m.keys, m.keys.len() as int);
}

/// Wait-for-key determinism: the blocked state reached by an unsatisfied
/// wait is a fixed point — ticking it again, with any entropy, yields it
/// back unchanged.
pub proof fn lemma_wait_key_stays_blocked(m: MachineView, rnd1: u8, rnd2: u8)
    requires
        wf(m),
        m.pc + 1 < RAM_SIZE,
        op_hi(fetch_word(m.ram, m.pc)) == 0xF,
        op_nn(fetch_word(m.ram, m.pc)) == 0x0A,
        forall|j: int| 0 <= j < NUM_KEYS ==> !m.keys[j],
    ensures
        step(m, rnd1) is Ok,
        step(step(m, rnd1)->Ok_0, rnd2) == Ok::<MachineView, Chip8Error>(step(m, rnd1)->Ok_0),
{
    lemma_wait_key_blocks(m, rnd1);
    let m1 = step(m, rnd1)->Ok_0;
    lemma_wait_key_blocks(m1, rnd2);
    assert(MachineView { waiting: true, ..m1 } =~= m1);
}

/// Wait-for-key selection: once keys are pressed, the wait stores the
/// lowest pressed index into VX and advances normally.
pub proof fn lemma_wait_key_lowest(m: MachineView, rnd: u8, k: int)
    requires
        wf(m),
        m.pc + 1 < RAM_SIZE,
        op_hi(fetch_word(m.ram, m.pc)) == 0xF,
        op_nn(fetch_word(m.ram, m.pc)) == 0x0A,
        0 <= k < NUM_KEYS,
        m.keys[k],
        forall|j: int| 0 <= j < k ==> !m.keys[j],
    ensures
        step(m, rnd) == Ok::<MachineView, Chip8Error>(
            MachineView {
                pc: (m.pc + 2) as u16,
                v: m.v.update(op_x(fetch_word(m.ram, m.pc)) as int, k as u8),
                waiting: false,
                ..m
            },
        ),
{
    lemma_first_key_prefix(m.keys, k);
    assert(first_key(m.keys, 0) == Some(k));
}

/// Round-trip law: after a load the ROM bytes sit at `START_ADDR`, and the
/// reset state holds font-only memory, so a load followed at once by a
/// reset leaves no ROM byte behind.
pub proof fn lemma_load_then_reset_erases_rom(m: MachineView, rom: Seq<u8>)
    requires
        wf(m),
        rom.len() <= MAX_ROM_LEN,
    ensures
        forall|j: int|
            0x200 <= j < 0x200 + rom.len() ==> rom_loaded(m, rom).ram[j] == rom[j - 0x200],
        forall|j: int| 0 <= j < 80 ==> initial_machine().ram[j] == font_seq()[j],
        forall|j: int| 80 <= j < RAM_SIZE ==> initial_machine().ram[j] == 0,
{
}

} // verus!
