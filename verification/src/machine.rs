//! The executable machine and its verified operations.

use vstd::prelude::*;

verus! {

use crate::model::Chip8Error;
use crate::model::MachineView;
use crate::model::MAX_ROM_LEN;
use crate::model::NUM_KEYS;
use crate::model::NUM_REGS;
use crate::model::RAM_SIZE;
use crate::model::SCREEN_SIZE;
use crate::model::START_ADDR;
use crate::model::blank_screen;
use crate::model::font_seq;
use crate::model::initial_machine;
use crate::model::initial_ram;
use crate::model::rom_loaded;
use crate::model::wf;
use crate::model::STACK_SIZE;
use crate::model::SCREEN_WIDTH;
use crate::draw::draw_collision;
use crate::draw::draw_screen_spec;
use crate::draw::lemma_draw_bit_clear;
use crate::draw::lemma_draw_bit_set;
use crate::draw::lemma_toggles_full;
use crate::draw::lemma_toggles_row_end;
use crate::draw::pix_index;
use crate::draw::sprite_toggles;
use crate::draw::sprite_toggles_before;
use crate::step::alu_result;
use crate::step::fetch_word;
use crate::step::lemma_first_key_prefix;
use crate::step::misc_result;
use crate::step::op_result;
use crate::step::op_x;
use crate::step::step;
use vstd::pervasive::VecAdditionalExecFns;

/// One CHIP-8 machine: memory, registers, call stack, framebuffer, key
/// latch and timers, all owned by this instance.  Its abstract value is a
/// [`MachineView`]; every operation's contract speaks of that view.
pub struct Chip8 {
    pc: u16,
    ram: Vec<u8>,
    screen: Vec<bool>,
    v_regs: Vec<u8>,
    i_reg: u16,
    stack: Vec<u16>,
    keys: Vec<bool>,
    dt: u8,
    st: u8,
    waiting: bool,
}

impl View for Chip8 {
    type V = MachineView;

    closed spec fn view(&self) -> MachineView {
        MachineView {
            pc: self.pc,
            ram: self.ram@,
            screen: self.screen@,
            v: self.v_regs@,
            i: self.i_reg,
            stack: self.stack@,
            keys: self.keys@,
            dt: self.dt,
            st: self.st,
            waiting: self.waiting,
        }
    }
}

/// A vector of `n` copies of `val`.
fn filled_bytes(n: usize, val: u8) -> (v: Vec<u8>)
    ensures
        v@ == Seq::new(n as nat, |j: int| val),
{
    let mut v: Vec<u8> = Vec::new();
    let mut j: usize = 0;
    while j < n
        invariant
            j <= n,
            v@ == Seq::new(j as nat, |k: int| val),
        decreases n - j,
    {
        v.push(val);
        j += 1;
        proof {
            assert(v@ =~= Seq::new(j as nat, |k: int| val));
        }
    }
    v
}

/// A vector of `n` copies of `val`.
fn filled_bools(n: usize, val: bool) -> (v: Vec<bool>)
    ensures
        v@ == Seq::new(n as nat, |j: int| val),
{
    let mut v: Vec<bool> = Vec::new();
    let mut j: usize = 0;
    while j < n
        invariant
            j <= n,
            v@ == Seq::new(j as nat, |k: int| val),
        decreases n - j,
    {
        v.push(val);
        j += 1;
        proof {
            assert(v@ =~= Seq::new(j as nat, |k: int| val));
        }
    }
    v
}

/// The font sprites as an executable table.
fn font_table() -> (t: [u8; 80])
    ensures
        t@ == font_seq(),
{
    let t: [u8; 80] = [
        0xF0, 0x90, 0x90, 0x90, 0xF0, // 0
        0x20, 0x60, 0x20, 0x20, 0x70, // 1
        0xF0, 0x10, 0xF0, 0x80, 0xF0, // 2
        0xF0, 0x10, 0xF0, 0x10, 0xF0, // 3
        0x90, 0x90, 0xF0, 0x10, 0x10, // 4
        0xF0, 0x80, 0xF0, 0x10, 0xF0, // 5
        0xF0, 0x80, 0xF0, 0x90, 0xF0, // 6
        0xF0, 0x10, 0x20, 0x40, 0x40, // 7
        0xF0, 0x90, 0xF0, 0x90, 0xF0, // 8
        0xF0, 0x90, 0xF0, 0x10, 0xF0, // 9
        0xF0, 0x90, 0xF0, 0x90, 0x90, // A
        0xE0, 0x90, 0xE0, 0x90, 0xE0, // B
        0xF0, 0x80, 0x80, 0x80, 0xF0, // C
        0xE0, 0x90, 0x90, 0x90, 0xE0, // D
        0xF0, 0x80, 0xF0, 0x80, 0xF0, // E
        0xF0, 0x80, 0xF0, 0x80, 0x80, // F
    ];
    proof {
        assert(t@ =~= font_seq());
    }
    t
}

/// Memory with the font burned in at address 0 and zeroes elsewhere.
fn fresh_ram() -> (ram: Vec<u8>)
    ensures
        ram@ == initial_ram(),
{
    let mut ram = filled_bytes(RAM_SIZE, 0);
    let font = font_table();
    let mut j: usize = 0;
    while j < 80
        invariant
            j <= 80,
            font@ == font_seq(),
            ram@.len() == RAM_SIZE,
            forall|k: int| 0 <= k < j ==> ram@[k] == font_seq()[k],
            forall|k: int| j <= k < RAM_SIZE ==> ram@[k] == 0u8,
        decreases 80 - j,
    {
        ram[j] = font[j];
        j += 1;
    }
    proof {
        assert(ram@ =~= initial_ram());
    }
    ram
}

impl Chip8 {
    /// A machine in its start state: program counter at `START_ADDR`, the
    /// font in low memory, everything else zeroed, dark and released.
    pub fn new() -> (c: Self)
        ensures
            c@ == initial_machine(),
            wf(c@),
    {
        let c = Chip8 {
            pc: START_ADDR,
            ram: fresh_ram(),
            screen: filled_bools(SCREEN_SIZE, false),
            v_regs: filled_bytes(NUM_REGS, 0),
            i_reg: 0,
            stack: Vec::new(),
            keys: filled_bools(NUM_KEYS, false),
            dt: 0,
            st: 0,
            waiting: false,
        };
        proof {
            assert(c@.screen =~= blank_screen());
            assert(c@.v =~= initial_machine().v);
            assert(c@.keys =~= initial_machine().keys);
            assert(c@ =~= initial_machine());
        }
        c
    }

    /// Restore every component to its start state, the font included.
    pub fn reset(&mut self)
        ensures
            final(self)@ == initial_machine(),
            wf(final(self)@),
    {
        *self = Chip8::new();
    }

    /// Read-only view of the framebuffer, row-major.
    pub fn get_display(&self) -> (d: &[bool])
        ensures
            d@ == self@.screen,
    {
        self.screen.as_slice()
    }

    /// Set or release one key of the hexadecimal keypad.
    pub fn keypress(&mut self, idx: usize, pressed: bool) -> (r: Result<(), Chip8Error>)
        requires
            wf(old(self)@),
        ensures
            wf(final(self)@),
            match r {
                Ok(()) => idx < NUM_KEYS && final(self)@ == (MachineView {
                    keys: old(self)@.keys.update(idx as int, pressed),
                    ..old(self)@
                }),
                Err(e) => e == Chip8Error::InvalidKeyIndex && idx >= NUM_KEYS && final(self)@
                    == old(self)@,
            },
    {
        if idx >= NUM_KEYS {
            return Err(Chip8Error::InvalidKeyIndex);
        }
        self.keys.set(idx, pressed);
        Ok(())
    }

    /// Copy a ROM image into memory starting at `START_ADDR`.  An image
    /// longer than the memory past that address is rejected whole.
    pub fn load(&mut self, data: &[u8]) -> (r: Result<(), Chip8Error>)
        requires
            wf(old(self)@),
        ensures
            wf(final(self)@),
            match r {
                Ok(()) => data@.len() <= MAX_ROM_LEN && final(self)@ == rom_loaded(
                    old(self)@,
                    data@,
                ),
                Err(e) => e == Chip8Error::OutOfRangeRomLoad && data@.len() > MAX_ROM_LEN
                    && final(self)@ == old(self)@,
            },
    {
        if data.len() > MAX_ROM_LEN {
            return Err(Chip8Error::OutOfRangeRomLoad);
        }
        let start = START_ADDR as usize;
        let mut k: usize = 0;
        while k < data.len()
            invariant
                wf(old(self)@),
                wf(self@),
                start == 0x200,
                data@.len() <= MAX_ROM_LEN,
                k <= data@.len(),
                self@ == (MachineView { ram: self@.ram, ..old(self)@ }),
                forall|j: int|
                    0 <= j < RAM_SIZE ==> self@.ram[j] == if 0x200 <= j < 0x200 + k {
                        data@[j - 0x200]
                    } else {
                        old(self)@.ram[j]
                    },
            decreases data@.len() - k,
        {
            self.ram[start + k] = data[k];
            k += 1;
        }
        self.waiting = false;
        proof {
            assert(self@.ram =~= rom_loaded(old(self)@, data@).ram);
            assert(self@ =~= rom_loaded(old(self)@, data@));
        }
        Ok(())
    }

    /// Advance both timers by one external timer tick: each decrements when
    /// it is above zero and stays at zero otherwise.  Returns true exactly
    /// when this tick moved the sound timer from 1 to 0, the moment the
    /// frontend should sound its beep.
    pub fn tick_timer(&mut self) -> (beep: bool)
        ensures
            final(self)@ == (MachineView {
                dt: if old(self)@.dt > 0 {
                    (old(self)@.dt - 1) as u8
                } else {
                    0
                },
                st: if old(self)@.st > 0 {
                    (old(self)@.st - 1) as u8
                } else {
                    0
                },
                ..old(self)@
            }),
            beep == (old(self)@.st == 1),
    {
        if self.dt > 0 {
            self.dt = self.dt - 1;
        }
        let beep = self.st == 1;
        if self.st > 0 {
            self.st = self.st - 1;
        }
        beep
    }

    /// One general-purpose register.
    pub fn get_register(&self, idx: usize) -> (val: u8)
        requires
            wf(self@),
            idx < NUM_REGS,
        ensures
            val == self@.v[idx as int],
    {
        self.v_regs[idx]
    }

    /// The program counter.
    pub fn get_pc(&self) -> (pc: u16)
        ensures
            pc == self@.pc,
    {
        self.pc
    }

    /// The index register.
    pub fn get_index_register(&self) -> (i: u16)
        ensures
            i == self@.i,
    {
        self.i_reg
    }

    /// The delay timer.
    pub fn get_delay_timer(&self) -> (dt: u8)
        ensures
            dt == self@.dt,
    {
        self.dt
    }

    /// The sound timer.
    pub fn get_sound_timer(&self) -> (st: u8)
        ensures
            st == self@.st,
    {
        self.st
    }

    /// How many return addresses the call stack holds.
    pub fn stack_depth(&self) -> (depth: usize)
        ensures
            depth == self@.stack.len(),
    {
        self.stack.len()
    }

    /// Whether the last executed instruction was an unsatisfied
    /// wait-for-key, so the machine sits blocked on input.
    pub fn is_waiting_for_key(&self) -> (w: bool)
        ensures
            w == self@.waiting,
    {
        self.waiting
    }

    /// One byte of memory.
    pub fn read_memory(&self, addr: usize) -> (b: u8)
        requires
            wf(self@),
            addr < RAM_SIZE,
        ensures
            b == self@.ram[addr as int],
    {
        self.ram[addr]
    }

    /// Push a return address, refusing once the stack is full.
    fn push(&mut self, val: u16) -> (r: Result<(), Chip8Error>)
        requires
            wf(old(self)@),
        ensures
            wf(final(self)@),
            match r {
                Ok(()) => old(self)@.stack.len() < STACK_SIZE && final(self)@ == (MachineView {
                    stack: old(self)@.stack.push(val),
                    ..old(self)@
                }),
                Err(e) => e == Chip8Error::StackOverflow && old(self)@.stack.len() == STACK_SIZE
                    && final(self)@ == old(self)@,
            },
    {
        if self.stack.len() >= STACK_SIZE {
            return Err(Chip8Error::StackOverflow);
        }
        self.stack.push(val);
        Ok(())
    }

    /// Pop the youngest return address, refusing when the stack is empty.
    fn pop(&mut self) -> (r: Result<u16, Chip8Error>)
        requires
            wf(old(self)@),
        ensures
            wf(final(self)@),
            match r {
                Ok(val) => old(self)@.stack.len() > 0 && val == old(self)@.stack.last()
                    && final(self)@ == (MachineView {
                    stack: old(self)@.stack.drop_last(),
                    ..old(self)@
                }),
                Err(e) => e == Chip8Error::StackUnderflow && old(self)@.stack.len() == 0
                    && final(self)@ == old(self)@,
            },
    {
        match self.stack.pop() {
            Some(val) => {
                proof {
                    assert(self@.stack =~= old(self)@.stack.drop_last());
                }
                Ok(val)
            },
            None => Err(Chip8Error::StackUnderflow),
        }
    }

    /// Read the two instruction bytes at the program counter and advance it
    /// past them; reading past the end of memory is refused.
    fn fetch(&mut self) -> (r: Result<u16, Chip8Error>)
        requires
            wf(old(self)@),
        ensures
            wf(final(self)@),
            match r {
                Ok(op) => old(self)@.pc + 1 < RAM_SIZE && op == fetch_word(
                    old(self)@.ram,
                    old(self)@.pc,
                ) && final(self)@ == (MachineView {
                    pc: (old(self)@.pc + 2) as u16,
                    ..old(self)@
                }),
                Err(e) => e == Chip8Error::MemoryOutOfBounds && old(self)@.pc + 1 >= RAM_SIZE
                    && final(self)@ == old(self)@,
            },
    {
        let pc = self.pc as usize;
        if pc + 1 >= RAM_SIZE {
            return Err(Chip8Error::MemoryOutOfBounds);
        }
        let hb = self.ram[pc] as u16;
        let lb = self.ram[pc + 1] as u16;
        self.pc = self.pc + 2;
        Ok(hb * 256 + lb)
    }

    /// Draw the `n`-row sprite at the index register, at the coordinates
    /// held in registers `x` and `y`; the flag register reports collisions.
    fn exec_draw(&mut self, x: usize, y: usize, n: u16) -> (r: Result<(), Chip8Error>)
        requires
            wf(old(self)@),
            x < NUM_REGS,
            y < NUM_REGS,
            n < 16,
        ensures
            wf(final(self)@),
            match r {
                Ok(()) => ({
                    let m = old(self)@;
                    let x0 = m.v[x as int];
                    let y0 = m.v[y as int];
                    &&& !(n > 0 && m.i + n - 1 >= RAM_SIZE)
                    &&& final(self)@ == (MachineView {
                        screen: draw_screen_spec(m.screen, m.ram, m.i, x0, y0, n),
                        v: m.v.update(
                            15,
                            if draw_collision(m.screen, m.ram, m.i, x0, y0, n) {
                                1u8
                            } else {
                                0u8
                            },
                        ),
                        waiting: false,
                        ..m
                    })
                }),
                Err(e) => e == Chip8Error::MemoryOutOfBounds && n > 0 && old(self)@.i + n - 1
                    >= RAM_SIZE && final(self)@ == old(self)@,
            },
    {
        if n > 0 && self.i_reg as usize + n as usize - 1 >= RAM_SIZE {
            return Err(Chip8Error::MemoryOutOfBounds);
        }
        let x0 = self.v_regs[x];
        let y0 = self.v_regs[y];
        let i0 = self.i_reg;
        let ghost m0 = self@;
        let mut flipped = false;
        let mut y_line: u16 = 0;
        while y_line < n
            invariant
                wf(self@),
                x0 == m0.v[x as int],
                y0 == m0.v[y as int],
                i0 == m0.i,
                x < NUM_REGS,
                n < 16,
                y_line <= n,
                n > 0 ==> m0.i + n - 1 < RAM_SIZE,
                m0.screen.len() == SCREEN_SIZE,
                m0.ram.len() == RAM_SIZE,
                self@ == (MachineView { screen: self@.screen, ..m0 }),
                self@.screen.len() == SCREEN_SIZE,
                forall|idx: int|
                    0 <= idx < SCREEN_SIZE ==> self@.screen[idx] == (m0.screen[idx]
                        != sprite_toggles_before(m0.ram, i0, x0, y0, n, idx, y_line, 0)),
                flipped == exists|idx: int|
                    0 <= idx < SCREEN_SIZE && sprite_toggles_before(
                        m0.ram,
                        i0,
                        x0,
                        y0,
                        n,
                        idx,
                        y_line,
                        0,
                    ) && m0.screen[idx],
            decreases n - y_line,
        {
            let pixels = self.ram[(i0 + y_line) as usize];
            let mut x_line: u8 = 0;
            while x_line < 8
                invariant
                    wf(self@),
                    x0 == m0.v[x as int],
                    y0 == m0.v[y as int],
                    i0 == m0.i,
                    x < NUM_REGS,
                    n < 16,
                    y_line < n,
                    x_line <= 8,
                    n > 0 ==> m0.i + n - 1 < RAM_SIZE,
                    m0.screen.len() == SCREEN_SIZE,
                    m0.ram.len() == RAM_SIZE,
                    pixels == m0.ram[i0 + y_line],
                    self@ == (MachineView { screen: self@.screen, ..m0 }),
                    self@.screen.len() == SCREEN_SIZE,
                    forall|idx: int|
                        0 <= idx < SCREEN_SIZE ==> self@.screen[idx] == (m0.screen[idx]
                            != sprite_toggles_before(m0.ram, i0, x0, y0, n, idx, y_line, x_line)),
                    flipped == exists|idx: int|
                        0 <= idx < SCREEN_SIZE && sprite_toggles_before(
                            m0.ram,
                            i0,
                            x0,
                            y0,
                            n,
                            idx,
                            y_line,
                            x_line,
                        ) && m0.screen[idx],
                decreases 8 - x_line,
            {
                if pixels & (0x80u8 >> x_line) != 0 {
                    proof {
                        lemma_draw_bit_set(
                            m0.screen,
                            m0.ram,
                            i0,
                            x0,
                            y0,
                            n,
                            y_line,
                            x_line,
                            self@.screen,
                            flipped,
                        );
                    }
                    let px = ((x0 as u16 + x_line as u16) % 64) as usize;
                    let py = ((y0 as u16 + y_line) % 32) as usize;
                    let idx = px + SCREEN_WIDTH * py;
                    proof {
                        assert(idx == pix_index(x0, y0, y_line as u8, x_line));
                    }
                    let cell = self.screen[idx];
                    if cell {
                        flipped = true;
                    }
                    self.screen[idx] = !cell;
                } else {
                    proof {
                        lemma_draw_bit_clear(m0.ram, i0, x0, y0, n, y_line, x_line);
                        assert forall|idx: int| 0 <= idx < SCREEN_SIZE implies self@.screen[idx]
                            == (m0.screen[idx] != sprite_toggles_before(
                            m0.ram,
                            i0,
                            x0,
                            y0,
                            n,
                            idx,
                            y_line,
                            (x_line + 1) as u8,
                        )) by {}
                    }
                }
                x_line += 1;
            }
            proof {
                assert forall|idx: int| 0 <= idx < SCREEN_SIZE implies sprite_toggles_before(
                    m0.ram,
                    i0,
                    x0,
                    y0,
                    n,
                    idx,
                    y_line,
                    8,
                ) == sprite_toggles_before(
                    m0.ram,
                    i0,
                    x0,
                    y0,
                    n,
                    idx,
                    (y_line + 1) as u16,
                    0,
                ) by {
                    lemma_toggles_row_end(m0.ram, i0, x0, y0, n, idx, y_line);
                }
            }
            y_line += 1;
        }
        proof {
            assert forall|idx: int| 0 <= idx < SCREEN_SIZE implies sprite_toggles_before(
                m0.ram,
                i0,
                x0,
                y0,
                n,
                idx,
                n,
                0,
            ) == sprite_toggles(m0.ram, i0, x0, y0, n, idx) by {
                lemma_toggles_full(m0.ram, i0, x0, y0, n, idx);
            }
            assert(self@.screen =~= draw_screen_spec(m0.screen, m0.ram, i0, x0, y0, n));
            assert(flipped == draw_collision(m0.screen, m0.ram, i0, x0, y0, n));
        }
        let vf: u8 = if flipped {
            1
        } else {
            0
        };
        self.v_regs[15] = vf;
        self.waiting = false;
        Ok(())
    }

    /// The register-to-register group: copies, bitwise operations, wrapped
    /// sums and differences with their flags, and the two shifts.
    fn exec_alu(&mut self, op: u16) -> (r: Result<(), Chip8Error>)
        requires
            wf(old(self)@),
        ensures
            wf(final(self)@),
            match r {
                Ok(()) => alu_result(old(self)@, op) == Ok::<MachineView, Chip8Error>(
                    final(self)@,
                ),
                Err(e) => final(self)@ == old(self)@ && alu_result(old(self)@, op) == Err::<
                    MachineView,
                    Chip8Error,
                >(e),
            },
    {
        proof {
            lemma_op_fields(op);
        }
        let x = ((op >> 8) & 0xF) as usize;
        let y = ((op >> 4) & 0xF) as usize;
        let n = op & 0xF;
        let vx = self.v_regs[x];
        let vy = self.v_regs[y];
        if n == 0 {
            self.v_regs[x] = vy;
        } else if n == 1 {
            self.v_regs[x] = vx | vy;
        } else if n == 2 {
            self.v_regs[x] = vx & vy;
        } else if n == 3 {
            self.v_regs[x] = vx ^ vy;
        } else if n == 4 {
            let sum = vx as u16 + vy as u16;
            let flag: u8 = if sum > 255 {
                1
            } else {
                0
            };
            self.v_regs[x] = if sum > 255 {
                (sum - 256) as u8
            } else {
                sum as u8
            };
            self.v_regs[15] = flag;
        } else if n == 5 {
            let flag: u8 = if vx >= vy {
                1
            } else {
                0
            };
            self.v_regs[x] = if vx >= vy {
                vx - vy
            } else {
                (vx as u16 + 256 - vy as u16) as u8
            };
            self.v_regs[15] = flag;
        } else if n == 6 {
            let flag: u8 = vx % 2;
            self.v_regs[x] = vx / 2;
            self.v_regs[15] = flag;
        } else if n == 7 {
            let flag: u8 = if vy >= vx {
                1
            } else {
                0
            };
            self.v_regs[x] = if vy >= vx {
                vy - vx
            } else {
                (vy as u16 + 256 - vx as u16) as u8
            };
            self.v_regs[15] = flag;
        } else if n == 0xE {
            let flag: u8 = vx / 128;
            self.v_regs[x] = (vx % 128) * 2;
            self.v_regs[15] = flag;
        } else {
            return Err(Chip8Error::UnimplementedOpcode(op));
        }
        self.waiting = false;
        Ok(())
    }

    /// The timer, key, memory and register-transfer group.
    fn exec_misc(&mut self, op: u16) -> (r: Result<(), Chip8Error>)
        requires
            wf(old(self)@),
            2 <= old(self)@.pc <= 4096,
        ensures
            wf(final(self)@),
            match r {
                Ok(()) => misc_result(old(self)@, op) == Ok::<MachineView, Chip8Error>(
                    final(self)@,
                ),
                Err(e) => final(self)@ == old(self)@ && misc_result(old(self)@, op) == Err::<
                    MachineView,
                    Chip8Error,
                >(e),
            },
    {
        proof {
            lemma_op_fields(op);
        }
        let x = ((op >> 8) & 0xF) as usize;
        let nn = (op & 0xFF) as u8;
        let vx = self.v_regs[x];
        if nn == 0x07 {
            self.v_regs[x] = self.dt;
            self.waiting = false;
            Ok(())
        } else if nn == 0x0A {
            let mut k: usize = 0;
            while k < NUM_KEYS && !self.keys[k]
                invariant
                    wf(self@),
                    self@ == old(self)@,
                    k <= NUM_KEYS,
                    forall|j: int| 0 <= j < k ==> !self@.keys[j],
                decreases NUM_KEYS - k,
            {
                k += 1;
            }
            proof {
                lemma_first_key_prefix(self@.keys, k as int);
            }
            if k < NUM_KEYS {
                self.v_regs[x] = k as u8;
                self.waiting = false;
            } else {
                self.pc = self.pc - 2;
                self.waiting = true;
            }
            Ok(())
        } else if nn == 0x15 {
            self.dt = vx;
            self.waiting = false;
            Ok(())
        } else if nn == 0x18 {
            self.st = vx;
            self.waiting = false;
            Ok(())
        } else if nn == 0x1E {
            let sum: u32 = self.i_reg as u32 + vx as u32;
            self.i_reg = if sum > 65535 {
                (sum - 65536) as u16
            } else {
                sum as u16
            };
            self.waiting = false;
            Ok(())
        } else if nn == 0x29 {
            self.i_reg = ((vx % 16) as u16) * 5;
            self.waiting = false;
            Ok(())
        } else if nn == 0x33 {
            if self.i_reg as usize + 2 >= RAM_SIZE {
                return Err(Chip8Error::MemoryOutOfBounds);
            }
            let i = self.i_reg as usize;
            self.ram[i] = vx / 100;
            self.ram[i + 1] = (vx / 10) % 10;
            self.ram[i + 2] = vx % 10;
            self.waiting = false;
            Ok(())
        } else if nn == 0x55 {
            if self.i_reg as usize + x >= RAM_SIZE {
                return Err(Chip8Error::MemoryOutOfBounds);
            }
            let i = self.i_reg as usize;
            let mut idx: usize = 0;
            while idx <= x
                invariant
                    wf(self@),
                    x < NUM_REGS,
                    idx <= x + 1,
                    i == old(self)@.i,
                    i + x < RAM_SIZE,
                    self@ == (MachineView { ram: self@.ram, ..old(self)@ }),
                    self@.ram.len() == RAM_SIZE,
                    forall|j: int|
                        0 <= j < RAM_SIZE ==> self@.ram[j] == if i <= j < i + idx {
                            old(self)@.v[j - i]
                        } else {
                            old(self)@.ram[j]
                        },
                decreases x + 1 - idx,
            {
                self.ram[i + idx] = self.v_regs[idx];
                idx += 1;
            }
            self.waiting = false;
            proof {
                let m = old(self)@;
                assert(self@.ram =~= Seq::new(
                    m.ram.len(),
                    |j: int|
                        if m.i <= j <= m.i + op_x(op) {
                            m.v[j - m.i]
                        } else {
                            m.ram[j]
                        },
                ));
            }
            Ok(())
        } else if nn == 0x65 {
            if self.i_reg as usize + x >= RAM_SIZE {
                return Err(Chip8Error::MemoryOutOfBounds);
            }
            let i = self.i_reg as usize;
            let mut idx: usize = 0;
            while idx <= x
                invariant
                    wf(self@),
                    x < NUM_REGS,
                    idx <= x + 1,
                    i == old(self)@.i,
                    i + x < RAM_SIZE,
                    self@ == (MachineView { v: self@.v, ..old(self)@ }),
                    self@.v.len() == NUM_REGS,
                    forall|j: int|
                        0 <= j < NUM_REGS ==> self@.v[j] == if 0 <= j < idx {
                            old(self)@.ram[i + j]
                        } else {
                            old(self)@.v[j]
                        },
                decreases x + 1 - idx,
            {
                self.v_regs[idx] = self.ram[i + idx];
                idx += 1;
            }
            self.waiting = false;
            proof {
                let m = old(self)@;
                assert(self@.v =~= Seq::new(
                    m.v.len(),
                    |j: int|
                        if 0 <= j <= op_x(op) {
                            m.ram[m.i + j]
                        } else {
                            m.v[j]
                        },
                ));
            }
            Ok(())
        } else {
            Err(Chip8Error::UnimplementedOpcode(op))
        }
    }

    /// Decode `op` by its nibbles and execute the matching operation.  `rnd`
    /// feeds the randomize operation.  An error leaves the machine as it
    /// stood when `op` was decoded.
    fn execute(&mut self, op: u16, rnd: u8) -> (r: Result<(), Chip8Error>)
        requires
            wf(old(self)@),
            2 <= old(self)@.pc <= 4096,
        ensures
            wf(final(self)@),
            match r {
                Ok(()) => op_result(old(self)@, op, rnd) == Ok::<MachineView, Chip8Error>(
                    final(self)@,
                ),
                Err(e) => final(self)@ == old(self)@ && op_result(old(self)@, op, rnd) == Err::<
                    MachineView,
                    Chip8Error,
                >(e),
            },
    {
        proof {
            lemma_op_fields(op);
        }
        let hi = (op >> 12) & 0xF;
        let x = ((op >> 8) & 0xF) as usize;
        let y = ((op >> 4) & 0xF) as usize;
        let n = op & 0xF;
        let nn = (op & 0xFF) as u8;
        let nnn = op & 0xFFF;
        if hi == 0 {
            if op == 0x0000 {
                self.waiting = false;
                Ok(())
            } else if op == 0x00E0 {
                self.screen = filled_bools(SCREEN_SIZE, false);
                self.waiting = false;
                proof {
                    assert(self@.screen =~= blank_screen());
                }
                Ok(())
            } else if op == 0x00EE {
                let ret = match self.pop() {
                    Ok(val) => val,
                    Err(e) => {
                        return Err(e);
                    },
                };
                self.pc = ret;
                self.waiting = false;
                Ok(())
            } else {
                Err(Chip8Error::UnimplementedOpcode(op))
            }
        } else if hi == 1 {
            self.pc = nnn;
            self.waiting = false;
            Ok(())
        } else if hi == 2 {
            let here = self.pc;
            match self.push(here) {
                Ok(()) => {},
                Err(e) => {
                    return Err(e);
                },
            }
            self.pc = nnn;
            self.waiting = false;
            Ok(())
        } else if hi == 3 {
            if self.v_regs[x] == nn {
                self.pc = self.pc + 2;
            }
            self.waiting = false;
            Ok(())
        } else if hi == 4 {
            if self.v_regs[x] != nn {
                self.pc = self.pc + 2;
            }
            self.waiting = false;
            Ok(())
        } else if hi == 5 {
            if n == 0 {
                if self.v_regs[x] == self.v_regs[y] {
                    self.pc = self.pc + 2;
                }
                self.waiting = false;
                Ok(())
            } else {
                Err(Chip8Error::UnimplementedOpcode(op))
            }
        } else if hi == 6 {
            self.v_regs[x] = nn;
            self.waiting = false;
            Ok(())
        } else if hi == 7 {
            let vx = self.v_regs[x];
            let sum = vx as u16 + nn as u16;
            self.v_regs[x] = if sum > 255 {
                (sum - 256) as u8
            } else {
                sum as u8
            };
            self.waiting = false;
            Ok(())
        } else if hi == 8 {
            self.exec_alu(op)
        } else if hi == 9 {
            if n == 0 {
                if self.v_regs[x] != self.v_regs[y] {
                    self.pc = self.pc + 2;
                }
                self.waiting = false;
                Ok(())
            } else {
                Err(Chip8Error::UnimplementedOpcode(op))
            }
        } else if hi == 0xA {
            self.i_reg = nnn;
            self.waiting = false;
            Ok(())
        } else if hi == 0xB {
            self.pc = self.v_regs[0] as u16 + nnn;
            self.waiting = false;
            Ok(())
        } else if hi == 0xC {
            self.v_regs[x] = rnd & nn;
            self.waiting = false;
            Ok(())
        } else if hi == 0xD {
            self.exec_draw(x, y, n)
        } else if hi == 0xE {
            if nn == 0x9E || nn == 0xA1 {
                let vx = self.v_regs[x];
                if vx >= 16 {
                    return Err(Chip8Error::InvalidKeyIndex);
                }
                let pressed = self.keys[vx as usize];
                let cond = if nn == 0x9E {
                    pressed
                } else {
                    !pressed
                };
                if cond {
                    self.pc = self.pc + 2;
                }
                self.waiting = false;
                Ok(())
            } else {
                Err(Chip8Error::UnimplementedOpcode(op))
            }
        } else {
            self.exec_misc(op)
        }
    }

    /// Execute exactly one instruction, drawing any randomness from `rnd`:
    /// with the entropy fixed, the tick is a function of the machine state.
    pub fn tick_with_entropy(&mut self, rnd: u8) -> (r: Result<(), Chip8Error>)
        requires
            wf(old(self)@),
        ensures
            wf(final(self)@),
            match r {
                Ok(()) => step(old(self)@, rnd) == Ok::<MachineView, Chip8Error>(final(self)@),
                Err(e) => final(self)@ == old(self)@ && step(old(self)@, rnd) == Err::<
                    MachineView,
                    Chip8Error,
                >(e),
            },
    {
        let op = match self.fetch() {
            Ok(op) => op,
            Err(e) => {
                return Err(e);
            },
        };
        match self.execute(op, rnd) {
            Ok(()) => Ok(()),
            Err(e) => {
                self.pc = self.pc - 2;
                proof {
                    assert(self@ =~= old(self)@);
                }
                Err(e)
            },
        }
    }

    /// Execute exactly one instruction, letting the machine's own entropy
    /// source feed the randomize operation.
    pub fn tick(&mut self) -> (r: Result<(), Chip8Error>)
        requires
            wf(old(self)@),
        ensures
            wf(final(self)@),
            match r {
                Ok(()) => exists|rnd: u8|
                    step(old(self)@, rnd) == Ok::<MachineView, Chip8Error>(final(self)@),
                Err(e) => final(self)@ == old(self)@ && exists|rnd: u8|
                    step(old(self)@, rnd) == Err::<MachineView, Chip8Error>(e),
            },
    {
        let rnd = random_byte();
        self.tick_with_entropy(rnd)
    }
}

/// Relies on rand::random: the thread-local generator yields one byte.
/// Nothing is assumed of the value.
#[verifier::external_body]
fn random_byte() -> u8 {
    rand::random::<u8>()
}

/// Bounds of the nibble and byte fields of an instruction word.
proof fn lemma_op_fields(op: u16)
    by (bit_vector)
    ensures
        (op >> 12) & 0xF < 16,
        (op >> 8) & 0xF < 16,
        (op >> 4) & 0xF < 16,
        op & 0xF < 16,
        op & 0xFF < 256,
        op & 0xFFF < 4096,
{
}

} // verus!
