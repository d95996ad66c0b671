//! The meaning of one instruction tick: fetching the two bytes at the
//! program counter and the effect of every operation on the machine view.

use vstd::prelude::*;

verus! {

use crate::draw::draw_collision;
use crate::draw::draw_screen_spec;
use crate::model::Chip8Error;
use crate::model::MachineView;
use crate::model::RAM_SIZE;
use crate::model::STACK_SIZE;
use crate::model::blank_screen;

/// High nibble of an instruction word: the primary discriminator.
pub open spec fn op_hi(op: u16) -> u16 {
    (op >> 12) & 0xF
}

/// Second nibble: the index of register VX.
pub open spec fn op_x(op: u16) -> u16 {
    (op >> 8) & 0xF
}

/// Third nibble: the index of register VY.
pub open spec fn op_y(op: u16) -> u16 {
    (op >> 4) & 0xF
}

/// Low nibble: sprite height, or a secondary discriminator.
pub open spec fn op_n(op: u16) -> u16 {
    op & 0xF
}

/// Low byte: an 8-bit immediate, or a secondary discriminator.
pub open spec fn op_nn(op: u16) -> u8 {
    (op & 0xFF) as u8
}

/// Low 12 bits: a memory or jump address.
pub open spec fn op_nnn(op: u16) -> u16 {
    op & 0xFFF
}

/// 8-bit addition that wraps modulo 256.
pub open spec fn wrap_add8(a: u8, b: u8) -> u8 {
    if a + b > 255 {
        (a + b - 256) as u8
    } else {
        (a + b) as u8
    }
}

/// 8-bit subtraction that wraps modulo 256.
pub open spec fn wrap_sub8(a: u8, b: u8) -> u8 {
    if a >= b {
        (a - b) as u8
    } else {
        (a + 256 - b) as u8
    }
}

/// 16-bit addition that wraps modulo 65536.
pub open spec fn wrap_add16(a: u16, b: u16) -> u16 {
    if a + b > 65535 {
        (a + b - 65536) as u16
    } else {
        (a + b) as u16
    }
}

/// The program counter after a conditional skip: two further bytes when the
/// condition holds.
pub open spec fn skip_if(pc: u16, cond: bool) -> u16
    recommends
        pc + 2 <= u16::MAX,
{
    if cond {
        (pc + 2) as u16
    } else {
        pc
    }
}

/// Lowest pressed key at or above `from`, if any.
pub open spec fn first_key(keys: Seq<bool>, from: int) -> Option<int>
    recommends
        0 <= from <= keys.len(),
    decreases keys.len() - from,
{
    if from < 0 || from >= keys.len() {
        None
    } else if keys[from] {
        Some(from)
    } else {
        first_key(keys, from + 1)
    }
}

/// Scanning from 0 may start at `k` when every key below `k` is released.
pub proof fn lemma_first_key_prefix(keys: Seq<bool>, k: int)
    requires
        0 <= k <= keys.len(),
        forall|j: int| 0 <= j < k ==> !keys[j],
    ensures
        first_key(keys, 0) == first_key(keys, k),
    decreases k,
{
    if k > 0 {
        lemma_first_key_prefix(keys, k - 1);
    }
}

/// The big-endian instruction word whose first byte sits at `pc`.
pub open spec fn fetch_word(ram: Seq<u8>, pc: u16) -> u16
    recommends
        pc + 1 < ram.len(),
{
    (ram[pc as int] * 256 + ram[pc as int + 1]) as u16
}

/// Effect of the operation `op` on machine `m`, whose program counter has
/// already been advanced past the instruction.  `rnd` is the byte an entropy
/// source supplied; only the randomize operation reads it.  An error leaves
/// the machine exactly as it was before the tick that decoded `op`.
pub open spec fn op_result(m: MachineView, op: u16, rnd: u8) -> Result<
    MachineView,
    Chip8Error,
>
    recommends
        crate::model::wf(m),
        2 <= m.pc <= 4096,
{
    let hi = op_hi(op);
    let x = op_x(op) as int;
    let y = op_y(op) as int;
    let n = op_n(op);
    let nn = op_nn(op);
    let nnn = op_nnn(op);
    if hi == 0 {
        if op == 0x0000 {
            // no operation
            Ok(MachineView { waiting: false, ..m })
        } else if op == 0x00E0 {
            // clear screen
            Ok(MachineView { screen: blank_screen(), waiting: false, ..m })
        } else if op == 0x00EE {
            // return from subroutine
            if m.stack.len() == 0 {
                Err(Chip8Error::StackUnderflow)
            } else {
                Ok(
                    MachineView {
                        pc: m.stack.last(),
                        stack: m.stack.drop_last(),
                        waiting: false,
                        ..m
                    },
                )
            }
        } else {
            Err(Chip8Error::UnimplementedOpcode(op))
        }
    } else if hi == 1 {
        // jump
        Ok(MachineView { pc: nnn, waiting: false, ..m })
    } else if hi == 2 {
        // call subroutine
        if m.stack.len() >= STACK_SIZE {
            Err(Chip8Error::StackOverflow)
        } else {
            Ok(MachineView { pc: nnn, stack: m.stack.push(m.pc), waiting: false, ..m })
        }
    } else if hi == 3 {
        // skip when VX equals the immediate
        Ok(MachineView { pc: skip_if(m.pc, m.v[x] == nn), waiting: false, ..m })
    } else if hi == 4 {
        // skip when VX differs from the immediate
        Ok(MachineView { pc: skip_if(m.pc, m.v[x] != nn), waiting: false, ..m })
    } else if hi == 5 {
        if n == 0 {
            // skip when VX equals VY
            Ok(MachineView { pc: skip_if(m.pc, m.v[x] == m.v[y]), waiting: false, ..m })
        } else {
            Err(Chip8Error::UnimplementedOpcode(op))
        }
    } else if hi == 6 {
        // load immediate
        Ok(MachineView { v: m.v.update(x, nn), waiting: false, ..m })
    } else if hi == 7 {
        // add immediate, no flag
        Ok(MachineView { v: m.v.update(x, wrap_add8(m.v[x], nn)), waiting: false, ..m })
    } else if hi == 8 {
        alu_result(m, op)
    } else if hi == 9 {
        if n == 0 {
            // skip when VX differs from VY
            Ok(MachineView { pc: skip_if(m.pc, m.v[x] != m.v[y]), waiting: false, ..m })
        } else {
            Err(Chip8Error::UnimplementedOpcode(op))
        }
    } else if hi == 0xA {
        // load the index register
        Ok(MachineView { i: nnn, waiting: false, ..m })
    } else if hi == 0xB {
        // jump indexed by V0
        Ok(MachineView { pc: (m.v[0] + nnn) as u16, waiting: false, ..m })
    } else if hi == 0xC {
        // randomize: VX receives the entropy byte masked by the immediate
        Ok(MachineView { v: m.v.update(x, rnd & nn), waiting: false, ..m })
    } else if hi == 0xD {
        // draw sprite
        let x0 = m.v[x];
        let y0 = m.v[y];
        if n > 0 && m.i + n - 1 >= RAM_SIZE {
            Err(Chip8Error::MemoryOutOfBounds)
        } else {
            let collided = draw_collision(m.screen, m.ram, m.i, x0, y0, n);
            Ok(
                MachineView {
                    screen: draw_screen_spec(m.screen, m.ram, m.i, x0, y0, n),
                    v: m.v.update(15, if collided { 1u8 } else { 0u8 }),
                    waiting: false,
                    ..m
                },
            )
        }
    } else if hi == 0xE {
        if op_nn(op) == 0x9E || op_nn(op) == 0xA1 {
            // skip on key state, indexed by VX
            if m.v[x] >= 16 {
                Err(Chip8Error::InvalidKeyIndex)
            } else {
                let pressed = m.keys[m.v[x] as int];
                let cond = if op_nn(op) == 0x9E {
                    pressed
                } else {
                    !pressed
                };
                Ok(MachineView { pc: skip_if(m.pc, cond), waiting: false, ..m })
            }
        } else {
            Err(Chip8Error::UnimplementedOpcode(op))
        }
    } else {
        // hi == 0xF
        misc_result(m, op)
    }
}

/// The register-to-register group (high nibble 8), discriminated by the low
/// nibble.  The flag register is written after the target register, so it
/// wins when both are register 15.
pub open spec fn alu_result(m: MachineView, op: u16) -> Result<MachineView, Chip8Error>
    recommends
        crate::model::wf(m),
{
    let x = op_x(op) as int;
    let y = op_y(op) as int;
    let n = op_n(op);
    let vx = m.v[x];
    let vy = m.v[y];
    if n == 0 {
        // copy
        Ok(MachineView { v: m.v.update(x, vy), waiting: false, ..m })
    } else if n == 1 {
        // bitwise or
        Ok(MachineView { v: m.v.update(x, vx | vy), waiting: false, ..m })
    } else if n == 2 {
        // bitwise and
        Ok(MachineView { v: m.v.update(x, vx & vy), waiting: false, ..m })
    } else if n == 3 {
        // bitwise xor
        Ok(MachineView { v: m.v.update(x, vx ^ vy), waiting: false, ..m })
    } else if n == 4 {
        // add with carry flag
        let flag: u8 = if vx + vy > 255 {
            1
        } else {
            0
        };
        Ok(MachineView { v: m.v.update(x, wrap_add8(vx, vy)).update(15, flag), waiting: false, ..m })
    } else if n == 5 {
        // subtract with no-borrow flag
        let flag: u8 = if vx >= vy {
            1
        } else {
            0
        };
        Ok(MachineView { v: m.v.update(x, wrap_sub8(vx, vy)).update(15, flag), waiting: false, ..m })
    } else if n == 6 {
        // shift right, flag takes the shifted-out low bit
        let flag: u8 = (vx % 2) as u8;
        Ok(MachineView { v: m.v.update(x, (vx / 2) as u8).update(15, flag), waiting: false, ..m })
    } else if n == 7 {
        // reverse subtract with no-borrow flag
        let flag: u8 = if vy >= vx {
            1
        } else {
            0
        };
        Ok(MachineView { v: m.v.update(x, wrap_sub8(vy, vx)).update(15, flag), waiting: false, ..m })
    } else if n == 0xE {
        // shift left, flag takes the shifted-out high bit
        let flag: u8 = (vx / 128) as u8;
        Ok(
            MachineView {
                v: m.v.update(x, ((vx % 128) * 2) as u8).update(15, flag),
                waiting: false,
                ..m
            },
        )
    } else {
        Err(Chip8Error::UnimplementedOpcode(op))
    }
}

/// The timer, key, memory and register-transfer group (high nibble 0xF),
/// discriminated by the low byte.
pub open spec fn misc_result(m: MachineView, op: u16) -> Result<MachineView, Chip8Error>
    recommends
        crate::model::wf(m),
        2 <= m.pc <= 4096,
{
    let x = op_x(op) as int;
    let vx = m.v[x];
    let nn = op_nn(op);
    if nn == 0x07 {
        // read the delay timer
        Ok(MachineView { v: m.v.update(x, m.dt), waiting: false, ..m })
    } else if nn == 0x0A {
        // wait for a key: suspend by re-decoding until one is pressed
        match first_key(m.keys, 0) {
            Some(k) => Ok(MachineView { v: m.v.update(x, k as u8), waiting: false, ..m }),
            None => Ok(MachineView { pc: (m.pc - 2) as u16, waiting: true, ..m }),
        }
    } else if nn == 0x15 {
        // set the delay timer
        Ok(MachineView { dt: vx, waiting: false, ..m })
    } else if nn == 0x18 {
        // set the sound timer
        Ok(MachineView { st: vx, waiting: false, ..m })
    } else if nn == 0x1E {
        // add VX to the index register, wrapping
        Ok(MachineView { i: wrap_add16(m.i, vx as u16), waiting: false, ..m })
    } else if nn == 0x29 {
        // point the index register at the font glyph for the low nibble of VX
        Ok(MachineView { i: ((vx % 16) * 5) as u16, waiting: false, ..m })
    } else if nn == 0x33 {
        // store VX as three decimal digits
        if m.i + 2 >= RAM_SIZE {
            Err(Chip8Error::MemoryOutOfBounds)
        } else {
            let i = m.i as int;
            Ok(
                MachineView {
                    ram: m.ram.update(i, (vx / 100) as u8).update(
                        i + 1,
                        ((vx / 10) % 10) as u8,
                    ).update(i + 2, (vx % 10) as u8),
                    waiting: false,
                    ..m
                },
            )
        }
    } else if nn == 0x55 {
        // dump V0 through VX into memory at the index register
        if m.i + x >= RAM_SIZE {
            Err(Chip8Error::MemoryOutOfBounds)
        } else {
            Ok(
                MachineView {
                    ram: Seq::new(
                        m.ram.len(),
                        |j: int|
                            if m.i <= j <= m.i + x {
                                m.v[j - m.i]
                            } else {
                                m.ram[j]
                            },
                    ),
                    waiting: false,
                    ..m
                },
            )
        }
    } else if nn == 0x65 {
        // load V0 through VX from memory at the index register
        if m.i + x >= RAM_SIZE {
            Err(Chip8Error::MemoryOutOfBounds)
        } else {
            Ok(
                MachineView {
                    v: Seq::new(
                        m.v.len(),
                        |j: int|
                            if 0 <= j <= x {
                                m.ram[m.i + j]
                            } else {
                                m.v[j]
                            },
                    ),
                    waiting: false,
                    ..m
                },
            )
        }
    } else {
        Err(Chip8Error::UnimplementedOpcode(op))
    }
}

/// One whole instruction tick: fetch the word at the program counter,
/// advance the counter past it, then apply the operation.  Fetching past the
/// end of memory is an error and, like every error, leaves the machine
/// unchanged.
pub open spec fn step(m: MachineView, rnd: u8) -> Result<MachineView, Chip8Error>
    recommends
        crate::model::wf(m),
{
    if m.pc + 1 >= RAM_SIZE {
        Err(Chip8Error::MemoryOutOfBounds)
    } else {
        op_result(
            MachineView { pc: (m.pc + 2) as u16, ..m },
            fetch_word(m.ram, m.pc),
            rnd,
        )
    }
}

} // verus!
