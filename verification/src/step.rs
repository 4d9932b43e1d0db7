//! The instruction semantics: one spec function per opcode family, and
//! `spec_step`, the transition that one `cycle()` call performs.

use vstd::prelude::*;
use vstd::wrapping::u16_specs;
use vstd::wrapping::u8_specs;

use crate::state::CpuError;
use crate::state::CpuView;
use crate::state::MEM_SIZE;
use crate::state::PROGRAM_START;
use crate::state::NUM_KEYS;
use crate::state::SCREEN_CELLS;
use crate::state::STACK_DEPTH;
use crate::state::fam_of;
use crate::state::n_of;
use crate::state::nn_of;
use crate::state::nnn_of;
use crate::state::x_of;
use crate::state::y_of;

verus! {

/// How many image bytes a load copies: the whole image, or as much of it
/// as fits between 0x200 and the end of memory.
pub open spec fn copy_len(img: Seq<u8>) -> int {
    if img.len() <= MEM_SIZE - PROGRAM_START {
        img.len() as int
    } else {
        MEM_SIZE - PROGRAM_START
    }
}

/// The machine after a program image is copied in at 0x200, silently
/// truncated to the remaining space.
pub open spec fn load_image(s: CpuView, img: Seq<u8>) -> CpuView {
    CpuView {
        memory: Seq::new(
            MEM_SIZE as nat,
            |k: int|
                if PROGRAM_START <= k < PROGRAM_START + copy_len(img) {
                    img[k - PROGRAM_START]
                } else {
                    s.memory[k]
                },
        ),
        ..s
    }
}

/// The machine after one timer tick: each timer that is positive goes down
/// by one; a timer at zero stays at zero.
pub open spec fn tick_timers(s: CpuView) -> CpuView {
    CpuView {
        delay_timer: if s.delay_timer > 0 {
            (s.delay_timer - 1) as u8
        } else {
            0u8
        },
        sound_timer: if s.sound_timer > 0 {
            (s.sound_timer - 1) as u8
        } else {
            0u8
        },
        ..s
    }
}

/// The instruction word fetched at the program counter: two consecutive
/// bytes, big-endian.
pub open spec fn spec_opcode(s: CpuView) -> u16 {
    (s.memory[s.pc] as int * 256 + s.memory[s.pc + 1] as int) as u16
}

/// One cycle: fetch the instruction at the program counter and execute it.
/// `rnd` is the byte the random source hands the CXNN instruction; every
/// other instruction ignores it.
pub open spec fn spec_step(s: CpuView, rnd: u8) -> Result<CpuView, CpuError> {
    if s.pc + 2 > MEM_SIZE {
        Err(CpuError::FetchOutOfBounds)
    } else {
        spec_dispatch(s, spec_opcode(s), rnd)
    }
}

/// Dispatch on the top nibble of the instruction word.
pub open spec fn spec_dispatch(s: CpuView, op: u16, rnd: u8) -> Result<CpuView, CpuError> {
    let fam = fam_of(op);
    if fam == 0x0 {
        step_0xxx(s, op)
    } else if fam == 0x1 {
        Ok(step_1xxx(s, op))
    } else if fam == 0x2 {
        step_2xxx(s, op)
    } else if fam == 0x3 {
        Ok(step_3xxx(s, op))
    } else if fam == 0x4 {
        Ok(step_4xxx(s, op))
    } else if fam == 0x5 {
        Ok(step_5xxx(s, op))
    } else if fam == 0x6 {
        Ok(step_6xxx(s, op))
    } else if fam == 0x7 {
        Ok(step_7xxx(s, op))
    } else if fam == 0x8 {
        step_8xxx(s, op)
    } else if fam == 0x9 {
        Ok(step_9xxx(s, op))
    } else if fam == 0xA {
        Ok(step_axxx(s, op))
    } else if fam == 0xB {
        Ok(step_bxxx(s, op))
    } else if fam == 0xC {
        Ok(step_cxxx(s, op, rnd))
    } else if fam == 0xD {
        step_dxxx(s, op)
    } else if fam == 0xE {
        step_exxx(s, op)
    } else {
        step_fxxx(s, op)
    }
}

/// 00E0 clears the framebuffer; 00EE pops a return address into the
/// program counter.  Anything else in this family is unknown.
pub open spec fn step_0xxx(s: CpuView, op: u16) -> Result<CpuView, CpuError> {
    if nn_of(op) == 0xE0 {
        Ok(CpuView { screen: Seq::new(SCREEN_CELLS as nat, |p: int| 0u8), pc: s.pc + 2, ..s })
    } else if nn_of(op) == 0xEE {
        if s.sp == 0 {
            Err(CpuError::StackUnderflow)
        } else {
            Ok(CpuView { sp: s.sp - 1, pc: s.stack[s.sp - 1] as int + 2, ..s })
        }
    } else {
        Err(CpuError::UnknownOpcode)
    }
}

/// 1NNN: unconditional jump.
pub open spec fn step_1xxx(s: CpuView, op: u16) -> CpuView {
    CpuView { pc: nnn_of(op), ..s }
}

/// 2NNN: push the current program counter, jump to NNN.
pub open spec fn step_2xxx(s: CpuView, op: u16) -> Result<CpuView, CpuError> {
    if s.sp == STACK_DEPTH {
        Err(CpuError::StackOverflow)
    } else {
        Ok(CpuView {
            stack: s.stack.update(s.sp, s.pc as u16),
            sp: s.sp + 1,
            pc: nnn_of(op),
            ..s
        })
    }
}

/// 3XNN: skip the next instruction if V[X] equals NN.
pub open spec fn step_3xxx(s: CpuView, op: u16) -> CpuView {
    CpuView { pc: s.pc + (if s.v[x_of(op)] as int == nn_of(op) { 4int } else { 2int }), ..s }
}

/// 4XNN: skip the next instruction if V[X] differs from NN.
pub open spec fn step_4xxx(s: CpuView, op: u16) -> CpuView {
    CpuView { pc: s.pc + (if s.v[x_of(op)] as int != nn_of(op) { 4int } else { 2int }), ..s }
}

/// 5XY0: skip the next instruction if V[X] equals V[Y].
pub open spec fn step_5xxx(s: CpuView, op: u16) -> CpuView {
    CpuView { pc: s.pc + (if s.v[x_of(op)] == s.v[y_of(op)] { 4int } else { 2int }), ..s }
}

/// 6XNN: set V[X] to NN.
pub open spec fn step_6xxx(s: CpuView, op: u16) -> CpuView {
    CpuView { v: s.v.update(x_of(op), nn_of(op) as u8), pc: s.pc + 2, ..s }
}

/// 7XNN: add NN to V[X], wrapping, no flag.
pub open spec fn step_7xxx(s: CpuView, op: u16) -> CpuView {
    CpuView {
        v: s.v.update(x_of(op), u8_specs::wrapping_add(s.v[x_of(op)], nn_of(op) as u8)),
        pc: s.pc + 2,
        ..s
    }
}

/// The arithmetic/logic family.  The flag register VF is written after the
/// result for 8XY4 and before it for 8XY5/8XY7, exactly as the machine does,
/// so the X = F and Y = F corner cases fall out of the order of updates.
pub open spec fn step_8xxx(s: CpuView, op: u16) -> Result<CpuView, CpuError> {
    let x = x_of(op);
    let y = y_of(op);
    let k = n_of(op);
    if k == 0x0 {
        Ok(with_regs(s, s.v.update(x, s.v[y])))
    } else if k == 0x1 {
        Ok(with_regs(s, s.v.update(x, s.v[x] | s.v[y])))
    } else if k == 0x2 {
        Ok(with_regs(s, s.v.update(x, s.v[x] & s.v[y])))
    } else if k == 0x3 {
        Ok(with_regs(s, s.v.update(x, s.v[x] ^ s.v[y])))
    } else if k == 0x4 {
        let v1 = s.v.update(x, u8_specs::wrapping_add(s.v[x], s.v[y]));
        Ok(with_regs(s, v1.update(15, if v1[x] < v1[y] { 1u8 } else { 0u8 })))
    } else if k == 0x5 {
        let v1 = s.v.update(15, if s.v[y] > s.v[x] { 0u8 } else { 1u8 });
        Ok(with_regs(s, v1.update(x, u8_specs::wrapping_sub(v1[x], v1[y]))))
    } else if k == 0x6 {
        let v1 = s.v.update(15, s.v[x] & 1);
        Ok(with_regs(s, v1.update(x, v1[x] >> 1u8)))
    } else if k == 0x7 {
        let v1 = s.v.update(15, if s.v[x] > s.v[y] { 0u8 } else { 1u8 });
        Ok(with_regs(s, v1.update(x, u8_specs::wrapping_sub(v1[y], v1[x]))))
    } else if k == 0xE {
        let v1 = s.v.update(15, s.v[x] >> 7u8);
        Ok(with_regs(s, v1.update(x, v1[x] << 1u8)))
    } else {
        Err(CpuError::UnknownOpcode)
    }
}

/// A state with new register contents and the program counter advanced.
pub open spec fn with_regs(s: CpuView, v: Seq<u8>) -> CpuView {
    CpuView { v: v, pc: s.pc + 2, ..s }
}

/// 9XY0: skip the next instruction if V[X] differs from V[Y].
pub open spec fn step_9xxx(s: CpuView, op: u16) -> CpuView {
    CpuView { pc: s.pc + (if s.v[x_of(op)] != s.v[y_of(op)] { 4int } else { 2int }), ..s }
}

/// ANNN: set the index register to NNN.
pub open spec fn step_axxx(s: CpuView, op: u16) -> CpuView {
    CpuView { i: nnn_of(op), pc: s.pc + 2, ..s }
}

/// BNNN: jump to NNN plus V[0].
pub open spec fn step_bxxx(s: CpuView, op: u16) -> CpuView {
    CpuView { pc: nnn_of(op) + s.v[0], ..s }
}

/// CXNN: set V[X] to a random byte masked with NN.
pub open spec fn step_cxxx(s: CpuView, op: u16, rnd: u8) -> CpuView {
    CpuView { v: s.v.update(x_of(op), rnd & (nn_of(op) as u8)), pc: s.pc + 2, ..s }
}

/// Where sprite row `r` lands on the 32-row screen: rows wrap toroidally.
pub open spec fn wrap_row(y: u8, r: int) -> int {
    if (y as int % 32) + r < 32 {
        (y as int % 32) + r
    } else {
        (y as int % 32) + r - 32
    }
}

/// Where sprite column `c` lands on the 64-column screen.
pub open spec fn wrap_col(x: u8, c: int) -> int {
    if (x as int % 64) + c < 64 {
        (x as int % 64) + c
    } else {
        (x as int % 64) + c - 64
    }
}

/// The framebuffer cell that sprite bit (row `r`, column `c`) of a sprite
/// drawn at origin (`x`, `y`) lands on.
pub open spec fn cell_index(x: u8, y: u8, r: int, c: int) -> int {
    wrap_row(y, r) * 64 + wrap_col(x, c)
}

/// Whether bit `c` of a sprite row byte is set, counting from the most
/// significant bit.
pub open spec fn sprite_bit(b: u8, c: int) -> bool {
    b & (0x80u8 >> (c as u8)) != 0
}

/// Whether some set sprite bit lands on framebuffer cell `idx`.
pub open spec fn sprite_hits(spr: Seq<u8>, x: u8, y: u8, idx: int) -> bool {
    exists|r: int, c: int|
        0 <= r < spr.len() && 0 <= c < 8 && sprite_bit(spr[r], c) && #[trigger] cell_index(
            x,
            y,
            r,
            c,
        ) == idx
}

/// A pixel after an XOR with a set sprite bit.
pub open spec fn flip_cell(p: u8) -> u8 {
    if p == 0 {
        1u8
    } else {
        0u8
    }
}

/// The framebuffer after drawing a sprite at origin (`x`, `y`): every cell
/// a set sprite bit lands on is toggled, the rest are untouched.
pub open spec fn draw_screen(scr: Seq<u8>, spr: Seq<u8>, x: u8, y: u8) -> Seq<u8> {
    Seq::new(
        scr.len(),
        |idx: int|
            if sprite_hits(spr, x, y, idx) {
                flip_cell(scr[idx])
            } else {
                scr[idx]
            },
    )
}

/// Whether the draw turns some lit pixel off: a set sprite bit lands on a
/// cell that already holds 1.
pub open spec fn draw_collides(scr: Seq<u8>, spr: Seq<u8>, x: u8, y: u8) -> bool {
    exists|r: int, c: int|
        0 <= r < spr.len() && 0 <= c < 8 && sprite_bit(spr[r], c) && scr[#[trigger] cell_index(
            x,
            y,
            r,
            c,
        )] == 1
}

/// DXYN: draw the N-row sprite at memory[I..I+N] at origin (V[X], V[Y]),
/// setting VF to 1 exactly when a lit pixel is turned off.
pub open spec fn step_dxxx(s: CpuView, op: u16) -> Result<CpuView, CpuError> {
    let n = n_of(op);
    if s.i + n > MEM_SIZE {
        Err(CpuError::AddressOutOfBounds)
    } else {
        let spr = s.memory.subrange(s.i, s.i + n);
        let x = s.v[x_of(op)];
        let y = s.v[y_of(op)];
        Ok(CpuView {
            screen: draw_screen(s.screen, spr, x, y),
            v: s.v.update(15, if draw_collides(s.screen, spr, x, y) { 1u8 } else { 0u8 }),
            pc: s.pc + 2,
            ..s
        })
    }
}

/// EX9E and EXA1: skip on the state of the key whose index is in V[X].
pub open spec fn step_exxx(s: CpuView, op: u16) -> Result<CpuView, CpuError> {
    let nn = nn_of(op);
    let vx = s.v[x_of(op)] as int;
    if nn == 0x9E {
        if vx >= NUM_KEYS {
            Err(CpuError::KeyOutOfRange)
        } else {
            Ok(CpuView { pc: s.pc + (if s.key_state[vx] { 4int } else { 2int }), ..s })
        }
    } else if nn == 0xA1 {
        if vx >= NUM_KEYS {
            Err(CpuError::KeyOutOfRange)
        } else {
            Ok(CpuView { pc: s.pc + (if !s.key_state[vx] { 4int } else { 2int }), ..s })
        }
    } else {
        Err(CpuError::UnknownOpcode)
    }
}

/// The smallest key index at or after `j` that is pressed now but was not
/// pressed in the snapshot; 16 if there is none.
pub open spec fn first_edge(prev: Seq<bool>, keys: Seq<bool>, j: int) -> int
    decreases 16 - j,
{
    if j < 0 || j >= 16 {
        16
    } else if !prev[j] && keys[j] {
        j
    } else {
        first_edge(prev, keys, j + 1)
    }
}

/// FX0A, the blocking key wait.  On first entry the machine snapshots the
/// key state and blocks without advancing the program counter.  While
/// blocked, the first key that turned from unpressed-in-snapshot to pressed
/// is written to V[X] and the machine resumes; the snapshot slots before
/// that key have already been refreshed when it is found.  With no such
/// edge the whole snapshot is refreshed and the machine stays blocked.
pub open spec fn step_wait_key(s: CpuView, op: u16) -> CpuView {
    if !s.waiting_for_key_press {
        CpuView { waiting_for_key_press: true, prev_key_state: s.key_state, ..s }
    } else {
        let j = first_edge(s.prev_key_state, s.key_state, 0);
        if j < 16 {
            CpuView {
                waiting_for_key_press: false,
                v: s.v.update(x_of(op), j as u8),
                prev_key_state: Seq::new(
                    NUM_KEYS as nat,
                    |k: int| if k < j { s.key_state[k] } else { s.prev_key_state[k] },
                ),
                pc: s.pc + 2,
                ..s
            }
        } else {
            CpuView { prev_key_state: s.key_state, ..s }
        }
    }
}

/// Memory after FX55: registers V[0..=X] copied in starting at address `i`.
pub open spec fn store_regs(m: Seq<u8>, v: Seq<u8>, i: int, x: int) -> Seq<u8> {
    Seq::new(m.len(), |k: int| if i <= k <= i + x { v[k - i] } else { m[k] })
}

/// Registers after FX65: V[0..=X] filled from memory starting at address `i`.
pub open spec fn load_regs(m: Seq<u8>, v: Seq<u8>, i: int, x: int) -> Seq<u8> {
    Seq::new(v.len(), |j: int| if j <= x { m[i + j] } else { v[j] })
}

/// The FX family: timers, the key wait, index-register arithmetic, the
/// font lookup, BCD, and the register save/restore pair.
pub open spec fn step_fxxx(s: CpuView, op: u16) -> Result<CpuView, CpuError> {
    let x = x_of(op);
    let nn = nn_of(op);
    if nn == 0x07 {
        Ok(CpuView { v: s.v.update(x, s.delay_timer), pc: s.pc + 2, ..s })
    } else if nn == 0x0A {
        Ok(step_wait_key(s, op))
    } else if nn == 0x15 {
        Ok(CpuView { delay_timer: s.v[x], pc: s.pc + 2, ..s })
    } else if nn == 0x18 {
        Ok(CpuView { sound_timer: s.v[x], pc: s.pc + 2, ..s })
    } else if nn == 0x1E {
        Ok(
            CpuView {
                i: u16_specs::wrapping_add(s.i as u16, s.v[x] as u16) as int,
                pc: s.pc + 2,
                ..s
            },
        )
    } else if nn == 0x29 {
        Ok(CpuView { i: s.v[x] as int * 5, pc: s.pc + 2, ..s })
    } else if nn == 0x33 {
        if s.i + 3 > MEM_SIZE {
            Err(CpuError::AddressOutOfBounds)
        } else {
            Ok(
                CpuView {
                    memory: s.memory.update(s.i, s.v[x] / 100).update(
                        s.i + 1,
                        (s.v[x] / 10) % 10,
                    ).update(s.i + 2, s.v[x] % 10),
                    pc: s.pc + 2,
                    ..s
                },
            )
        }
    } else if nn == 0x55 {
        if s.i + x + 1 > MEM_SIZE {
            Err(CpuError::AddressOutOfBounds)
        } else {
            Ok(
                CpuView {
                    memory: store_regs(s.memory, s.v, s.i, x),
                    i: s.i + x + 1,
                    pc: s.pc + 2,
                    ..s
                },
            )
        }
    } else if nn == 0x65 {
        if s.i + x + 1 > MEM_SIZE {
            Err(CpuError::AddressOutOfBounds)
        } else {
            Ok(
                CpuView {
                    v: load_regs(s.memory, s.v, s.i, x),
                    i: s.i + x + 1,
                    pc: s.pc + 2,
                    ..s
                },
            )
        }
    } else {
        Err(CpuError::UnknownOpcode)
    }
}

} // verus!
