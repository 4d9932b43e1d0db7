//! Laws that relate several instructions: proved here once and for all
//! states, over the same spec functions the instruction contracts use.

use vstd::prelude::*;
use vstd::arithmetic::div_mod::lemma_fundamental_div_mod;
use vstd::arithmetic::div_mod::lemma_fundamental_div_mod_converse_div;
use vstd::arithmetic::div_mod::lemma_fundamental_div_mod_converse_mod;
use vstd::arithmetic::div_mod::lemma_mod_multiples_vanish;
use vstd::arithmetic::div_mod::lemma_small_mod;
use vstd::wrapping::u8_specs;

use crate::state::CpuView;
use crate::state::MEM_SIZE;
use crate::state::STACK_DEPTH;
use crate::state::fam_of;
use crate::state::n_of;
use crate::state::nn_of;
use crate::state::nnn_of;
use crate::state::x_of;
use crate::state::y_of;
use crate::step::cell_index;
use crate::step::draw_collides;
use crate::step::draw_screen;
use crate::step::flip_cell;
use crate::step::load_regs;
use crate::step::spec_opcode;
use crate::step::spec_step;
use crate::step::sprite_bit;
use crate::step::step_8xxx;
use crate::step::sprite_hits;
use crate::step::store_regs;
use crate::step::wrap_col;
use crate::step::wrap_row;

verus! {

/// The 8XY4 carry rule: the wrapped sum is strictly less than the addend
/// exactly when the true sum overflows a byte, so comparing after the add
/// detects the carry.
pub proof fn lemma_add_carry_flag(a: u8, b: u8)
    ensures
        (u8_specs::wrapping_add(a, b) < b) <==> (a + b > 255),
{
}

/// FX55 then FX65 with the same X and the same base address is the
/// identity on the registers: loading back what was just stored restores
/// every register V[0..=X], and the others were never touched.
pub proof fn lemma_store_load_round_trip(m: Seq<u8>, v: Seq<u8>, i: int, x: int)
    requires
        m.len() == 4096,
        v.len() == 16,
        0 <= x < 16,
        0 <= i,
        i + x + 1 <= 4096,
    ensures
        load_regs(store_regs(m, v, i, x), v, i, x) =~= v,
{
    let m1 = store_regs(m, v, i, x);
    assert forall|j: int| 0 <= j < 16 implies load_regs(m1, v, i, x)[j] == v[j] by {
        if j <= x {
            assert(m1[i + j] == v[j]);
        }
    }
}

/// Drawing the same sprite twice at the same origin restores every
/// framebuffer cell, because a second XOR undoes the first; and the second
/// draw reports a collision whenever the first draw lit some cell that was
/// dark before it.  (If every cell the sprite touches is already lit, the
/// first draw turns them all off and the second draw has nothing to
/// collide with, so that case is excluded.)
pub proof fn lemma_draw_twice_restores(scr: Seq<u8>, spr: Seq<u8>, x: u8, y: u8)
    requires
        scr.len() == 2048,
        spr.len() < 32,
        forall|p: int| 0 <= p < 2048 ==> #[trigger] scr[p] <= 1,
    ensures
        draw_screen(draw_screen(scr, spr, x, y), spr, x, y) =~= scr,
        (exists|r: int, c: int|
            0 <= r < spr.len() && 0 <= c < 8 && sprite_bit(spr[r], c) && scr[#[trigger] cell_index(
                x,
                y,
                r,
                c,
            )] == 0) ==> draw_collides(draw_screen(scr, spr, x, y), spr, x, y),
{
    let d1 = draw_screen(scr, spr, x, y);
    assert(d1.len() == 2048);
    assert forall|r: int, c: int| 0 <= r < spr.len() && 0 <= c < 8 implies 0 <= #[trigger]
        cell_index(x, y, r, c) < 2048 by {
        assert(0 <= wrap_row(y, r) < 32);
        assert(0 <= wrap_col(x, c) < 64);
    }
    assert forall|idx: int|
        0 <= idx < 2048 implies draw_screen(d1, spr, x, y)[idx] == scr[idx] by {
        if sprite_hits(spr, x, y, idx) {
            assert(d1[idx] == flip_cell(scr[idx]));
            assert(flip_cell(flip_cell(scr[idx])) == scr[idx]);
        }
    }
    assert(draw_screen(d1, spr, x, y) =~= scr);
    if exists|r: int, c: int|
        0 <= r < spr.len() && 0 <= c < 8 && sprite_bit(spr[r], c) && scr[#[trigger] cell_index(
            x,
            y,
            r,
            c,
        )] == 0 {
        let (r, c) = choose|r: int, c: int|
            0 <= r < spr.len() && 0 <= c < 8 && sprite_bit(spr[r], c) && scr[#[trigger] cell_index(
                x,
                y,
                r,
                c,
            )] == 0;
        let idx = cell_index(x, y, r, c);
        assert(sprite_hits(spr, x, y, idx));
        assert(d1[idx] == flip_cell(scr[idx]));
        assert(d1[idx] == 1);
        assert(draw_collides(d1, spr, x, y));
    }
}

/// Every instruction but CXNN ignores the random byte: the machine takes
/// the same transition whichever byte the source produced, so one cycle is
/// deterministic whenever the fetched word is not in the CXNN family.
pub proof fn lemma_step_ignores_random(s: CpuView, a: u8, b: u8)
    requires
        s.pc + 2 <= MEM_SIZE ==> fam_of(spec_opcode(s)) != 0xC,
    ensures
        spec_step(s, a) == spec_step(s, b),
{
}

/// Decoding the instruction word assembled from fetched bytes `h` and `l`
/// recovers every instruction field from the bytes' nibbles.
pub proof fn lemma_opcode_fields(h: u8, l: u8)
    ensures
        ((h as int) * 256 + (l as int)) as u16 as int == (h as int) * 256 + (l as int),
        fam_of((((h as int) * 256 + (l as int)) as u16)) == h as int / 16,
        x_of((((h as int) * 256 + (l as int)) as u16)) == h as int % 16,
        y_of((((h as int) * 256 + (l as int)) as u16)) == l as int / 16,
        n_of((((h as int) * 256 + (l as int)) as u16)) == l as int % 16,
        nn_of((((h as int) * 256 + (l as int)) as u16)) == l as int,
        nnn_of((((h as int) * 256 + (l as int)) as u16)) == (h as int % 16) * 256 + l as int,
{
    let hv = h as int;
    let lv = l as int;
    let opv = hv * 256 + lv;
    assert(0 <= opv < 0x10000);
    lemma_fundamental_div_mod_converse_div(opv, 256, hv, lv);
    lemma_fundamental_div_mod_converse_mod(opv, 256, hv, lv);
    lemma_fundamental_div_mod(hv, 16);
    assert(opv == (hv / 16) * 4096 + ((hv % 16) * 256 + lv)) by (nonlinear_arith)
        requires
            hv == 16 * (hv / 16) + hv % 16,
            opv == hv * 256 + lv,
    ;
    assert(0 <= (hv % 16) * 256 + lv < 4096);
    lemma_fundamental_div_mod_converse_div(opv, 4096, hv / 16, (hv % 16) * 256 + lv);
    lemma_fundamental_div_mod_converse_mod(opv, 4096, hv / 16, (hv % 16) * 256 + lv);
    lemma_fundamental_div_mod(lv, 16);
    assert(opv == (16 * hv + lv / 16) * 16 + (lv % 16)) by (nonlinear_arith)
        requires
            lv == 16 * (lv / 16) + lv % 16,
            opv == hv * 256 + lv,
    ;
    lemma_fundamental_div_mod_converse_div(opv, 16, 16 * hv + lv / 16, lv % 16);
    lemma_fundamental_div_mod_converse_mod(opv, 16, 16 * hv + lv / 16, lv % 16);
    lemma_mod_multiples_vanish(hv, lv / 16, 16);
    lemma_small_mod((lv / 16) as nat, 16nat);
}

/// Setting a register with 6XNN and then testing it with 3XNN always
/// skips the following instruction: the set/skip-if-equal round trip.
pub proof fn lemma_set_then_skip_equal(s: CpuView, x: int, nn: u8, b1: u8, b2: u8)
    requires
        s.wf(),
        0 <= x < 16,
        s.pc + 4 <= MEM_SIZE,
        s.memory[s.pc] as int == 0x60 + x,
        s.memory[s.pc + 1] == nn,
        s.memory[s.pc + 2] as int == 0x30 + x,
        s.memory[s.pc + 3] == nn,
    ensures
        (spec_step(s, b1) is Ok),
        (spec_step(spec_step(s, b1)->Ok_0, b2) is Ok),
        spec_step(spec_step(s, b1)->Ok_0, b2)->Ok_0.pc == s.pc + 6,
{
    let h1 = s.memory[s.pc];
    let l1 = s.memory[s.pc + 1];
    lemma_opcode_fields(h1, l1);
    lemma_fundamental_div_mod_converse_div(0x60 + x, 16, 6, x);
    lemma_fundamental_div_mod_converse_mod(0x60 + x, 16, 6, x);
    assert(spec_opcode(s) as int == (h1 as int) * 256 + (l1 as int));
    assert(fam_of(spec_opcode(s)) == 6);
    assert(x_of(spec_opcode(s)) == x);
    assert(nn_of(spec_opcode(s)) == nn as int);
    let s1 = spec_step(s, b1)->Ok_0;
    assert(spec_step(s, b1) is Ok);
    assert(s1.v == s.v.update(x, nn));
    assert(s1.pc == s.pc + 2);
    assert(s1.memory == s.memory);
    let h2 = s1.memory[s1.pc];
    let l2 = s1.memory[s1.pc + 1];
    lemma_opcode_fields(h2, l2);
    lemma_fundamental_div_mod_converse_div(0x30 + x, 16, 3, x);
    lemma_fundamental_div_mod_converse_mod(0x30 + x, 16, 3, x);
    assert(fam_of(spec_opcode(s1)) == 3);
    assert(x_of(spec_opcode(s1)) == x);
    assert(nn_of(spec_opcode(s1)) == nn as int);
    assert(s1.v[x] == nn);
    assert(spec_step(s1, b2) is Ok);
    assert(spec_step(s1, b2)->Ok_0.pc == s1.pc + 4);
}

/// 00EE after 2NNN: a return straight after a call brings the program
/// counter to the instruction following the call site, with the stack
/// pointer restored.
pub proof fn lemma_call_then_return(s: CpuView, nnn: int, b1: u8, b2: u8)
    requires
        s.wf(),
        s.pc + 2 <= MEM_SIZE,
        s.sp < STACK_DEPTH,
        0 <= nnn,
        nnn + 2 <= MEM_SIZE,
        s.memory[s.pc] as int == 0x20 + nnn / 256,
        s.memory[s.pc + 1] as int == nnn % 256,
        s.memory[nnn] == 0x00u8,
        s.memory[nnn + 1] == 0xEEu8,
    ensures
        (spec_step(s, b1) is Ok),
        (spec_step(spec_step(s, b1)->Ok_0, b2) is Ok),
        spec_step(spec_step(s, b1)->Ok_0, b2)->Ok_0.pc == s.pc + 2,
        spec_step(spec_step(s, b1)->Ok_0, b2)->Ok_0.sp == s.sp,
{
    let h1 = s.memory[s.pc];
    let l1 = s.memory[s.pc + 1];
    lemma_fundamental_div_mod(nnn, 256);
    assert(0 <= nnn / 256 < 16);
    lemma_opcode_fields(h1, l1);
    lemma_fundamental_div_mod_converse_div(0x20 + nnn / 256, 16, 2, nnn / 256);
    lemma_fundamental_div_mod_converse_mod(0x20 + nnn / 256, 16, 2, nnn / 256);
    assert(fam_of(spec_opcode(s)) == 2);
    assert(nnn_of(spec_opcode(s)) == (nnn / 256) * 256 + nnn % 256);
    assert(nnn_of(spec_opcode(s)) == nnn);
    assert(spec_step(s, b1) is Ok);
    let s1 = spec_step(s, b1)->Ok_0;
    assert(s1.pc == nnn);
    assert(s1.sp == s.sp + 1);
    assert(s1.stack == s.stack.update(s.sp, s.pc as u16));
    assert(s.pc as u16 as int == s.pc);
    let h2 = s1.memory[s1.pc];
    let l2 = s1.memory[s1.pc + 1];
    assert(h2 == 0x00u8 && l2 == 0xEEu8);
    lemma_opcode_fields(h2, l2);
    assert(fam_of(spec_opcode(s1)) == 0);
    assert(nn_of(spec_opcode(s1)) == 0xEE);
    assert(spec_step(s1, b2) is Ok);
    assert(spec_step(s1, b2)->Ok_0.pc == s.pc + 2);
    assert(spec_step(s1, b2)->Ok_0.sp == s.sp);
}

/// FX55 followed by FX65 with the same X and the same index-register base
/// restores the registers exactly, and each of the two instructions leaves
/// the index register advanced by X + 1.  `t` is the machine after the
/// store, moved to an FX65 instruction at `p2` with the index register
/// pointed back at the same base.
pub proof fn lemma_fx55_fx65_round_trip(s: CpuView, t: CpuView, x: int, p2: int, b1: u8, b2: u8)
    requires
        s.wf(),
        0 <= x < 16,
        s.pc + 2 <= MEM_SIZE,
        s.memory[s.pc] as int == 0xF0 + x,
        s.memory[s.pc + 1] == 0x55u8,
        s.i + x + 1 <= MEM_SIZE,
        0 <= p2,
        p2 + 2 <= MEM_SIZE,
        t == (CpuView { i: s.i, pc: p2, ..spec_step(s, b1)->Ok_0 }),
        t.memory[p2] as int == 0xF0 + x,
        t.memory[p2 + 1] == 0x65u8,
    ensures
        (spec_step(s, b1) is Ok),
        spec_step(s, b1)->Ok_0.i == s.i + x + 1,
        spec_step(s, b1)->Ok_0.v == s.v,
        (spec_step(t, b2) is Ok),
        spec_step(t, b2)->Ok_0.v == s.v,
        spec_step(t, b2)->Ok_0.i == s.i + x + 1,
{
    let h1 = s.memory[s.pc];
    let l1 = s.memory[s.pc + 1];
    lemma_opcode_fields(h1, l1);
    lemma_fundamental_div_mod_converse_div(0xF0 + x, 16, 15, x);
    lemma_fundamental_div_mod_converse_mod(0xF0 + x, 16, 15, x);
    assert(fam_of(spec_opcode(s)) == 15);
    assert(x_of(spec_opcode(s)) == x);
    assert(nn_of(spec_opcode(s)) == 0x55);
    assert(spec_step(s, b1) is Ok);
    let s1 = spec_step(s, b1)->Ok_0;
    assert(s1.memory == store_regs(s.memory, s.v, s.i, x));
    assert(s1.i == s.i + x + 1);
    assert(s1.v == s.v);
    let h2 = t.memory[p2];
    let l2 = t.memory[p2 + 1];
    lemma_opcode_fields(h2, l2);
    assert(fam_of(spec_opcode(t)) == 15);
    assert(x_of(spec_opcode(t)) == x);
    assert(nn_of(spec_opcode(t)) == 0x65);
    assert(spec_step(t, b2) is Ok);
    let u = spec_step(t, b2)->Ok_0;
    assert(u.v == load_regs(t.memory, t.v, t.i, x));
    lemma_store_load_round_trip(s.memory, s.v, s.i, x);
    assert(u.v == s.v);
    assert(u.i == s.i + x + 1);
}

/// The carry flag that 8XY4 computes by comparing after the addition is
/// the true carry: when the operands live in different registers, neither
/// of them VF, the flag is 1 exactly when the unwrapped sum overflows a
/// byte, and V[X] holds the wrapped sum.
pub proof fn lemma_8xy4_carry(s: CpuView, op: u16)
    requires
        s.wf(),
        n_of(op) == 4,
        x_of(op) != y_of(op),
        x_of(op) != 15,
        y_of(op) != 15,
    ensures
        (step_8xxx(s, op) is Ok),
        step_8xxx(s, op)->Ok_0.v[15] == (if s.v[x_of(op)] + s.v[y_of(op)] > 255 {
            1u8
        } else {
            0u8
        }),
        step_8xxx(s, op)->Ok_0.v[x_of(op)] == u8_specs::wrapping_add(
            s.v[x_of(op)],
            s.v[y_of(op)],
        ),
{
    lemma_add_carry_flag(s.v[x_of(op)], s.v[y_of(op)]);
}

} // verus!
