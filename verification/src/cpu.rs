//! The interpreter itself: the machine state and the executable
//! fetch-decode-execute step, proved against the transitions in [`crate::step`].

use vstd::prelude::*;

use crate::font::font_image;
use crate::font::font_table;
use crate::rng::random_byte;
use crate::state::CpuError;
use crate::state::CpuView;
use crate::state::MEM_SIZE;
use crate::state::NUM_KEYS;
use crate::state::NUM_REGS;
use crate::state::PROGRAM_START;
use crate::state::SCREEN_CELLS;
use crate::state::SCREEN_HEIGHT;
use crate::state::SCREEN_WIDTH;
use crate::state::STACK_DEPTH;
use crate::state::n_of;
use crate::state::nn_of;
use crate::state::nnn_of;
use crate::state::x_of;
use crate::state::y_of;
use crate::step::cell_index;
use crate::step::copy_len;
use crate::step::draw_collides;
use crate::step::draw_screen;
use crate::step::first_edge;
use crate::step::flip_cell;
use crate::step::load_image;
use crate::step::load_regs;
use crate::step::spec_dispatch;
use crate::step::spec_opcode;
use crate::step::spec_step;
use crate::step::sprite_bit;
use crate::step::sprite_hits;
use crate::step::step_0xxx;
use crate::step::step_1xxx;
use crate::step::step_2xxx;
use crate::step::step_3xxx;
use crate::step::step_4xxx;
use crate::step::step_5xxx;
use crate::step::step_6xxx;
use crate::step::step_7xxx;
use crate::step::step_8xxx;
use crate::step::step_9xxx;
use crate::step::step_axxx;
use crate::step::step_bxxx;
use crate::step::step_cxxx;
use crate::step::step_dxxx;
use crate::step::step_exxx;
use crate::step::step_fxxx;
use crate::step::step_wait_key;
use crate::step::store_regs;
use crate::step::tick_timers;
use crate::step::wrap_col;
use crate::step::wrap_row;

verus! {

/// Register index from the X field.
fn op_x(op: u16) -> (r: usize)
    ensures
        r == x_of(op),
{
    ((op as usize) / 0x100) % 0x10
}

/// Register index from the Y field.
fn op_y(op: u16) -> (r: usize)
    ensures
        r == y_of(op),
{
    ((op as usize) / 0x10) % 0x10
}

/// The nibble literal N.
fn op_n(op: u16) -> (r: u8)
    ensures
        r == n_of(op),
{
    (op % 0x10) as u8
}

/// The byte literal NN.
fn op_nn(op: u16) -> (r: u8)
    ensures
        r == nn_of(op),
{
    (op % 0x100) as u8
}

/// The address literal NNN.
fn op_nnn(op: u16) -> (r: u16)
    ensures
        r == nnn_of(op),
{
    op % 0x1000
}

/// A vector of `n` zero bytes.
fn zero_bytes(n: usize) -> (v: Vec<u8>)
    ensures
        v@ == Seq::new(n as nat, |k: int| 0u8),
{
    let mut v: Vec<u8> = Vec::new();
    while v.len() < n
        invariant
            v@ == Seq::new(v@.len(), |k: int| 0u8),
            v@.len() <= n,
        decreases n - v.len(),
    {
        v.push(0);
        proof {
            assert(v@ =~= Seq::new(v@.len(), |k: int| 0u8));
        }
    }
    proof {
        assert(v@ =~= Seq::new(n as nat, |k: int| 0u8));
    }
    v
}

/// A vector of `n` zero words.
fn zero_words(n: usize) -> (v: Vec<u16>)
    ensures
        v@ == Seq::new(n as nat, |k: int| 0u16),
{
    let mut v: Vec<u16> = Vec::new();
    while v.len() < n
        invariant
            v@ == Seq::new(v@.len(), |k: int| 0u16),
            v@.len() <= n,
        decreases n - v.len(),
    {
        v.push(0);
        proof {
            assert(v@ =~= Seq::new(v@.len(), |k: int| 0u16));
        }
    }
    proof {
        assert(v@ =~= Seq::new(n as nat, |k: int| 0u16));
    }
    v
}

/// A vector of `n` cleared flags.
fn cleared_flags(n: usize) -> (v: Vec<bool>)
    ensures
        v@ == Seq::new(n as nat, |k: int| false),
{
    let mut v: Vec<bool> = Vec::new();
    while v.len() < n
        invariant
            v@ == Seq::new(v@.len(), |k: int| false),
            v@.len() <= n,
        decreases n - v.len(),
    {
        v.push(false);
        proof {
            assert(v@ =~= Seq::new(v@.len(), |k: int| false));
        }
    }
    proof {
        assert(v@ =~= Seq::new(n as nat, |k: int| false));
    }
    v
}

/// The CHIP-8 machine.
pub struct CPU {
    v: Vec<u8>,
    i: u16,
    pc: usize,
    memory: Vec<u8>,
    screen: Vec<u8>,
    stack: Vec<u16>,
    sp: usize,
    delay_timer: u8,
    sound_timer: u8,
    key_state: Vec<bool>,
    prev_key_state: Vec<bool>,
    waiting_for_key_press: bool,
}

impl View for CPU {
    type V = CpuView;

    closed spec fn view(&self) -> CpuView {
        CpuView {
            v: self.v@,
            i: self.i as int,
            pc: self.pc as int,
            memory: self.memory@,
            screen: self.screen@,
            stack: self.stack@,
            sp: self.sp as int,
            delay_timer: self.delay_timer,
            sound_timer: self.sound_timer,
            key_state: self.key_state@,
            prev_key_state: self.prev_key_state@,
            waiting_for_key_press: self.waiting_for_key_press,
        }
    }
}

impl CPU {
    /// A fresh machine: memory zeroed but for the font table at the bottom,
    /// program counter at 0x200, everything else cleared.
    pub fn new() -> (cpu: CPU)
        ensures
            cpu@.wf(),
            cpu@ == CpuView::initial(),
    {
        let font = font_table();
        let mut memory = zero_bytes(MEM_SIZE);
        proof {
            assert(font_image().len() == 80);
        }
        let mut k: usize = 0;
        while k < 80
            invariant
                k <= 80,
                font@ == font_image(),
                font_image().len() == 80,
                memory@.len() == MEM_SIZE,
                forall|t: int|
                    0 <= t < MEM_SIZE ==> memory@[t] == (if t < k {
                        font_image()[t]
                    } else {
                        0u8
                    }),
            decreases 80 - k,
        {
            let b = font[k];
            memory.set(k, b);
            k += 1;
        }
        let cpu = CPU {
            v: zero_bytes(NUM_REGS),
            i: 0,
            pc: PROGRAM_START,
            memory,
            screen: zero_bytes(SCREEN_CELLS),
            stack: zero_words(STACK_DEPTH),
            sp: 0,
            delay_timer: 0,
            sound_timer: 0,
            key_state: cleared_flags(NUM_KEYS),
            prev_key_state: cleared_flags(NUM_KEYS),
            waiting_for_key_press: false,
        };
        proof {
            assert(cpu@.memory =~= CpuView::initial().memory);
            assert(cpu@ =~= CpuView::initial());
        }
        cpu
    }

    /// Copies a program image into memory at 0x200.  An image larger than
    /// the remaining space is truncated to it.
    pub fn load(&mut self, image: &Vec<u8>)
        requires
            old(self)@.wf(),
        ensures
            final(self)@.wf(),
            final(self)@ == load_image(old(self)@, image@),
    {
        let count = if image.len() > MEM_SIZE - PROGRAM_START {
            MEM_SIZE - PROGRAM_START
        } else {
            image.len()
        };
        let ghost pre = self@;
        let mut j: usize = 0;
        while j < count
            invariant
                j <= count,
                count == copy_len(image@),
                count <= image@.len(),
                self@.memory.len() == MEM_SIZE,
                pre.wf(),
                (CpuView { memory: self@.memory, ..pre }) == self@,
                forall|t: int|
                    0 <= t < MEM_SIZE ==> self@.memory[t] == (if PROGRAM_START <= t
                        < PROGRAM_START + j {
                        image@[t - PROGRAM_START]
                    } else {
                        pre.memory[t]
                    }),
            decreases count - j,
        {
            let b = image[j];
            self.memory.set(PROGRAM_START + j, b);
            j += 1;
        }
        proof {
            assert(self@.memory =~= load_image(pre, image@).memory);
            assert(self@ =~= load_image(pre, image@));
        }
    }

    /// Decrements each timer that is not already zero.  A timer at zero
    /// stays at zero: it is never decremented further.
    pub fn update_timers(&mut self)
        requires
            old(self)@.wf(),
        ensures
            final(self)@.wf(),
            final(self)@ == tick_timers(old(self)@),
            old(self)@.delay_timer == 0 ==> final(self)@.delay_timer == 0,
            old(self)@.sound_timer == 0 ==> final(self)@.sound_timer == 0,
    {
        if self.delay_timer > 0 {
            self.delay_timer = self.delay_timer - 1;
        }
        if self.sound_timer > 0 {
            self.sound_timer = self.sound_timer - 1;
        }
        proof {
            assert(self@ =~= tick_timers(old(self)@));
        }
    }

    /// Runs one instruction: fetch at the program counter, decode, execute.
    /// On success the machine takes exactly the transition `spec_step`
    /// describes for some byte from the random source; on an error the
    /// machine is unchanged and `spec_step` reports that same error for
    /// every random byte.
    pub fn cycle(&mut self) -> (r: Result<(), CpuError>)
        requires
            old(self)@.wf(),
        ensures
            final(self)@.wf(),
            (match r {
                Ok(()) => exists|b: u8|
                    #[trigger] spec_step(old(self)@, b) == Ok::<CpuView, CpuError>(final(self)@),
                Err(e) => final(self)@ == old(self)@ && forall|b: u8|
                    #[trigger] spec_step(old(self)@, b) == Err::<CpuView, CpuError>(e),
            }),
    {
        if self.pc + 2 > MEM_SIZE {
            return Err(CpuError::FetchOutOfBounds);
        }
        let hi = self.memory[self.pc];
        let lo = self.memory[self.pc + 1];
        let op: u16 = ((hi as u16) << 8u16) | (lo as u16);
        proof {
            assert(((hi as u16) << 8u16) | (lo as u16) == (hi as u16) * 256 + (lo as u16))
                by (bit_vector);
            assert(op == spec_opcode(old(self)@));
        }
        let fam: u16 = op / 0x1000;
        proof {
            assert(op < 0x10000);
            assert(fam < 16);
        }
        let r: Result<(), CpuError> = if fam == 0x0 {
            self.op_0xxx(op)
        } else if fam == 0x1 {
            self.op_1xxx(op);
            Ok(())
        } else if fam == 0x2 {
            self.op_2xxx(op)
        } else if fam == 0x3 {
            self.op_3xxx(op);
            Ok(())
        } else if fam == 0x4 {
            self.op_4xxx(op);
            Ok(())
        } else if fam == 0x5 {
            self.op_5xxx(op);
            Ok(())
        } else if fam == 0x6 {
            self.op_6xxx(op);
            Ok(())
        } else if fam == 0x7 {
            self.op_7xxx(op);
            Ok(())
        } else if fam == 0x8 {
            self.op_8xxx(op)
        } else if fam == 0x9 {
            self.op_9xxx(op);
            Ok(())
        } else if fam == 0xA {
            self.op_axxx(op);
            Ok(())
        } else if fam == 0xB {
            self.op_bxxx(op);
            Ok(())
        } else if fam == 0xC {
            let rnd = random_byte();
            self.op_cxxx(op, rnd);
            proof {
                assert(spec_step(old(self)@, rnd) == Ok::<CpuView, CpuError>(self@));
            }
            Ok(())
        } else if fam == 0xD {
            self.op_dxxx(op)
        } else if fam == 0xE {
            self.op_exxx(op)
        } else {
            self.op_fxxx(op)
        };
        proof {
            match r {
                Ok(()) => {
                    // for CXNN the witness is the byte the source produced,
                    // asserted where it is drawn; every other family ignores it
                    if fam != 0xC {
                        assert(spec_step(old(self)@, 0u8) == Ok::<CpuView, CpuError>(self@));
                    }
                },
                Err(e) => {
                    assert forall|b: u8| #[trigger]
                        spec_step(old(self)@, b) == Err::<CpuView, CpuError>(e) by {
                        assert(spec_dispatch(old(self)@, op, b) == Err::<CpuView, CpuError>(e));
                    }
                },
            }
        }
        r
    }

    /// 00E0 and 00EE.
    fn op_0xxx(&mut self, op: u16) -> (r: Result<(), CpuError>)
        requires
            old(self)@.wf(),
            old(self)@.pc + 2 <= MEM_SIZE,
        ensures
            final(self)@.wf(),
            (match r {
                Ok(()) => step_0xxx(old(self)@, op) == Ok::<CpuView, CpuError>(final(self)@),
                Err(e) => final(self)@ == old(self)@ && step_0xxx(old(self)@, op) == Err::<
                    CpuView,
                    CpuError,
                >(e),
            }),
    {
        let nn = op_nn(op);
        if nn == 0xE0 {
            self.screen = zero_bytes(SCREEN_CELLS);
            self.pc = self.pc + 2;
            proof {
                assert(step_0xxx(old(self)@, op) == Ok::<CpuView, CpuError>(self@)) by {
                    assert(self@ =~= step_0xxx(old(self)@, op)->Ok_0);
                }
            }
            Ok(())
        } else if nn == 0xEE {
            if self.sp == 0 {
                return Err(CpuError::StackUnderflow);
            }
            self.sp = self.sp - 1;
            self.pc = (self.stack[self.sp] as usize) + 2;
            proof {
                assert(self@ =~= step_0xxx(old(self)@, op)->Ok_0);
            }
            Ok(())
        } else {
            Err(CpuError::UnknownOpcode)
        }
    }

    /// 1NNN.
    fn op_1xxx(&mut self, op: u16)
        requires
            old(self)@.wf(),
            old(self)@.pc + 2 <= MEM_SIZE,
        ensures
            final(self)@.wf(),
            final(self)@ == step_1xxx(old(self)@, op),
    {
        self.pc = op_nnn(op) as usize;
        proof {
            assert(self@ =~= step_1xxx(old(self)@, op));
        }
    }

    /// 2NNN.
    fn op_2xxx(&mut self, op: u16) -> (r: Result<(), CpuError>)
        requires
            old(self)@.wf(),
            old(self)@.pc + 2 <= MEM_SIZE,
        ensures
            final(self)@.wf(),
            (match r {
                Ok(()) => step_2xxx(old(self)@, op) == Ok::<CpuView, CpuError>(final(self)@),
                Err(e) => final(self)@ == old(self)@ && step_2xxx(old(self)@, op) == Err::<
                    CpuView,
                    CpuError,
                >(e),
            }),
    {
        if self.sp == STACK_DEPTH {
            return Err(CpuError::StackOverflow);
        }
        self.stack.set(self.sp, self.pc as u16);
        self.sp = self.sp + 1;
        self.pc = op_nnn(op) as usize;
        proof {
            assert(self@ =~= step_2xxx(old(self)@, op)->Ok_0);
        }
        Ok(())
    }

    /// 3XNN.
    fn op_3xxx(&mut self, op: u16)
        requires
            old(self)@.wf(),
            old(self)@.pc + 2 <= MEM_SIZE,
        ensures
            final(self)@.wf(),
            final(self)@ == step_3xxx(old(self)@, op),
    {
        if self.v[op_x(op)] == op_nn(op) {
            self.pc = self.pc + 2;
        }
        self.pc = self.pc + 2;
        proof {
            assert(self@ =~= step_3xxx(old(self)@, op));
        }
    }

    /// 4XNN.
    fn op_4xxx(&mut self, op: u16)
        requires
            old(self)@.wf(),
            old(self)@.pc + 2 <= MEM_SIZE,
        ensures
            final(self)@.wf(),
            final(self)@ == step_4xxx(old(self)@, op),
    {
        if self.v[op_x(op)] != op_nn(op) {
            self.pc = self.pc + 2;
        }
        self.pc = self.pc + 2;
        proof {
            assert(self@ =~= step_4xxx(old(self)@, op));
        }
    }

    /// 5XY0.
    fn op_5xxx(&mut self, op: u16)
        requires
            old(self)@.wf(),
            old(self)@.pc + 2 <= MEM_SIZE,
        ensures
            final(self)@.wf(),
            final(self)@ == step_5xxx(old(self)@, op),
    {
        if self.v[op_x(op)] == self.v[op_y(op)] {
            self.pc = self.pc + 2;
        }
        self.pc = self.pc + 2;
        proof {
            assert(self@ =~= step_5xxx(old(self)@, op));
        }
    }

    /// 6XNN.
    fn op_6xxx(&mut self, op: u16)
        requires
            old(self)@.wf(),
            old(self)@.pc + 2 <= MEM_SIZE,
        ensures
            final(self)@.wf(),
            final(self)@ == step_6xxx(old(self)@, op),
    {
        let nn = op_nn(op);
        self.v.set(op_x(op), nn);
        self.pc = self.pc + 2;
        proof {
            assert(self@ =~= step_6xxx(old(self)@, op));
        }
    }

    /// 7XNN.
    fn op_7xxx(&mut self, op: u16)
        requires
            old(self)@.wf(),
            old(self)@.pc + 2 <= MEM_SIZE,
        ensures
            final(self)@.wf(),
            final(self)@ == step_7xxx(old(self)@, op),
    {
        let x = op_x(op);
        let vx = self.v[x];
        let nn = op_nn(op);
        self.v.set(x, vx.wrapping_add(nn));
        self.pc = self.pc + 2;
        proof {
            assert(self@ =~= step_7xxx(old(self)@, op));
        }
    }

    /// The 8XYk arithmetic/logic family.
    fn op_8xxx(&mut self, op: u16) -> (r: Result<(), CpuError>)
        requires
            old(self)@.wf(),
            old(self)@.pc + 2 <= MEM_SIZE,
        ensures
            final(self)@.wf(),
            (match r {
                Ok(()) => step_8xxx(old(self)@, op) == Ok::<CpuView, CpuError>(final(self)@),
                Err(e) => final(self)@ == old(self)@ && step_8xxx(old(self)@, op) == Err::<
                    CpuView,
                    CpuError,
                >(e),
            }),
    {
        let x = op_x(op);
        let y = op_y(op);
        let k = op_n(op);
        if k == 0x0 {
            let vy = self.v[y];
            self.v.set(x, vy);
        } else if k == 0x1 {
            let vx = self.v[x];
            let vy = self.v[y];
            self.v.set(x, vx | vy);
        } else if k == 0x2 {
            let vx = self.v[x];
            let vy = self.v[y];
            self.v.set(x, vx & vy);
        } else if k == 0x3 {
            let vx = self.v[x];
            let vy = self.v[y];
            self.v.set(x, vx ^ vy);
        } else if k == 0x4 {
            let vx = self.v[x];
            let vy = self.v[y];
            self.v.set(x, vx.wrapping_add(vy));
            let flag: u8 = if self.v[x] < self.v[y] {
                1
            } else {
                0
            };
            self.v.set(15, flag);
        } else if k == 0x5 {
            let flag: u8 = if self.v[y] > self.v[x] {
                0
            } else {
                1
            };
            self.v.set(15, flag);
            let vx = self.v[x];
            let vy = self.v[y];
            self.v.set(x, vx.wrapping_sub(vy));
        } else if k == 0x6 {
            let flag: u8 = self.v[x] & 1;
            self.v.set(15, flag);
            let vx = self.v[x];
            self.v.set(x, vx >> 1u8);
        } else if k == 0x7 {
            let flag: u8 = if self.v[x] > self.v[y] {
                0
            } else {
                1
            };
            self.v.set(15, flag);
            let vx = self.v[x];
            let vy = self.v[y];
            self.v.set(x, vy.wrapping_sub(vx));
        } else if k == 0xE {
            let flag: u8 = self.v[x] >> 7u8;
            self.v.set(15, flag);
            let vx = self.v[x];
            self.v.set(x, vx << 1u8);
        } else {
            return Err(CpuError::UnknownOpcode);
        }
        self.pc = self.pc + 2;
        proof {
            assert(self@ =~= step_8xxx(old(self)@, op)->Ok_0);
        }
        Ok(())
    }

    /// 9XY0.
    fn op_9xxx(&mut self, op: u16)
        requires
            old(self)@.wf(),
            old(self)@.pc + 2 <= MEM_SIZE,
        ensures
            final(self)@.wf(),
            final(self)@ == step_9xxx(old(self)@, op),
    {
        if self.v[op_x(op)] != self.v[op_y(op)] {
            self.pc = self.pc + 2;
        }
        self.pc = self.pc + 2;
        proof {
            assert(self@ =~= step_9xxx(old(self)@, op));
        }
    }

    /// ANNN.
    fn op_axxx(&mut self, op: u16)
        requires
            old(self)@.wf(),
            old(self)@.pc + 2 <= MEM_SIZE,
        ensures
            final(self)@.wf(),
            final(self)@ == step_axxx(old(self)@, op),
    {
        self.i = op_nnn(op);
        self.pc = self.pc + 2;
        proof {
            assert(self@ =~= step_axxx(old(self)@, op));
        }
    }

    /// BNNN.
    fn op_bxxx(&mut self, op: u16)
        requires
            old(self)@.wf(),
            old(self)@.pc + 2 <= MEM_SIZE,
        ensures
            final(self)@.wf(),
            final(self)@ == step_bxxx(old(self)@, op),
    {
        self.pc = (op_nnn(op) as usize) + (self.v[0] as usize);
        proof {
            assert(self@ =~= step_bxxx(old(self)@, op));
        }
    }

    /// CXNN, with the byte the random source produced.
    fn op_cxxx(&mut self, op: u16, rnd: u8)
        requires
            old(self)@.wf(),
            old(self)@.pc + 2 <= MEM_SIZE,
        ensures
            final(self)@.wf(),
            final(self)@ == step_cxxx(old(self)@, op, rnd),
    {
        let nn = op_nn(op);
        self.v.set(op_x(op), rnd & nn);
        self.pc = self.pc + 2;
        proof {
            assert(self@ =~= step_cxxx(old(self)@, op, rnd));
        }
    }

    /// EX9E and EXA1.
    fn op_exxx(&mut self, op: u16) -> (r: Result<(), CpuError>)
        requires
            old(self)@.wf(),
            old(self)@.pc + 2 <= MEM_SIZE,
        ensures
            final(self)@.wf(),
            (match r {
                Ok(()) => step_exxx(old(self)@, op) == Ok::<CpuView, CpuError>(final(self)@),
                Err(e) => final(self)@ == old(self)@ && step_exxx(old(self)@, op) == Err::<
                    CpuView,
                    CpuError,
                >(e),
            }),
    {
        let nn = op_nn(op);
        let vx = self.v[op_x(op)] as usize;
        if nn == 0x9E {
            if vx >= NUM_KEYS {
                return Err(CpuError::KeyOutOfRange);
            }
            if self.key_state[vx] {
                self.pc = self.pc + 2;
            }
            self.pc = self.pc + 2;
            proof {
                assert(self@ =~= step_exxx(old(self)@, op)->Ok_0);
            }
            Ok(())
        } else if nn == 0xA1 {
            if vx >= NUM_KEYS {
                return Err(CpuError::KeyOutOfRange);
            }
            if !self.key_state[vx] {
                self.pc = self.pc + 2;
            }
            self.pc = self.pc + 2;
            proof {
                assert(self@ =~= step_exxx(old(self)@, op)->Ok_0);
            }
            Ok(())
        } else {
            Err(CpuError::UnknownOpcode)
        }
    }

    /// The FX family.
    fn op_fxxx(&mut self, op: u16) -> (r: Result<(), CpuError>)
        requires
            old(self)@.wf(),
            old(self)@.pc + 2 <= MEM_SIZE,
        ensures
            final(self)@.wf(),
            (match r {
                Ok(()) => step_fxxx(old(self)@, op) == Ok::<CpuView, CpuError>(final(self)@),
                Err(e) => final(self)@ == old(self)@ && step_fxxx(old(self)@, op) == Err::<
                    CpuView,
                    CpuError,
                >(e),
            }),
    {
        let x = op_x(op);
        let nn = op_nn(op);
        if nn == 0x07 {
            let d = self.delay_timer;
            self.v.set(x, d);
            self.pc = self.pc + 2;
            proof {
                assert(self@ =~= step_fxxx(old(self)@, op)->Ok_0);
            }
            Ok(())
        } else if nn == 0x0A {
            self.wait_for_key(op);
            proof {
                assert(self@ =~= step_fxxx(old(self)@, op)->Ok_0);
            }
            Ok(())
        } else if nn == 0x15 {
            self.delay_timer = self.v[x];
            self.pc = self.pc + 2;
            proof {
                assert(self@ =~= step_fxxx(old(self)@, op)->Ok_0);
            }
            Ok(())
        } else if nn == 0x18 {
            self.sound_timer = self.v[x];
            self.pc = self.pc + 2;
            proof {
                assert(self@ =~= step_fxxx(old(self)@, op)->Ok_0);
            }
            Ok(())
        } else if nn == 0x1E {
            let vx = self.v[x];
            self.i = self.i.wrapping_add(vx as u16);
            self.pc = self.pc + 2;
            proof {
                assert(self@ =~= step_fxxx(old(self)@, op)->Ok_0);
            }
            Ok(())
        } else if nn == 0x29 {
            let vx = self.v[x];
            self.i = (vx as u16) * 5;
            self.pc = self.pc + 2;
            proof {
                assert(self@ =~= step_fxxx(old(self)@, op)->Ok_0);
            }
            Ok(())
        } else if nn == 0x33 {
            let base = self.i as usize;
            if base + 3 > MEM_SIZE {
                return Err(CpuError::AddressOutOfBounds);
            }
            let vx = self.v[x];
            self.memory.set(base, vx / 100);
            self.memory.set(base + 1, (vx / 10) % 10);
            self.memory.set(base + 2, vx % 10);
            self.pc = self.pc + 2;
            proof {
                assert(self@ =~= step_fxxx(old(self)@, op)->Ok_0);
            }
            Ok(())
        } else if nn == 0x55 {
            let base = self.i as usize;
            if base + x + 1 > MEM_SIZE {
                return Err(CpuError::AddressOutOfBounds);
            }
            let ghost pre = self@;
            let mut j: usize = 0;
            while j < x + 1
                invariant
                    j <= x + 1,
                    x < NUM_REGS,
                    base + x + 1 <= MEM_SIZE,
                    pre.wf(),
                    self@.memory.len() == MEM_SIZE,
                    (CpuView { memory: self@.memory, ..pre }) == self@,
                    forall|t: int|
                        0 <= t < MEM_SIZE ==> self@.memory[t] == (if base <= t < base + j {
                            pre.v[t - base]
                        } else {
                            pre.memory[t]
                        }),
                decreases x + 1 - j,
            {
                let b = self.v[j];
                self.memory.set(base + j, b);
                j += 1;
            }
            self.i = self.i + (x as u16) + 1;
            self.pc = self.pc + 2;
            proof {
                assert(self@.memory =~= store_regs(pre.memory, pre.v, pre.i, x as int));
                assert(self@ =~= step_fxxx(old(self)@, op)->Ok_0);
            }
            Ok(())
        } else if nn == 0x65 {
            let base = self.i as usize;
            if base + x + 1 > MEM_SIZE {
                return Err(CpuError::AddressOutOfBounds);
            }
            let ghost pre = self@;
            let mut j: usize = 0;
            while j < x + 1
                invariant
                    j <= x + 1,
                    x < NUM_REGS,
                    base + x + 1 <= MEM_SIZE,
                    pre.wf(),
                    self@.v.len() == NUM_REGS,
                    (CpuView { v: self@.v, ..pre }) == self@,
                    forall|t: int|
                        0 <= t < NUM_REGS ==> self@.v[t] == (if 0 <= t < j {
                            pre.memory[base + t]
                        } else {
                            pre.v[t]
                        }),
                decreases x + 1 - j,
            {
                let b = self.memory[base + j];
                self.v.set(j, b);
                j += 1;
            }
            self.i = self.i + (x as u16) + 1;
            self.pc = self.pc + 2;
            proof {
                assert(self@.v =~= load_regs(pre.memory, pre.v, pre.i, x as int));
                assert(self@ =~= step_fxxx(old(self)@, op)->Ok_0);
            }
            Ok(())
        } else {
            Err(CpuError::UnknownOpcode)
        }
    }

    /// FX0A, the blocking key wait.
    fn wait_for_key(&mut self, op: u16)
        requires
            old(self)@.wf(),
            old(self)@.pc + 2 <= MEM_SIZE,
        ensures
            final(self)@.wf(),
            final(self)@ == step_wait_key(old(self)@, op),
    {
        if !self.waiting_for_key_press {
            self.waiting_for_key_press = true;
            let ghost pre = self@;
            let mut k: usize = 0;
            while k < NUM_KEYS
                invariant
                    k <= NUM_KEYS,
                    pre.wf(),
                    self@.prev_key_state.len() == NUM_KEYS,
                    (CpuView { prev_key_state: self@.prev_key_state, ..pre }) == self@,
                    forall|t: int|
                        0 <= t < NUM_KEYS ==> self@.prev_key_state[t] == (if t < k {
                            pre.key_state[t]
                        } else {
                            pre.prev_key_state[t]
                        }),
                decreases NUM_KEYS - k,
            {
                let b = self.key_state[k];
                self.prev_key_state.set(k, b);
                k += 1;
            }
            proof {
                assert(self@.prev_key_state =~= old(self)@.key_state);
                assert(self@ =~= step_wait_key(old(self)@, op));
            }
            return ;
        }
        let ghost pre = self@;
        let mut k: usize = 0;
        while k < NUM_KEYS
            invariant
                k <= NUM_KEYS,
                pre.wf(),
                pre.pc + 2 <= MEM_SIZE,
                pre.waiting_for_key_press,
                pre == old(self)@,
                self@.prev_key_state.len() == NUM_KEYS,
                (CpuView { prev_key_state: self@.prev_key_state, ..pre }) == self@,
                forall|t: int|
                    0 <= t < NUM_KEYS ==> self@.prev_key_state[t] == (if t < k {
                        pre.key_state[t]
                    } else {
                        pre.prev_key_state[t]
                    }),
                first_edge(pre.prev_key_state, pre.key_state, 0) == first_edge(
                    pre.prev_key_state,
                    pre.key_state,
                    k as int,
                ),
            decreases NUM_KEYS - k,
        {
            let snap = self.prev_key_state[k];
            let live = self.key_state[k];
            if !snap && live {
                proof {
                    assert(first_edge(pre.prev_key_state, pre.key_state, k as int) == k);
                }
                self.waiting_for_key_press = false;
                self.v.set(op_x(op), k as u8);
                self.pc = self.pc + 2;
                proof {
                    let j = first_edge(pre.prev_key_state, pre.key_state, 0);
                    assert(j == k);
                    assert(self@.prev_key_state =~= Seq::new(
                        NUM_KEYS as nat,
                        |t: int| if t < j { pre.key_state[t] } else { pre.prev_key_state[t] },
                    ));
                    assert(self@ =~= step_wait_key(old(self)@, op));
                }
                return ;
            }
            let b = self.key_state[k];
            self.prev_key_state.set(k, b);
            k += 1;
        }
        proof {
            assert(first_edge(pre.prev_key_state, pre.key_state, 16) == 16);
            assert(self@.prev_key_state =~= pre.key_state);
            assert(self@ =~= step_wait_key(old(self)@, op));
        }
    }

    /// DXYN, the sprite draw.
    fn op_dxxx(&mut self, op: u16) -> (r: Result<(), CpuError>)
        requires
            old(self)@.wf(),
            old(self)@.pc + 2 <= MEM_SIZE,
        ensures
            final(self)@.wf(),
            (match r {
                Ok(()) => step_dxxx(old(self)@, op) == Ok::<CpuView, CpuError>(final(self)@),
                Err(e) => final(self)@ == old(self)@ && step_dxxx(old(self)@, op) == Err::<
                    CpuView,
                    CpuError,
                >(e),
            }),
    {
        let n = op_n(op) as usize;
        let from = self.i as usize;
        if from + n > MEM_SIZE {
            return Err(CpuError::AddressOutOfBounds);
        }
        let x = self.v[op_x(op)];
        let y = self.v[op_y(op)];
        let ghost pre = self@;
        let ghost spr = pre.memory.subrange(from as int, from as int + n as int);
        let mut collision: u8 = 0;
        let mut row: usize = 0;
        while row < n
            invariant
                row <= n,
                n < 16,
                from + n <= MEM_SIZE,
                pre.wf(),
                x == pre.v[x_of(op)],
                y == pre.v[y_of(op)],
                spr == pre.memory.subrange(from as int, from as int + n as int),
                self@.screen.len() == SCREEN_CELLS,
                (CpuView { screen: self@.screen, ..pre }) == self@,
                forall|idx: int|
                    0 <= idx < SCREEN_CELLS ==> self@.screen[idx] == (if hit_before(
                        spr,
                        x,
                        y,
                        row as int,
                        0,
                        idx,
                    ) {
                        flip_cell(pre.screen[idx])
                    } else {
                        pre.screen[idx]
                    }),
                collision <= 1,
                (collision == 1) == collide_before(spr, x, y, pre.screen, row as int, 0),
            decreases n - row,
        {
            let sprite_byte = self.memory[from + row];
            proof {
                assert(sprite_byte == spr[row as int]);
            }
            let mut c: usize = 0;
            while c < 8
                invariant
                    c <= 8,
                    row < n,
                    n < 16,
                    from + n <= MEM_SIZE,
                    pre.wf(),
                    x == pre.v[x_of(op)],
                    y == pre.v[y_of(op)],
                    spr == pre.memory.subrange(from as int, from as int + n as int),
                    sprite_byte == spr[row as int],
                    self@.screen.len() == SCREEN_CELLS,
                    (CpuView { screen: self@.screen, ..pre }) == self@,
                    forall|idx: int|
                        0 <= idx < SCREEN_CELLS ==> self@.screen[idx] == (if hit_before(
                            spr,
                            x,
                            y,
                            row as int,
                            c as int,
                            idx,
                        ) {
                            flip_cell(pre.screen[idx])
                        } else {
                            pre.screen[idx]
                        }),
                    collision <= 1,
                    (collision == 1) == collide_before(spr, x, y, pre.screen, row as int, c as int),
                decreases 8 - c,
            {
                let py0 = (y as usize) % 32 + row;
                let py = if py0 >= 32 {
                    py0 - 32
                } else {
                    py0
                };
                let px0 = (x as usize) % 64 + c;
                let px = if px0 >= 64 {
                    px0 - 64
                } else {
                    px0
                };
                let idx = py * 64 + px;
                proof {
                    assert(py == wrap_row(y, row as int));
                    assert(px == wrap_col(x, c as int));
                    assert(idx == cell_index(x, y, row as int, c as int));
                    assert(0 <= wrap_row(y, row as int) < 32);
                    assert(0 <= wrap_col(x, c as int) < 64);
                    assert(idx < SCREEN_CELLS);
                }
                if sprite_byte & (0x80u8 >> (c as u8)) != 0 {
                    proof {
                        assert(sprite_bit(spr[row as int], c as int));
                        assert(!hit_before(spr, x, y, row as int, c as int, idx as int)) by {
                            lemma_no_earlier_hit(spr, x, y, row as int, c as int);
                        }
                        assert(self@.screen[idx as int] == pre.screen[idx as int]);
                    }
                    let cur = self.screen[idx];
                    if cur == 1 {
                        collision = 1;
                    }
                    self.screen.set(idx, if cur == 0 { 1 } else { 0 });
                    proof {
                        lemma_hit_extend(spr, x, y, row as int, c as int);
                        assert((collision == 1) == collide_before(
                            spr,
                            x,
                            y,
                            pre.screen,
                            row as int,
                            c as int + 1,
                        ));
                    }
                } else {
                    proof {
                        assert(!sprite_bit(spr[row as int], c as int));
                        lemma_hit_extend_unset(spr, x, y, row as int, c as int);
                    }
                }
                c += 1;
            }
            proof {
                lemma_hit_row_roll(spr, x, y, row as int);
            }
            row += 1;
        }
        proof {
            assert(forall|idx: int|
                0 <= idx < SCREEN_CELLS ==> hit_before(spr, x, y, n as int, 0, idx)
                    == sprite_hits(spr, x, y, idx));
            assert(collide_before(spr, x, y, pre.screen, n as int, 0) == draw_collides(
                pre.screen,
                spr,
                x,
                y,
            ));
        }
        self.v.set(15, collision);
        self.pc = self.pc + 2;
        proof {
            assert(self@.screen =~= draw_screen(pre.screen, spr, x, y));
            assert(self@ =~= step_dxxx(old(self)@, op)->Ok_0);
        }
        Ok(())
    }

    /// Overwrites the live key state before a cycle.
    pub fn set_key_state(&mut self, keys: &Vec<bool>)
        requires
            old(self)@.wf(),
            keys@.len() == NUM_KEYS,
        ensures
            final(self)@.wf(),
            final(self)@ == (CpuView { key_state: keys@, ..old(self)@ }),
    {
        let ghost pre = self@;
        let mut k: usize = 0;
        while k < NUM_KEYS
            invariant
                k <= NUM_KEYS,
                pre.wf(),
                keys@.len() == NUM_KEYS,
                self@.key_state.len() == NUM_KEYS,
                (CpuView { key_state: self@.key_state, ..pre }) == self@,
                forall|t: int|
                    0 <= t < NUM_KEYS ==> self@.key_state[t] == (if t < k {
                        keys@[t]
                    } else {
                        pre.key_state[t]
                    }),
            decreases NUM_KEYS - k,
        {
            let b = keys[k];
            self.key_state.set(k, b);
            k += 1;
        }
        proof {
            assert(self@.key_state =~= keys@);
            assert(self@ =~= CpuView { key_state: keys@, ..pre });
        }
    }

    /// The program counter.
    pub fn program_counter(&self) -> (r: usize)
        ensures
            r as int == self@.pc,
    {
        self.pc
    }

    /// The index register I.
    pub fn index_register(&self) -> (r: u16)
        ensures
            r as int == self@.i,
    {
        self.i
    }

    /// Register V[x].
    pub fn register(&self, x: usize) -> (r: u8)
        requires
            self@.wf(),
            x < NUM_REGS,
        ensures
            r == self@.v[x as int],
    {
        self.v[x]
    }

    /// The delay timer.
    pub fn delay(&self) -> (r: u8)
        ensures
            r == self@.delay_timer,
    {
        self.delay_timer
    }

    /// The sound timer.
    pub fn sound(&self) -> (r: u8)
        ensures
            r == self@.sound_timer,
    {
        self.sound_timer
    }

    /// One memory byte.
    pub fn memory_at(&self, addr: usize) -> (r: u8)
        requires
            self@.wf(),
            addr < MEM_SIZE,
        ensures
            r == self@.memory[addr as int],
    {
        self.memory[addr]
    }

    /// One framebuffer pixel, 0 or 1.
    pub fn pixel(&self, col: usize, row: usize) -> (r: u8)
        requires
            self@.wf(),
            col < SCREEN_WIDTH,
            row < SCREEN_HEIGHT,
        ensures
            r == self@.screen[row * 64 + col],
    {
        self.screen[row * 64 + col]
    }

    /// Whether the machine is blocked in the FX0A key wait.
    pub fn is_waiting_for_key(&self) -> (r: bool)
        ensures
            r == self@.waiting_for_key_press,
    {
        self.waiting_for_key_press
    }
}

/// Whether some set sprite bit strictly before row `rl`, or in row `rl`
/// before column `cl`, lands on cell `idx`.
spec fn hit_before(spr: Seq<u8>, x: u8, y: u8, rl: int, cl: int, idx: int) -> bool {
    exists|r: int, c: int|
        0 <= r < spr.len() && 0 <= c < 8 && (r < rl || (r == rl && c < cl)) && sprite_bit(
            spr[r],
            c,
        ) && #[trigger] cell_index(x, y, r, c) == idx
}

/// Whether some set sprite bit strictly before (`rl`, `cl`) lands on a cell
/// of `scr` that holds 1.
spec fn collide_before(
    spr: Seq<u8>,
    x: u8,
    y: u8,
    scr: Seq<u8>,
    rl: int,
    cl: int,
) -> bool {
    exists|r: int, c: int|
        0 <= r < spr.len() && 0 <= c < 8 && (r < rl || (r == rl && c < cl)) && sprite_bit(
            spr[r],
            c,
        ) && scr[#[trigger] cell_index(x, y, r, c)] == 1
}

/// Distinct sprite bits land on distinct framebuffer cells, because sprite
/// rows stay below the screen height and sprite columns below its width.
proof fn lemma_cell_index_injective(x: u8, y: u8, r1: int, c1: int, r2: int, c2: int)
    requires
        0 <= r1 < 32,
        0 <= c1 < 8,
        0 <= r2 < 32,
        0 <= c2 < 8,
        !(r1 == r2 && c1 == c2),
    ensures
        cell_index(x, y, r1, c1) != cell_index(x, y, r2, c2),
{
    assert(0 <= wrap_row(y, r1) < 32);
    assert(0 <= wrap_row(y, r2) < 32);
    assert(0 <= wrap_col(x, c1) < 64);
    assert(0 <= wrap_col(x, c2) < 64);
    if cell_index(x, y, r1, c1) == cell_index(x, y, r2, c2) {
        assert(wrap_row(y, r1) == wrap_row(y, r2) && wrap_col(x, c1) == wrap_col(x, c2));
        assert(r1 == r2);
        assert(c1 == c2);
    }
}

/// The bit at (`r`, `c`) does not land on a cell already touched by an
/// earlier bit.
proof fn lemma_no_earlier_hit(spr: Seq<u8>, x: u8, y: u8, r: int, c: int)
    requires
        spr.len() < 32,
        0 <= r < spr.len(),
        0 <= c < 8,
    ensures
        !hit_before(spr, x, y, r, c, cell_index(x, y, r, c)),
{
    assert forall|rr: int, cc: int|
        0 <= rr < spr.len() && 0 <= cc < 8 && (rr < r || (rr == r && cc < c)) implies #[trigger]
        cell_index(x, y, rr, cc) != cell_index(x, y, r, c) by {
        lemma_cell_index_injective(x, y, rr, cc, r, c);
    }
}

/// After handling a set bit at (`r`, `c`), the touched-cell description
/// extends from column bound `c` to `c + 1`.
proof fn lemma_hit_extend(spr: Seq<u8>, x: u8, y: u8, r: int, c: int)
    requires
        spr.len() < 32,
        0 <= r < spr.len(),
        0 <= c < 8,
        sprite_bit(spr[r], c),
    ensures
        forall|idx: int|
            hit_before(spr, x, y, r, c + 1, idx) == (hit_before(spr, x, y, r, c, idx) || idx
                == cell_index(x, y, r, c)),
        forall|scr: Seq<u8>|
            collide_before(spr, x, y, scr, r, c + 1) == (collide_before(spr, x, y, scr, r, c)
                || scr[cell_index(x, y, r, c)] == 1),
{
    assert forall|idx: int|
        hit_before(spr, x, y, r, c + 1, idx) == (hit_before(spr, x, y, r, c, idx) || idx
            == cell_index(x, y, r, c)) by {
        if hit_before(spr, x, y, r, c + 1, idx) {
            let (rr, cc) = choose|rr: int, cc: int|
                0 <= rr < spr.len() && 0 <= cc < 8 && (rr < r || (rr == r && cc < c + 1))
                    && sprite_bit(spr[rr], cc) && #[trigger] cell_index(x, y, rr, cc) == idx;
            if rr == r && cc == c {
                assert(idx == cell_index(x, y, r, c));
            } else {
                assert(hit_before(spr, x, y, r, c, idx));
            }
        }
        if hit_before(spr, x, y, r, c, idx) {
            assert(hit_before(spr, x, y, r, c + 1, idx));
        }
        if idx == cell_index(x, y, r, c) {
            assert(hit_before(spr, x, y, r, c + 1, idx));
        }
    }
    assert forall|scr: Seq<u8>|
        collide_before(spr, x, y, scr, r, c + 1) == (collide_before(spr, x, y, scr, r, c)
            || scr[cell_index(x, y, r, c)] == 1) by {
        if collide_before(spr, x, y, scr, r, c + 1) {
            let (rr, cc) = choose|rr: int, cc: int|
                0 <= rr < spr.len() && 0 <= cc < 8 && (rr < r || (rr == r && cc < c + 1))
                    && sprite_bit(spr[rr], cc) && scr[#[trigger] cell_index(x, y, rr, cc)] == 1;
            if rr == r && cc == c {
                assert(scr[cell_index(x, y, r, c)] == 1);
            } else {
                assert(collide_before(spr, x, y, scr, r, c));
            }
        }
        if collide_before(spr, x, y, scr, r, c) {
            assert(collide_before(spr, x, y, scr, r, c + 1));
        }
        if scr[cell_index(x, y, r, c)] == 1 {
            assert(collide_before(spr, x, y, scr, r, c + 1));
        }
    }
}

/// Passing an unset bit leaves the touched-cell description unchanged.
proof fn lemma_hit_extend_unset(spr: Seq<u8>, x: u8, y: u8, r: int, c: int)
    requires
        0 <= r < spr.len(),
        0 <= c < 8,
        !sprite_bit(spr[r], c),
    ensures
        forall|idx: int| hit_before(spr, x, y, r, c + 1, idx) == hit_before(spr, x, y, r, c, idx),
        forall|scr: Seq<u8>|
            collide_before(spr, x, y, scr, r, c + 1) == collide_before(spr, x, y, scr, r, c),
{
    assert forall|idx: int|
        hit_before(spr, x, y, r, c + 1, idx) == hit_before(spr, x, y, r, c, idx) by {
        if hit_before(spr, x, y, r, c + 1, idx) {
            let (rr, cc) = choose|rr: int, cc: int|
                0 <= rr < spr.len() && 0 <= cc < 8 && (rr < r || (rr == r && cc < c + 1))
                    && sprite_bit(spr[rr], cc) && #[trigger] cell_index(x, y, rr, cc) == idx;
            assert(!(rr == r && cc == c));
            assert(hit_before(spr, x, y, r, c, idx));
        }
        if hit_before(spr, x, y, r, c, idx) {
            assert(hit_before(spr, x, y, r, c + 1, idx));
        }
    }
    assert forall|scr: Seq<u8>|
        collide_before(spr, x, y, scr, r, c + 1) == collide_before(spr, x, y, scr, r, c) by {
        if collide_before(spr, x, y, scr, r, c + 1) {
            let (rr, cc) = choose|rr: int, cc: int|
                0 <= rr < spr.len() && 0 <= cc < 8 && (rr < r || (rr == r && cc < c + 1))
                    && sprite_bit(spr[rr], cc) && scr[#[trigger] cell_index(x, y, rr, cc)] == 1;
            assert(!(rr == r && cc == c));
            assert(collide_before(spr, x, y, scr, r, c));
        }
        if collide_before(spr, x, y, scr, r, c) {
            assert(collide_before(spr, x, y, scr, r, c + 1));
        }
    }
}

/// A full row processed: bound (`r`, 8) is the same as bound (`r + 1`, 0).
proof fn lemma_hit_row_roll(spr: Seq<u8>, x: u8, y: u8, r: int)
    requires
        0 <= r,
    ensures
        forall|idx: int| hit_before(spr, x, y, r, 8, idx) == hit_before(spr, x, y, r + 1, 0, idx),
        forall|scr: Seq<u8>|
            collide_before(spr, x, y, scr, r, 8) == collide_before(spr, x, y, scr, r + 1, 0),
{
    assert forall|idx: int|
        hit_before(spr, x, y, r, 8, idx) == hit_before(spr, x, y, r + 1, 0, idx) by {
        if hit_before(spr, x, y, r, 8, idx) {
            assert(hit_before(spr, x, y, r + 1, 0, idx));
        }
        if hit_before(spr, x, y, r + 1, 0, idx) {
            let (rr, cc) = choose|rr: int, cc: int|
                0 <= rr < spr.len() && 0 <= cc < 8 && rr < r + 1 && sprite_bit(spr[rr], cc)
                    && #[trigger] cell_index(x, y, rr, cc) == idx;
            assert(rr < r || (rr == r && cc < 8));
            assert(hit_before(spr, x, y, r, 8, idx));
        }
    }
    assert forall|scr: Seq<u8>|
        collide_before(spr, x, y, scr, r, 8) == collide_before(spr, x, y, scr, r + 1, 0) by {
        if collide_before(spr, x, y, scr, r, 8) {
            assert(collide_before(spr, x, y, scr, r + 1, 0));
        }
        if collide_before(spr, x, y, scr, r + 1, 0) {
            let (rr, cc) = choose|rr: int, cc: int|
                0 <= rr < spr.len() && 0 <= cc < 8 && rr < r + 1 && sprite_bit(spr[rr], cc)
                    && scr[#[trigger] cell_index(x, y, rr, cc)] == 1;
            assert(rr < r || (rr == r && cc < 8));
            assert(collide_before(spr, x, y, scr, r, 8));
        }
    }
}

} // verus!
