//! The mathematical model of the machine: the state image that contracts
//! speak of, the well-formedness predicate, and the instruction-field
//! decoding functions.

use vstd::prelude::*;

verus! {

/// Number of addressable memory bytes.
pub const MEM_SIZE: usize = 4096;

/// Lowest address at which a program image is placed.
pub const PROGRAM_START: usize = 512;

/// Framebuffer width in pixels.
pub const SCREEN_WIDTH: usize = 64;

/// Framebuffer height in pixels.
pub const SCREEN_HEIGHT: usize = 32;

/// Number of framebuffer cells.
pub const SCREEN_CELLS: usize = 2048;

/// Number of general-purpose registers.
pub const NUM_REGS: usize = 16;

/// Number of call-stack slots.
pub const STACK_DEPTH: usize = 16;

/// Number of keys on the keypad.
pub const NUM_KEYS: usize = 16;

/// Conditions under which a single instruction step reports an error
/// instead of changing the machine.  A corrupted or exotic program should
/// not crash the host process, so every such condition is surfaced to the
/// caller and leaves the state untouched.
#[derive(Clone, Copy, Debug, PartialEq, Eq, Structural)]
pub enum CpuError {
    /// The program counter does not leave room for a two-byte fetch.
    FetchOutOfBounds,
    /// The instruction word matches no defined opcode family or sub-case.
    UnknownOpcode,
    /// A subroutine call was made with all sixteen stack slots in use.
    StackOverflow,
    /// A subroutine return was executed with no call frame on the stack.
    StackUnderflow,
    /// A memory access derived from the index register runs past memory's end.
    AddressOutOfBounds,
    /// A key test named a key index outside the sixteen keys.
    KeyOutOfRange,
}

/// Mathematical image of the whole machine state.
#[verifier::ext_equal]
pub struct CpuView {
    /// The sixteen 8-bit registers V0..VF.
    pub v: Seq<u8>,
    /// The 16-bit index register I.
    pub i: int,
    /// The program counter.
    pub pc: int,
    /// The 4096 bytes of memory.
    pub memory: Seq<u8>,
    /// The framebuffer, row-major: cell (col, row) sits at `row * 64 + col`.
    pub screen: Seq<u8>,
    /// The sixteen return-address slots.
    pub stack: Seq<u16>,
    /// The stack pointer: the number of slots in use.
    pub sp: int,
    /// The delay timer.
    pub delay_timer: u8,
    /// The sound timer.
    pub sound_timer: u8,
    /// The live key state, indexed by key code.
    pub key_state: Seq<bool>,
    /// The key-state snapshot taken while blocked on a key press.
    pub prev_key_state: Seq<bool>,
    /// Whether the machine is blocked waiting for a key press.
    pub waiting_for_key_press: bool,
}

impl CpuView {
    /// Every machine the library hands out satisfies this shape invariant.
    pub open spec fn wf(self) -> bool {
        &&& self.v.len() == NUM_REGS
        &&& self.memory.len() == MEM_SIZE
        &&& self.screen.len() == SCREEN_CELLS
        &&& self.stack.len() == STACK_DEPTH
        &&& self.key_state.len() == NUM_KEYS
        &&& self.prev_key_state.len() == NUM_KEYS
        &&& 0 <= self.sp <= STACK_DEPTH
        &&& 0 <= self.i < 0x10000
        &&& 0 <= self.pc <= 0x10001
        &&& forall|p: int| 0 <= p < SCREEN_CELLS ==> #[trigger] self.screen[p] <= 1
    }

    /// The machine as `new()` builds it: everything zero except the font
    /// table at the bottom of memory and the program counter at 0x200.
    pub open spec fn initial() -> CpuView {
        CpuView {
            v: Seq::new(NUM_REGS as nat, |j: int| 0u8),
            i: 0,
            pc: PROGRAM_START as int,
            memory: Seq::new(
                MEM_SIZE as nat,
                |k: int| if k < 80 { crate::font::font_image()[k] } else { 0u8 },
            ),
            screen: Seq::new(SCREEN_CELLS as nat, |p: int| 0u8),
            stack: Seq::new(STACK_DEPTH as nat, |j: int| 0u16),
            sp: 0,
            delay_timer: 0,
            sound_timer: 0,
            key_state: Seq::new(NUM_KEYS as nat, |j: int| false),
            prev_key_state: Seq::new(NUM_KEYS as nat, |j: int| false),
            waiting_for_key_press: false,
        }
    }
}

/// Top nibble of an instruction word: the opcode family.
pub open spec fn fam_of(op: u16) -> int {
    op as int / 0x1000
}

/// The X field, bits 8..12: a register index.
pub open spec fn x_of(op: u16) -> int {
    (op as int / 0x100) % 0x10
}

/// The Y field, bits 4..8: a register index.
pub open spec fn y_of(op: u16) -> int {
    (op as int / 0x10) % 0x10
}

/// The N field, bits 0..4: a nibble literal.
pub open spec fn n_of(op: u16) -> int {
    op as int % 0x10
}

/// The NN field, bits 0..8: a byte literal.
pub open spec fn nn_of(op: u16) -> int {
    op as int % 0x100
}

/// The NNN field, bits 0..12: an address literal.
pub open spec fn nnn_of(op: u16) -> int {
    op as int % 0x1000
}

} // verus!
