//! The CHIP-8 machine state: memory, register file, call stack, display
//! buffer, key flags and the two countdown timers, together with its
//! well-formedness invariant, creation and program loading.

use vstd::prelude::*;
use crate::font::{spec_font_byte, font_byte, FONT_BYTES};

verus! {

/// Bytes of addressable memory.
pub const MEM_SIZE: usize = 4096;
/// Address at which a loaded program starts, and the initial program counter.
pub const PROGRAM_START: usize = 0x200;
/// Largest program image that fits between `PROGRAM_START` and the end of memory.
pub const MAX_PROGRAM_BYTES: usize = 3584;
/// Display width in pixels.
pub const DISPLAY_WIDTH: usize = 64;
/// Display height in pixels.
pub const DISPLAY_HEIGHT: usize = 32;
/// Number of pixels in the display buffer.
pub const DISPLAY_PIXELS: usize = 2048;
/// Number of general-purpose registers.
pub const NUM_REGISTERS: usize = 16;
/// Depth of the call stack.
pub const STACK_DEPTH: usize = 16;
/// Number of keys on the keypad.
pub const NUM_KEYS: usize = 16;

/// Why an operation on the machine could not complete. Every variant is
/// fatal: continuing past it would corrupt the machine state unpredictably.
#[derive(Clone, Copy, Debug, PartialEq, Eq, Structural)]
pub enum Chip8Error {
    /// A memory access — the fetch itself, a sprite row read, or a register
    /// store/load/BCD write addressed through the index register — fell
    /// outside the 4096-byte memory, or a key index exceeded the keypad.
    OutOfBounds,
    /// A call instruction ran with the call stack already full.
    StackOverflow,
    /// A return instruction ran with the call stack empty.
    StackUnderflow,
    /// A program image larger than the space above the program start.
    ProgramTooLarge,
}

/// The mathematical model of a machine: one field per machine component,
/// each collection a sequence.
#[verifier::ext_equal]
pub ghost struct State {
    pub memory: Seq<u8>,
    pub v: Seq<u8>,
    pub i: u16,
    pub pc: u16,
    pub gfx: Seq<u8>,
    pub delay_timer: u8,
    pub sound_timer: u8,
    pub stack: Seq<u16>,
    pub sp: u16,
    pub keys: Seq<bool>,
}

impl State {
    /// Every collection has its fixed size, the stack pointer is in range,
    /// and every pixel is 0 or 1.
    pub open spec fn wf(self) -> bool {
        &&& self.memory.len() == MEM_SIZE
        &&& self.v.len() == NUM_REGISTERS
        &&& self.gfx.len() == DISPLAY_PIXELS
        &&& self.stack.len() == STACK_DEPTH
        &&& self.keys.len() == NUM_KEYS
        &&& self.sp <= STACK_DEPTH
        &&& forall|j: int| 0 <= j < DISPLAY_PIXELS ==> self.gfx[j] <= 1
    }

    /// The state of a freshly created machine: memory zeroed except for the
    /// font block, all registers, stack entries, keys and timers cleared,
    /// program counter at `PROGRAM_START`.
    pub open spec fn initial() -> State {
        State {
            memory: Seq::new(MEM_SIZE as nat, |j: int| if j < FONT_BYTES { spec_font_byte(j) } else { 0u8 }),
            v: Seq::new(NUM_REGISTERS as nat, |j: int| 0u8),
            i: 0,
            pc: PROGRAM_START as u16,
            gfx: Seq::new(DISPLAY_PIXELS as nat, |j: int| 0u8),
            delay_timer: 0,
            sound_timer: 0,
            stack: Seq::new(STACK_DEPTH as nat, |j: int| 0u16),
            sp: 0,
            keys: Seq::new(NUM_KEYS as nat, |j: int| false),
        }
    }
}

/// Memory with the program image `rom` placed at `PROGRAM_START`.
pub open spec fn loaded_memory(mem: Seq<u8>, rom: Seq<u8>) -> Seq<u8> {
    Seq::new(mem.len(), |j: int|
        if PROGRAM_START <= j < PROGRAM_START + rom.len() { rom[j - PROGRAM_START] } else { mem[j] }
    )
}

/// The machine itself. The host owns it exclusively; between cycles it may
/// write the key flags and read the display buffer and timers.
pub struct Chip8 {
    pub memory: Vec<u8>,
    pub v: Vec<u8>,
    pub i: u16,
    pub pc: u16,
    pub gfx: Vec<u8>,
    pub delay_timer: u8,
    pub sound_timer: u8,
    pub stack: Vec<u16>,
    pub sp: u16,
    pub keys: Vec<bool>,
}

impl View for Chip8 {
    type V = State;

    open spec fn view(&self) -> State {
        State {
            memory: self.memory@,
            v: self.v@,
            i: self.i,
            pc: self.pc,
            gfx: self.gfx@,
            delay_timer: self.delay_timer,
            sound_timer: self.sound_timer,
            stack: self.stack@,
            sp: self.sp,
            keys: self.keys@,
        }
    }
}

/// A vector of `n` copies of `val`.
fn filled_u8(n: usize, val: u8) -> (v: Vec<u8>)
    ensures
        v@ =~= Seq::new(n as nat, |j: int| val),
{
    let mut v: Vec<u8> = Vec::new();
    let mut j: usize = 0;
    while j < n
        invariant
            j <= n,
            v@.len() == j,
            forall|m: int| 0 <= m < j ==> v@[m] == val,
        decreases n - j,
    {
        v.push(val);
        j += 1;
    }
    v
}

impl Chip8 {
    /// The machine is well formed.
    pub open spec fn wf(self) -> bool {
        self@.wf()
    }

    /// Create a machine in its power-on state: cleared registers, stack,
    /// display, keys and timers; the font block at the bottom of memory;
    /// program counter at `PROGRAM_START`.
    pub fn initialize() -> (m: Chip8)
        ensures
            m.wf(),
            m@ =~= State::initial(),
    {
        let mut memory = filled_u8(MEM_SIZE, 0);
        let mut j: usize = 0;
        while j < FONT_BYTES
            invariant
                j <= FONT_BYTES,
                memory@.len() == MEM_SIZE,
                forall|m: int| 0 <= m < j ==> memory@[m] == spec_font_byte(m),
                forall|m: int| j <= m < MEM_SIZE ==> memory@[m] == 0u8,
            decreases FONT_BYTES - j,
        {
            let b = font_byte(j);
            memory.set(j, b);
            j += 1;
        }

        let v = filled_u8(NUM_REGISTERS, 0);
        let gfx = filled_u8(DISPLAY_PIXELS, 0);
        let keys: Vec<bool> = vec![false; NUM_KEYS];
        let mut stack: Vec<u16> = Vec::new();
        let mut j2: usize = 0;
        while j2 < STACK_DEPTH
            invariant
                j2 <= STACK_DEPTH,
                stack@.len() == j2,
                forall|m: int| 0 <= m < j2 ==> stack@[m] == 0u16,
            decreases STACK_DEPTH - j2,
        {
            stack.push(0);
            j2 += 1;
        }

        Chip8 {
            memory,
            v,
            i: 0,
            pc: PROGRAM_START as u16,
            gfx,
            delay_timer: 0,
            sound_timer: 0,
            stack,
            sp: 0,
            keys,
        }
    }

    /// Load a program image verbatim at `PROGRAM_START`. An image larger
    /// than the space above the program start is rejected whole, leaving
    /// the machine untouched.
    pub fn load_rom(&mut self, rom: &Vec<u8>) -> (res: Result<(), Chip8Error>)
        requires
            old(self).wf(),
        ensures
            final(self).wf(),
            rom@.len() > MAX_PROGRAM_BYTES ==> res == Result::<(), Chip8Error>::Err(Chip8Error::ProgramTooLarge)
                && final(self)@ == old(self)@,
            rom@.len() <= MAX_PROGRAM_BYTES ==> res == Result::<(), Chip8Error>::Ok(())
                && final(self)@ == (State { memory: loaded_memory(old(self)@.memory, rom@), ..old(self)@ }),
    {
        if rom.len() > MAX_PROGRAM_BYTES {
            return Err(Chip8Error::ProgramTooLarge);
        }
        let ghost s0 = self@;
        let mut j: usize = 0;
        while j < rom.len()
            invariant
                j <= rom@.len(),
                rom@.len() <= MAX_PROGRAM_BYTES,
                self.memory@.len() == MEM_SIZE,
                forall|m: int| PROGRAM_START <= m < PROGRAM_START + j ==> self.memory@[m] == rom@[m - PROGRAM_START],
                forall|m: int| 0 <= m < MEM_SIZE && !(PROGRAM_START <= m < PROGRAM_START + j) ==> self.memory@[m] == s0.memory[m],
                self.v@ == s0.v,
                self.i == s0.i,
                self.pc == s0.pc,
                self.gfx@ == s0.gfx,
                self.delay_timer == s0.delay_timer,
                self.sound_timer == s0.sound_timer,
                self.stack@ == s0.stack,
                self.sp == s0.sp,
                self.keys@ == s0.keys,
            decreases rom@.len() - j,
        {
            let b = rom[j];
            self.memory.set(PROGRAM_START + j, b);
            j += 1;
        }
        proof {
            assert(self.memory@ =~= loaded_memory(s0.memory, rom@));
            assert(self@ =~= (State { memory: loaded_memory(s0.memory, rom@), ..s0 }));
        }
        Ok(())
    }

    /// Record that key `code` is now held or released.
    pub fn set_key(&mut self, code: u8, held: bool)
        requires
            old(self).wf(),
            code < 16,
        ensures
            final(self).wf(),
            final(self)@ == (State { keys: old(self)@.keys.update(code as int, held), ..old(self)@ }),
    {
        self.keys.set(code as usize, held);
        proof {
            assert(self@ =~= (State { keys: old(self)@.keys.update(code as int, held), ..old(self)@ }));
        }
    }
}

} // verus!
