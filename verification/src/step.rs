//! One interpreter cycle: fetch, decode, execute, then tick the timers.
//!
//! The whole effect of a cycle is pinned down by the specification-level
//! transition function [`step`]: `Chip8::cycle_with` is proved to leave the
//! machine in exactly `step(old_state, r).post` and to return exactly
//! `step(old_state, r).out`, where `r` is the byte consulted by the random
//! instruction. `Chip8::cycle` draws that byte from the host's entropy
//! source.

use vstd::prelude::*;
use crate::machine::{State, Chip8, Chip8Error, MEM_SIZE, NUM_REGISTERS, DISPLAY_PIXELS, STACK_DEPTH, NUM_KEYS};
use crate::sprite::{draw_gfx, draw_collision, draw_sprite};
use vstd::wrapping::{u8_specs, u16_specs};

verus! {

/// What a completed cycle did, beyond mutating the machine.
#[derive(Clone, Copy, Debug, PartialEq, Eq, Structural)]
pub enum CycleOutcome {
    /// The fetched instruction ran and the timers ticked. `beep` reports the
    /// sound timer's transition from 1 to 0 on this cycle; `unknown_opcode`
    /// reports an unrecognized instruction, which changed nothing beyond the
    /// generic program-counter advance.
    Ran { beep: bool, unknown_opcode: bool },
    /// The wait-for-key instruction found no key held: the machine, its
    /// program counter and its timers are exactly as before the cycle, so
    /// the same instruction is re-presented next cycle.
    AwaitingKey,
}

/// Result of the transition function: what the cycle returns, and the state
/// it leaves behind.
#[verifier::ext_equal]
pub ghost struct StepResult {
    pub out: Result<CycleOutcome, Chip8Error>,
    pub post: State,
}

/// Result of executing one decoded instruction, before the timers tick.
#[verifier::ext_equal]
pub ghost struct InstrResult {
    pub err: Option<Chip8Error>,
    pub post: State,
    pub unknown: bool,
    pub blocked: bool,
}

/// The 16-bit instruction at the program counter: high byte first.
pub open spec fn fetch(s: State) -> u16 {
    ((s.memory[s.pc as int] as int) * 0x100 + (s.memory[s.pc as int + 1] as int)) as u16
}

/// High nibble: the opcode family.
pub open spec fn op_fam(op: u16) -> int {
    op as int / 0x1000
}

/// Second nibble: the first register operand.
pub open spec fn op_x(op: u16) -> int {
    (op as int / 0x100) % 0x10
}

/// Third nibble: the second register operand.
pub open spec fn op_y(op: u16) -> int {
    (op as int / 0x10) % 0x10
}

/// Low nibble.
pub open spec fn op_n(op: u16) -> int {
    op as int % 0x10
}

/// Low byte.
pub open spec fn op_kk(op: u16) -> u8 {
    (op as int % 0x100) as u8
}

/// Low 12 bits: an address operand.
pub open spec fn op_nnn(op: u16) -> u16 {
    (op as int % 0x1000) as u16
}

/// The generic advance: program counter moved past one instruction.
pub open spec fn adv(s: State) -> State {
    State { pc: ((s.pc as int + 2) % 0x10000) as u16, ..s }
}

/// An instruction that completed normally.
pub open spec fn done(s: State) -> InstrResult {
    InstrResult { err: None, post: s, unknown: false, blocked: false }
}

/// An unrecognized instruction: no state change beyond the generic advance,
/// reported as a diagnostic.
pub open spec fn unknown_op(s: State) -> InstrResult {
    InstrResult { err: None, post: adv(s), unknown: true, blocked: false }
}

/// A fatal condition: the machine is left untouched.
pub open spec fn fail(s: State, e: Chip8Error) -> InstrResult {
    InstrResult { err: Some(e), post: s, unknown: false, blocked: false }
}

/// Lowest-indexed held key at or after position `j`, or 16 when none.
pub open spec fn first_key_from(keys: Seq<bool>, j: int) -> int
    decreases 16 - j when 0 <= j <= 16
{
    if j < 0 || j >= 16 {
        16
    } else if keys[j] {
        j
    } else {
        first_key_from(keys, j + 1)
    }
}

/// Lowest-indexed held key, or 16 when none is held.
pub open spec fn first_key(keys: Seq<bool>) -> int {
    first_key_from(keys, 0)
}

/// Memory after storing registers 0 through `x` at addresses `i` onward.
pub open spec fn store_regs(mem: Seq<u8>, v: Seq<u8>, i: int, x: int) -> Seq<u8> {
    Seq::new(mem.len(), |j: int| if i <= j <= i + x { v[j - i] } else { mem[j] })
}

/// Registers after loading 0 through `x` from addresses `i` onward.
pub open spec fn load_regs(v: Seq<u8>, mem: Seq<u8>, i: int, x: int) -> Seq<u8> {
    Seq::new(v.len(), |j: int| if j <= x { mem[i + j] } else { v[j] })
}

/// The arithmetic/logic family (high nibble 8), selected by the low nibble.
/// The flag register is written before the destination, as the hardware
/// quirk demands, so an instruction naming register 15 as destination
/// overwrites the flag it just produced.
pub open spec fn alu_instr(s: State, x: int, y: int, sub: int) -> InstrResult {
    if sub == 0x0 {
        done(adv(State { v: s.v.update(x, s.v[y]), ..s }))
    } else if sub == 0x1 {
        done(adv(State { v: s.v.update(x, s.v[x] | s.v[y]), ..s }))
    } else if sub == 0x2 {
        done(adv(State { v: s.v.update(x, s.v[x] & s.v[y]), ..s }))
    } else if sub == 0x3 {
        done(adv(State { v: s.v.update(x, s.v[x] ^ s.v[y]), ..s }))
    } else if sub == 0x4 {
        let sum = s.v[x] as int + s.v[y] as int;
        let v1 = s.v.update(0xF, if sum > 255 { 1u8 } else { 0u8 });
        done(adv(State { v: v1.update(x, (sum % 0x100) as u8), ..s }))
    } else if sub == 0x5 {
        let v1 = s.v.update(0xF, if s.v[x] > s.v[y] { 1u8 } else { 0u8 });
        done(adv(State { v: v1.update(x, u8_specs::wrapping_sub(v1[x], v1[y])), ..s }))
    } else if sub == 0x6 {
        let v1 = s.v.update(0xF, (s.v[x] as int % 2) as u8);
        done(adv(State { v: v1.update(x, v1[x] / 2), ..s }))
    } else if sub == 0x7 {
        let v1 = s.v.update(0xF, if s.v[y] > s.v[x] { 1u8 } else { 0u8 });
        done(adv(State { v: v1.update(x, u8_specs::wrapping_sub(v1[y], v1[x])), ..s }))
    } else if sub == 0xE {
        let v1 = s.v.update(0xF, if s.v[x] >= 0x80 { 1u8 } else { 0u8 });
        done(adv(State { v: v1.update(x, ((v1[x] as int * 2) % 0x100) as u8), ..s }))
    } else {
        unknown_op(s)
    }
}

/// The miscellaneous family (high nibble 0xF), selected by the low byte.
pub open spec fn misc_instr(s: State, x: int, sub: int) -> InstrResult {
    if sub == 0x07 {
        done(adv(State { v: s.v.update(x, s.delay_timer), ..s }))
    } else if sub == 0x0A {
        let k = first_key(s.keys);
        if k == 16 {
            InstrResult { err: None, post: s, unknown: false, blocked: true }
        } else {
            done(adv(State { v: s.v.update(x, k as u8), ..s }))
        }
    } else if sub == 0x15 {
        done(adv(State { delay_timer: s.v[x], ..s }))
    } else if sub == 0x18 {
        done(adv(State { sound_timer: s.v[x], ..s }))
    } else if sub == 0x1E {
        done(adv(State { i: u16_specs::wrapping_add(s.i, s.v[x] as u16), ..s }))
    } else if sub == 0x29 {
        if s.v[x] < 16 {
            done(adv(State { i: (s.v[x] * 5) as u16, ..s }))
        } else {
            done(adv(s))
        }
    } else if sub == 0x33 {
        if s.i as int + 3 > MEM_SIZE {
            fail(s, Chip8Error::OutOfBounds)
        } else {
            let m1 = s.memory.update(s.i as int, s.v[x] / 100);
            let m2 = m1.update(s.i as int + 1, (s.v[x] / 10) % 10);
            let m3 = m2.update(s.i as int + 2, s.v[x] % 10);
            done(adv(State { memory: m3, ..s }))
        }
    } else if sub == 0x55 {
        if s.i as int + x + 1 > MEM_SIZE {
            fail(s, Chip8Error::OutOfBounds)
        } else {
            done(adv(State { memory: store_regs(s.memory, s.v, s.i as int, x), ..s }))
        }
    } else if sub == 0x65 {
        if s.i as int + x + 1 > MEM_SIZE {
            fail(s, Chip8Error::OutOfBounds)
        } else {
            done(adv(State { v: load_regs(s.v, s.memory, s.i as int, x), ..s }))
        }
    } else {
        unknown_op(s)
    }
}

/// Execute one fetched instruction `op` against state `s`; `r` is the byte
/// the random instruction consults. Timers are not touched here.
pub open spec fn exec_instr(s: State, op: u16, r: u8) -> InstrResult {
    let fam = op_fam(op);
    let x = op_x(op);
    let y = op_y(op);
    let n = op_n(op);
    let kk = op_kk(op);
    let nnn = op_nnn(op);
    if fam == 0x0 {
        if op == 0x00E0 {
            done(adv(State { gfx: Seq::new(DISPLAY_PIXELS as nat, |j: int| 0u8), ..s }))
        } else if op == 0x00EE {
            if s.sp == 0 {
                fail(s, Chip8Error::StackUnderflow)
            } else {
                done(State {
                    pc: u16_specs::wrapping_add(s.stack[s.sp as int - 1], 2),
                    sp: (s.sp - 1) as u16,
                    ..s
                })
            }
        } else {
            unknown_op(s)
        }
    } else if fam == 0x1 {
        done(State { pc: nnn, ..s })
    } else if fam == 0x2 {
        if s.sp as int >= STACK_DEPTH {
            fail(s, Chip8Error::StackOverflow)
        } else {
            done(State {
                stack: s.stack.update(s.sp as int, s.pc),
                sp: (s.sp + 1) as u16,
                pc: nnn,
                ..s
            })
        }
    } else if fam == 0x3 {
        if s.v[x] == kk { done(adv(adv(s))) } else { done(adv(s)) }
    } else if fam == 0x4 {
        if s.v[x] != kk { done(adv(adv(s))) } else { done(adv(s)) }
    } else if fam == 0x5 {
        if s.v[x] == s.v[y] { done(adv(adv(s))) } else { done(adv(s)) }
    } else if fam == 0x6 {
        done(adv(State { v: s.v.update(x, kk), ..s }))
    } else if fam == 0x7 {
        done(adv(State { v: s.v.update(x, u8_specs::wrapping_add(s.v[x], kk)), ..s }))
    } else if fam == 0x8 {
        alu_instr(s, x, y, n)
    } else if fam == 0x9 {
        if s.v[x] != s.v[y] { done(adv(adv(s))) } else { done(adv(s)) }
    } else if fam == 0xA {
        done(adv(State { i: nnn, ..s }))
    } else if fam == 0xB {
        done(State { pc: (nnn + s.v[0]) as u16, ..s })
    } else if fam == 0xC {
        done(adv(State { v: s.v.update(x, r & kk), ..s }))
    } else if fam == 0xD {
        if s.i as int + n > MEM_SIZE {
            fail(s, Chip8Error::OutOfBounds)
        } else {
            let coll = draw_collision(s.gfx, s.memory, s.i as int, s.v[x] as int, s.v[y] as int, n);
            done(adv(State {
                gfx: draw_gfx(s.gfx, s.memory, s.i as int, s.v[x] as int, s.v[y] as int, n),
                v: s.v.update(0xF, if coll { 1u8 } else { 0u8 }),
                ..s
            }))
        }
    } else if fam == 0xE {
        if kk == 0x9E {
            if s.v[x] as int >= NUM_KEYS {
                fail(s, Chip8Error::OutOfBounds)
            } else if s.keys[s.v[x] as int] {
                done(adv(adv(s)))
            } else {
                done(adv(s))
            }
        } else if kk == 0xA1 {
            if s.v[x] as int >= NUM_KEYS {
                fail(s, Chip8Error::OutOfBounds)
            } else if !s.keys[s.v[x] as int] {
                done(adv(adv(s)))
            } else {
                done(adv(s))
            }
        } else {
            unknown_op(s)
        }
    } else {
        misc_instr(s, x, kk as int)
    }
}

/// Both timers counted down by one where nonzero.
pub open spec fn tick_timers(s: State) -> State {
    State {
        delay_timer: if s.delay_timer > 0 { (s.delay_timer - 1) as u8 } else { 0u8 },
        sound_timer: if s.sound_timer > 0 { (s.sound_timer - 1) as u8 } else { 0u8 },
        ..s
    }
}

/// One whole interpreter cycle: fetch the instruction under the program
/// counter, execute it, and — unless it blocked on the key wait or hit a
/// fatal condition — tick both timers, reporting a beep when the sound
/// timer ran out on this cycle.
pub open spec fn step(s: State, r: u8) -> StepResult {
    if s.pc as int + 1 >= MEM_SIZE {
        StepResult { out: Err(Chip8Error::OutOfBounds), post: s }
    } else {
        let ir = exec_instr(s, fetch(s), r);
        match ir.err {
            Some(e) => StepResult { out: Err(e), post: s },
            None => {
                if ir.blocked {
                    StepResult { out: Ok(CycleOutcome::AwaitingKey), post: s }
                } else {
                    StepResult {
                        out: Ok(CycleOutcome::Ran {
                            beep: ir.post.sound_timer == 1,
                            unknown_opcode: ir.unknown,
                        }),
                        post: tick_timers(ir.post),
                    }
                }
            },
        }
    }
}

impl Chip8 {
    /// Run one cycle whose random instruction, if executed, consults the
    /// byte `r`: the machine moves to exactly `step(old, r).post` and the
    /// call returns exactly `step(old, r).out`. Deterministic, so suited to
    /// replay; `cycle` supplies entropy instead.
    #[verifier::rlimit(100)]
    pub fn cycle_with(&mut self, r: u8) -> (out: Result<CycleOutcome, Chip8Error>)
        requires
            old(self).wf(),
        ensures
            final(self).wf(),
            out == step(old(self)@, r).out,
            final(self)@ == step(old(self)@, r).post,
    {
        let ghost s0 = self@;
        if self.pc >= (MEM_SIZE - 1) as u16 {
            return Err(Chip8Error::OutOfBounds);
        }
        let pc = self.pc as usize;
        let op: u16 = (self.memory[pc] as u16) * 0x100 + (self.memory[pc + 1] as u16);
        proof {
            assert(op == fetch(s0));
        }
        let fam = op / 0x1000;
        let x = ((op / 0x100) % 0x10) as usize;
        let y = ((op / 0x10) % 0x10) as usize;
        let n = (op % 0x10) as usize;
        let kk = (op % 0x100) as u8;
        let nnn = op % 0x1000;
        let mut unknown = false;

        if fam == 0x0 {
            if op == 0x00E0 {
                let mut j: usize = 0;
                while j < DISPLAY_PIXELS
                    invariant
                        j <= DISPLAY_PIXELS,
                        self.gfx@.len() == DISPLAY_PIXELS,
                        forall|m: int| 0 <= m < j ==> self.gfx@[m] == 0u8,
                        self.memory@ == s0.memory,
                        self.v@ == s0.v,
                        self.i == s0.i,
                        self.pc == s0.pc,
                        self.delay_timer == s0.delay_timer,
                        self.sound_timer == s0.sound_timer,
                        self.stack@ == s0.stack,
                        self.sp == s0.sp,
                        self.keys@ == s0.keys,
                    decreases DISPLAY_PIXELS - j,
                {
                    self.gfx.set(j, 0);
                    j += 1;
                }
                proof {
                    assert(self.gfx@ =~= Seq::new(DISPLAY_PIXELS as nat, |m: int| 0u8));
                }
                self.pc += 2;
            } else if op == 0x00EE {
                if self.sp == 0 {
                    return Err(Chip8Error::StackUnderflow);
                }
                self.sp -= 1;
                self.pc = self.stack[self.sp as usize].wrapping_add(2);
            } else {
                unknown = true;
                self.pc += 2;
            }
        } else if fam == 0x1 {
            self.pc = nnn;
        } else if fam == 0x2 {
            if self.sp as usize >= STACK_DEPTH {
                return Err(Chip8Error::StackOverflow);
            }
            self.stack.set(self.sp as usize, self.pc);
            self.sp += 1;
            self.pc = nnn;
        } else if fam == 0x3 {
            if self.v[x] == kk {
                self.pc += 2;
            }
            self.pc += 2;
        } else if fam == 0x4 {
            if self.v[x] != kk {
                self.pc += 2;
            }
            self.pc += 2;
        } else if fam == 0x5 {
            if self.v[x] == self.v[y] {
                self.pc += 2;
            }
            self.pc += 2;
        } else if fam == 0x6 {
            self.v.set(x, kk);
            self.pc += 2;
        } else if fam == 0x7 {
            let sum = self.v[x].wrapping_add(kk);
            self.v.set(x, sum);
            self.pc += 2;
        } else if fam == 0x8 {
            if n == 0x0 {
                let vy = self.v[y];
                self.v.set(x, vy);
            } else if n == 0x1 {
                let val = self.v[x] | self.v[y];
                self.v.set(x, val);
            } else if n == 0x2 {
                let val = self.v[x] & self.v[y];
                self.v.set(x, val);
            } else if n == 0x3 {
                let val = self.v[x] ^ self.v[y];
                self.v.set(x, val);
            } else if n == 0x4 {
                let sum = self.v[x] as u16 + self.v[y] as u16;
                self.v.set(0xF, if sum > 255 { 1 } else { 0 });
                self.v.set(x, (sum % 0x100) as u8);
            } else if n == 0x5 {
                let flag: u8 = if self.v[x] > self.v[y] { 1 } else { 0 };
                self.v.set(0xF, flag);
                let diff = self.v[x].wrapping_sub(self.v[y]);
                self.v.set(x, diff);
            } else if n == 0x6 {
                let flag = self.v[x] % 2;
                self.v.set(0xF, flag);
                let val = self.v[x] / 2;
                self.v.set(x, val);
            } else if n == 0x7 {
                let flag: u8 = if self.v[y] > self.v[x] { 1 } else { 0 };
                self.v.set(0xF, flag);
                let diff = self.v[y].wrapping_sub(self.v[x]);
                self.v.set(x, diff);
            } else if n == 0xE {
                let flag: u8 = if self.v[x] >= 0x80 { 1 } else { 0 };
                self.v.set(0xF, flag);
                let val = ((self.v[x] as u16 * 2) % 0x100) as u8;
                self.v.set(x, val);
            } else {
                unknown = true;
            }
            self.pc += 2;
        } else if fam == 0x9 {
            if self.v[x] != self.v[y] {
                self.pc += 2;
            }
            self.pc += 2;
        } else if fam == 0xA {
            self.i = nnn;
            self.pc += 2;
        } else if fam == 0xB {
            self.pc = nnn + self.v[0] as u16;
        } else if fam == 0xC {
            self.v.set(x, r & kk);
            self.pc += 2;
        } else if fam == 0xD {
            if self.i as usize > MEM_SIZE - n {
                return Err(Chip8Error::OutOfBounds);
            }
            let vx = self.v[x];
            let vy = self.v[y];
            let i = self.i as usize;
            let coll = draw_sprite(&mut self.gfx, &self.memory, i, vx, vy, n);
            self.v.set(0xF, if coll { 1 } else { 0 });
            self.pc += 2;
        } else if fam == 0xE {
            if kk == 0x9E {
                if self.v[x] as usize >= NUM_KEYS {
                    return Err(Chip8Error::OutOfBounds);
                }
                if self.keys[self.v[x] as usize] {
                    self.pc += 2;
                }
                self.pc += 2;
            } else if kk == 0xA1 {
                if self.v[x] as usize >= NUM_KEYS {
                    return Err(Chip8Error::OutOfBounds);
                }
                if !self.keys[self.v[x] as usize] {
                    self.pc += 2;
                }
                self.pc += 2;
            } else {
                unknown = true;
                self.pc += 2;
            }
        } else {
            if kk == 0x07 {
                let dt = self.delay_timer;
                self.v.set(x, dt);
                self.pc += 2;
            } else if kk == 0x0A {
                let mut found = false;
                let mut idx: u8 = 0;
                let mut j: usize = 0;
                while j < NUM_KEYS
                    invariant
                        j <= NUM_KEYS,
                        self.keys@.len() == NUM_KEYS,
                        !found ==> first_key(self.keys@) == first_key_from(self.keys@, j as int),
                        found ==> first_key(self.keys@) == idx as int && idx < 16,
                    decreases NUM_KEYS - j,
                {
                    if !found && self.keys[j] {
                        found = true;
                        idx = j as u8;
                    }
                    j += 1;
                }
                if !found {
                    proof {
                        assert(first_key(s0.keys) == 16);
                    }
                    return Ok(CycleOutcome::AwaitingKey);
                }
                self.v.set(x, idx);
                self.pc += 2;
            } else if kk == 0x15 {
                let vx = self.v[x];
                self.delay_timer = vx;
                self.pc += 2;
            } else if kk == 0x18 {
                let vx = self.v[x];
                self.sound_timer = vx;
                self.pc += 2;
            } else if kk == 0x1E {
                let vx16 = self.v[x] as u16;
                self.i = self.i.wrapping_add(vx16);
                self.pc += 2;
            } else if kk == 0x29 {
                if self.v[x] < 16 {
                    self.i = self.v[x] as u16 * 5;
                }
                self.pc += 2;
            } else if kk == 0x33 {
                if self.i as usize > MEM_SIZE - 3 {
                    return Err(Chip8Error::OutOfBounds);
                }
                let i = self.i as usize;
                let vx = self.v[x];
                self.memory.set(i, vx / 100);
                self.memory.set(i + 1, (vx / 10) % 10);
                self.memory.set(i + 2, vx % 10);
                self.pc += 2;
            } else if kk == 0x55 {
                if self.i as usize + x + 1 > MEM_SIZE {
                    return Err(Chip8Error::OutOfBounds);
                }
                let i = self.i as usize;
                let mut j: usize = 0;
                while j < x + 1
                    invariant
                        j <= x + 1,
                        x < NUM_REGISTERS,
                        i + x + 1 <= MEM_SIZE,
                        self.memory@.len() == MEM_SIZE,
                        self.v@.len() == NUM_REGISTERS,
                        self.v@ == s0.v,
                        forall|m: int| i <= m < i + j ==> self.memory@[m] == s0.v[m - i],
                        forall|m: int| 0 <= m < MEM_SIZE && !(i <= m < i + j) ==> self.memory@[m] == s0.memory[m],
                        i == s0.i as usize,
                        self.gfx@ == s0.gfx,
                        self.i == s0.i,
                        self.pc == s0.pc,
                        self.delay_timer == s0.delay_timer,
                        self.sound_timer == s0.sound_timer,
                        self.stack@ == s0.stack,
                        self.sp == s0.sp,
                        self.keys@ == s0.keys,
                    decreases x + 1 - j,
                {
                    let vj = self.v[j];
                    self.memory.set(i + j, vj);
                    j += 1;
                }
                proof {
                    assert(self.memory@ =~= store_regs(s0.memory, s0.v, i as int, x as int));
                }
                self.pc += 2;
            } else if kk == 0x65 {
                if self.i as usize + x + 1 > MEM_SIZE {
                    return Err(Chip8Error::OutOfBounds);
                }
                let i = self.i as usize;
                let mut j: usize = 0;
                while j < x + 1
                    invariant
                        j <= x + 1,
                        x < NUM_REGISTERS,
                        i + x + 1 <= MEM_SIZE,
                        self.memory@.len() == MEM_SIZE,
                        self.v@.len() == NUM_REGISTERS,
                        self.memory@ == s0.memory,
                        forall|m: int| 0 <= m < j ==> self.v@[m] == s0.memory[i + m],
                        forall|m: int| j <= m < NUM_REGISTERS ==> self.v@[m] == s0.v[m],
                        i == s0.i as usize,
                        self.gfx@ == s0.gfx,
                        self.i == s0.i,
                        self.pc == s0.pc,
                        self.delay_timer == s0.delay_timer,
                        self.sound_timer == s0.sound_timer,
                        self.stack@ == s0.stack,
                        self.sp == s0.sp,
                        self.keys@ == s0.keys,
                    decreases x + 1 - j,
                {
                    let mj = self.memory[i + j];
                    self.v.set(j, mj);
                    j += 1;
                }
                proof {
                    assert(self.v@ =~= load_regs(s0.v, s0.memory, i as int, x as int));
                }
                self.pc += 2;
            } else {
                unknown = true;
                self.pc += 2;
            }
        }

        proof {
            let ir = exec_instr(s0, op, r);
            assert(ir.err is None && !ir.blocked);
            assert(self@ =~= ir.post);
            assert(unknown == ir.unknown);
        }

        let beep = self.sound_timer == 1;
        if self.delay_timer > 0 {
            self.delay_timer -= 1;
        }
        if self.sound_timer > 0 {
            self.sound_timer -= 1;
        }
        proof {
            assert(self@ =~= tick_timers(exec_instr(s0, op, r).post));
        }
        Ok(CycleOutcome::Ran { beep, unknown_opcode: unknown })
    }

    /// Run one cycle, drawing the byte for the random instruction from the
    /// host's entropy source: the machine moves to `step(old, r).post` for
    /// the byte `r` that was drawn, whatever it was.
    pub fn cycle(&mut self) -> (out: Result<CycleOutcome, Chip8Error>)
        requires
            old(self).wf(),
        ensures
            final(self).wf(),
            exists|r: u8| out == step(old(self)@, r).out && final(self)@ == #[trigger] step(old(self)@, r).post,
    {
        let r = random_byte();
        self.cycle_with(r)
    }
}

/// Relies on rand::thread_rng and rand::Rng::gen: one byte from the host's
/// entropy source. Nothing is promised of its value.
#[verifier::external_body]
fn random_byte() -> u8 {
    rand::Rng::gen::<u8>(&mut rand::thread_rng())
}

} // verus!
