//! Machine-wide laws, proved once and for all against the transition
//! function [`crate::step::step`] and the sprite semantics of
//! [`crate::sprite`].

use vstd::prelude::*;
use crate::machine::{State, Chip8Error, MEM_SIZE, STACK_DEPTH};
use crate::sprite::{spec_bit, draw_gfx, draw_collision, sprite_hits, pixel_index, flip,
    lemma_pixel_index_in_range};
use crate::step::{step, StepResult, CycleOutcome, fetch, op_fam, op_x, op_y, op_n, op_kk, op_nnn,
    alu_instr, exec_instr, tick_timers, first_key_from};

verus! {

/// The program counter and every live return address are even.
pub open spec fn pc_aligned(s: State) -> bool {
    &&& s.pc % 2 == 0
    &&& forall|j: int| 0 <= j < s.sp ==> s.stack[j] % 2 == 0
}

/// The fetched instruction, when it aims the program counter somewhere
/// itself, aims it at an even address. (A program is free to jump to an odd
/// address; alignment is preserved only while it does not.)
pub open spec fn targets_even(s: State) -> bool {
    s.pc as int + 1 < MEM_SIZE ==> {
        let op = fetch(s);
        &&& (op_fam(op) == 0x1 || op_fam(op) == 0x2 ==> op_nnn(op) % 2 == 0)
        &&& (op_fam(op) == 0xB ==> (op_nnn(op) + s.v[0]) % 2 == 0)
    }
}

/// A cycle fetches only from inside the addressable region: with the
/// program counter at or past the last instruction slot it reports the
/// out-of-bounds fault and changes nothing.
pub proof fn lemma_fetch_in_region(s: State, r: u8)
    ensures
        s.pc as int + 1 >= MEM_SIZE ==> step(s, r) == (StepResult {
            out: Err(Chip8Error::OutOfBounds),
            post: s,
        }),
{
}

/// One executed instruction keeps the program counter and every live
/// return address even, provided the instruction aims only at even
/// addresses.
#[verifier::rlimit(100)]
proof fn lemma_instr_aligned(s: State, op: u16, r: u8)
    requires
        s.wf(),
        s.pc as int + 1 < MEM_SIZE,
        pc_aligned(s),
        op_fam(op) == 0x1 || op_fam(op) == 0x2 ==> op_nnn(op) % 2 == 0,
        op_fam(op) == 0xB ==> (op_nnn(op) + s.v[0]) % 2 == 0,
    ensures
        exec_instr(s, op, r).post.pc % 2 == 0,
        forall|j: int| 0 <= j < exec_instr(s, op, r).post.sp
            ==> exec_instr(s, op, r).post.stack[j] % 2 == 0,
        exec_instr(s, op, r).post.sp <= STACK_DEPTH,
        exec_instr(s, op, r).post.stack.len() == STACK_DEPTH,
{
    let ir = exec_instr(s, op, r);
    let fam = op_fam(op);
    assert(s.pc as int + 2 < 0x10000);
    assert(((s.pc as int + 2) % 0x10000) == s.pc as int + 2);
    assert(((s.pc as int + 2 + 2) % 0x10000) == s.pc as int + 4);
    if fam == 0x0 {
        if op == 0x00EE && s.sp > 0 {
            let ret = s.stack[s.sp as int - 1];
            assert(ret % 2 == 0);
            assert(vstd::wrapping::u16_specs::wrapping_add(ret, 2) % 2 == 0);
        }
    }
}

/// Alignment is an invariant of the cycle: from an aligned state, any cycle
/// whose instruction aims only at even addresses leaves the program counter
/// and all live return addresses even.
pub proof fn lemma_pc_stays_even(s: State, r: u8)
    requires
        s.wf(),
        pc_aligned(s),
        targets_even(s),
    ensures
        pc_aligned(step(s, r).post),
{
    if s.pc as int + 1 < MEM_SIZE {
        let op = fetch(s);
        lemma_instr_aligned(s, op, r);
        let ir = exec_instr(s, op, r);
        if ir.err is None && !ir.blocked {
            assert(step(s, r).post == tick_timers(ir.post));
            assert(pc_aligned(tick_timers(ir.post)));
        }
    }
}

/// ADD with carry: for every pair of byte values the destination receives
/// their sum modulo 256 and the flag register receives 1 exactly when the
/// true sum exceeds 255 — and 0 otherwise, never any other value.
pub proof fn lemma_add_semantics(s: State, x: int, y: int)
    requires
        s.wf(),
        0 <= x < 0xF,
        0 <= y < 16,
    ensures
        ({
            let a = s.v[x] as int;
            let b = s.v[y] as int;
            let post = alu_instr(s, x, y, 0x4).post;
            &&& post.v[x] == (a + b) % 256
            &&& (post.v[0xF] == 1 <==> a + b > 255)
            &&& (post.v[0xF] == 0 <==> a + b <= 255)
        }),
{
}

/// SUB with borrow flag: the flag is 1 exactly when the minuend strictly
/// exceeds the subtrahend — never on equality — and the destination
/// receives the wrapping difference.
pub proof fn lemma_sub_semantics(s: State, x: int, y: int)
    requires
        s.wf(),
        0 <= x < 0xF,
        0 <= y < 0xF,
    ensures
        ({
            let a = s.v[x] as int;
            let b = s.v[y] as int;
            let post = alu_instr(s, x, y, 0x5).post;
            &&& (post.v[0xF] == 1 <==> a > b)
            &&& (post.v[0xF] == 0 <==> a <= b)
            &&& (a == b ==> post.v[0xF] == 0)
            &&& post.v[x] == (if a >= b { a - b } else { a - b + 256 })
        }),
{
}

/// Shift right: the flag receives the bit shifted out (the low bit), the
/// destination is halved, and the second register operand never affects the
/// result.
pub proof fn lemma_shr_semantics(s: State, x: int, y1: int, y2: int)
    requires
        s.wf(),
        0 <= x < 0xF,
    ensures
        alu_instr(s, x, y1, 0x6) == alu_instr(s, x, y2, 0x6),
        ({
            let post = alu_instr(s, x, y1, 0x6).post;
            &&& post.v[0xF] == s.v[x] as int % 2
            &&& post.v[x] == s.v[x] as int / 2
        }),
{
}

/// Shift left: the flag receives the bit shifted out (the high bit), the
/// destination is doubled modulo 256, and the second register operand never
/// affects the result.
pub proof fn lemma_shl_semantics(s: State, x: int, y1: int, y2: int)
    requires
        s.wf(),
        0 <= x < 0xF,
    ensures
        alu_instr(s, x, y1, 0xE) == alu_instr(s, x, y2, 0xE),
        ({
            let post = alu_instr(s, x, y1, 0xE).post;
            &&& (post.v[0xF] == 1 <==> s.v[x] >= 0x80)
            &&& (post.v[0xF] == 0 <==> s.v[x] < 0x80)
            &&& post.v[x] == (s.v[x] as int * 2) % 256
        }),
{
}

/// The clear instruction zeroes all 2048 pixels.
pub proof fn lemma_clear_display(s: State, r: u8)
    requires
        s.wf(),
        s.pc as int + 1 < MEM_SIZE,
        fetch(s) == 0x00E0,
    ensures
        forall|j: int| 0 <= j < 2048 ==> step(s, r).post.gfx[j] == 0u8,
        step(s, r).post.gfx.len() == 2048,
{
}

/// On an empty display buffer no draw ever reports a collision.
pub proof fn lemma_empty_buffer_no_collision(g: Seq<u8>, mem: Seq<u8>, i: int, vx: int, vy: int, n: int)
    requires
        forall|j: int| 0 <= j < g.len() ==> g[j] == 0u8,
    ensures
        !draw_collision(g, mem, i, vx, vy, n),
{
}

/// Drawing a sprite twice at the same coordinates restores the buffer: the
/// second draw toggles exactly the pixels the first toggled.
pub proof fn lemma_draw_involutive(g: Seq<u8>, mem: Seq<u8>, i: int, vx: int, vy: int, n: int)
    requires
        forall|j: int| 0 <= j < g.len() ==> g[j] <= 1,
    ensures
        draw_gfx(draw_gfx(g, mem, i, vx, vy, n), mem, i, vx, vy, n) == g,
{
    let g1 = draw_gfx(g, mem, i, vx, vy, n);
    let g2 = draw_gfx(g1, mem, i, vx, vy, n);
    assert forall|j: int| 0 <= j < g.len() implies g2[j] == g[j] by {
        if sprite_hits(mem, i, vx, vy, n, j) {
            assert(g2[j] == flip(flip(g[j])));
        }
    }
    assert(g2 =~= g);
}

/// Whether bit `k` of sprite row `yl` is set.
pub open spec fn sprite_row_bit(mem: Seq<u8>, i: int, yl: int, k: int) -> bool {
    spec_bit(mem[i + yl], k)
}

/// Whether the sprite has any set bit in its `n` rows.
pub open spec fn sprite_nonempty(mem: Seq<u8>, i: int, n: int) -> bool {
    exists|yl: int, k: int| 0 <= yl < n && 0 <= k < 8 && #[trigger] sprite_row_bit(mem, i, yl, k)
}

/// Starting from an empty buffer, the first draw of a sprite reports no
/// collision, and an immediate second draw of the same sprite at the same
/// coordinates reports one exactly when the sprite has a set bit at all.
pub proof fn lemma_draw_twice_collision(g: Seq<u8>, mem: Seq<u8>, i: int, vx: int, vy: int, n: int)
    requires
        g.len() == 2048,
        forall|j: int| 0 <= j < g.len() ==> g[j] == 0u8,
    ensures
        !draw_collision(g, mem, i, vx, vy, n),
        draw_collision(draw_gfx(g, mem, i, vx, vy, n), mem, i, vx, vy, n) <==> sprite_nonempty(mem, i, n),
{
    let g1 = draw_gfx(g, mem, i, vx, vy, n);
    if sprite_nonempty(mem, i, n) {
        let (yl, k) = choose|yl: int, k: int|
            0 <= yl < n && 0 <= k < 8 && #[trigger] sprite_row_bit(mem, i, yl, k);
        let idx = pixel_index(vx, vy, k, yl);
        lemma_pixel_index_in_range(vx, vy, k, yl);
        assert(sprite_hits(mem, i, vx, vy, n, idx));
        assert(g1[idx] == 1);
        assert(draw_collision(g1, mem, i, vx, vy, n));
    }
    if draw_collision(g1, mem, i, vx, vy, n) {
        let idx = choose|idx: int| 0 <= idx < g1.len() && sprite_hits(mem, i, vx, vy, n, idx) && g1[idx] == 1;
        let (yl, k) = choose|yl: int, k: int|
            0 <= yl < n && 0 <= k < 8 && spec_bit(mem[i + yl], k) && idx == pixel_index(vx, vy, k, yl);
        assert(sprite_row_bit(mem, i, yl, k));
        assert(sprite_nonempty(mem, i, n));
    }
}

/// Plotted coordinates wrap: a sprite bit whose column passes the right
/// edge lands that many pixels in from the left edge, and one whose row
/// passes the bottom edge lands back at the top.
pub proof fn lemma_draw_wraps(vx: int, vy: int, k: int, yl: int)
    requires
        0 <= vx < 64,
        0 <= vy < 32,
        0 <= k < 8,
        0 <= yl < 16,
    ensures
        vx + k >= 64 ==> pixel_index(vx, vy, k, yl) % 64 == vx + k - 64,
        vx + k < 64 ==> pixel_index(vx, vy, k, yl) % 64 == vx + k,
        vy + yl >= 32 ==> pixel_index(vx, vy, k, yl) / 64 == vy + yl - 32,
        vy + yl < 32 ==> pixel_index(vx, vy, k, yl) / 64 == vy + yl,
{
    let col = (vx + k) % 64;
    let row = (vy + yl) % 32;
    assert(0 <= col < 64 && 0 <= row < 32);
    assert(pixel_index(vx, vy, k, yl) == row * 64 + col);
    assert((row * 64 + col) % 64 == col) by (nonlinear_arith)
        requires
            0 <= col < 64,
            0 <= row,
    ;
    assert((row * 64 + col) / 64 == row) by (nonlinear_arith)
        requires
            0 <= col < 64,
            0 <= row,
    ;
}

/// The arithmetic/logic family acts through a whole cycle exactly as
/// `alu_instr` says: a fetched instruction with high nibble 8 leaves the
/// registers `alu_instr` computes, under the generic advance.
pub proof fn lemma_alu_through_step(s: State, r: u8)
    requires
        s.wf(),
        s.pc as int + 1 < MEM_SIZE,
        op_fam(fetch(s)) == 0x8,
    ensures
        step(s, r).out is Ok,
        step(s, r).post.v == alu_instr(s, op_x(fetch(s)), op_y(fetch(s)), op_n(fetch(s))).post.v,
        step(s, r).post.pc == alu_instr(s, op_x(fetch(s)), op_y(fetch(s)), op_n(fetch(s))).post.pc,
{
}

/// No key held: the key-wait instruction makes no progress at all. The
/// machine — program counter, registers and timers alike — is exactly as
/// before, so every further cycle in that situation repeats the same
/// instruction.
pub proof fn lemma_key_wait_blocks(s: State, r: u8)
    requires
        s.wf(),
        s.pc as int + 1 < MEM_SIZE,
        op_fam(fetch(s)) == 0xF,
        op_kk(fetch(s)) == 0x0A,
        forall|j: int| 0 <= j < 16 ==> !s.keys[j],
    ensures
        step(s, r) == (StepResult { out: Ok(CycleOutcome::AwaitingKey), post: s }),
{
    lemma_first_key_none(s.keys, 0);
}

/// With some key held, the key-wait instruction assigns the lowest-indexed
/// held key to its register and advances exactly once.
pub proof fn lemma_key_wait_proceeds(s: State, r: u8, k: int)
    requires
        s.wf(),
        s.pc as int + 1 < MEM_SIZE,
        op_fam(fetch(s)) == 0xF,
        op_kk(fetch(s)) == 0x0A,
        0 <= k < 16,
        s.keys[k],
        forall|j: int| 0 <= j < k ==> !s.keys[j],
    ensures
        step(s, r).out is Ok,
        step(s, r).post.v[op_x(fetch(s))] == k as u8,
        step(s, r).post.pc == s.pc + 2,
{
    lemma_first_key_lowest(s.keys, k, 0);
}

proof fn lemma_first_key_none(keys: Seq<bool>, j: int)
    requires
        keys.len() == 16,
        0 <= j <= 16,
        forall|m: int| j <= m < 16 ==> !keys[m],
    ensures
        first_key_from(keys, j) == 16,
    decreases 16 - j,
{
    if j < 16 {
        lemma_first_key_none(keys, j + 1);
    }
}

proof fn lemma_first_key_lowest(keys: Seq<bool>, k: int, j: int)
    requires
        keys.len() == 16,
        0 <= j <= k < 16,
        keys[k],
        forall|m: int| j <= m < k ==> !keys[m],
    ensures
        first_key_from(keys, j) == k,
    decreases k - j,
{
    if j < k {
        lemma_first_key_lowest(keys, k, j + 1);
    }
}

/// A call pushes the address of the call instruction, leaves the rest of
/// the stack alone, and jumps to its target.
pub proof fn lemma_call_effect(s: State, r: u8)
    requires
        s.wf(),
        s.pc as int + 1 < MEM_SIZE,
        op_fam(fetch(s)) == 0x2,
        (s.sp as int) < STACK_DEPTH,
    ensures
        step(s, r).out is Ok,
        step(s, r).post.wf(),
        step(s, r).post.sp == s.sp + 1,
        step(s, r).post.stack == s.stack.update(s.sp as int, s.pc),
        step(s, r).post.stack[s.sp as int] == s.pc,
        forall|j: int| 0 <= j < s.sp ==> step(s, r).post.stack[j] == s.stack[j],
        step(s, r).post.pc == op_nnn(fetch(s)),
        step(s, r).post.memory == s.memory,
{
}

/// A return pops the youngest return address and resumes at the
/// instruction after the call that pushed it, restoring the stack pointer.
pub proof fn lemma_return_effect(s: State, r: u8)
    requires
        s.wf(),
        s.pc as int + 1 < MEM_SIZE,
        fetch(s) == 0x00EE,
        s.sp > 0,
        s.stack[s.sp as int - 1] as int + 2 < 0x10000,
    ensures
        step(s, r).out is Ok,
        step(s, r).post.wf(),
        step(s, r).post.sp == s.sp - 1,
        step(s, r).post.pc == s.stack[s.sp as int - 1] + 2,
        step(s, r).post.stack == s.stack,
        step(s, r).post.memory == s.memory,
{
}

/// Call/return balance for one pair: a call followed immediately by a
/// return at its target brings the program counter to the instruction
/// after the call and the stack pointer back to its pre-call value.
/// `lemma_nested_calls_balance` generalizes this to any nesting depth.
pub proof fn lemma_call_then_return(s: State, r1: u8, r2: u8)
    requires
        s.wf(),
        s.pc as int + 1 < MEM_SIZE,
        op_fam(fetch(s)) == 0x2,
        (s.sp as int) < STACK_DEPTH,
        op_nnn(fetch(s)) as int + 1 < MEM_SIZE,
        s.memory[op_nnn(fetch(s)) as int] == 0x00u8,
        s.memory[op_nnn(fetch(s)) as int + 1] == 0xEEu8,
    ensures
        ({
            let s1 = step(s, r1).post;
            let s2 = step(s1, r2).post;
            &&& step(s, r1).out is Ok
            &&& step(s1, r2).out is Ok
            &&& s2.pc == s.pc + 2
            &&& s2.sp == s.sp
        }),
{
    let s1 = step(s, r1).post;
    assert(fetch(s1) == 0x00EE);
    assert(s1.stack[s1.sp as int - 1] == s.pc);
}

/// The 16-bit big-endian word at address `a`.
pub open spec fn word_at(mem: Seq<u8>, a: int) -> u16 {
    ((mem[a] as int) * 0x100 + (mem[a + 1] as int)) as u16
}

/// The state after running one cycle for each byte of `rs`, in order.
pub open spec fn run_steps(s: State, rs: Seq<u8>) -> State
    decreases rs.len(),
{
    if rs.len() == 0 {
        s
    } else {
        run_steps(step(s, rs[0]).post, rs.drop_first())
    }
}

/// Running a nonempty sequence of cycles is running all but the last, then
/// the last.
proof fn lemma_run_snoc(s: State, rs: Seq<u8>)
    requires
        rs.len() >= 1,
    ensures
        run_steps(s, rs) == step(run_steps(s, rs.drop_last()), rs.last()).post,
    decreases rs.len(),
{
    if rs.len() == 1 {
        assert(rs.drop_last().len() == 0);
        assert(run_steps(step(s, rs[0]).post, rs.drop_first()) == step(s, rs[0]).post);
    } else {
        let s1 = step(s, rs[0]).post;
        lemma_run_snoc(s1, rs.drop_first());
        assert(rs.drop_first().drop_last() =~= rs.drop_last().drop_first());
        assert(rs.drop_first().last() == rs.last());
        assert(run_steps(s, rs.drop_last()) == run_steps(s1, rs.drop_last().drop_first()));
    }
}

/// Call/return balance at any depth: `n` nested calls — each call target
/// holding the next call, the innermost holding a return, and a return
/// sitting after each intermediate call — followed by the matching `n`
/// returns leave the program counter at the instruction after the first
/// call and the stack pointer at its pre-call value, with every deeper
/// stack entry and all of memory untouched.
#[verifier::rlimit(100)]
#[verifier::spinoff_prover]
pub proof fn lemma_nested_calls_balance(s: State, targets: Seq<u16>, n: int, rs: Seq<u8>)
    requires
        s.wf(),
        n >= 1,
        rs.len() == 2 * n,
        targets.len() == n + 1,
        targets[0] == s.pc,
        s.sp as int + n <= STACK_DEPTH,
        forall|j: int| 0 <= j < n ==> (#[trigger] targets[j]) as int + 1 < MEM_SIZE
            && op_fam(word_at(s.memory, targets[j] as int)) == 0x2
            && op_nnn(word_at(s.memory, targets[j] as int)) == targets[j + 1],
        targets[n] as int + 1 < MEM_SIZE,
        word_at(s.memory, targets[n] as int) == 0x00EE,
        forall|j: int| 1 <= j < n ==> (#[trigger] targets[j]) as int + 3 < MEM_SIZE
            && word_at(s.memory, targets[j] as int + 2) == 0x00EE,
    ensures
        run_steps(s, rs).wf(),
        run_steps(s, rs).pc == targets[0] as int + 2,
        run_steps(s, rs).sp == s.sp,
        forall|j: int| 0 <= j < s.sp ==> run_steps(s, rs).stack[j] == s.stack[j],
        run_steps(s, rs).memory == s.memory,
    decreases n,
{
    assert(fetch(s) == word_at(s.memory, targets[0] as int));
    lemma_call_effect(s, rs[0]);
    let s1 = step(s, rs[0]).post;
    assert(s1.pc == targets[1]);
    assert(s1.stack[s.sp as int] == s.pc);
    assert(run_steps(s, rs) == run_steps(s1, rs.drop_first()));
    if n == 1 {
        let rs1 = rs.drop_first();
        assert(rs1.len() == 1);
        assert(fetch(s1) == word_at(s.memory, targets[1] as int));
        lemma_return_effect(s1, rs1[0]);
        let s2 = step(s1, rs1[0]).post;
        assert(run_steps(s1, rs1) == run_steps(s2, rs1.drop_first()));
        assert(rs1.drop_first().len() == 0);
        assert(s2.pc == s.pc as int + 2);
    } else {
        let inner_targets = targets.subrange(1, n + 1);
        let inner_rs = rs.subrange(1, 2 * n - 1);
        assert(inner_rs.len() == 2 * (n - 1));
        assert(inner_targets.len() == n);
        assert(inner_targets[0] == targets[1]);
        assert forall|j: int| 0 <= j < n - 1 implies (#[trigger] inner_targets[j]) as int + 1 < MEM_SIZE
            && op_fam(word_at(s1.memory, inner_targets[j] as int)) == 0x2
            && op_nnn(word_at(s1.memory, inner_targets[j] as int)) == inner_targets[j + 1] by {
            assert(inner_targets[j] == targets[j + 1]);
            assert(inner_targets[j + 1] == targets[j + 2]);
        }
        assert(inner_targets[n - 1] == targets[n]);
        assert forall|j: int| 1 <= j < n - 1 implies (#[trigger] inner_targets[j]) as int + 3 < MEM_SIZE
            && word_at(s1.memory, inner_targets[j] as int + 2) == 0x00EE by {
            assert(inner_targets[j] == targets[j + 1]);
        }
        lemma_nested_calls_balance(s1, inner_targets, n - 1, inner_rs);
        let s_mid = run_steps(s1, inner_rs);
        assert(s_mid.pc == targets[1] as int + 2);
        assert(s_mid.sp == s1.sp);
        assert(s_mid.stack[s.sp as int] == s.pc);
        assert(s_mid.memory == s.memory);
        lemma_run_snoc(s1, rs.drop_first());
        assert(rs.drop_first().drop_last() =~= inner_rs);
        assert(run_steps(s1, rs.drop_first()) == step(s_mid, rs.last()).post);
        assert(fetch(s_mid) == word_at(s.memory, targets[1] as int + 2));
        lemma_return_effect(s_mid, rs.last());
        let s_end = step(s_mid, rs.last()).post;
        assert(s_end.pc == s.pc as int + 2);
        assert(s_end.sp == s.sp);
    }
}

} // verus!
