//! Sprite drawing: the semantics of XOR-blitting an `n`-row sprite onto the
//! 64×32 display buffer, with wrap-around of every plotted coordinate and
//! collision detection.
//!
//! The specification is pointwise: a pixel is flipped exactly when some bit
//! of the sprite lands on it ([`sprite_hits`]), and a collision is reported
//! exactly when some such pixel was already set. This is well defined
//! because a sprite of at most 15 rows and 8 columns never lands two bits on
//! the same pixel ([`lemma_pixel_index_injective`]).

use vstd::prelude::*;

verus! {

/// Weight of bit `k` of a sprite byte, counted from the most significant
/// bit: bit 0 is the leftmost plotted pixel.
pub open spec fn bit_weight(k: int) -> int {
    if k == 0 { 128 }
    else if k == 1 { 64 }
    else if k == 2 { 32 }
    else if k == 3 { 16 }
    else if k == 4 { 8 }
    else if k == 5 { 4 }
    else if k == 6 { 2 }
    else { 1 }
}

/// Whether bit `k` (from the most significant end) of `byte` is set.
pub open spec fn spec_bit(byte: u8, k: int) -> bool {
    (byte as int / bit_weight(k)) % 2 == 1
}

/// Executable twin of [`spec_bit`].
pub fn bit_of(byte: u8, k: usize) -> (b: bool)
    requires
        k < 8,
    ensures
        b == spec_bit(byte, k as int),
{
    let w: u8 = if k == 0 { 128 }
        else if k == 1 { 64 }
        else if k == 2 { 32 }
        else if k == 3 { 16 }
        else if k == 4 { 8 }
        else if k == 5 { 4 }
        else if k == 6 { 2 }
        else { 1 };
    (byte / w) % 2 == 1
}

/// Index into the display buffer of the pixel plotted for bit `k` of sprite
/// row `yl`, for a sprite positioned at `(vx, vy)`: both coordinates wrap.
pub open spec fn pixel_index(vx: int, vy: int, k: int, yl: int) -> int {
    ((vy + yl) % 32) * 64 + (vx + k) % 64
}

/// Whether some set bit of the `n`-row sprite at `mem[i..i+n]`, drawn at
/// `(vx, vy)`, lands on pixel `idx`.
pub open spec fn sprite_hits(mem: Seq<u8>, i: int, vx: int, vy: int, n: int, idx: int) -> bool {
    exists|yl: int, k: int|
        0 <= yl < n && 0 <= k < 8 && spec_bit(mem[i + yl], k) && idx == pixel_index(vx, vy, k, yl)
}

/// Whether some set bit among the sprite bits strictly before row `yl`,
/// bit `k` (in drawing order: row-major, leftmost bit first) lands on `idx`.
pub open spec fn sprite_hits_before(
    mem: Seq<u8>, i: int, vx: int, vy: int, idx: int, yl: int, k: int,
) -> bool {
    exists|a: int, b: int|
        0 <= a && 0 <= b < 8 && (a < yl || (a == yl && b < k)) && spec_bit(mem[i + a], b)
        && idx == pixel_index(vx, vy, b, a)
}

/// A pixel value toggled.
pub open spec fn flip(p: u8) -> u8 {
    if p == 1 { 0u8 } else { 1u8 }
}

/// The display buffer after drawing the sprite: hit pixels toggled, the
/// rest untouched.
pub open spec fn draw_gfx(g: Seq<u8>, mem: Seq<u8>, i: int, vx: int, vy: int, n: int) -> Seq<u8> {
    Seq::new(g.len(), |idx: int| if sprite_hits(mem, i, vx, vy, n, idx) { flip(g[idx]) } else { g[idx] })
}

/// Whether the draw collides: some hit pixel was already set.
pub open spec fn draw_collision(g: Seq<u8>, mem: Seq<u8>, i: int, vx: int, vy: int, n: int) -> bool {
    exists|idx: int| 0 <= idx < g.len() && sprite_hits(mem, i, vx, vy, n, idx) && g[idx] == 1
}

/// Adding two distinct offsets, both below the modulus, to the same base
/// yields distinct residues.
proof fn lemma_mod_shift_distinct(base: int, x: int, y: int, m: int)
    requires
        0 <= x < m,
        0 <= y < m,
        x != y,
        m > 0,
    ensures
        (base + x) % m != (base + y) % m,
{
    let qx = (base + x) / m;
    let qy = (base + y) / m;
    vstd::arithmetic::div_mod::lemma_fundamental_div_mod(base + x, m);
    vstd::arithmetic::div_mod::lemma_fundamental_div_mod(base + y, m);
    if (base + x) % m == (base + y) % m {
        assert(x - y == m * (qx - qy)) by (nonlinear_arith)
            requires
                base + x == m * qx + (base + x) % m,
                base + y == m * qy + (base + y) % m,
                (base + x) % m == (base + y) % m,
        ;
        assert(false) by (nonlinear_arith)
            requires
                x - y == m * (qx - qy),
                0 <= x < m,
                0 <= y < m,
                x != y,
                m > 0,
        ;
    }
}

/// Distinct sprite bits land on distinct pixels: rows differ or columns
/// differ, and a pixel index determines both.
pub proof fn lemma_pixel_index_injective(vx: int, vy: int, a: int, b: int, c: int, d: int)
    requires
        0 <= a < 32,
        0 <= c < 32,
        0 <= b < 8,
        0 <= d < 8,
        a != c || b != d,
    ensures
        pixel_index(vx, vy, b, a) != pixel_index(vx, vy, d, c),
{
    let r1 = (vy + a) % 32;
    let r2 = (vy + c) % 32;
    let c1 = (vx + b) % 64;
    let c2 = (vx + d) % 64;
    assert(0 <= r1 < 32 && 0 <= r2 < 32 && 0 <= c1 < 64 && 0 <= c2 < 64);
    if a != c {
        lemma_mod_shift_distinct(vy, a, c, 32);
        assert(r1 != r2);
    } else {
        lemma_mod_shift_distinct(vx, b, d, 64);
        assert(c1 != c2);
    }
}

/// Every plotted pixel index is inside the display buffer.
pub proof fn lemma_pixel_index_in_range(vx: int, vy: int, k: int, yl: int)
    ensures
        0 <= pixel_index(vx, vy, k, yl) < 2048,
{
    assert(0 <= (vy + yl) % 32 < 32);
    assert(0 <= (vx + k) % 64 < 64);
}

/// Having processed all 8 bits of row `yl` is the same as standing at the
/// start of row `yl + 1`.
proof fn lemma_hits_before_row_step(mem: Seq<u8>, i: int, vx: int, vy: int, idx: int, yl: int)
    ensures
        sprite_hits_before(mem, i, vx, vy, idx, yl, 8) == sprite_hits_before(mem, i, vx, vy, idx, yl + 1, 0),
{
    if sprite_hits_before(mem, i, vx, vy, idx, yl, 8) {
        let (a, b) = choose|a: int, b: int|
            0 <= a && 0 <= b < 8 && (a < yl || (a == yl && b < 8)) && spec_bit(mem[i + a], b)
            && idx == pixel_index(vx, vy, b, a);
        assert(a < yl + 1);
        assert(sprite_hits_before(mem, i, vx, vy, idx, yl + 1, 0));
    }
    if sprite_hits_before(mem, i, vx, vy, idx, yl + 1, 0) {
        let (a, b) = choose|a: int, b: int|
            0 <= a && 0 <= b < 8 && (a < yl + 1 || (a == yl + 1 && b < 0)) && spec_bit(mem[i + a], b)
            && idx == pixel_index(vx, vy, b, a);
        assert(a < yl || (a == yl && b < 8));
        assert(sprite_hits_before(mem, i, vx, vy, idx, yl, 8));
    }
}

/// Having processed every row of an `n`-row sprite is the same as having
/// been hit by the sprite.
pub proof fn lemma_hits_before_full(mem: Seq<u8>, i: int, vx: int, vy: int, idx: int, n: int)
    requires
        n >= 0,
    ensures
        sprite_hits_before(mem, i, vx, vy, idx, n, 0) == sprite_hits(mem, i, vx, vy, n, idx),
{
    if sprite_hits_before(mem, i, vx, vy, idx, n, 0) {
        let (a, b) = choose|a: int, b: int|
            0 <= a && 0 <= b < 8 && (a < n || (a == n && b < 0)) && spec_bit(mem[i + a], b)
            && idx == pixel_index(vx, vy, b, a);
        assert(0 <= a < n && 0 <= b < 8 && spec_bit(mem[i + a], b) && idx == pixel_index(vx, vy, b, a));
        assert(sprite_hits(mem, i, vx, vy, n, idx));
    }
    if sprite_hits(mem, i, vx, vy, n, idx) {
        let (yl, k) = choose|yl: int, k: int|
            0 <= yl < n && 0 <= k < 8 && spec_bit(mem[i + yl], k) && idx == pixel_index(vx, vy, k, yl);
        assert(sprite_hits_before(mem, i, vx, vy, idx, n, 0));
    }
}

/// Draw an `n`-row sprite read from `mem[i..i+n]` at `(vx, vy)` onto `gfx`,
/// toggling the pixels its set bits land on; report whether any toggled
/// pixel was already set.
pub fn draw_sprite(gfx: &mut Vec<u8>, mem: &Vec<u8>, i: usize, vx: u8, vy: u8, n: usize) -> (collision: bool)
    requires
        old(gfx)@.len() == 2048,
        forall|j: int| 0 <= j < 2048 ==> old(gfx)@[j] <= 1,
        mem@.len() == 4096,
        n <= 15,
        i + n <= 4096,
    ensures
        final(gfx)@ =~= draw_gfx(old(gfx)@, mem@, i as int, vx as int, vy as int, n as int),
        collision == draw_collision(old(gfx)@, mem@, i as int, vx as int, vy as int, n as int),
        forall|j: int| 0 <= j < 2048 ==> final(gfx)@[j] <= 1,
{
    let ghost g0 = old(gfx)@;
    let ghost mems = mem@;
    let ghost ii = i as int;
    let ghost vxi = vx as int;
    let ghost vyi = vy as int;
    let mut collision = false;
    let mut yl: usize = 0;
    while yl < n
        invariant
            yl <= n,
            n <= 15,
            i + n <= 4096,
            ii == i as int,
            vxi == vx as int,
            vyi == vy as int,
            mem@ == mems,
            mem@.len() == 4096,
            gfx@.len() == 2048,
            g0.len() == 2048,
            forall|j: int| 0 <= j < 2048 ==> g0[j] <= 1,
            forall|idx: int| 0 <= idx < 2048 ==> gfx@[idx] == (
                if sprite_hits_before(mems, ii, vxi, vyi, idx, yl as int, 0) { flip(g0[idx]) } else { g0[idx] }
            ),
            collision == exists|idx: int|
                0 <= idx < 2048 && sprite_hits_before(mems, ii, vxi, vyi, idx, yl as int, 0) && g0[idx] == 1,
        decreases n - yl,
    {
        let row_byte = mem[i + yl];
        let mut k: usize = 0;
        while k < 8
            invariant
                k <= 8,
                yl < n,
                n <= 15,
                i + n <= 4096,
                ii == i as int,
                vxi == vx as int,
                vyi == vy as int,
                mem@ == mems,
                mem@.len() == 4096,
                row_byte == mems[ii + yl],
                gfx@.len() == 2048,
                g0.len() == 2048,
                forall|j: int| 0 <= j < 2048 ==> g0[j] <= 1,
                forall|idx: int| 0 <= idx < 2048 ==> gfx@[idx] == (
                    if sprite_hits_before(mems, ii, vxi, vyi, idx, yl as int, k as int) { flip(g0[idx]) } else { g0[idx] }
                ),
                collision == exists|idx: int|
                    0 <= idx < 2048 && sprite_hits_before(mems, ii, vxi, vyi, idx, yl as int, k as int) && g0[idx] == 1,
            decreases 8 - k,
        {
            let ghost yli = yl as int;
            let ghost ki = k as int;
            if bit_of(row_byte, k) {
                let col = (vx as usize + k) % 64;
                let row = (vy as usize + yl) % 32;
                let idx = row * 64 + col;
                proof {
                    assert(idx == pixel_index(vxi, vyi, ki, yli));
                    lemma_pixel_index_in_range(vxi, vyi, ki, yli);
                    // no earlier sprite bit has landed on this pixel
                    assert(!sprite_hits_before(mems, ii, vxi, vyi, idx as int, yli, ki)) by {
                        if sprite_hits_before(mems, ii, vxi, vyi, idx as int, yli, ki) {
                            let (a, b) = choose|a: int, b: int|
                                0 <= a && 0 <= b < 8 && (a < yli || (a == yli && b < ki))
                                && spec_bit(mems[ii + a], b)
                                && idx as int == pixel_index(vxi, vyi, b, a);
                            lemma_pixel_index_injective(vxi, vyi, a, b, yli, ki);
                        }
                    }
                }
                let was_set = gfx[idx] == 1;
                if was_set {
                    collision = true;
                }
                let ghost gfx_prev = gfx@;
                if was_set {
                    gfx.set(idx, 0);
                } else {
                    gfx.set(idx, 1);
                }
                proof {
                    assert forall|p: int| 0 <= p < 2048 implies gfx@[p] == (
                        if sprite_hits_before(mems, ii, vxi, vyi, p, yli, ki + 1) { flip(g0[p]) } else { g0[p] }
                    ) by {
                        if p == idx as int {
                            assert(sprite_hits_before(mems, ii, vxi, vyi, p, yli, ki + 1));
                        } else {
                            if sprite_hits_before(mems, ii, vxi, vyi, p, yli, ki + 1) {
                                let (a, b) = choose|a: int, b: int|
                                    0 <= a && 0 <= b < 8 && (a < yli || (a == yli && b < ki + 1))
                                    && spec_bit(mems[ii + a], b)
                                    && p == pixel_index(vxi, vyi, b, a);
                                if a == yli && b == ki {
                                    assert(p == idx as int);
                                } else {
                                    assert(a < yli || (a == yli && b < ki));
                                    assert(sprite_hits_before(mems, ii, vxi, vyi, p, yli, ki));
                                }
                            } else {
                                assert(!sprite_hits_before(mems, ii, vxi, vyi, p, yli, ki));
                            }
                        }
                    }
                    assert(collision == exists|p: int|
                        0 <= p < 2048 && sprite_hits_before(mems, ii, vxi, vyi, p, yli, ki + 1) && g0[p] == 1) by {
                        if collision {
                            if was_set {
                                assert(gfx_prev[idx as int] == g0[idx as int]);
                                assert(sprite_hits_before(mems, ii, vxi, vyi, idx as int, yli, ki + 1));
                                assert(0 <= (idx as int) && (idx as int) < 2048 && sprite_hits_before(mems, ii, vxi, vyi, idx as int, yli, ki + 1) && g0[idx as int] == 1);
                            } else {
                                let p = choose|p: int|
                                    0 <= p < 2048 && sprite_hits_before(mems, ii, vxi, vyi, p, yli, ki) && g0[p] == 1;
                                assert(sprite_hits_before(mems, ii, vxi, vyi, p, yli, ki + 1));
                            }
                        } else {
                            if exists|p: int|
                                0 <= p < 2048 && sprite_hits_before(mems, ii, vxi, vyi, p, yli, ki + 1) && g0[p] == 1 {
                                let p = choose|p: int|
                                    0 <= p < 2048 && sprite_hits_before(mems, ii, vxi, vyi, p, yli, ki + 1) && g0[p] == 1;
                                let (a, b) = choose|a: int, b: int|
                                    0 <= a && 0 <= b < 8 && (a < yli || (a == yli && b < ki + 1))
                                    && spec_bit(mems[ii + a], b)
                                    && p == pixel_index(vxi, vyi, b, a);
                                if a == yli && b == ki {
                                    assert(p == idx as int);
                                    assert(gfx_prev[p] == g0[p]);
                                    assert(was_set);
                                    assert(false);
                                } else {
                                    assert(sprite_hits_before(mems, ii, vxi, vyi, p, yli, ki));
                                    assert(false);
                                }
                            }
                        }
                    }
                }
            } else {
                proof {
                    assert forall|p: int| 0 <= p < 2048 implies
                        sprite_hits_before(mems, ii, vxi, vyi, p, yli, ki + 1)
                        == sprite_hits_before(mems, ii, vxi, vyi, p, yli, ki) by {
                        if sprite_hits_before(mems, ii, vxi, vyi, p, yli, ki + 1) {
                            let (a, b) = choose|a: int, b: int|
                                0 <= a && 0 <= b < 8 && (a < yli || (a == yli && b < ki + 1))
                                && spec_bit(mems[ii + a], b)
                                && p == pixel_index(vxi, vyi, b, a);
                            assert(!(a == yli && b == ki));
                            assert(sprite_hits_before(mems, ii, vxi, vyi, p, yli, ki));
                        }
                        if sprite_hits_before(mems, ii, vxi, vyi, p, yli, ki) {
                            let (a, b) = choose|a: int, b: int|
                                0 <= a && 0 <= b < 8 && (a < yli || (a == yli && b < ki))
                                && spec_bit(mems[ii + a], b)
                                && p == pixel_index(vxi, vyi, b, a);
                            assert(sprite_hits_before(mems, ii, vxi, vyi, p, yli, ki + 1));
                        }
                    }
                }
            }
            k += 1;
        }
        proof {
            assert forall|p: int| 0 <= p < 2048 implies
                sprite_hits_before(mems, ii, vxi, vyi, p, yl as int, 8)
                == sprite_hits_before(mems, ii, vxi, vyi, p, yl as int + 1, 0) by {
                lemma_hits_before_row_step(mems, ii, vxi, vyi, p, yl as int);
            }
        }
        yl += 1;
    }
    proof {
        assert forall|p: int| 0 <= p < 2048 implies
            sprite_hits_before(mems, ii, vxi, vyi, p, n as int, 0)
            == sprite_hits(mems, ii, vxi, vyi, n as int, p) by {
            lemma_hits_before_full(mems, ii, vxi, vyi, p, n as int);
        }
        assert(gfx@ =~= draw_gfx(g0, mems, ii, vxi, vyi, n as int));
    }
    collision
}

} // verus!
