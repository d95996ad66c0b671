//! The meaning of the draw instruction: which framebuffer cells a sprite
//! toggles, and whether any toggle turned a lit cell off (a collision).
//!
//! A sprite is `n` consecutive memory bytes starting at the index register;
//! byte `r` paints row `r`, most significant bit leftmost.  Each set bit
//! toggles one cell, with the column wrapping modulo `SCREEN_WIDTH` and the
//! row wrapping modulo `SCREEN_HEIGHT`.

use vstd::prelude::*;

verus! {

use crate::model::SCREEN_SIZE;
use vstd::arithmetic::div_mod::lemma_fundamental_div_mod;

/// Bit `b` of a sprite row byte, counted from the most significant bit.
pub open spec fn sprite_bit(row: u8, b: u8) -> bool
    recommends
        b < 8,
{
    row & (0x80u8 >> b) != 0
}

/// The framebuffer cell that row `r`, bit `b` of a sprite drawn at
/// `(x0, y0)` lands on, wrapping each coordinate independently.
pub open spec fn pix_index(x0: u8, y0: u8, r: u8, b: u8) -> int {
    (x0 + b) % 64 + 64 * ((y0 + r) % 32)
}

/// Row `r`, bit `b` of the sprite is set and lands on cell `idx`.
pub open spec fn sprite_hits(
    ram: Seq<u8>,
    i: u16,
    x0: u8,
    y0: u8,
    n: u16,
    idx: int,
    r: u8,
    b: u8,
) -> bool {
    &&& r < n
    &&& b < 8
    &&& sprite_bit(ram[i + r], b)
    &&& pix_index(x0, y0, r, b) == idx
}

/// Some set bit of the sprite lands on cell `idx`.
pub open spec fn sprite_toggles(ram: Seq<u8>, i: u16, x0: u8, y0: u8, n: u16, idx: int) -> bool {
    exists|r: u8, b: u8| sprite_hits(ram, i, x0, y0, n, idx, r, b)
}

/// As `sprite_hits`, but only for bits strictly before row `done_r`,
/// bit `done_b` in the row-major order the executor walks them.
pub open spec fn sprite_hits_before(
    ram: Seq<u8>,
    i: u16,
    x0: u8,
    y0: u8,
    n: u16,
    idx: int,
    done_r: u16,
    done_b: u8,
    r: u8,
    b: u8,
) -> bool {
    &&& sprite_hits(ram, i, x0, y0, n, idx, r, b)
    &&& (r < done_r || (r == done_r && b < done_b))
}

/// Some set bit strictly before row `done_r`, bit `done_b` lands on `idx`.
pub open spec fn sprite_toggles_before(
    ram: Seq<u8>,
    i: u16,
    x0: u8,
    y0: u8,
    n: u16,
    idx: int,
    done_r: u16,
    done_b: u8,
) -> bool {
    exists|r: u8, b: u8| sprite_hits_before(ram, i, x0, y0, n, idx, done_r, done_b, r, b)
}

/// The framebuffer after the sprite is drawn: every cell some set bit lands
/// on is toggled, every other cell keeps its value.
pub open spec fn draw_screen_spec(
    screen: Seq<bool>,
    ram: Seq<u8>,
    i: u16,
    x0: u8,
    y0: u8,
    n: u16,
) -> Seq<bool> {
    Seq::new(screen.len(), |idx: int| screen[idx] != sprite_toggles(ram, i, x0, y0, n, idx))
}

/// The draw toggled at least one cell that was already lit, so the flag
/// register reports a collision.
pub open spec fn draw_collision(
    screen: Seq<bool>,
    ram: Seq<u8>,
    i: u16,
    x0: u8,
    y0: u8,
    n: u16,
) -> bool {
    exists|idx: int|
        0 <= idx < screen.len() && sprite_toggles(ram, i, x0, y0, n, idx) && screen[idx]
}

/// Row `r0`, bit `b0` is a set bit of the sprite and lands on cell `idx`.
pub open spec fn bit_hits(
    ram: Seq<u8>,
    i: u16,
    x0: u8,
    y0: u8,
    n: u16,
    idx: int,
    r0: u16,
    b0: u8,
) -> bool {
    &&& r0 < n
    &&& b0 < 8
    &&& sprite_bit(ram[i + r0], b0)
    &&& pix_index(x0, y0, r0 as u8, b0) == idx
}

/// Walking one bit further extends the processed set by exactly that bit.
pub proof fn lemma_toggles_step(
    ram: Seq<u8>,
    i: u16,
    x0: u8,
    y0: u8,
    n: u16,
    idx: int,
    r0: u16,
    b0: u8,
)
    requires
        n < 16,
        r0 < n,
        b0 < 8,
    ensures
        sprite_toggles_before(ram, i, x0, y0, n, idx, r0, (b0 + 1) as u8) == (
        sprite_toggles_before(ram, i, x0, y0, n, idx, r0, b0) || bit_hits(
            ram,
            i,
            x0,
            y0,
            n,
            idx,
            r0,
            b0,
        )),
{
    if sprite_toggles_before(ram, i, x0, y0, n, idx, r0, (b0 + 1) as u8) {
        let (r, b) = choose|r: u8, b: u8| #[trigger]
            sprite_hits_before(ram, i, x0, y0, n, idx, r0, (b0 + 1) as u8, r, b);
        if r < r0 || (r == r0 && b < b0) {
            assert(sprite_hits_before(ram, i, x0, y0, n, idx, r0, b0, r, b));
        } else {
            assert(r == r0 && b == b0);
        }
    }
    if sprite_toggles_before(ram, i, x0, y0, n, idx, r0, b0) {
        let (r, b) = choose|r: u8, b: u8| #[trigger]
            sprite_hits_before(ram, i, x0, y0, n, idx, r0, b0, r, b);
        assert(sprite_hits_before(ram, i, x0, y0, n, idx, r0, (b0 + 1) as u8, r, b));
    }
    if bit_hits(ram, i, x0, y0, n, idx, r0, b0) {
        assert(sprite_hits_before(ram, i, x0, y0, n, idx, r0, (b0 + 1) as u8, r0 as u8, b0));
    }
}

/// Finishing a row is the same as standing at the start of the next row.
pub proof fn lemma_toggles_row_end(
    ram: Seq<u8>,
    i: u16,
    x0: u8,
    y0: u8,
    n: u16,
    idx: int,
    r0: u16,
)
    requires
        n < 16,
        r0 < n,
    ensures
        sprite_toggles_before(ram, i, x0, y0, n, idx, r0, 8) == sprite_toggles_before(
            ram,
            i,
            x0,
            y0,
            n,
            idx,
            (r0 + 1) as u16,
            0,
        ),
{
    if sprite_toggles_before(ram, i, x0, y0, n, idx, r0, 8) {
        let (r, b) = choose|r: u8, b: u8| #[trigger] sprite_hits_before(ram, i, x0, y0, n, idx, r0, 8, r, b);
        assert(sprite_hits_before(ram, i, x0, y0, n, idx, (r0 + 1) as u16, 0, r, b));
    }
    if sprite_toggles_before(ram, i, x0, y0, n, idx, (r0 + 1) as u16, 0) {
        let (r, b) = choose|r: u8, b: u8| #[trigger]
            sprite_hits_before(ram, i, x0, y0, n, idx, (r0 + 1) as u16, 0, r, b);
        assert(sprite_hits_before(ram, i, x0, y0, n, idx, r0, 8, r, b));
    }
}

/// Having processed every row means having processed the whole sprite.
pub proof fn lemma_toggles_full(ram: Seq<u8>, i: u16, x0: u8, y0: u8, n: u16, idx: int)
    requires
        n < 16,
    ensures
        sprite_toggles_before(ram, i, x0, y0, n, idx, n, 0) == sprite_toggles(
            ram,
            i,
            x0,
            y0,
            n,
            idx,
        ),
{
    if sprite_toggles_before(ram, i, x0, y0, n, idx, n, 0) {
        let (r, b) = choose|r: u8, b: u8| #[trigger] sprite_hits_before(ram, i, x0, y0, n, idx, n, 0, r, b);
        assert(sprite_hits(ram, i, x0, y0, n, idx, r, b));
    }
    if sprite_toggles(ram, i, x0, y0, n, idx) {
        let (r, b) = choose|r: u8, b: u8| #[trigger] sprite_hits(ram, i, x0, y0, n, idx, r, b);
        assert(sprite_hits_before(ram, i, x0, y0, n, idx, n, 0, r, b));
    }
}

/// No earlier bit of the sprite lands on the cell that row `r0`, bit `b0`
/// lands on: each set bit touches its cell first.
pub proof fn lemma_fresh_cell(ram: Seq<u8>, i: u16, x0: u8, y0: u8, n: u16, r0: u16, b0: u8)
    requires
        n < 16,
        r0 < n,
        b0 < 8,
    ensures
        !sprite_toggles_before(
            ram,
            i,
            x0,
            y0,
            n,
            pix_index(x0, y0, r0 as u8, b0),
            r0,
            b0,
        ),
{
    let idx = pix_index(x0, y0, r0 as u8, b0);
    if sprite_toggles_before(ram, i, x0, y0, n, idx, r0, b0) {
        let (r, b) = choose|r: u8, b: u8| #[trigger] sprite_hits_before(ram, i, x0, y0, n, idx, r0, b0, r, b);
        lemma_pix_index_injective(x0, y0, r, b, r0 as u8, b0);
    }
}

/// Every sprite cell index lies inside the framebuffer.
pub proof fn lemma_pix_index_bounds(x0: u8, y0: u8, r: u8, b: u8)
    ensures
        0 <= pix_index(x0, y0, r, b) < SCREEN_SIZE,
{
}

/// One set bit of the sprite, processed: toggling its cell and folding the
/// cell's old value into the collision flag carries the executor's invariant
/// from bit `b0` of row `r0` to the next bit.
pub proof fn lemma_draw_bit_set(
    base: Seq<bool>,
    ram: Seq<u8>,
    i: u16,
    x0: u8,
    y0: u8,
    n: u16,
    r0: u16,
    b0: u8,
    cur: Seq<bool>,
    flipped: bool,
)
    requires
        n < 16,
        r0 < n,
        b0 < 8,
        base.len() == SCREEN_SIZE,
        cur.len() == SCREEN_SIZE,
        forall|idx: int|
            0 <= idx < SCREEN_SIZE ==> cur[idx] == (base[idx] != sprite_toggles_before(
                ram,
                i,
                x0,
                y0,
                n,
                idx,
                r0,
                b0,
            )),
        flipped == exists|idx: int|
            0 <= idx < SCREEN_SIZE && sprite_toggles_before(ram, i, x0, y0, n, idx, r0, b0)
                && base[idx],
        sprite_bit(ram[i + r0], b0),
    ensures
        ({
            let idx = pix_index(x0, y0, r0 as u8, b0);
            let cur2 = cur.update(idx, !cur[idx]);
            &&& 0 <= idx < SCREEN_SIZE
            &&& cur[idx] == base[idx]
            &&& forall|idx2: int|
                0 <= idx2 < SCREEN_SIZE ==> cur2[idx2] == (base[idx2] != sprite_toggles_before(
                    ram,
                    i,
                    x0,
                    y0,
                    n,
                    idx2,
                    r0,
                    (b0 + 1) as u8,
                ))
            &&& (flipped || cur[idx]) == exists|idx2: int|
                0 <= idx2 < SCREEN_SIZE && sprite_toggles_before(
                    ram,
                    i,
                    x0,
                    y0,
                    n,
                    idx2,
                    r0,
                    (b0 + 1) as u8,
                ) && base[idx2]
        }),
{
    let idx = pix_index(x0, y0, r0 as u8, b0);
    let cur2 = cur.update(idx, !cur[idx]);
    lemma_pix_index_bounds(x0, y0, r0 as u8, b0);
    lemma_fresh_cell(ram, i, x0, y0, n, r0, b0);
    assert(cur[idx] == base[idx]);
    assert forall|idx2: int| 0 <= idx2 < SCREEN_SIZE implies cur2[idx2] == (base[idx2]
        != sprite_toggles_before(ram, i, x0, y0, n, idx2, r0, (b0 + 1) as u8)) by {
        lemma_toggles_step(ram, i, x0, y0, n, idx2, r0, b0);
    }
    let flipped2 = flipped || cur[idx];
    let has2 = exists|idx2: int|
        0 <= idx2 < SCREEN_SIZE && sprite_toggles_before(ram, i, x0, y0, n, idx2, r0, (b0 + 1) as u8)
            && base[idx2];
    if flipped {
        let w = choose|idx2: int|
            0 <= idx2 < SCREEN_SIZE && sprite_toggles_before(ram, i, x0, y0, n, idx2, r0, b0)
                && base[idx2];
        lemma_toggles_step(ram, i, x0, y0, n, w, r0, b0);
        assert(has2);
    } else if cur[idx] {
        lemma_toggles_step(ram, i, x0, y0, n, idx, r0, b0);
        assert(has2);
    } else {
        if has2 {
            let w = choose|idx2: int|
                0 <= idx2 < SCREEN_SIZE && sprite_toggles_before(
                    ram,
                    i,
                    x0,
                    y0,
                    n,
                    idx2,
                    r0,
                    (b0 + 1) as u8,
                ) && base[idx2];
            lemma_toggles_step(ram, i, x0, y0, n, w, r0, b0);
            assert(w == idx);
        }
        assert(!has2);
    }
    assert(flipped2 == has2);
}

/// One clear bit of the sprite, processed: nothing toggles, the invariant
/// carries over unchanged.
pub proof fn lemma_draw_bit_clear(
    ram: Seq<u8>,
    i: u16,
    x0: u8,
    y0: u8,
    n: u16,
    r0: u16,
    b0: u8,
)
    requires
        n < 16,
        r0 < n,
        b0 < 8,
        !sprite_bit(ram[i + r0], b0),
    ensures
        forall|idx: int|
            sprite_toggles_before(ram, i, x0, y0, n, idx, r0, (b0 + 1) as u8)
                == sprite_toggles_before(ram, i, x0, y0, n, idx, r0, b0),
{
    assert forall|idx: int|
        sprite_toggles_before(ram, i, x0, y0, n, idx, r0, (b0 + 1) as u8)
            == sprite_toggles_before(ram, i, x0, y0, n, idx, r0, b0) by {
        lemma_toggles_step(ram, i, x0, y0, n, idx, r0, b0);
    }
}

/// If two residues of values within one period agree, the values agree.
proof fn lemma_mod_window(a: int, c: int, k: int)
    requires
        0 <= c < k,
        a % k == (a + c) % k,
    ensures
        c == 0,
{
    lemma_fundamental_div_mod(a, k);
    lemma_fundamental_div_mod(a + c, k);
    let q1 = a / k;
    let q2 = (a + c) / k;
    assert(c == k * q2 - k * q1);
    assert(k * q2 - k * q1 == k * (q2 - q1)) by (nonlinear_arith);
    assert(c == k * (q2 - q1));
    if q2 - q1 >= 1 {
        assert(k * (q2 - q1) >= k) by (nonlinear_arith)
            requires
                k > 0,
                q2 - q1 >= 1,
        ;
    } else if q2 - q1 <= -1 {
        assert(k * (q2 - q1) <= -k) by (nonlinear_arith)
            requires
                k > 0,
                q2 - q1 <= -1,
        ;
    }
}

/// Distinct sprite bits land on distinct framebuffer cells: the eight
/// columns of a row stay distinct modulo the screen width, and a sprite has
/// at most sixteen rows, fewer than the screen height.
pub proof fn lemma_pix_index_injective(x0: u8, y0: u8, r1: u8, b1: u8, r2: u8, b2: u8)
    requires
        r1 < 16,
        r2 < 16,
        b1 < 8,
        b2 < 8,
        pix_index(x0, y0, r1, b1) == pix_index(x0, y0, r2, b2),
    ensures
        r1 == r2,
        b1 == b2,
{
    let x1 = (x0 + b1) % 64;
    let x2 = (x0 + b2) % 64;
    let y1 = (y0 + r1) % 32;
    let y2 = (y0 + r2) % 32;
    assert(0 <= x1 < 64 && 0 <= x2 < 64 && 0 <= y1 < 32 && 0 <= y2 < 32);
    assert(x1 == x2 && y1 == y2);
    if b1 <= b2 {
        lemma_mod_window(x0 + b1, b2 - b1, 64);
    } else {
        lemma_mod_window(x0 + b2, b1 - b2, 64);
    }
    if r1 <= r2 {
        lemma_mod_window(y0 + r1, r2 - r1, 32);
    } else {
        lemma_mod_window(y0 + r2, r1 - r2, 32);
    }
}

} // verus!
