use vstd::prelude::*;

use crate::config::{
    BULLET_COLOR, BULLET_SIZE, ENEMY_COLOR, ENEMY_SIZE, HEIGHT, SQUARE_COLOR, SQUARE_SIZE,
    TRIG_SCALE, WIDTH,
};
use crate::geometry::{div_toward_zero, div_trunc};

verus! {

/// Number of pixels in a frame buffer.
pub open spec fn frame_len() -> int {
    (WIDTH * HEIGHT) as int
}

/// Column of the pixel stored at `idx` of a row-major buffer.
pub open spec fn col_of(idx: int) -> int {
    idx % (WIDTH as int)
}

/// Row of the pixel stored at `idx` of a row-major buffer.
pub open spec fn row_of(idx: int) -> int {
    idx / (WIDTH as int)
}

/// Whether the pixel at `idx` lies in the columns `[x0, x1)` and rows `[y0, y1)`.
pub open spec fn in_rect(idx: int, x0: int, x1: int, y0: int, y1: int) -> bool {
    x0 <= col_of(idx) < x1 && y0 <= row_of(idx) < y1
}

/// Whether the pixel at `idx` lies in the axis-aligned square of side
/// `2 * half` whose centre pixel is `(x, y)`, covering columns
/// `[x - half, x + half)` and rows `[y - half, y + half)`.
pub open spec fn in_square(idx: int, x: int, y: int, half: int) -> bool {
    in_rect(idx, x - half, x + half, y - half, y + half)
}

/// The index of the pixel `(px, py)` of the buffer has that column and row.
proof fn lemma_pixel_index(px: int, py: int)
    requires
        0 <= px < WIDTH,
        0 <= py < HEIGHT,
    ensures
        0 <= px + py * WIDTH < frame_len(),
        col_of(px + py * WIDTH) == px,
        row_of(px + py * WIDTH) == py,
{
    vstd::arithmetic::div_mod::lemma_fundamental_div_mod_converse(
        px + py * WIDTH,
        WIDTH as int,
        py,
        px,
    );
    assert(py * WIDTH <= (HEIGHT - 1) * WIDTH) by (nonlinear_arith)
        requires py <= HEIGHT - 1;
}

/// Every index of the buffer is its column plus its row times the width.
proof fn lemma_index_of_pixel(idx: int)
    requires
        0 <= idx < frame_len(),
    ensures
        idx == col_of(idx) + row_of(idx) * WIDTH,
        0 <= col_of(idx) < WIDTH,
        0 <= row_of(idx) < HEIGHT,
{
    vstd::arithmetic::div_mod::lemma_fundamental_div_mod(idx, WIDTH as int);
    assert(row_of(idx) * WIDTH == WIDTH * row_of(idx)) by (nonlinear_arith);
    vstd::arithmetic::div_mod::lemma_div_pos_is_pos(idx, WIDTH as int);
    vstd::arithmetic::div_mod::lemma_div_is_ordered(idx, frame_len() - 1, WIDTH as int);
}

/// Paints the axis-aligned square of side `2 * half` centred on pixel
/// `(x, y)` in `color`, skipping the pixels that fall outside the buffer.
pub fn fill_square(buffer: &mut [u32], x: i32, y: i32, half: i32, color: u32)
    requires
        old(buffer)@.len() == frame_len(),
        0 < half <= 0x10000,
    ensures
        final(buffer)@.len() == frame_len(),
        forall|idx: int|
            0 <= idx < frame_len() ==> #[trigger] final(buffer)@[idx] == if in_square(
                idx,
                x as int,
                y as int,
                half as int,
            ) {
                color
            } else {
                old(buffer)@[idx]
            },
{
    let ghost orig = buffer@;
    let x0 = x as i64 - half as i64;
    let x1 = x as i64 + half as i64;
    let y0 = y as i64 - half as i64;
    let y1 = y as i64 + half as i64;
    let mut bx = x0;
    while bx < x1
        invariant
            x0 <= bx <= x1,
            x0 == x - half,
            x1 == x + half,
            y0 == y - half,
            y1 == y + half,
            y0 < y1,
            orig.len() == frame_len(),
            buffer@.len() == frame_len(),
            forall|idx: int|
                0 <= idx < frame_len() ==> #[trigger] buffer@[idx] == if in_rect(
                    idx,
                    x0 as int,
                    bx as int,
                    y0 as int,
                    y1 as int,
                ) {
                    color
                } else {
                    orig[idx]
                },
        decreases x1 - bx,
    {
        let mut by = y0;
        while by < y1
            invariant
                x0 <= bx < x1,
                y0 <= by <= y1,
                buffer@.len() == frame_len(),
                orig.len() == frame_len(),
                forall|idx: int|
                    0 <= idx < frame_len() ==> #[trigger] buffer@[idx] == if in_rect(
                        idx,
                        x0 as int,
                        bx as int,
                        y0 as int,
                        y1 as int,
                    ) || (col_of(idx) == bx && y0 <= row_of(idx) < by) {
                        color
                    } else {
                        orig[idx]
                    },
            decreases y1 - by,
        {
            if bx >= 0 && bx < WIDTH as i64 && by >= 0 && by < HEIGHT as i64 {
                let index = (bx as usize) + (by as usize) * WIDTH;
                proof {
                    lemma_pixel_index(bx as int, by as int);
                }
                buffer[index] = color;
                proof {
                    assert forall|idx: int| 0 <= idx < frame_len() && idx != index implies !(
                    col_of(idx) == bx && row_of(idx) == by) by {
                        lemma_index_of_pixel(idx);
                    }
                }
            } else {
                proof {
                    assert forall|idx: int| 0 <= idx < frame_len() implies !(col_of(idx) == bx
                        && row_of(idx) == by) by {
                        lemma_index_of_pixel(idx);
                    }
                }
            }
            by = by + 1;
        }
        bx = bx + 1;
    }
}

/// Half the side of the player square, in pixels.
pub open spec fn square_half() -> int {
    (SQUARE_SIZE / 2) as int
}

/// Column offset that the player's cell `(i, j)` is drawn at, for the
/// orientation whose cosine and sine, times `TRIG_SCALE`, are `c` and `s`.
pub open spec fn turned_col(i: int, j: int, c: int, s: int) -> int {
    div_trunc(i * c - j * s, TRIG_SCALE as int)
}

/// Row offset that the player's cell `(i, j)` is drawn at.
pub open spec fn turned_row(i: int, j: int, c: int, s: int) -> int {
    div_trunc(i * s + j * c, TRIG_SCALE as int)
}

/// Whether the player's cell `(i, j)`, drawn around pixel `(x, y)`, lands
/// on the pixel at `idx`.
pub open spec fn lands(idx: int, x: int, y: int, c: int, s: int, i: int, j: int) -> bool {
    col_of(idx) == x + turned_col(i, j, c, s) && row_of(idx) == y + turned_row(i, j, c, s)
}

/// Whether some cell of the player that comes before cell `(ie, je)`, in
/// the order of drawing, lands on the pixel at `idx`.
pub open spec fn covered_before(idx: int, x: int, y: int, c: int, s: int, ie: int, je: int) -> bool {
    exists|i: int, j: int|
        -square_half() <= i < square_half() && -square_half() <= j < square_half() && (i < ie || (i
            == ie && j < je)) && #[trigger] lands(idx, x, y, c, s, i, j)
}

/// Whether some cell of the player, drawn around pixel `(x, y)` with the
/// orientation `(c, s)`, lands on the pixel at `idx`.
pub open spec fn covered(idx: int, x: int, y: int, c: int, s: int) -> bool {
    exists|i: int, j: int|
        -square_half() <= i < square_half() && -square_half() <= j < square_half()
            && #[trigger] lands(idx, x, y, c, s, i, j)
}

/// Drawing cell `(ie, je)` adds exactly the pixel that it lands on.
proof fn lemma_covered_step(idx: int, x: int, y: int, c: int, s: int, ie: int, je: int)
    requires
        -square_half() <= ie < square_half(),
        -square_half() <= je < square_half(),
    ensures
        covered_before(idx, x, y, c, s, ie, je + 1) == (covered_before(idx, x, y, c, s, ie, je)
            || lands(idx, x, y, c, s, ie, je)),
{
    if covered_before(idx, x, y, c, s, ie, je + 1) {
        let (a, b) = choose|a: int, b: int|
            -square_half() <= a < square_half() && -square_half() <= b < square_half() && (a < ie
                || (a == ie && b < je + 1)) && #[trigger] lands(idx, x, y, c, s, a, b);
        if !(a == ie && b == je) {
            assert(lands(idx, x, y, c, s, a, b));
        }
    }
    if lands(idx, x, y, c, s, ie, je) {
        assert(lands(idx, x, y, c, s, ie, je));
    }
    if covered_before(idx, x, y, c, s, ie, je) {
        let (a, b) = choose|a: int, b: int|
            -square_half() <= a < square_half() && -square_half() <= b < square_half() && (a < ie
                || (a == ie && b < je)) && #[trigger] lands(idx, x, y, c, s, a, b);
        assert(lands(idx, x, y, c, s, a, b));
    }
}

/// Finishing a column of cells is starting the next one.
proof fn lemma_covered_next_col(idx: int, x: int, y: int, c: int, s: int, ie: int)
    ensures
        covered_before(idx, x, y, c, s, ie, square_half()) == covered_before(
            idx,
            x,
            y,
            c,
            s,
            ie + 1,
            -square_half(),
        ),
        covered_before(idx, x, y, c, s, square_half(), -square_half()) == covered(
            idx,
            x,
            y,
            c,
            s,
        ),
{
    if covered_before(idx, x, y, c, s, ie, square_half()) {
        let (a, b) = choose|a: int, b: int|
            -square_half() <= a < square_half() && -square_half() <= b < square_half() && (a < ie
                || (a == ie && b < square_half())) && #[trigger] lands(idx, x, y, c, s, a, b);
        assert(lands(idx, x, y, c, s, a, b));
    }
    if covered_before(idx, x, y, c, s, ie + 1, -square_half()) {
        let (a, b) = choose|a: int, b: int|
            -square_half() <= a < square_half() && -square_half() <= b < square_half() && (a < ie
                + 1 || (a == ie + 1 && b < -square_half())) && #[trigger] lands(
                idx,
                x,
                y,
                c,
                s,
                a,
                b,
            );
        assert(lands(idx, x, y, c, s, a, b));
    }
    if covered(idx, x, y, c, s) {
        let (a, b) = choose|a: int, b: int|
            -square_half() <= a < square_half() && -square_half() <= b < square_half()
                && #[trigger] lands(idx, x, y, c, s, a, b);
        assert(lands(idx, x, y, c, s, a, b));
    }
    if covered_before(idx, x, y, c, s, square_half(), -square_half()) {
        let (a, b) = choose|a: int, b: int|
            -square_half() <= a < square_half() && -square_half() <= b < square_half() && (a
                < square_half() || (a == square_half() && b < -square_half())) && #[trigger] lands(
                idx,
                x,
                y,
                c,
                s,
                a,
                b,
            );
        assert(lands(idx, x, y, c, s, a, b));
    }
}

/// Draws the player centred on pixel `(x, y)`: a red square of side
/// `SQUARE_SIZE` turned by the angle whose cosine and sine, times
/// `TRIG_SCALE`, are `c` and `s`. Each cell `(i, j)` of the square is drawn
/// at its turned offset, rounded toward zero; cells that fall outside the
/// buffer are skipped.
pub fn draw_square(buffer: &mut [u32], x: i32, y: i32, c: i32, s: i32)
    requires
        old(buffer)@.len() == frame_len(),
        -TRIG_SCALE <= c <= TRIG_SCALE,
        -TRIG_SCALE <= s <= TRIG_SCALE,
    ensures
        final(buffer)@.len() == frame_len(),
        forall|idx: int|
            0 <= idx < frame_len() ==> #[trigger] final(buffer)@[idx] == if covered(
                idx,
                x as int,
                y as int,
                c as int,
                s as int,
            ) {
                SQUARE_COLOR
            } else {
                old(buffer)@[idx]
            },
{
    let ghost orig = buffer@;
    let half = (SQUARE_SIZE / 2) as i64;
    let mut i = -half;
    proof {
        assert forall|idx: int| 0 <= idx < frame_len() implies !#[trigger] covered_before(
            idx,
            x as int,
            y as int,
            c as int,
            s as int,
            -square_half(),
            -square_half(),
        ) by {}
    }
    while i < half
        invariant
            -half <= i <= half,
            half == square_half(),
            -TRIG_SCALE <= c <= TRIG_SCALE,
            -TRIG_SCALE <= s <= TRIG_SCALE,
            orig.len() == frame_len(),
            buffer@.len() == frame_len(),
            forall|idx: int|
                0 <= idx < frame_len() ==> #[trigger] buffer@[idx] == if covered_before(
                    idx,
                    x as int,
                    y as int,
                    c as int,
                    s as int,
                    i as int,
                    -square_half(),
                ) {
                    SQUARE_COLOR
                } else {
                    orig[idx]
                },
        decreases half - i,
    {
        let mut j = -half;
        while j < half
            invariant
                -half <= i < half,
                -half <= j <= half,
                half == square_half(),
                -TRIG_SCALE <= c <= TRIG_SCALE,
                -TRIG_SCALE <= s <= TRIG_SCALE,
                orig.len() == frame_len(),
                buffer@.len() == frame_len(),
                forall|idx: int|
                    0 <= idx < frame_len() ==> #[trigger] buffer@[idx] == if covered_before(
                        idx,
                        x as int,
                        y as int,
                        c as int,
                        s as int,
                        i as int,
                        j as int,
                    ) {
                        SQUARE_COLOR
                    } else {
                        orig[idx]
                    },
            decreases half - j,
        {
            assert(-1_310_720 <= i * (c as i64) <= 1_310_720) by (nonlinear_arith)
                requires -20 <= i <= 20, -65536 <= c <= 65536;
            assert(-1_310_720 <= j * (s as i64) <= 1_310_720) by (nonlinear_arith)
                requires -20 <= j <= 20, -65536 <= s <= 65536;
            assert(-1_310_720 <= i * (s as i64) <= 1_310_720) by (nonlinear_arith)
                requires -20 <= i <= 20, -65536 <= s <= 65536;
            assert(-1_310_720 <= j * (c as i64) <= 1_310_720) by (nonlinear_arith)
                requires -20 <= j <= 20, -65536 <= c <= 65536;
            let turned_x = div_toward_zero(i * (c as i64) - j * (s as i64), TRIG_SCALE);
            let turned_y = div_toward_zero(i * (s as i64) + j * (c as i64), TRIG_SCALE);
            let bx = x as i64 + turned_x;
            let by = y as i64 + turned_y;
            proof {
                vstd::arithmetic::div_mod::lemma_div_is_ordered(
                    -(i * (c as i64) - j * (s as i64)) as int,
                    2_621_440,
                    TRIG_SCALE as int,
                );
                vstd::arithmetic::div_mod::lemma_div_is_ordered(
                    (i * (c as i64) - j * (s as i64)) as int,
                    2_621_440,
                    TRIG_SCALE as int,
                );
                vstd::arithmetic::div_mod::lemma_div_is_ordered(
                    -(i * (s as i64) + j * (c as i64)) as int,
                    2_621_440,
                    TRIG_SCALE as int,
                );
                vstd::arithmetic::div_mod::lemma_div_is_ordered(
                    (i * (s as i64) + j * (c as i64)) as int,
                    2_621_440,
                    TRIG_SCALE as int,
                );
                assert forall|idx: int| 0 <= idx < frame_len() implies covered_before(
                    idx,
                    x as int,
                    y as int,
                    c as int,
                    s as int,
                    i as int,
                    j + 1,
                ) == (covered_before(
                    idx,
                    x as int,
                    y as int,
                    c as int,
                    s as int,
                    i as int,
                    j as int,
                ) || (col_of(idx) == bx && row_of(idx) == by)) by {
                    lemma_covered_step(idx, x as int, y as int, c as int, s as int, i as int, j as int);
                }
            }
            if bx >= 0 && bx < WIDTH as i64 && by >= 0 && by < HEIGHT as i64 {
                let index = (bx as usize) + (by as usize) * WIDTH;
                proof {
                    lemma_pixel_index(bx as int, by as int);
                }
                buffer[index] = SQUARE_COLOR;
                proof {
                    assert forall|idx: int| 0 <= idx < frame_len() && idx != index implies !(
                    col_of(idx) == bx && row_of(idx) == by) by {
                        lemma_index_of_pixel(idx);
                    }
                }
            } else {
                proof {
                    assert forall|idx: int| 0 <= idx < frame_len() implies !(col_of(idx) == bx
                        && row_of(idx) == by) by {
                        lemma_index_of_pixel(idx);
                    }
                }
            }
            j = j + 1;
        }
        proof {
            assert forall|idx: int| 0 <= idx < frame_len() implies covered_before(
                idx,
                x as int,
                y as int,
                c as int,
                s as int,
                i as int,
                square_half(),
            ) == covered_before(
                idx,
                x as int,
                y as int,
                c as int,
                s as int,
                i + 1,
                -square_half(),
            ) by {
                lemma_covered_next_col(idx, x as int, y as int, c as int, s as int, i as int);
            }
        }
        i = i + 1;
    }
    proof {
        assert forall|idx: int| 0 <= idx < frame_len() implies covered_before(
            idx,
            x as int,
            y as int,
            c as int,
            s as int,
            square_half(),
            -square_half(),
        ) == covered(idx, x as int, y as int, c as int, s as int) by {
            lemma_covered_next_col(idx, x as int, y as int, c as int, s as int, 0);
        }
    }
}

/// Draws a projectile whose centre is pixel `(x, y)`: a green square of
/// side `BULLET_SIZE`, clipped to the buffer.
pub fn draw_bullet(buffer: &mut [u32], x: i32, y: i32)
    requires
        old(buffer)@.len() == frame_len(),
    ensures
        final(buffer)@.len() == frame_len(),
        forall|idx: int|
            0 <= idx < frame_len() ==> #[trigger] final(buffer)@[idx] == if in_square(
                idx,
                x as int,
                y as int,
                BULLET_SIZE / 2,
            ) {
                BULLET_COLOR
            } else {
                old(buffer)@[idx]
            },
{
    fill_square(buffer, x, y, BULLET_SIZE / 2, BULLET_COLOR);
}

/// Draws a target whose centre is pixel `(x, y)`: a blue square of side
/// `ENEMY_SIZE`, clipped to the buffer.
pub fn draw_enemy(buffer: &mut [u32], x: i32, y: i32)
    requires
        old(buffer)@.len() == frame_len(),
    ensures
        final(buffer)@.len() == frame_len(),
        forall|idx: int|
            0 <= idx < frame_len() ==> #[trigger] final(buffer)@[idx] == if in_square(
                idx,
                x as int,
                y as int,
                ENEMY_SIZE / 2,
            ) {
                ENEMY_COLOR
            } else {
                old(buffer)@[idx]
            },
{
    fill_square(buffer, x, y, ENEMY_SIZE / 2, ENEMY_COLOR);
}

} // verus!
