//! Logical pixel coordinates, and how they land on the module chain.
//!
//! The grid is `rows x columns` modules of 8x8 pixels.  A logical pixel
//! `(x, y)` lives in module grid column `x / 8` and grid row `y / 8`; the
//! chain is wired in reverse-row order, so that module sits at chain index
//! `(rows - 1 - y / 8) * columns + x / 8`.  Within a module, bit `7 - x % 8`
//! of digit row `y % 8` is the pixel.

use vstd::prelude::*;
use vstd::arithmetic::div_mod::{
    lemma_div_pos_is_pos, lemma_fundamental_div_mod, lemma_fundamental_div_mod_converse,
    lemma_mod_division_less_than_divisor, lemma_multiply_divide_lt,
};

verus! {

/// A logical pixel the canvas actually has.
pub open spec fn in_bounds(rows: int, columns: int, x: int, y: int) -> bool {
    0 <= x < columns * 8 && 0 <= y < rows * 8
}

/// The chain index of the module holding pixel `(x, y)`: the physical
/// wiring chains grid rows in reverse order.
pub open spec fn chain_index(rows: int, columns: int, x: int, y: int) -> int {
    (rows - 1 - y / 8) * columns + x / 8
}

/// The single-bit mask of local pixel column `lx`: bit `7 - lx`.
pub open spec fn pixel_mask(lx: int) -> u8 {
    1u8 << ((7 - lx) as u8)
}

/// A framebuffer shaped for `devices` modules: one row list per module,
/// eight digit-row bytes each.
pub open spec fn fb_wf(fb: Seq<Seq<u8>>, devices: int) -> bool {
    &&& fb.len() == devices
    &&& forall|m: int| 0 <= m < devices ==> (#[trigger] fb[m]).len() == 8
}

/// The all-`b` framebuffer for `devices` modules.
pub open spec fn uniform_fb(devices: int, b: u8) -> Seq<Seq<u8>> {
    Seq::new(devices as nat, |m: int| Seq::new(8, |d: int| b))
}

/// Whether pixel `(x, y)` is lit in `fb`.
pub open spec fn pixel_at(fb: Seq<Seq<u8>>, rows: int, columns: int, x: int, y: int) -> bool {
    fb[chain_index(rows, columns, x, y)][y % 8] & pixel_mask(x % 8) != 0
}

/// `fb` with pixel `(x, y)` driven to `on`: the one affected byte gets one
/// bit set or cleared.
pub open spec fn set_pixel_spec(
    fb: Seq<Seq<u8>>,
    rows: int,
    columns: int,
    x: int,
    y: int,
    on: bool,
) -> Seq<Seq<u8>> {
    let m = chain_index(rows, columns, x, y);
    let b = fb[m][y % 8];
    let nb = if on {
        b | pixel_mask(x % 8)
    } else {
        b & !pixel_mask(x % 8)
    };
    fb.update(m, fb[m].update(y % 8, nb))
}

/// The mapped triple of an in-bounds pixel is in
/// `[0, rows * columns) x [0, 8) x [0, 8)`.
pub proof fn lemma_chain_index_bounds(rows: int, columns: int, x: int, y: int)
    requires
        rows >= 1,
        columns >= 1,
        in_bounds(rows, columns, x, y),
    ensures
        0 <= chain_index(rows, columns, x, y) < rows * columns,
        0 <= x % 8 < 8,
        0 <= y % 8 < 8,
        0 <= x / 8 < columns,
        0 <= y / 8 < rows,
{
    lemma_mod_division_less_than_divisor(x, 8);
    lemma_mod_division_less_than_divisor(y, 8);
    lemma_div_pos_is_pos(x, 8);
    lemma_div_pos_is_pos(y, 8);
    lemma_multiply_divide_lt(x, 8, columns);
    lemma_multiply_divide_lt(y, 8, rows);
    let a = rows - 1 - y / 8;
    assert(0 <= a <= rows - 1);
    assert(a * columns + x / 8 < rows * columns) by (nonlinear_arith)
        requires
            0 <= a <= rows - 1,
            0 <= x / 8 < columns,
    ;
    assert(a * columns >= 0) by (nonlinear_arith)
        requires
            a >= 0,
            columns >= 1,
    ;
}

/// No two distinct in-bounds pixels map to the same
/// `(chain index, local column, local row)` triple.
pub proof fn lemma_map_injective(
    rows: int,
    columns: int,
    x1: int,
    y1: int,
    x2: int,
    y2: int,
)
    requires
        rows >= 1,
        columns >= 1,
        in_bounds(rows, columns, x1, y1),
        in_bounds(rows, columns, x2, y2),
        chain_index(rows, columns, x1, y1) == chain_index(rows, columns, x2, y2),
        x1 % 8 == x2 % 8,
        y1 % 8 == y2 % 8,
    ensures
        x1 == x2,
        y1 == y2,
{
    lemma_chain_index_bounds(rows, columns, x1, y1);
    lemma_chain_index_bounds(rows, columns, x2, y2);
    lemma_fundamental_div_mod(x1, 8);
    lemma_fundamental_div_mod(x2, 8);
    lemma_fundamental_div_mod(y1, 8);
    lemma_fundamental_div_mod(y2, 8);
    let k = chain_index(rows, columns, x1, y1);
    lemma_fundamental_div_mod_converse(k, columns, rows - 1 - y1 / 8, x1 / 8);
    lemma_fundamental_div_mod_converse(k, columns, rows - 1 - y2 / 8, x2 / 8);
}

/// Every triple in `[0, rows * columns) x [0, 8) x [0, 8)` is hit by the
/// in-bounds pixel `((m % columns) * 8 + lx, (rows - 1 - m / columns) * 8 + ly)`,
/// so together with injectivity the mapping is a bijection.
pub proof fn lemma_map_surjective(rows: int, columns: int, m: int, lx: int, ly: int)
    requires
        rows >= 1,
        columns >= 1,
        0 <= m < rows * columns,
        0 <= lx < 8,
        0 <= ly < 8,
    ensures
        ({
            let x = (m % columns) * 8 + lx;
            let y = (rows - 1 - m / columns) * 8 + ly;
            in_bounds(rows, columns, x, y)
                && chain_index(rows, columns, x, y) == m
                && x % 8 == lx
                && y % 8 == ly
        }),
{
    let x = (m % columns) * 8 + lx;
    let y = (rows - 1 - m / columns) * 8 + ly;
    lemma_mod_division_less_than_divisor(m, columns);
    lemma_div_pos_is_pos(m, columns);
    assert(columns * rows == rows * columns) by (nonlinear_arith);
    lemma_multiply_divide_lt(m, columns, rows);
    lemma_fundamental_div_mod_converse(x, 8, m % columns, lx);
    lemma_fundamental_div_mod_converse(y, 8, rows - 1 - m / columns, ly);
    lemma_fundamental_div_mod(m, columns);
    assert(chain_index(rows, columns, x, y) == (m / columns) * columns + m % columns);
    assert((m / columns) * columns == columns * (m / columns)) by (nonlinear_arith);
}

proof fn lemma_bit_set_reads_on(b: u8, s: u8)
    requires
        s < 8,
    ensures
        (b | (1u8 << s)) & (1u8 << s) != 0,
        (b & !(1u8 << s)) & (1u8 << s) == 0,
{
    assert((b | (1u8 << s)) & (1u8 << s) != 0 && (b & !(1u8 << s)) & (1u8 << s) == 0)
        by (bit_vector)
        requires
            s < 8,
    ;
}

proof fn lemma_bit_other_unchanged(b: u8, s: u8, t: u8)
    requires
        s < 8,
        t < 8,
        s != t,
    ensures
        ((b | (1u8 << s)) & (1u8 << t)) == (b & (1u8 << t)),
        ((b & !(1u8 << s)) & (1u8 << t)) == (b & (1u8 << t)),
{
    assert(((b | (1u8 << s)) & (1u8 << t)) == (b & (1u8 << t))
        && ((b & !(1u8 << s)) & (1u8 << t)) == (b & (1u8 << t)))
        by (bit_vector)
        requires
            s < 8,
            t < 8,
            s != t,
    ;
}

proof fn lemma_bit_set_then_clear(b: u8, s: u8)
    requires
        s < 8,
        b & (1u8 << s) == 0,
    ensures
        (b | (1u8 << s)) & !(1u8 << s) == b,
{
    assert((b | (1u8 << s)) & !(1u8 << s) == b) by (bit_vector)
        requires
            s < 8,
            b & (1u8 << s) == 0,
    ;
}

/// Driving pixel `(x, y)` touches exactly that pixel: every other in-bounds
/// pixel keeps its value, and the framebuffer keeps its shape.
pub proof fn lemma_set_pixel_pointwise(
    fb: Seq<Seq<u8>>,
    rows: int,
    columns: int,
    x: int,
    y: int,
    on: bool,
    x2: int,
    y2: int,
)
    requires
        rows >= 1,
        columns >= 1,
        fb_wf(fb, rows * columns),
        in_bounds(rows, columns, x, y),
        in_bounds(rows, columns, x2, y2),
    ensures
        fb_wf(set_pixel_spec(fb, rows, columns, x, y, on), rows * columns),
        pixel_at(set_pixel_spec(fb, rows, columns, x, y, on), rows, columns, x2, y2)
            == if x2 == x && y2 == y {
                on
            } else {
                pixel_at(fb, rows, columns, x2, y2)
            },
{
    lemma_chain_index_bounds(rows, columns, x, y);
    lemma_chain_index_bounds(rows, columns, x2, y2);
    let m1 = chain_index(rows, columns, x, y);
    let m2 = chain_index(rows, columns, x2, y2);
    let s = (7 - x % 8) as u8;
    let t = (7 - x2 % 8) as u8;
    let b = fb[m1][y % 8];
    if m2 == m1 && y2 % 8 == y % 8 {
        if x2 % 8 == x % 8 {
            lemma_map_injective(rows, columns, x, y, x2, y2);
            lemma_bit_set_reads_on(b, s);
        } else {
            lemma_bit_other_unchanged(b, s, t);
        }
    }
}

/// Setting a pixel that was off, then clearing it again, restores the
/// framebuffer (and in particular the affected byte) exactly.
pub proof fn lemma_set_then_clear_restores(
    fb: Seq<Seq<u8>>,
    rows: int,
    columns: int,
    x: int,
    y: int,
)
    requires
        rows >= 1,
        columns >= 1,
        fb_wf(fb, rows * columns),
        in_bounds(rows, columns, x, y),
        !pixel_at(fb, rows, columns, x, y),
    ensures
        set_pixel_spec(
            set_pixel_spec(fb, rows, columns, x, y, true),
            rows,
            columns,
            x,
            y,
            false,
        ) == fb,
{
    lemma_chain_index_bounds(rows, columns, x, y);
    let m = chain_index(rows, columns, x, y);
    let ly = y % 8;
    let s = (7 - x % 8) as u8;
    let b = fb[m][ly];
    let fb1 = set_pixel_spec(fb, rows, columns, x, y, true);
    lemma_bit_set_then_clear(b, s);
    assert(fb1[m][ly] == b | pixel_mask(x % 8));
    let fb2 = set_pixel_spec(fb1, rows, columns, x, y, false);
    assert(fb1[m].update(ly, b) =~= fb[m]);
    assert(fb2 =~= fb);
}

} // verus!
