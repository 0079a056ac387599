use vstd::prelude::*;
use crate::aggregate::lemma_cell_index_bound;
use crate::types::CanvasFrame;
use crate::types::DotFrame;

verus! {

/// A dot frame is well formed when its cell buffer holds exactly one value
/// per grid position.
pub open spec fn dot_wf(d: DotFrame) -> bool {
    d.buffer.len() == d.width as int * d.height as int
}

/// All frames share the grid dimensions of the first one.
pub open spec fn uniform_grids(frames: Seq<DotFrame>) -> bool {
    forall|i: int|
        0 <= i < frames.len() ==> #[trigger] frames[i].width == frames[0].width
            && frames[i].height == frames[0].height
}

/// Every cell of every frame is at most `bound`.
pub open spec fn cells_bounded(frames: Seq<DotFrame>, bound: int) -> bool {
    forall|i: int, j: int|
        0 <= i < frames.len() && 0 <= j < frames[i].buffer.len()
            ==> #[trigger] frames[i].buffer@[j] as int <= bound
}

/// The divisor of the radius scaling: the global maximum intensity, with 0
/// replaced by 1, so that an all-zero animation scales every radius to 0
/// instead of dividing by zero.
pub open spec fn scale_divisor(max_value: int) -> int {
    if max_value == 0 {
        1
    } else {
        max_value
    }
}

/// One canvas axis: `cells * (2*radius + padding) + padding`. This fits every
/// circle of the maximal radius plus a `padding`-wide margin with no overlap
/// between neighbouring grid cells.
pub open spec fn canvas_dim(cells: int, padding: int, radius: int) -> int {
    cells * (2 * radius + padding) + padding
}

/// The circle center coordinate of grid index `i` along one axis:
/// `padding + i*(2*radius + padding) + radius`.
pub open spec fn circle_center(i: int, padding: int, radius: int) -> int {
    padding + i * (2 * radius + padding) + radius
}

/// Whether canvas pixel `(x, y)` lies inside the circle of intensity `v`
/// drawn for grid cell `(row, col)`. The scaled radius is the real number
/// `v*radius/m`, so the test `dist^2 <= r^2` becomes
/// `m^2 * dist^2 <= (v*radius)^2` over the integers.
pub open spec fn covers(
    v: int,
    m: int,
    radius: int,
    padding: int,
    row: int,
    col: int,
    x: int,
    y: int,
) -> bool {
    let dx = x - circle_center(col, padding, radius);
    let dy = y - circle_center(row, padding, radius);
    m * m * (dx * dx + dy * dy) <= (v * radius) * (v * radius)
}

/// Whether the circle of grid cell `(row, col)` of frame `d` covers `(x, y)`.
pub open spec fn cell_covers_at(
    d: DotFrame,
    m: int,
    radius: int,
    padding: int,
    row: int,
    col: int,
    x: int,
    y: int,
) -> bool {
    covers(d.buffer@[row * d.width as int + col] as int, m, radius, padding, row, col, x, y)
}

/// Whether some cell among the first `rows` full grid rows, or the first
/// `cols` cells of row `rows`, covers pixel `(x, y)`.
pub open spec fn covered_upto(
    d: DotFrame,
    m: int,
    radius: int,
    padding: int,
    rows: int,
    cols: int,
    x: int,
    y: int,
) -> bool {
    exists|row: int, col: int|
        0 <= row && 0 <= col < d.width as int && (row < rows || (row == rows && col < cols))
            && #[trigger] cell_covers_at(d, m, radius, padding, row, col, x, y)
}

/// Whether some cell of frame `d` covers pixel `(x, y)`.
pub open spec fn covered(d: DotFrame, m: int, radius: int, padding: int, x: int, y: int) -> bool {
    covered_upto(d, m, radius, padding, d.height as int, 0, x, y)
}

/// What the rasterizer owes for one frame: the canvas dimensions of the
/// sizing formula, and every pixel marked 1 (dot) exactly where some cell's
/// circle covers it, 2 (transparent) everywhere else.
pub open spec fn canvas_matches(
    d: DotFrame,
    padding: int,
    radius: int,
    m: int,
    c: CanvasFrame,
) -> bool {
    &&& c.width as int == canvas_dim(d.width as int, padding, radius)
    &&& c.height as int == canvas_dim(d.height as int, padding, radius)
    &&& c.pixels.len() == c.width as int * c.height as int
    &&& forall|x: int, y: int|
        0 <= x < c.width as int && 0 <= y < c.height as int ==> c.pixels@[y * c.width as int + x]
            == (if covered(d, m, radius, padding, x, y) {
            1u8
        } else {
            2u8
        })
}

/// The canvas of one dot frame as a flat row-major pixel sequence: pixel `k`
/// is 1 where some circle covers `(k % width, k / width)`, else 2.
pub open spec fn canvas_pixels(d: DotFrame, padding: int, radius: int, m: int) -> Seq<u8> {
    let cw = canvas_dim(d.width as int, padding, radius);
    let ch = canvas_dim(d.height as int, padding, radius);
    Seq::new(
        (cw * ch) as nat,
        |k: int|
            if covered(d, m, radius, padding, k % cw, k / cw) {
                1u8
            } else {
                2u8
            },
    )
}

/// A canvas that matches a dot frame pixel by pixel carries exactly the flat
/// pixel sequence of [`canvas_pixels`].
pub proof fn lemma_canvas_matches_pixels(
    d: DotFrame,
    padding: int,
    radius: int,
    m: int,
    c: CanvasFrame,
)
    requires
        canvas_matches(d, padding, radius, m, c),
    ensures
        c.pixels@ == canvas_pixels(d, padding, radius, m),
{
    let cw = canvas_dim(d.width as int, padding, radius);
    let ch = canvas_dim(d.height as int, padding, radius);
    assert(c.pixels@.len() == cw * ch);
    assert forall|k: int| 0 <= k < cw * ch implies c.pixels@[k] == canvas_pixels(
        d,
        padding,
        radius,
        m,
    )[k] by {
        assert(cw > 0) by (nonlinear_arith)
            requires 0 <= cw, 0 <= ch, 0 <= k, k < cw * ch;
        let x = k % cw;
        let y = k / cw;
        vstd::arithmetic::div_mod::lemma_fundamental_div_mod(k, cw);
        vstd::arithmetic::div_mod::lemma_mod_bound(k, cw);
        vstd::arithmetic::div_mod::lemma_div_pos_is_pos(k, cw);
        assert(y < ch) by (nonlinear_arith)
            requires 0 <= y, 0 <= x, x < cw, cw > 0, k == cw * y + x, k < cw * ch;
        assert(y * cw + x == k) by (nonlinear_arith)
            requires k == cw * y + x;
        assert(c.pixels@[y * cw + x] == (if covered(d, m, radius, padding, x, y) {
            1u8
        } else {
            2u8
        }));
    };
    assert(c.pixels@ =~= canvas_pixels(d, padding, radius, m));
}

/// Radius monotonicity: with a fixed positive divisor `m` and fixed maximal
/// radius, a cell of higher intensity covers every pixel that a cell of lower
/// intensity covers at the same grid position — the scaled radius grows
/// monotonically with intensity.
pub proof fn lemma_radius_monotone(
    v1: int,
    v2: int,
    m: int,
    radius: int,
    padding: int,
    row: int,
    col: int,
    x: int,
    y: int,
)
    requires
        0 <= v1 <= v2,
        1 <= m,
        0 <= radius,
    ensures
        covers(v1, m, radius, padding, row, col, x, y) ==> covers(
            v2,
            m,
            radius,
            padding,
            row,
            col,
            x,
            y,
        ),
{
    assert((v1 * radius) * (v1 * radius) <= (v2 * radius) * (v2 * radius)) by (nonlinear_arith)
        requires 0 <= v1, v1 <= v2, 0 <= radius;
}

/// Full radius: a cell whose intensity equals the divisor `m` covers exactly
/// the disc of the maximal radius around its center.
pub proof fn lemma_full_radius(
    m: int,
    radius: int,
    padding: int,
    row: int,
    col: int,
    x: int,
    y: int,
)
    requires
        1 <= m,
    ensures
        covers(m, m, radius, padding, row, col, x, y) <==> {
            let dx = x - circle_center(col, padding, radius);
            let dy = y - circle_center(row, padding, radius);
            dx * dx + dy * dy <= radius * radius
        },
{
    let dx = x - circle_center(col, padding, radius);
    let dy = y - circle_center(row, padding, radius);
    assert(0 <= dx * dx + dy * dy) by (nonlinear_arith);
    assert(m * m * (dx * dx + dy * dy) <= (m * radius) * (m * radius) <==> dx * dx + dy * dy
        <= radius * radius) by (nonlinear_arith)
        requires 1 <= m, 0 <= dx * dx + dy * dy;
}

/// Zero intensity: the circle collapses to radius 0 and covers only its own
/// center pixel.
pub proof fn lemma_zero_radius(
    m: int,
    radius: int,
    padding: int,
    row: int,
    col: int,
    x: int,
    y: int,
)
    requires
        1 <= m,
    ensures
        covers(0, m, radius, padding, row, col, x, y) <==> (x == circle_center(
            col,
            padding,
            radius,
        ) && y == circle_center(row, padding, radius)),
{
    let dx = x - circle_center(col, padding, radius);
    let dy = y - circle_center(row, padding, radius);
    assert((0 * radius) * (0 * radius) == 0) by (nonlinear_arith);
    assert(m * m * (dx * dx + dy * dy) <= 0 <==> (dx == 0 && dy == 0)) by (nonlinear_arith)
        requires 1 <= m;
}

/// Scanning one more cell of the current grid row adds exactly that cell's
/// circle to the set of covering candidates.
proof fn lemma_upto_step(
    d: DotFrame,
    m: int,
    radius: int,
    padding: int,
    row: int,
    col: int,
    x: int,
    y: int,
)
    requires
        0 <= row,
        0 <= col < d.width as int,
    ensures
        covered_upto(d, m, radius, padding, row, col + 1, x, y) <==> (covered_upto(
            d,
            m,
            radius,
            padding,
            row,
            col,
            x,
            y,
        ) || cell_covers_at(d, m, radius, padding, row, col, x, y)),
{
    let w = d.width as int;
    if covered_upto(d, m, radius, padding, row, col + 1, x, y) {
        let (r2, c2): (int, int) = choose|r2: int, c2: int|
            0 <= r2 && 0 <= c2 < w && (r2 < row || (r2 == row && c2 < col + 1))
                && #[trigger] cell_covers_at(d, m, radius, padding, r2, c2, x, y);
        if r2 == row && c2 == col {
            assert(cell_covers_at(d, m, radius, padding, row, col, x, y));
        } else {
            assert(covered_upto(d, m, radius, padding, row, col, x, y));
        }
    }
    if covered_upto(d, m, radius, padding, row, col, x, y) {
        let (r2, c2): (int, int) = choose|r2: int, c2: int|
            0 <= r2 && 0 <= c2 < w && (r2 < row || (r2 == row && c2 < col))
                && #[trigger] cell_covers_at(d, m, radius, padding, r2, c2, x, y);
        assert(covered_upto(d, m, radius, padding, row, col + 1, x, y));
    }
}

/// Having scanned a grid row completely is the same as standing at the start
/// of the next row.
proof fn lemma_upto_row(d: DotFrame, m: int, radius: int, padding: int, row: int, x: int, y: int)
    requires
        0 <= row,
    ensures
        covered_upto(d, m, radius, padding, row, d.width as int, x, y) <==> covered_upto(
            d,
            m,
            radius,
            padding,
            row + 1,
            0,
            x,
            y,
        ),
{
    let w = d.width as int;
    if covered_upto(d, m, radius, padding, row, w, x, y) {
        let (r2, c2): (int, int) = choose|r2: int, c2: int|
            0 <= r2 && 0 <= c2 < w && (r2 < row || (r2 == row && c2 < w))
                && #[trigger] cell_covers_at(d, m, radius, padding, r2, c2, x, y);
        assert(covered_upto(d, m, radius, padding, row + 1, 0, x, y));
    }
    if covered_upto(d, m, radius, padding, row + 1, 0, x, y) {
        let (r2, c2): (int, int) = choose|r2: int, c2: int|
            0 <= r2 && 0 <= c2 < w && (r2 < row + 1)
                && #[trigger] cell_covers_at(d, m, radius, padding, r2, c2, x, y);
        assert(covered_upto(d, m, radius, padding, row, w, x, y));
    }
}

/// Decides whether any cell's circle covers canvas pixel `(x, y)`, by the
/// exact integer form of the distance test.
#[verifier::loop_isolation(false)]
fn pixel_covered(d: &DotFrame, padding: u32, radius: u32, m: usize, x: usize, y: usize) -> (c:
    bool)
    requires
        dot_wf(*d),
        1 <= m,
        m <= 0xFFFF_FFFF,
        forall|j: int| 0 <= j < d.buffer.len() ==> d.buffer@[j] <= 0xFFFF_FFFF,
        d.width as int >= 1 && d.height as int >= 1 ==> 2 * (radius as int) + (padding as int)
            <= 65535,
        canvas_dim(d.width as int, padding as int, radius as int) <= 65535,
        canvas_dim(d.height as int, padding as int, radius as int) <= 65535,
        x <= 65535,
        y <= 65535,
    ensures
        c == covered(*d, m as int, radius as int, padding as int, x as int, y as int),
{
    let ghost mi: int = m as int;
    let ghost ri: int = radius as int;
    let ghost pi: int = padding as int;
    let ghost xi: int = x as int;
    let ghost yi: int = y as int;
    let gw = d.width as usize;
    let gh = d.height as usize;
    let mut found = false;
    let mut row: usize = 0;
    while row < gh
        invariant
            row <= gh,
            found == covered_upto(*d, mi, ri, pi, row as int, 0, xi, yi),
        decreases gh - row,
    {
        let s: u64 = 2 * (radius as u64) + (padding as u64);
        let mut col: usize = 0;
        while col < gw
            invariant
                col <= gw,
                found == covered_upto(*d, mi, ri, pi, row as int, col as int, xi, yi),
        decreases gw - col,
        {
            proof {
                lemma_cell_index_bound(row as int, col as int, gh as int, gw as int);
            }
            let idx = row * gw + col;
            let v = d.buffer[idx];
            proof {
                assert((col as int) * (s as int) <= (gw as int - 1) * (s as int))
                    by (nonlinear_arith)
                    requires 0 <= col as int, col as int <= gw as int - 1, 0 <= s as int;
                assert((gw as int) * (s as int) == (gw as int - 1) * (s as int) + s as int)
                    by (nonlinear_arith);
                assert((row as int) * (s as int) <= (gh as int - 1) * (s as int))
                    by (nonlinear_arith)
                    requires 0 <= row as int, row as int <= gh as int - 1, 0 <= s as int;
                assert((gh as int) * (s as int) == (gh as int - 1) * (s as int) + s as int)
                    by (nonlinear_arith);
            }
            let cx: u64 = (padding as u64) + (col as u64) * s + (radius as u64);
            let cy: u64 = (padding as u64) + (row as u64) * s + (radius as u64);
            proof {
                assert(cx as int == circle_center(col as int, pi, ri));
                assert(cy as int == circle_center(row as int, pi, ri));
                assert(cx <= 65535 && cy <= 65535);
            }
            let x64: u64 = x as u64;
            let y64: u64 = y as u64;
            let dxa: u64 = if x64 >= cx { x64 - cx } else { cx - x64 };
            let dya: u64 = if y64 >= cy { y64 - cy } else { cy - y64 };
            proof {
                assert((dxa as int) * (dxa as int) <= 65535 * 65535) by (nonlinear_arith)
                    requires 0 <= dxa as int, dxa as int <= 65535;
                assert((dya as int) * (dya as int) <= 65535 * 65535) by (nonlinear_arith)
                    requires 0 <= dya as int, dya as int <= 65535;
            }
            let d2: u64 = dxa * dxa + dya * dya;
            proof {
                assert((m as int) * (m as int) <= 0xFFFF_FFFF * 0xFFFF_FFFF) by (nonlinear_arith)
                    requires 0 <= m as int, m as int <= 0xFFFF_FFFF;
            }
            let m2: u64 = (m as u64) * (m as u64);
            proof {
                assert((m2 as int) * (d2 as int) <= 0xFFFF_FFFF_FFFF_FFFF * 0x2_0000_0000)
                    by (nonlinear_arith)
                    requires 0 <= m2 as int <= 0xFFFF_FFFF_FFFF_FFFF, 0 <= d2 as int <= 0x2_0000_0000;
            }
            let lhs: u128 = (m2 as u128) * (d2 as u128);
            proof {
                assert(d.buffer@[idx as int] <= 0xFFFF_FFFF);
                assert((v as int) * (radius as int) <= 0xFFFF_FFFF * 32767) by (nonlinear_arith)
                    requires 0 <= v as int <= 0xFFFF_FFFF, 0 <= radius as int <= 32767;
            }
            let vr: u64 = (v as u64) * (radius as u64);
            proof {
                assert((vr as int) * (vr as int) <= 0x8000_0000_0000 * 0x8000_0000_0000)
                    by (nonlinear_arith)
                    requires 0 <= vr as int <= 0x8000_0000_0000;
            }
            let rhs: u128 = (vr as u128) * (vr as u128);
            let hit = lhs <= rhs;
            proof {
                let cxs: int = circle_center(col as int, pi, ri);
                let cys: int = circle_center(row as int, pi, ri);
                let dxi: int = xi - cxs;
                let dyi: int = yi - cys;
                assert(dxa as int == dxi || dxa as int == -dxi);
                assert(dya as int == dyi || dya as int == -dyi);
                assert((dxa as int) * (dxa as int) == dxi * dxi) by (nonlinear_arith)
                    requires dxa as int == dxi || dxa as int == -dxi;
                assert((dya as int) * (dya as int) == dyi * dyi) by (nonlinear_arith)
                    requires dya as int == dyi || dya as int == -dyi;
                assert(lhs as int == (mi * mi) * (dxi * dxi + dyi * dyi));
                assert(rhs as int == ((v as int) * ri) * ((v as int) * ri));
                assert(hit == covers(v as int, mi, ri, pi, row as int, col as int, xi, yi));
                assert(hit == cell_covers_at(*d, mi, ri, pi, row as int, col as int, xi, yi));
                lemma_upto_step(*d, mi, ri, pi, row as int, col as int, xi, yi);
            }
            if hit {
                found = true;
            }
            col = col + 1;
        }
        proof {
            lemma_upto_row(*d, mi, ri, pi, row as int, xi, yi);
        }
        row = row + 1;
    }
    found
}

/// Renders one dot frame onto a fresh canvas, pixel by pixel.
#[verifier::loop_isolation(false)]
fn rasterize_one(d: &DotFrame, padding: u32, radius: u32, m: usize, cw: usize, ch: usize) -> (c:
    CanvasFrame)
    requires
        dot_wf(*d),
        1 <= m,
        m <= 0xFFFF_FFFF,
        forall|j: int| 0 <= j < d.buffer.len() ==> d.buffer@[j] <= 0xFFFF_FFFF,
        d.width as int >= 1 && d.height as int >= 1 ==> 2 * (radius as int) + (padding as int)
            <= 65535,
        cw as int == canvas_dim(d.width as int, padding as int, radius as int),
        ch as int == canvas_dim(d.height as int, padding as int, radius as int),
        cw <= 65535,
        ch <= 65535,
    ensures
        canvas_matches(*d, padding as int, radius as int, m as int, c),
{
    let ghost mi: int = m as int;
    let ghost ri: int = radius as int;
    let ghost pi: int = padding as int;
    let mut pixels: Vec<u8> = Vec::new();
    let mut y: usize = 0;
    while y < ch
        invariant
            y <= ch,
            pixels.len() == y * cw,
            forall|x2: int, y2: int|
                0 <= x2 < cw && 0 <= y2 < y ==> pixels@[y2 * cw as int + x2] == (if covered(
                    *d,
                    mi,
                    ri,
                    pi,
                    x2,
                    y2,
                ) {
                    1u8
                } else {
                    2u8
                }),
        decreases ch - y,
    {
        let mut x: usize = 0;
        while x < cw
            invariant
                x <= cw,
                pixels.len() == y * cw + x,
                forall|x2: int, y2: int|
                    0 <= x2 < cw && 0 <= y2 < y ==> pixels@[y2 * cw as int + x2] == (if covered(
                        *d,
                        mi,
                        ri,
                        pi,
                        x2,
                        y2,
                    ) {
                        1u8
                    } else {
                        2u8
                    }),
                forall|x2: int|
                    0 <= x2 < x ==> pixels@[y as int * cw as int + x2] == (if covered(
                        *d,
                        mi,
                        ri,
                        pi,
                        x2,
                        y as int,
                    ) {
                        1u8
                    } else {
                        2u8
                    }),
            decreases cw - x,
        {
            let hit = pixel_covered(d, padding, radius, m, x, y);
            pixels.push(if hit { 1u8 } else { 2u8 });
            proof {
                assert forall|x2: int, y2: int|
                    0 <= x2 < cw && 0 <= y2 < y implies pixels@[y2 * cw as int + x2] == (if covered(
                    *d,
                    mi,
                    ri,
                    pi,
                    x2,
                    y2,
                ) {
                    1u8
                } else {
                    2u8
                }) by {
                    lemma_cell_index_bound(y2, x2, y as int, cw as int);
                    assert(y2 * cw as int + x2 < y as int * cw as int + x as int);
                };
            }
            x = x + 1;
        }
        proof {
            assert((y + 1) as int * cw == y as int * cw + cw) by (nonlinear_arith);
            assert forall|x2: int, y2: int|
                0 <= x2 < cw && 0 <= y2 < y + 1 implies pixels@[y2 * cw as int + x2] == (if covered(
                *d,
                mi,
                ri,
                pi,
                x2,
                y2,
            ) {
                1u8
            } else {
                2u8
            }) by {
                lemma_cell_index_bound(y2, x2, y as int + 1, cw as int);
            };
        }
        y = y + 1;
    }
    proof {
        assert(pixels.len() == ch as int * cw as int);
        assert(ch as int * cw as int == cw as int * ch as int) by (nonlinear_arith);
    }
    CanvasFrame { width: cw as u16, height: ch as u16, pixels }
}

/// Circle rasterization: renders every dot frame onto a canvas sized by the
/// grid of the first frame, scaling each cell's circle radius linearly by its
/// intensity relative to the global maximum `max_value`.
#[verifier::loop_isolation(false)]
pub fn rasterize_frames(
    frames: &Vec<DotFrame>,
    padding: u32,
    max_radius: u32,
    max_value: usize,
) -> (r: Vec<CanvasFrame>)
    requires
        frames.len() >= 1,
        forall|i: int| 0 <= i < frames.len() ==> dot_wf(#[trigger] frames@[i]),
        uniform_grids(frames@),
        cells_bounded(frames@, max_value as int),
        max_value <= 0xFFFF_FFFF,
        canvas_dim(frames@[0].width as int, padding as int, max_radius as int) <= 65535,
        canvas_dim(frames@[0].height as int, padding as int, max_radius as int) <= 65535,
        frames@[0].width as int >= 1 && frames@[0].height as int >= 1 ==> 2 * (max_radius as int)
            + (padding as int) <= 65535,
    ensures
        r.len() == frames.len(),
        forall|i: int|
            0 <= i < r.len() ==> canvas_matches(
                frames@[i],
                padding as int,
                max_radius as int,
                scale_divisor(max_value as int),
                #[trigger] r@[i],
            ),
{
    let m: usize = if max_value == 0 { 1 } else { max_value };
    let gw = frames[0].width;
    let gh = frames[0].height;
    let s64: u64 = 2 * (max_radius as u64) + (padding as u64);
    proof {
        assert((gw as int) * (s64 as int) >= 0) by (nonlinear_arith)
            requires 0 <= gw as int, 0 <= s64 as int;
        assert((gh as int) * (s64 as int) >= 0) by (nonlinear_arith)
            requires 0 <= gh as int, 0 <= s64 as int;
        assert(gw as int >= 1 ==> (gw as int) * (s64 as int) >= s64 as int) by (nonlinear_arith)
            requires 0 <= s64 as int;
        assert(gh as int >= 1 ==> (gh as int) * (s64 as int) >= s64 as int) by (nonlinear_arith)
            requires 0 <= s64 as int;
        assert((gw as int) * (s64 as int) <= 65535 * 0x3_0000_0000) by (nonlinear_arith)
            requires 0 <= gw as int <= 65535, 0 <= s64 as int <= 0x3_0000_0000;
        assert((gh as int) * (s64 as int) <= 65535 * 0x3_0000_0000) by (nonlinear_arith)
            requires 0 <= gh as int <= 65535, 0 <= s64 as int <= 0x3_0000_0000;
    }
    let cw64: u64 = (gw as u64) * s64 + (padding as u64);
    let ch64: u64 = (gh as u64) * s64 + (padding as u64);
    proof {
        assert(cw64 as int == canvas_dim(gw as int, padding as int, max_radius as int));
        assert(ch64 as int == canvas_dim(gh as int, padding as int, max_radius as int));
    }
    let cw = cw64 as usize;
    let ch = ch64 as usize;
    let mut out: Vec<CanvasFrame> = Vec::new();
    let mut i: usize = 0;
    while i < frames.len()
        invariant
            i <= frames.len(),
            out.len() == i,
            forall|k: int|
                0 <= k < i ==> canvas_matches(
                    frames@[k],
                    padding as int,
                    max_radius as int,
                    scale_divisor(max_value as int),
                    #[trigger] out@[k],
                ),
        decreases frames.len() - i,
    {
        let frame = &frames[i];
        let canvas = rasterize_one(frame, padding, max_radius, m, cw, ch);
        out.push(canvas);
        i = i + 1;
    }
    out
}

} // verus!
