use vstd::prelude::*;
use vstd::arithmetic::div_mod::lemma_fundamental_div_mod;
use vstd::arithmetic::div_mod::lemma_fundamental_div_mod_converse;
use vstd::arithmetic::div_mod::lemma_div_is_ordered;
use vstd::arithmetic::div_mod::lemma_div_pos_is_pos;
use vstd::arithmetic::div_mod::lemma_div_by_multiple;
use vstd::arithmetic::div_mod::lemma_mod_bound;
use crate::types::DotFrame;
use crate::types::GifFrame;
use crate::brightness::PixelKey;

verus! {

/// Whether `(x, y)` addresses a pixel actually present in a row-major buffer
/// of `len` RGBA tuples for a frame of width `w` and height `h`: inside the
/// frame and inside the buffer.
pub open spec fn pixel_present(len: int, w: int, h: int, x: int, y: int) -> bool {
    0 <= x < w && 0 <= y < h && y * w + x < len
}

/// The key of the pixel at `(x, y)` under strategy `K`, or 0 where no pixel
/// is present.
pub open spec fn pixel_key_at<K: PixelKey>(
    buf: Seq<(u8, u8, u8, u8)>,
    w: int,
    h: int,
    x: int,
    y: int,
) -> int {
    if pixel_present(buf.len() as int, w, h, x, y) {
        K::key_spec(buf[y * w + x]) as int
    } else {
        0
    }
}

/// Sum of the keys of the first `cols` pixels of one block row starting at
/// `(x0, y)`; absent pixels contribute 0.
pub open spec fn strip_total<K: PixelKey>(
    buf: Seq<(u8, u8, u8, u8)>,
    w: int,
    h: int,
    x0: int,
    y: int,
    cols: nat,
) -> int
    decreases cols,
{
    if cols == 0 {
        0
    } else {
        strip_total::<K>(buf, w, h, x0, y, (cols - 1) as nat)
            + pixel_key_at::<K>(buf, w, h, x0 + cols - 1, y)
    }
}

/// How many of the first `cols` pixels of one block row are present.
pub open spec fn strip_count(
    buf: Seq<(u8, u8, u8, u8)>,
    w: int,
    h: int,
    x0: int,
    y: int,
    cols: nat,
) -> int
    decreases cols,
{
    if cols == 0 {
        0
    } else {
        strip_count(buf, w, h, x0, y, (cols - 1) as nat)
            + if pixel_present(buf.len() as int, w, h, x0 + cols - 1, y) {
                1int
            } else {
                0int
            }
    }
}

/// Sum of the keys over the first `rows` rows of the `b`-wide block whose
/// top-left pixel is `(x0, y0)`.
pub open spec fn block_total<K: PixelKey>(
    buf: Seq<(u8, u8, u8, u8)>,
    w: int,
    h: int,
    x0: int,
    y0: int,
    b: nat,
    rows: nat,
) -> int
    decreases rows,
{
    if rows == 0 {
        0
    } else {
        block_total::<K>(buf, w, h, x0, y0, b, (rows - 1) as nat)
            + strip_total::<K>(buf, w, h, x0, y0 + rows - 1, b)
    }
}

/// How many pixels of the first `rows` rows of the block at `(x0, y0)` are
/// present.
pub open spec fn block_count(
    buf: Seq<(u8, u8, u8, u8)>,
    w: int,
    h: int,
    x0: int,
    y0: int,
    b: nat,
    rows: nat,
) -> int
    decreases rows,
{
    if rows == 0 {
        0
    } else {
        block_count(buf, w, h, x0, y0, b, (rows - 1) as nat)
            + strip_count(buf, w, h, x0, y0 + rows - 1, b)
    }
}

/// The cell value of one block: the integer-truncated average of the keys of
/// its present pixels, 0 where the block holds no pixel.
pub open spec fn cell_value<K: PixelKey>(
    buf: Seq<(u8, u8, u8, u8)>,
    w: int,
    h: int,
    x0: int,
    y0: int,
    b: nat,
) -> int {
    let c = block_count(buf, w, h, x0, y0, b, b);
    if c > 0 {
        block_total::<K>(buf, w, h, x0, y0, b, b) / c
    } else {
        0
    }
}

/// `ceil(w / b)`: how many blocks of edge `b` cover an axis of length `w`.
pub open spec fn grid_len(w: int, b: int) -> int {
    (w + b - 1) / b
}

/// The cell value of grid cell `(row, col)` of a frame under strategy `K`
/// and block size `b`.
pub open spec fn cell_at<K: PixelKey>(f: GifFrame, b: nat, row: int, col: int) -> int {
    cell_value::<K>(
        f.buffer@,
        f.width as int,
        f.height as int,
        col * b as int,
        row * b as int,
        b,
    )
}

/// What the aggregator owes for one frame: a grid of `ceil(w/b) x ceil(h/b)`
/// cells, row-major, each cell the block average of the key function.
pub open spec fn dots_match<K: PixelKey>(f: GifFrame, b: nat, d: DotFrame) -> bool {
    let gw = grid_len(f.width as int, b as int);
    let gh = grid_len(f.height as int, b as int);
    &&& d.width as int == gw
    &&& d.height as int == gh
    &&& d.buffer.len() as int == gw * gh
    &&& forall|row: int, col: int|
        0 <= row < gh && 0 <= col < gw ==> d.buffer@[row * gw + col] as int == cell_at::<K>(
            f,
            b,
            row,
            col,
        )
}

/// For `w >= 1`, `b >= 1`: the overflow-safe form `(w-1)/b + 1` equals
/// `ceil(w/b)`, which lies in `[1, w]`, and the last block starts inside the
/// frame while the grid covers it.
proof fn lemma_grid_len(w: int, b: int)
    requires
        1 <= w,
        1 <= b,
    ensures
        grid_len(w, b) == (w - 1) / b + 1,
        1 <= grid_len(w, b) <= w,
        (grid_len(w, b) - 1) * b <= w - 1,
        grid_len(w, b) * b >= w,
{
    let q = (w - 1) / b;
    let r = (w - 1) % b;
    lemma_fundamental_div_mod(w - 1, b);
    lemma_mod_bound(w - 1, b);
    lemma_div_pos_is_pos(w - 1, b);
    assert(q <= b * q) by (nonlinear_arith)
        requires 0 <= q, 1 <= b;
    assert((q + 1 - 1) * b == b * q) by (nonlinear_arith);
    assert((q + 1) * b == b * q + b) by (nonlinear_arith);
    lemma_fundamental_div_mod_converse(w + b - 1, b, q + 1, r);
}

/// A row-major index lies inside the grid.
pub(crate) proof fn lemma_cell_index_bound(r2: int, c2: int, rows: int, cols: int)
    requires
        0 <= r2 < rows,
        0 <= c2 < cols,
    ensures
        0 <= r2 * cols + c2,
        r2 * cols + c2 < rows * cols,
        r2 * cols + c2 < (r2 + 1) * cols,
{
    assert(0 <= r2 * cols && r2 * cols + c2 < rows * cols && r2 * cols + c2 < (r2 + 1) * cols)
        by (nonlinear_arith)
        requires 0 <= r2, r2 < rows, 0 <= c2, c2 < cols;
}

/// Totals and counts of a block prefix are non-negative, the count is at most
/// the number of pixels scanned, and the total is at most `count * bound`
/// for any per-pixel bound of the strategy.
proof fn lemma_strip_bounds<K: PixelKey>(
    buf: Seq<(u8, u8, u8, u8)>,
    w: int,
    h: int,
    x0: int,
    y: int,
    cols: nat,
)
    ensures
        0 <= strip_count(buf, w, h, x0, y, cols) <= cols,
        0 <= strip_total::<K>(buf, w, h, x0, y, cols),
        strip_total::<K>(buf, w, h, x0, y, cols) <= strip_count(buf, w, h, x0, y, cols)
            * K::key_bound(),
    decreases cols,
{
    if cols > 0 {
        lemma_strip_bounds::<K>(buf, w, h, x0, y, (cols - 1) as nat);
        if pixel_present(buf.len() as int, w, h, x0 + cols - 1, y) {
            K::key_spec_bounded(buf[(y * w + x0 + cols - 1) as int]);
        }
        let c0 = strip_count(buf, w, h, x0, y, (cols - 1) as nat);
        assert((c0 + 1) * K::key_bound() == c0 * K::key_bound() + K::key_bound())
            by (nonlinear_arith);
    }
}

/// The block-level counterpart of [`lemma_strip_bounds`].
proof fn lemma_block_bounds<K: PixelKey>(
    buf: Seq<(u8, u8, u8, u8)>,
    w: int,
    h: int,
    x0: int,
    y0: int,
    b: nat,
    rows: nat,
)
    ensures
        0 <= block_count(buf, w, h, x0, y0, b, rows) <= rows * b,
        0 <= block_total::<K>(buf, w, h, x0, y0, b, rows),
        block_total::<K>(buf, w, h, x0, y0, b, rows) <= block_count(buf, w, h, x0, y0, b, rows)
            * K::key_bound(),
    decreases rows,
{
    if rows > 0 {
        lemma_block_bounds::<K>(buf, w, h, x0, y0, b, (rows - 1) as nat);
        lemma_strip_bounds::<K>(buf, w, h, x0, y0 + rows - 1, b);
        let c0 = block_count(buf, w, h, x0, y0, b, (rows - 1) as nat);
        let s0 = strip_count(buf, w, h, x0, y0 + rows - 1, b);
        assert(rows * b == (rows - 1) * b + b) by (nonlinear_arith);
        assert((c0 + s0) * K::key_bound() == c0 * K::key_bound() + s0 * K::key_bound())
            by (nonlinear_arith);
        assert(s0 * K::key_bound() <= b * K::key_bound()) by (nonlinear_arith)
            requires 0 <= s0 <= b, 0 <= K::key_bound();
    }
}

/// Every cell value is non-negative and at most the strategy's bound.
pub proof fn lemma_cell_value_bounded<K: PixelKey>(
    buf: Seq<(u8, u8, u8, u8)>,
    w: int,
    h: int,
    x0: int,
    y0: int,
    b: nat,
)
    ensures
        0 <= cell_value::<K>(buf, w, h, x0, y0, b) <= K::key_bound(),
{
    lemma_block_bounds::<K>(buf, w, h, x0, y0, b, b);
    let c = block_count(buf, w, h, x0, y0, b, b);
    let t = block_total::<K>(buf, w, h, x0, y0, b, b);
    if c > 0 {
        lemma_div_pos_is_pos(t, c);
        lemma_div_is_ordered(t, c * K::key_bound() as int, c);
        lemma_div_by_multiple(K::key_bound() as int, c);
        assert(c * K::key_bound() == K::key_bound() * c) by (nonlinear_arith);
    }
}

proof fn lemma_strip_total_transparent(
    buf: Seq<(u8, u8, u8, u8)>,
    w: int,
    h: int,
    x0: int,
    y: int,
    cols: nat,
)
    requires
        forall|k: int| 0 <= k < buf.len() ==> (#[trigger] buf[k]).3 < 128,
    ensures
        strip_total::<crate::brightness::BrightnessKey>(buf, w, h, x0, y, cols) == 0,
    decreases cols,
{
    if cols > 0 {
        lemma_strip_total_transparent(buf, w, h, x0, y, (cols - 1) as nat);
    }
}

proof fn lemma_block_total_transparent(
    buf: Seq<(u8, u8, u8, u8)>,
    w: int,
    h: int,
    x0: int,
    y0: int,
    b: nat,
    rows: nat,
)
    requires
        forall|k: int| 0 <= k < buf.len() ==> (#[trigger] buf[k]).3 < 128,
    ensures
        block_total::<crate::brightness::BrightnessKey>(buf, w, h, x0, y0, b, rows) == 0,
    decreases rows,
{
    if rows > 0 {
        lemma_block_total_transparent(buf, w, h, x0, y0, b, (rows - 1) as nat);
        lemma_strip_total_transparent(buf, w, h, x0, y0 + rows - 1, b);
    }
}

/// Degenerate input: a frame whose pixels are all below the alpha threshold
/// aggregates to a cell value of 0 in every block, whatever the pixels'
/// color channels hold.
pub proof fn lemma_transparent_frame_zero_cells(
    buf: Seq<(u8, u8, u8, u8)>,
    w: int,
    h: int,
    x0: int,
    y0: int,
    b: nat,
)
    requires
        forall|k: int| 0 <= k < buf.len() ==> (#[trigger] buf[k]).3 < 128,
    ensures
        cell_value::<crate::brightness::BrightnessKey>(buf, w, h, x0, y0, b) == 0,
{
    lemma_block_total_transparent(buf, w, h, x0, y0, b, b);
    let c = block_count(buf, w, h, x0, y0, b, b);
    if c > 0 {
        vstd::arithmetic::div_mod::lemma_div_of0(c);
    }
}

/// Intensity bound: under the default brightness key, every cell value the
/// aggregator can produce lies in `[0, 255]`.
pub proof fn lemma_default_intensity_bound(
    buf: Seq<(u8, u8, u8, u8)>,
    w: int,
    h: int,
    x0: int,
    y0: int,
    b: nat,
)
    ensures
        0 <= cell_value::<crate::brightness::BrightnessKey>(buf, w, h, x0, y0, b) <= 255,
{
    lemma_cell_value_bounded::<crate::brightness::BrightnessKey>(buf, w, h, x0, y0, b);
}

/// Block aggregation: clusters each frame's pixels into `b x b` blocks and
/// averages the key function over every block, producing one dot frame per
/// source frame with `ceil(w/b) * ceil(h/b)` cells.
#[verifier::loop_isolation(false)]
pub fn convert_to_dots<K: PixelKey>(
    frames: Vec<GifFrame>,
    block_size: usize,
    key: &K,
) -> (r: Vec<DotFrame>)
    requires
        block_size >= 1,
        block_size * block_size <= usize::MAX,
        block_size * block_size * K::key_bound() <= usize::MAX,
    ensures
        r.len() == frames.len(),
        forall|i: int|
            0 <= i < frames.len() ==> dots_match::<K>(frames@[i], block_size as nat, r@[i]),
        forall|i: int, j: int|
            0 <= i < r.len() && 0 <= j < r@[i].buffer.len() ==> r@[i].buffer@[j] as nat
                <= K::key_bound(),
{
    let b = block_size;
    proof {
        assert(b as int + 65536 <= usize::MAX as int) by (nonlinear_arith)
            requires
                1 <= b as int,
                b as int * b as int <= usize::MAX as int,
                usize::MAX as int >= 0xFFFF_FFFF;
    }
    let mut dot_frames: Vec<DotFrame> = Vec::new();
    let mut fi: usize = 0;
    while fi < frames.len()
        invariant
            fi <= frames.len(),
            dot_frames.len() == fi,
            forall|i: int|
                0 <= i < fi ==> dots_match::<K>(frames@[i], block_size as nat, dot_frames@[i]),
            forall|i: int, j: int|
                0 <= i < fi && 0 <= j < dot_frames@[i].buffer.len() ==> dot_frames@[i].buffer@[j]
                    as nat <= K::key_bound(),
        decreases frames.len() - fi,
    {
        let frame = &frames[fi];
        let w = frame.width as usize;
        let h = frame.height as usize;
        let gw = if w == 0 { 0 } else { (w - 1) / b + 1 };
        let gh = if h == 0 { 0 } else { (h - 1) / b + 1 };
        proof {
            assert((b - 1) / (b as int) == 0) by {
                vstd::arithmetic::div_mod::lemma_basic_div(b - 1, b as int);
            };
            if w >= 1 {
                lemma_grid_len(w as int, b as int);
            }
            if h >= 1 {
                lemma_grid_len(h as int, b as int);
            }
            assert(gw as int == grid_len(w as int, b as int));
            assert(gh as int == grid_len(h as int, b as int));
        }
        let mut blocks: Vec<usize> = Vec::new();
        let mut br: usize = 0;
        while br < gh
            invariant
                br <= gh,
                blocks.len() == br * gw,
                forall|r2: int, c2: int|
                    0 <= r2 < br && 0 <= c2 < gw ==> blocks@[r2 * gw + c2] as int == cell_at::<K>(
                        frames@[fi as int],
                        b as nat,
                        r2,
                        c2,
                    ),
                forall|j: int| 0 <= j < blocks.len() ==> blocks@[j] as nat <= K::key_bound(),
            decreases gh - br,
        {
            proof {
                assert(br as int * b <= (gh - 1) * b) by (nonlinear_arith)
                    requires br as int <= gh as int - 1, b >= 1;
            }
            let y0 = br * b;
            let mut bc: usize = 0;
            while bc < gw
                invariant
                    bc <= gw,
                    blocks.len() == br * gw + bc,
                    forall|r2: int, c2: int|
                        0 <= r2 < br && 0 <= c2 < gw ==> blocks@[r2 * gw + c2] as int
                            == cell_at::<K>(frames@[fi as int], b as nat, r2, c2),
                    forall|c2: int|
                        0 <= c2 < bc ==> blocks@[br * gw + c2] as int == cell_at::<K>(
                            frames@[fi as int],
                            b as nat,
                            br as int,
                            c2,
                        ),
                    forall|j: int| 0 <= j < blocks.len() ==> blocks@[j] as nat <= K::key_bound(),
                decreases gw - bc,
            {
                proof {
                    assert(bc as int * b <= (gw - 1) * b) by (nonlinear_arith)
                        requires bc as int <= gw as int - 1, b >= 1;
                }
                let x0 = bc * b;
                let mut total: usize = 0;
                let mut count: usize = 0;
                let mut dy: usize = 0;
                while dy < b
                    invariant
                        dy <= b,
                        total as int == block_total::<K>(
                            frame.buffer@,
                            w as int,
                            h as int,
                            x0 as int,
                            y0 as int,
                            b as nat,
                            dy as nat,
                        ),
                        count as int == block_count(
                            frame.buffer@,
                            w as int,
                            h as int,
                            x0 as int,
                            y0 as int,
                            b as nat,
                            dy as nat,
                        ),
                        count as int <= dy * b,
                        total as int <= count * K::key_bound(),
                    decreases b - dy,
                {
                    let mut dx: usize = 0;
                    while dx < b
                        invariant
                            dx <= b,
                            total as int == block_total::<K>(
                                frame.buffer@,
                                w as int,
                                h as int,
                                x0 as int,
                                y0 as int,
                                b as nat,
                                dy as nat,
                            ) + strip_total::<K>(
                                frame.buffer@,
                                w as int,
                                h as int,
                                x0 as int,
                                y0 + dy,
                                dx as nat,
                            ),
                            count as int == block_count(
                                frame.buffer@,
                                w as int,
                                h as int,
                                x0 as int,
                                y0 as int,
                                b as nat,
                                dy as nat,
                            ) + strip_count(
                                frame.buffer@,
                                w as int,
                                h as int,
                                x0 as int,
                                y0 + dy,
                                dx as nat,
                            ),
                            count as int <= dy * b + dx,
                            total as int <= count * K::key_bound(),
                        decreases b - dx,
                    {
                        proof {
                            assert(x0 + dx < w + b && y0 + dy < h + b) by (nonlinear_arith)
                                requires
                                    x0 as int <= (gw - 1) * b,
                                    y0 as int <= (gh - 1) * b,
                                    gw >= 1 ==> (gw - 1) * (b as int) <= w as int - 1,
                                    gh >= 1 ==> (gh - 1) * (b as int) <= h as int - 1,
                                    gw >= 1,
                                    gh >= 1,
                                    dx < b,
                                    dy < b,
                                    b >= 1;
                        }
                        let px = x0 + dx;
                        let py = y0 + dy;
                        let ghost old_total: int = total as int;
                        let ghost old_count: int = count as int;
                        if px < w && py < h {
                            proof {
                                assert(py * w + px < 65535 * 65535) by (nonlinear_arith)
                                    requires
                                        0 <= py as int,
                                        (py as int) < h as int,
                                        0 <= px as int,
                                        (px as int) < w as int,
                                        w as int <= 65535,
                                        h as int <= 65535;
                            }
                            let index = py * w + px;
                            if index < frame.buffer.len() {
                                let pixel = frame.buffer[index];
                                let k = key.key(pixel);
                                proof {
                                    assert(count as int + 1 <= b * b) by (nonlinear_arith)
                                        requires
                                            count as int <= dy * b + dx,
                                            0 <= dy < b,
                                            0 <= dx < b,
                                            b >= 1;
                                    assert((old_count + 1) * K::key_bound() == old_count
                                        * K::key_bound() + K::key_bound()) by (nonlinear_arith);
                                    assert((b * b) * K::key_bound() >= (old_count + 1)
                                        * K::key_bound()) by (nonlinear_arith)
                                        requires
                                            0 <= old_count + 1 <= b * b,
                                            0 <= K::key_bound();
                                }
                                total = total + k;
                                count = count + 1;
                            }
                        }
                        dx = dx + 1;
                        proof {
                            let buf = frame.buffer@;
                            assert(strip_total::<K>(buf, w as int, h as int, x0 as int, y0 + dy,
                                dx as nat) == strip_total::<K>(buf, w as int, h as int, x0 as int,
                                y0 + dy, (dx - 1) as nat) + pixel_key_at::<K>(buf, w as int,
                                h as int, x0 + dx - 1, y0 + dy));
                            assert(strip_count(buf, w as int, h as int, x0 as int, y0 + dy,
                                dx as nat) == strip_count(buf, w as int, h as int, x0 as int,
                                y0 + dy, (dx - 1) as nat) + if pixel_present(buf.len() as int,
                                w as int, h as int, x0 + dx - 1, y0 + dy) { 1int } else { 0int });
                            assert(total as int == old_total + pixel_key_at::<K>(buf, w as int,
                                h as int, px as int, py as int));
                            assert(count as int == old_count + if pixel_present(buf.len() as int,
                                w as int, h as int, px as int, py as int) { 1int } else { 0int });
                        }
                    }
                    dy = dy + 1;
                    proof {
                        assert(count as int <= dy * b) by (nonlinear_arith)
                            requires count as int <= (dy - 1) * b + b;
                    }
                }
                let avg = if count > 0 { total / count } else { 0 };
                proof {
                    assert(avg as int == cell_at::<K>(frames@[fi as int], b as nat, br as int,
                        bc as int));
                    lemma_cell_value_bounded::<K>(frame.buffer@, w as int, h as int, x0 as int,
                        y0 as int, b as nat);
                }
                blocks.push(avg);
                proof {
                    assert forall|r2: int, c2: int|
                        0 <= r2 < br && 0 <= c2 < gw implies blocks@[r2 * gw + c2] as int
                        == cell_at::<K>(frames@[fi as int], b as nat, r2, c2) by {
                        lemma_cell_index_bound(r2, c2, br as int, gw as int);
                    };
                }
                bc = bc + 1;
            }
            proof {
                assert((br + 1) as int * gw == br * gw + gw) by (nonlinear_arith);
                assert forall|r2: int, c2: int|
                    0 <= r2 < br + 1 && 0 <= c2 < gw implies blocks@[r2 * gw + c2] as int
                    == cell_at::<K>(frames@[fi as int], b as nat, r2, c2) by {
                    lemma_cell_index_bound(r2, c2, br as int + 1, gw as int);
                };
            }
            br = br + 1;
        }
        proof {
            assert(blocks.len() == gh * gw);
            assert(gh as int * gw == gw as int * gh) by (nonlinear_arith);
        }
        let dot = DotFrame { width: gw as u16, height: gh as u16, buffer: blocks };
        proof {
            let f = frames@[fi as int];
            let sgw: int = grid_len(f.width as int, b as int);
            let sgh: int = grid_len(f.height as int, b as int);
            assert(dot.width as int == sgw);
            assert(dot.height as int == sgh);
            assert(dot.buffer.len() as int == sgw * sgh);
            assert(forall|row: int, col: int|
                0 <= row < sgh && 0 <= col < sgw ==> dot.buffer@[row * sgw + col] as int
                    == cell_at::<K>(f, b as nat, row, col));
            assert(dots_match::<K>(f, b as nat, dot));
        }
        dot_frames.push(dot);
        fi = fi + 1;
    }
    dot_frames
}

/// The global maximum cell value across all frames of an animation, or 1
/// where the animation holds no cell at all. Note that an animation whose
/// cells are all 0 yields 0, not the fallback 1.
#[verifier::loop_isolation(false)]
pub fn max_cell_value(frames: &Vec<DotFrame>) -> (m: usize)
    ensures
        forall|i: int, j: int|
            0 <= i < frames.len() && 0 <= j < frames@[i].buffer.len() ==> frames@[i].buffer@[j]
                <= m,
        (exists|i: int, j: int|
            0 <= i < frames.len() && 0 <= j < frames@[i].buffer.len() && frames@[i].buffer@[j]
                == m) || ((forall|i: int|
            0 <= i < frames.len() ==> frames@[i].buffer.len() == 0) && m == 1),
{
    let mut m: usize = 0;
    let mut any: bool = false;
    let mut i: usize = 0;
    while i < frames.len()
        invariant
            i <= frames.len(),
            forall|i2: int, j2: int|
                0 <= i2 < i && 0 <= j2 < frames@[i2].buffer.len() ==> frames@[i2].buffer@[j2] <= m,
            any ==> exists|i2: int, j2: int|
                0 <= i2 < i && 0 <= j2 < frames@[i2].buffer.len() && frames@[i2].buffer@[j2] == m,
            !any ==> m == 0 && forall|i2: int|
                0 <= i2 < i ==> frames@[i2].buffer.len() == 0,
        decreases frames.len() - i,
    {
        let cells = &frames[i].buffer;
        let mut j: usize = 0;
        while j < cells.len()
            invariant
                j <= cells.len(),
                cells == &frames@[i as int].buffer,
                forall|i2: int, j2: int|
                    0 <= i2 < i && 0 <= j2 < frames@[i2].buffer.len() ==> frames@[i2].buffer@[j2]
                        <= m,
                forall|j2: int| 0 <= j2 < j ==> frames@[i as int].buffer@[j2] <= m,
                any ==> (exists|i2: int, j2: int|
                    0 <= i2 < i && 0 <= j2 < frames@[i2].buffer.len() && frames@[i2].buffer@[j2]
                        == m) || (exists|j2: int|
                    0 <= j2 < j && frames@[i as int].buffer@[j2] == m),
                !any ==> m == 0 && j == 0 && forall|i2: int|
                    0 <= i2 < i ==> frames@[i2].buffer.len() == 0,
            decreases cells.len() - j,
        {
            let v = cells[j];
            if !any || v > m {
                m = v;
                any = true;
                proof {
                    assert(frames@[i as int].buffer@[j as int] == m);
                }
            }
            j = j + 1;
        }
        i = i + 1;
    }
    if !any {
        m = 1;
    }
    m
}

} // verus!
