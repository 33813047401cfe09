//! Where the parts of an image lie that a game box cuts out of it.
//!
//! A part is a rectangle of picture elements, given by two corners. A grid
//! of `cols` by `rows` cells starts at `(x, y)`; its cells are `cw` wide and
//! `rh` high and stand `cgap` and `rgap` apart, which may be negative. The
//! cells are counted row by row.

use vstd::prelude::*;

verus! {

/// A rectangle from `(x0, y0)` to `(x1, y1)`.
#[derive(Clone, Copy, Debug, PartialEq, Eq, Structural)]
pub struct Rect {
    pub x0: u32,
    pub y0: u32,
    pub x1: u32,
    pub y1: u32,
}

/// The parts cut out of an image, and how large the image must be to hold
/// them.
#[derive(Debug, PartialEq, Eq)]
pub struct Layout {
    pub size: (u32, u32),
    pub textures: Vec<Rect>,
}

/// A grid along one axis: where it starts, how many cells it has, how long a
/// cell is and how far the cells stand apart.
pub struct Axis {
    pub start: int,
    pub cells: int,
    pub length: int,
    pub gap: int,
}

impl Axis {
    /// Where cell `i` begins.
    pub open spec fn low(self, i: int) -> int {
        self.start + i * (self.length + self.gap)
    }

    /// Where cell `i` ends.
    pub open spec fn high(self, i: int) -> int {
        self.start + (i + 1) * self.length + i * self.gap
    }

    /// Where the grid ends.
    pub open spec fn end(self) -> int {
        self.start + self.length * self.cells + self.gap * (self.cells - 1)
    }

    /// Whether every cell begins and ends within what a `u32` holds.
    pub open spec fn fits(self) -> bool {
        forall|i: int| 0 <= i < self.cells ==> 0 <= #[trigger] self.low(i) && self.high(i) <= u32::MAX
    }
}

/// Which part cell `(c, r)` is in a grid with `cols` columns.
pub open spec fn cell_index(cols: int, c: int, r: int) -> int {
    r * cols + c
}

/// Whether `layout` is the grid of `across` by `down`.
pub open spec fn is_grid(layout: Layout, across: Axis, down: Axis) -> bool {
    &&& layout.size.0 == across.end()
    &&& layout.size.1 == down.end()
    &&& layout.textures@.len() == across.cells * down.cells
    &&& forall|c: int, r: int|
        0 <= c < across.cells && 0 <= r < down.cells ==> {
            let i = #[trigger] cell_index(across.cells, c, r);
            &&& 0 <= i < layout.textures@.len()
            &&& layout.textures@[i].x0 == across.low(c)
            &&& layout.textures@[i].x1 == across.high(c)
            &&& layout.textures@[i].y0 == down.low(r)
            &&& layout.textures@[i].y1 == down.high(r)
        }
}

/// Whether a grid of `across` by `down` can be laid out: there is no cell,
/// or every cell lies within what a `u32` holds; and so does the end of the
/// grid either way.
pub open spec fn grid_fits(across: Axis, down: Axis) -> bool {
    &&& 0 <= across.end() <= u32::MAX
    &&& 0 <= down.end() <= u32::MAX
    &&& across.cells > 0 && down.cells > 0 ==> across.fits() && down.fits()
}

/// Where each cell of an axis begins and ends, if every cell fits.
fn cells_along(start: u32, cells: u32, length: u32, gap: i32) -> (r: Option<Vec<(u32, u32)>>)
    ensures
        ({
            let axis = Axis {
                start: start as int,
                cells: cells as int,
                length: length as int,
                gap: gap as int,
            };
            match r {
                Some(v) => {
                    &&& axis.fits()
                    &&& v@.len() == cells
                    &&& forall|i: int|
                        0 <= i < cells ==> (#[trigger] v@[i]).0 == axis.low(i) && v@[i].1
                            == axis.high(i)
                },
                None => !axis.fits(),
            }
        }),
{
    let ghost axis = Axis {
        start: start as int,
        cells: cells as int,
        length: length as int,
        gap: gap as int,
    };
    let step: i128 = length as i128 + gap as i128;
    let mut v: Vec<(u32, u32)> = Vec::new();
    let mut i: u32 = 0;
    while i < cells
        invariant
            i <= cells,
            step == length + gap,
            axis == (Axis {
                start: start as int,
                cells: cells as int,
                length: length as int,
                gap: gap as int,
            }),
            v@.len() == i,
            forall|j: int|
                0 <= j < i ==> 0 <= #[trigger] axis.low(j) && axis.high(j) <= u32::MAX && v@[j].0
                    == axis.low(j) && v@[j].1 == axis.high(j),
        decreases cells - i,
    {
        assert(-0x2_0000_0000_0000_0000 <= i * step <= 0x2_0000_0000_0000_0000) by (nonlinear_arith)
            requires
                0 <= i <= 0xffff_ffff,
                -0x2_0000_0000 <= step <= 0x2_0000_0000,
        ;
        let low: i128 = start as i128 + (i as i128) * step;
        let high: i128 = low + length as i128;
        assert(high == axis.high(i as int)) by (nonlinear_arith)
            requires
                low == start + i * (length + gap),
                high == low + length,
                axis.high(i as int) == start + (i + 1) * length + i * gap,
        ;
        if low < 0 || high > 0xffff_ffff {
            assert(!(0 <= axis.low(i as int) && axis.high(i as int) <= u32::MAX));
            return None;
        }
        v.push((low as u32, high as u32));
        i += 1;
    }
    Some(v)
}

/// Where an axis ends, if that is within what a `u32` holds.
fn end_of(start: u32, cells: u32, length: u32, gap: i32) -> (r: Option<u32>)
    ensures
        ({
            let axis = Axis {
                start: start as int,
                cells: cells as int,
                length: length as int,
                gap: gap as int,
            };
            match r {
                Some(e) => e == axis.end(),
                None => !(0 <= axis.end() <= u32::MAX),
            }
        }),
{
    assert(0 <= length * cells <= 0xffff_ffff * 0xffff_ffff) by (nonlinear_arith)
        requires
            0 <= length <= 0xffff_ffff,
            0 <= cells <= 0xffff_ffff,
    ;
    assert(-0x8000_0000 * 0x1_0000_0000 <= gap * (cells - 1) <= 0x8000_0000 * 0x1_0000_0000)
        by (nonlinear_arith)
        requires
            -0x8000_0000 <= gap <= 0x7fff_ffff,
            0 <= cells <= 0xffff_ffff,
    ;
    let end: i128 = start as i128 + (length as i128) * (cells as i128) + (gap as i128) * (
    cells as i128 - 1);
    if end < 0 || end > 0xffff_ffff {
        None
    } else {
        Some(end as u32)
    }
}

/// The layout of the one part that is `w` wide and `h` high, from `(x, y)`
/// on, if it lies within what a `u32` holds.
pub fn crop_layout(x: u32, y: u32, w: u32, h: u32) -> (r: Option<Layout>)
    ensures
        match r {
            Some(layout) => {
                &&& x + w <= u32::MAX && y + h <= u32::MAX
                &&& layout.size == ((x + w) as u32, (y + h) as u32)
                &&& layout.textures@ == seq![
                    Rect { x0: x, y0: y, x1: (x + w) as u32, y1: (y + h) as u32 },
                ]
            },
            None => x + w > u32::MAX || y + h > u32::MAX,
        },
{
    match (x.checked_add(w), y.checked_add(h)) {
        (Some(x1), Some(y1)) => {
            let mut textures: Vec<Rect> = Vec::new();
            textures.push(Rect { x0: x, y0: y, x1, y1 });
            assert(textures@ =~= seq![Rect { x0: x, y0: y, x1, y1 }]);
            Some(Layout { size: (x1, y1), textures })
        },
        _ => None,
    }
}

/// The layout of a grid, if it can be laid out.
pub fn grid_layout(
    x: u32,
    y: u32,
    cols: u32,
    rows: u32,
    cw: u32,
    rh: u32,
    cgap: i32,
    rgap: i32,
) -> (r: Option<Layout>)
    ensures
        ({
            let across = Axis {
                start: x as int,
                cells: cols as int,
                length: cw as int,
                gap: cgap as int,
            };
            let down = Axis {
                start: y as int,
                cells: rows as int,
                length: rh as int,
                gap: rgap as int,
            };
            match r {
                Some(layout) => grid_fits(across, down) && is_grid(layout, across, down),
                None => !grid_fits(across, down),
            }
        }),
{
    let ghost across = Axis {
        start: x as int,
        cells: cols as int,
        length: cw as int,
        gap: cgap as int,
    };
    let ghost down = Axis { start: y as int, cells: rows as int, length: rh as int, gap: rgap as int };
    let width = match end_of(x, cols, cw, cgap) {
        Some(e) => e,
        None => {
            return None;
        },
    };
    let height = match end_of(y, rows, rh, rgap) {
        Some(e) => e,
        None => {
            return None;
        },
    };
    let mut textures: Vec<Rect> = Vec::new();
    if cols == 0 || rows == 0 {
        assert(across.cells * down.cells == 0) by (nonlinear_arith)
            requires
                across.cells == 0 || down.cells == 0,
        ;
        return Some(Layout { size: (width, height), textures });
    }
    let xs = match cells_along(x, cols, cw, cgap) {
        Some(v) => v,
        None => {
            return None;
        },
    };
    let ys = match cells_along(y, rows, rh, rgap) {
        Some(v) => v,
        None => {
            return None;
        },
    };
    let mut r: u32 = 0;
    while r < rows
        invariant
            r <= rows,
            xs@.len() == cols,
            ys@.len() == rows,
            textures@.len() == r * cols,
            forall|c: int, q: int|
                0 <= c < cols && 0 <= q < r ==> {
                    let i = #[trigger] cell_index(cols as int, c, q);
                    &&& 0 <= i < textures@.len()
                    &&& textures@[i] == (Rect {
                        x0: xs@[c].0,
                        y0: ys@[q].0,
                        x1: xs@[c].1,
                        y1: ys@[q].1,
                    })
                },
        decreases rows - r,
    {
        let mut c: u32 = 0;
        while c < cols
            invariant
                c <= cols,
                r < rows,
                xs@.len() == cols,
                ys@.len() == rows,
                textures@.len() == r * cols + c,
                forall|d: int, q: int|
                    0 <= d < cols && 0 <= q < r ==> {
                        let i = #[trigger] cell_index(cols as int, d, q);
                        &&& 0 <= i < textures@.len()
                        &&& textures@[i] == (Rect {
                            x0: xs@[d].0,
                            y0: ys@[q].0,
                            x1: xs@[d].1,
                            y1: ys@[q].1,
                        })
                    },
                forall|d: int|
                    0 <= d < c ==> {
                        let i = #[trigger] cell_index(cols as int, d, r as int);
                        &&& 0 <= i < textures@.len()
                        &&& textures@[i] == (Rect {
                            x0: xs@[d].0,
                            y0: ys@[r as int].0,
                            x1: xs@[d].1,
                            y1: ys@[r as int].1,
                        })
                    },
            decreases cols - c,
        {
            let (x0, x1) = xs[c as usize];
            let (y0, y1) = ys[r as usize];
            textures.push(Rect { x0, y0, x1, y1 });
            c += 1;
        }
        assert((r + 1) * cols == r * cols + cols) by (nonlinear_arith);
        assert forall|d: int, q: int| 0 <= d < cols && 0 <= q < r + 1 implies ({
            let i = #[trigger] cell_index(cols as int, d, q);
            &&& 0 <= i < textures@.len()
            &&& textures@[i] == (Rect { x0: xs@[d].0, y0: ys@[q].0, x1: xs@[d].1, y1: ys@[q].1 })
        }) by {
            if q == r {
                assert(cell_index(cols as int, d, r as int) == r * cols + d);
            }
        }
        r += 1;
    }
    let layout = Layout { size: (width, height), textures };
    assert(is_grid(layout, across, down)) by {
        assert(rows * cols == across.cells * down.cells) by (nonlinear_arith)
            requires
                across.cells == cols,
                down.cells == rows,
        ;
        assert forall|c: int, q: int| 0 <= c < across.cells && 0 <= q < down.cells implies ({
            let i = #[trigger] cell_index(across.cells, c, q);
            &&& 0 <= i < layout.textures@.len()
            &&& layout.textures@[i].x0 == across.low(c)
            &&& layout.textures@[i].x1 == across.high(c)
            &&& layout.textures@[i].y0 == down.low(q)
            &&& layout.textures@[i].y1 == down.high(q)
        }) by {
            assert(xs@[c].0 == across.low(c));
            assert(ys@[q].0 == down.low(q));
        }
    }
    Some(layout)
}

} // verus!
