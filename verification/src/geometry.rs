//! Points on a canvas and the geometry of a grid of equally sized cells.
use vstd::arithmetic::div_mod::lemma_fundamental_div_mod;
use vstd::prelude::*;

verus! {

/// A point on a canvas, in pixels from the top left corner.
#[derive(Debug, Clone, Copy, PartialEq, Eq, Structural)]
pub struct Point {
    pub x: u32,
    pub y: u32,
}

/// The gap between neighbouring cells of a grid: `x` pixels between
/// columns and `y` pixels between rows.
pub type Padding = Point;

/// The geometry of a grid: `columns` by `rows` cells of
/// `cell_width` by `cell_height` pixels each, with `padding` between
/// neighbouring cells. The size of the canvas follows from these.
#[derive(Debug, Clone, Copy, PartialEq, Eq, Structural)]
pub struct GridLayout {
    pub cell_width: u32,
    pub cell_height: u32,
    pub columns: u32,
    pub rows: u32,
    pub padding: Padding,
}

/// The number of rows that `total` images take at `per_row` images per
/// row: `total / per_row`, rounded up.
pub open spec fn rows_for(total: int, per_row: int) -> int {
    (total + per_row - 1) / per_row
}

/// The length of `count` cells of `cell` pixels in a line with `pad`
/// pixels between neighbours.
pub open spec fn extent(count: int, cell: int, pad: int) -> int {
    count * cell + (count - 1) * pad
}

/// Where the cell `k` of such a line begins.
pub open spec fn cell_start(k: int, cell: int, pad: int) -> int {
    k * cell + k * pad
}

impl GridLayout {
    /// The grid has at least one cell, and the size of its canvas and the
    /// number of its cells fit in 32 bits.
    pub open spec fn valid(self) -> bool {
        &&& self.columns >= 1
        &&& self.rows >= 1
        &&& self.spec_canvas_width() <= u32::MAX
        &&& self.spec_canvas_height() <= u32::MAX
        &&& self.spec_capacity() <= u32::MAX
    }

    /// The number of cells.
    pub open spec fn spec_capacity(self) -> int {
        self.columns * self.rows
    }

    /// The width of the canvas:
    /// `columns * cell_width + (columns - 1) * padding.x`.
    pub open spec fn spec_canvas_width(self) -> int {
        extent(self.columns as int, self.cell_width as int, self.padding.x as int)
    }

    /// The height of the canvas:
    /// `rows * cell_height + (rows - 1) * padding.y`.
    pub open spec fn spec_canvas_height(self) -> int {
        extent(self.rows as int, self.cell_height as int, self.padding.y as int)
    }

    /// The column of the cell `index`, counting cells row by row.
    pub open spec fn column_of(self, index: int) -> int {
        index % (self.columns as int)
    }

    /// The row of the cell `index`.
    pub open spec fn row_of(self, index: int) -> int {
        index / (self.columns as int)
    }

    /// The top left corner of the cell `index`.
    pub open spec fn spec_origin(self, index: int) -> Point {
        Point {
            x: cell_start(self.column_of(index), self.cell_width as int, self.padding.x as int) as u32,
            y: cell_start(self.row_of(index), self.cell_height as int, self.padding.y as int) as u32,
        }
    }

    /// The top left corners of the `count` cells from `first` on.
    pub open spec fn origins(self, first: int, count: nat) -> Seq<Point> {
        Seq::new(count, |k: int| self.spec_origin(first + k))
    }

    /// Whether the pixel at `(x, y)` of the canvas lies in the cell
    /// `index`.
    pub open spec fn in_cell(self, index: int, x: int, y: int) -> bool {
        let origin = self.spec_origin(index);
        origin.x <= x < origin.x + self.cell_width && origin.y <= y < origin.y + self.cell_height
    }

    /// The layout that these parameters describe, with the padding
    /// written out.
    pub open spec fn describe(
        cell: (u32, u32),
        columns: u32,
        rows: int,
        padding: Option<Padding>,
    ) -> GridLayout {
        GridLayout {
            cell_width: cell.0,
            cell_height: cell.1,
            columns,
            rows: rows as u32,
            padding: match padding {
                Some(p) => p,
                None => Point { x: 0, y: 0 },
            },
        }
    }

    /// Whether a grid of `rows` rows can be laid out with these
    /// parameters.
    pub open spec fn describable(
        cell: (u32, u32),
        columns: u32,
        rows: int,
        padding: Option<Padding>,
    ) -> bool {
        0 <= rows <= u32::MAX && Self::describe(cell, columns, rows, padding).valid()
    }

    /// The layout for cells of size `cell` in `columns` columns and
    /// `rows` rows: present exactly when there is at least one column and
    /// one row and the size of the canvas and the number of cells fit in
    /// 32 bits.
    pub fn with_rows(cell: (u32, u32), columns: u32, rows: u32, padding: Option<Padding>) -> (layout:
        Option<GridLayout>)
        ensures
            layout.is_some() <==> Self::describable(cell, columns, rows as int, padding),
            layout.is_some() ==> layout.unwrap() == Self::describe(
                cell,
                columns,
                rows as int,
                padding,
            ),
    {
        let pad: Point = match padding {
            Some(p) => p,
            None => Point { x: 0, y: 0 },
        };
        if columns == 0 || rows == 0 {
            return None;
        }
        let limit: u64 = 0xffff_ffff;
        proof {
            lemma_product_bound(columns as int, cell.0 as int);
            lemma_product_bound(columns as int - 1, pad.x as int);
            lemma_product_bound(rows as int, cell.1 as int);
            lemma_product_bound(rows as int - 1, pad.y as int);
            lemma_product_bound(columns as int, rows as int);
        }
        let width: u128 = (columns as u64 * cell.0 as u64) as u128 + ((columns - 1) as u64
            * pad.x as u64) as u128;
        let height: u128 = (rows as u64 * cell.1 as u64) as u128 + ((rows - 1) as u64
            * pad.y as u64) as u128;
        let cells: u64 = columns as u64 * rows as u64;
        if width > limit as u128 || height > limit as u128 || cells > limit {
            return None;
        }
        Some(GridLayout { cell_width: cell.0, cell_height: cell.1, columns, rows, padding: pad })
    }

    /// The layout for `total_images` cells of size `cell` at
    /// `images_per_row` cells per row, with as many rows as that takes:
    /// present exactly when both counts are at least one and the size of
    /// the canvas and the number of cells fit in 32 bits.
    pub fn new(
        cell: (u32, u32),
        images_per_row: u32,
        total_images: u32,
        padding: Option<Padding>,
    ) -> (layout: Option<GridLayout>)
        ensures
            layout.is_some() <==> images_per_row >= 1 && total_images >= 1 && Self::describable(
                cell,
                images_per_row,
                rows_for(total_images as int, images_per_row as int),
                padding,
            ),
            layout.is_some() ==> layout.unwrap() == Self::describe(
                cell,
                images_per_row,
                rows_for(total_images as int, images_per_row as int),
                padding,
            ),
    {
        if images_per_row == 0 || total_images == 0 {
            return None;
        }
        let rows: u64 = (total_images as u64 + images_per_row as u64 - 1) / images_per_row as u64;
        proof {
            lemma_rows_for(total_images as int, images_per_row as int);
        }
        Self::with_rows(cell, images_per_row, rows as u32, padding)
    }

    /// The number of cells.
    pub fn capacity(&self) -> (cells: u32)
        requires
            self.valid(),
        ensures
            cells == self.spec_capacity(),
    {
        proof {
            lemma_product_bound(self.columns as int, self.rows as int);
        }
        (self.columns as u64 * self.rows as u64) as u32
    }

    /// The width of the canvas in pixels.
    pub fn canvas_width(&self) -> (width: u32)
        requires
            self.valid(),
        ensures
            width == self.spec_canvas_width(),
    {
        proof {
            lemma_product_bound(self.columns as int, self.cell_width as int);
            lemma_product_bound(self.columns as int - 1, self.padding.x as int);
        }
        (self.columns as u64 * self.cell_width as u64 + (self.columns - 1) as u64
            * self.padding.x as u64) as u32
    }

    /// The height of the canvas in pixels.
    pub fn canvas_height(&self) -> (height: u32)
        requires
            self.valid(),
        ensures
            height == self.spec_canvas_height(),
    {
        proof {
            lemma_product_bound(self.rows as int, self.cell_height as int);
            lemma_product_bound(self.rows as int - 1, self.padding.y as int);
        }
        (self.rows as u64 * self.cell_height as u64 + (self.rows - 1) as u64
            * self.padding.y as u64) as u32
    }

    /// The top left corner of the cell `index`: the cell lies in column
    /// `index % columns` and row `index / columns`, and each column and
    /// row before it takes the size of a cell plus the padding.
    pub fn origin(&self, index: u32) -> (origin: Point)
        requires
            self.valid(),
            index < self.spec_capacity(),
        ensures
            origin == self.spec_origin(index as int),
            origin.x == cell_start(
                self.column_of(index as int),
                self.cell_width as int,
                self.padding.x as int,
            ),
            origin.y == cell_start(
                self.row_of(index as int),
                self.cell_height as int,
                self.padding.y as int,
            ),
            origin.x + self.cell_width <= self.spec_canvas_width(),
            origin.y + self.cell_height <= self.spec_canvas_height(),
    {
        let column: u32 = index % self.columns;
        let row: u32 = index / self.columns;
        proof {
            lemma_cell_within(*self, index as int);
            lemma_product_bound(column as int, self.cell_width as int);
            lemma_product_bound(column as int, self.padding.x as int);
            lemma_product_bound(row as int, self.cell_height as int);
            lemma_product_bound(row as int, self.padding.y as int);
        }
        let x: u64 = column as u64 * self.cell_width as u64 + column as u64 * self.padding.x as u64;
        let y: u64 = row as u64 * self.cell_height as u64 + row as u64 * self.padding.y as u64;
        Point { x: x as u32, y: y as u32 }
    }
}

/// The product of two numbers below `2^32` is below `2^64`.
pub proof fn lemma_product_bound(a: int, b: int)
    requires
        0 <= a <= 0xffff_ffff,
        0 <= b <= 0xffff_ffff,
    ensures
        0 <= a * b <= 0xffff_fffe_0000_0001,
{
    assert(0 <= a * b <= 0xffff_ffff * 0xffff_ffff) by (nonlinear_arith)
        requires
            0 <= a <= 0xffff_ffff,
            0 <= b <= 0xffff_ffff,
    ;
}

/// Rounding `total / per_row` up gives at least one row for at least one
/// image, no more rows than images, and enough cells for all images.
pub proof fn lemma_rows_for(total: int, per_row: int)
    requires
        total >= 1,
        per_row >= 1,
    ensures
        1 <= rows_for(total, per_row) <= total,
        total <= per_row * rows_for(total, per_row) < total + per_row,
{
    let n = total + per_row - 1;
    lemma_fundamental_div_mod(n, per_row);
    let q = n / per_row;
    assert(1 <= q <= total && total <= per_row * q < total + per_row) by (nonlinear_arith)
        requires
            n == per_row * q + n % per_row,
            0 <= n % per_row < per_row,
            n == total + per_row - 1,
            total >= 1,
            per_row >= 1,
    ;
}

/// A cell of the grid lies in a column and a row of the grid, and inside
/// the canvas.
pub proof fn lemma_cell_within(layout: GridLayout, index: int)
    requires
        layout.valid(),
        0 <= index < layout.spec_capacity(),
    ensures
        0 <= layout.column_of(index) < layout.columns,
        0 <= layout.row_of(index) < layout.rows,
        index == layout.row_of(index) * layout.columns + layout.column_of(index),
        0 <= cell_start(
            layout.column_of(index),
            layout.cell_width as int,
            layout.padding.x as int,
        ),
        0 <= cell_start(layout.row_of(index), layout.cell_height as int, layout.padding.y as int),
        cell_start(layout.column_of(index), layout.cell_width as int, layout.padding.x as int)
            + layout.cell_width <= layout.spec_canvas_width(),
        cell_start(layout.row_of(index), layout.cell_height as int, layout.padding.y as int)
            + layout.cell_height <= layout.spec_canvas_height(),
        layout.spec_origin(index).x + layout.cell_width <= layout.spec_canvas_width(),
        layout.spec_origin(index).y + layout.cell_height <= layout.spec_canvas_height(),
{
    let cols = layout.columns as int;
    let rows = layout.rows as int;
    let gx = index % cols;
    let gy = index / cols;
    lemma_fundamental_div_mod(index, cols);
    assert(0 <= gy < rows) by (nonlinear_arith)
        requires
            index == cols * gy + gx,
            0 <= gx < cols,
            0 <= index < cols * rows,
    ;
    assert(index == gy * cols + gx) by (nonlinear_arith)
        requires
            index == cols * gy + gx,
    ;
    lemma_start_within(gx, cols, layout.cell_width as int, layout.padding.x as int);
    lemma_start_within(gy, rows, layout.cell_height as int, layout.padding.y as int);
}

/// The cell `k` of a line of `count` cells begins at or after zero and
/// ends at or before the end of the line.
pub proof fn lemma_start_within(k: int, count: int, cell: int, pad: int)
    requires
        0 <= k < count,
        0 <= cell,
        0 <= pad,
    ensures
        0 <= cell_start(k, cell, pad),
        cell_start(k, cell, pad) + cell <= extent(count, cell, pad),
{
    assert(0 <= k * cell + k * pad && k * cell + k * pad + cell <= count * cell + (count - 1)
        * pad) by (nonlinear_arith)
        requires
            0 <= k < count,
            0 <= cell,
            0 <= pad,
    ;
}

/// Two different cells of a line do not overlap: the earlier one ends,
/// padding included, at or before the start of the later one.
pub proof fn lemma_starts_apart(j: int, k: int, cell: int, pad: int)
    requires
        0 <= j < k,
        0 <= cell,
        0 <= pad,
    ensures
        cell_start(j, cell, pad) + cell + pad <= cell_start(k, cell, pad),
{
    assert(j * cell + j * pad + cell + pad <= k * cell + k * pad) by (nonlinear_arith)
        requires
            0 <= j < k,
            0 <= cell,
            0 <= pad,
    ;
}

/// The cells of a grid are pairwise disjoint: no pixel lies in two
/// different cells.
pub proof fn lemma_cells_disjoint(layout: GridLayout, i: int, j: int, x: int, y: int)
    requires
        layout.valid(),
        0 <= i < layout.spec_capacity(),
        0 <= j < layout.spec_capacity(),
        i != j,
    ensures
        !(layout.in_cell(i, x, y) && layout.in_cell(j, x, y)),
{
    lemma_cell_within(layout, i);
    lemma_cell_within(layout, j);
    let cw = layout.cell_width as int;
    let ch = layout.cell_height as int;
    let px = layout.padding.x as int;
    let py = layout.padding.y as int;
    let (ci, ri) = (layout.column_of(i), layout.row_of(i));
    let (cj, rj) = (layout.column_of(j), layout.row_of(j));
    if ci < cj {
        lemma_starts_apart(ci, cj, cw, px);
    } else if cj < ci {
        lemma_starts_apart(cj, ci, cw, px);
    } else if ri < rj {
        lemma_starts_apart(ri, rj, ch, py);
    } else if rj < ri {
        lemma_starts_apart(rj, ri, ch, py);
    }
}

} // verus!
