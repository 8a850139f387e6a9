//! Character-cell rectangles and the plain grid that lays images out
//! in a fixed number of columns.

use vstd::prelude::*;

verus! {

/// A rectangle on the terminal, in character cells.
#[derive(Clone, Copy, Debug, PartialEq, Eq, Structural)]
pub struct Area {
    pub x: u16,
    pub y: u16,
    pub width: u16,
    pub height: u16,
}

/// Saturating sum of two cell coordinates.
pub open spec fn clamped_sum(a: int, b: int) -> int {
    if a + b > u16::MAX as int {
        u16::MAX as int
    } else {
        a + b
    }
}

/// Adds two cell coordinates, stopping at the largest coordinate.
pub fn add_clamped(a: u16, b: u16) -> (r: u16)
    ensures
        r as int == clamped_sum(a as int, b as int),
{
    if a > u16::MAX - b {
        u16::MAX
    } else {
        a + b
    }
}

/// A cell coordinate, stopped at the largest one.
pub open spec fn clamped(v: int) -> int {
    if v > u16::MAX as int {
        u16::MAX as int
    } else {
        v
    }
}

/// How many rows `count` images take in `columns` columns, as far as cell
/// coordinates count.
pub open spec fn plain_rows(count: int, columns: int) -> int {
    clamped((count + columns - 1) / columns)
}

/// Computes how many rows `count` images take in `columns` columns.
pub fn plain_grid_rows(count: usize, columns: u16) -> (rows: u16)
    requires
        columns >= 1,
    ensures
        rows as int == plain_rows(count as int, columns as int),
{
    let full: usize = count / (columns as usize);
    let rest: usize = count % (columns as usize);
    assert((count + columns - 1) / (columns as int) == full + if rest > 0 {
        1int
    } else {
        0int
    }) by (nonlinear_arith)
        requires
            columns >= 1,
            full == count as int / columns as int,
            rest == count as int % columns as int,
    ;
    if full >= u16::MAX as usize {
        u16::MAX
    } else if rest > 0 {
        (full + 1) as u16
    } else {
        full as u16
    }
}

/// The cell of image `index` in a grid of `columns` by `rows` cells that
/// fills an area row by row: the area is cut into equal cells, and
/// coordinates stop at the largest one.
pub open spec fn plain_cell(area: Area, columns: int, rows: int, index: int) -> Area {
    let cell_width = area.width as int / columns;
    let cell_height = area.height as int / (if rows < 1 {
        1
    } else {
        rows
    });
    Area {
        x: clamped(area.x + (index % columns) * cell_width) as u16,
        y: clamped(area.y + (index / columns) * cell_height) as u16,
        width: cell_width as u16,
        height: cell_height as u16,
    }
}

/// Computes the cell of image `index` in a grid of `columns` by `rows`.
pub fn plain_grid_cell(area: Area, columns: u16, rows: u16, index: usize) -> (cell: Area)
    requires
        columns >= 1,
    ensures
        cell == plain_cell(area, columns as int, rows as int, index as int),
{
    let cell_width: u16 = area.width / columns;
    let cell_height: u16 = area.height / (if rows < 1 {
        1
    } else {
        rows
    });
    let col: usize = index % (columns as usize);
    let row: usize = index / (columns as usize);
    assert(col as int * cell_width as int <= area.width as int) by (nonlinear_arith)
        requires
            cell_width as int == area.width as int / columns as int,
            0 <= col < columns,
    ;
    let dx: u16 = (col as u16) * cell_width;
    let x: u16 = add_clamped(area.x, dx);
    let y: u16 = if cell_height == 0 {
        assert(row as int * cell_height as int == 0) by (nonlinear_arith)
            requires
                cell_height == 0,
        ;
        area.y
    } else if row > (u16::MAX as usize) / (cell_height as usize) {
        assert(row as int * cell_height as int > u16::MAX as int) by (nonlinear_arith)
            requires
                row as int > (u16::MAX as int) / (cell_height as int),
                cell_height > 0,
        ;
        u16::MAX
    } else {
        assert(row as int * cell_height as int <= u16::MAX as int) by (nonlinear_arith)
            requires
                row as int <= (u16::MAX as int) / (cell_height as int),
                cell_height > 0,
        ;
        add_clamped(area.y, ((row as u16) * cell_height))
    };
    Area { x, y, width: cell_width, height: cell_height }
}

} // verus!
