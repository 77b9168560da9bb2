use vstd::prelude::*;

verus! {

/// `r` is the integer square root of `n`: the largest `r` with `r * r <= n`.
pub open spec fn is_integer_sqrt(n: int, r: int) -> bool {
    &&& 0 <= r
    &&& r * r <= n
    &&& n < (r + 1) * (r + 1)
}

/// The integer square root of a non-negative `n`.
pub open spec fn integer_sqrt(n: int) -> int {
    choose|r: int| is_integer_sqrt(n, r)
}

/// A non-negative number has exactly one integer square root.
pub proof fn lemma_integer_sqrt_unique(n: int, r1: int, r2: int)
    requires
        is_integer_sqrt(n, r1),
        is_integer_sqrt(n, r2),
    ensures
        r1 == r2,
{
    if r1 < r2 {
        assert((r1 + 1) * (r1 + 1) <= r2 * r2) by (nonlinear_arith)
            requires 0 <= r1, r1 + 1 <= r2;
    } else if r2 < r1 {
        assert((r2 + 1) * (r2 + 1) <= r1 * r1) by (nonlinear_arith)
            requires 0 <= r2, r2 + 1 <= r1;
    }
}

/// Integer square root of a 16-bit number, rounded down.
pub fn isqrt_u16(n: u16) -> (r: u16)
    ensures
        is_integer_sqrt(n as int, r as int),
        r == integer_sqrt(n as int),
{
    let mut r: u32 = 0;
    loop
        invariant
            r * r <= n,
            r <= 255,
        ensures
            r * r <= n < (r + 1) * (r + 1),
            r <= 255,
        decreases 256 - r,
    {
        let next: u32 = r + 1;
        assert(next * next <= 65536) by (nonlinear_arith)
            requires next <= 256;
        if next * next > n as u32 {
            break;
        }
        assert(next <= 255) by (nonlinear_arith)
            requires next * next <= 65535, next >= 0;
        r = next;
    }
    proof {
        assert(is_integer_sqrt(n as int, r as int));
        let c = integer_sqrt(n as int);
        assert(is_integer_sqrt(n as int, c));
        lemma_integer_sqrt_unique(n as int, r as int, c);
    }
    r as u16
}

/// The scale that the field-of-view formula applies along one side of a
/// sensor of `along` by `across` pixels: `along` divided by the integer square
/// root of the squared diagonal, rounded down.
pub open spec fn fov_scale(along: int, across: int) -> int {
    along / integer_sqrt(along * along + across * across)
}

/// The diagonal of a sensor with at least one pixel is at least as long as
/// either side, and equal to a side exactly when the other side is short.
proof fn lemma_diagonal_bounds(along: int, across: int, diagonal: int)
    requires
        0 <= along,
        0 <= across,
        along != 0 || across != 0,
        is_integer_sqrt(along * along + across * across, diagonal),
    ensures
        1 <= diagonal,
        along <= diagonal,
        (along == diagonal) == (across * across <= 2 * along),
{
    assert(along * along >= 0 && across * across >= 0) by (nonlinear_arith)
        requires 0 <= along, 0 <= across;
    assert(along * along + across * across >= 1) by (nonlinear_arith)
        requires 0 <= along, 0 <= across, along != 0 || across != 0;
    assert(1 <= diagonal) by (nonlinear_arith)
        requires
            0 <= diagonal,
            1 <= along * along + across * across,
            along * along + across * across < (diagonal + 1) * (diagonal + 1);
    assert(along <= diagonal) by (nonlinear_arith)
        requires
            0 <= along,
            0 <= diagonal,
            along * along <= along * along + across * across,
            along * along + across * across < (diagonal + 1) * (diagonal + 1);
    if along == diagonal {
        assert(across * across <= 2 * along) by (nonlinear_arith)
            requires
                along * along + across * across < (along + 1) * (along + 1);
    }
    if across * across <= 2 * along {
        assert(diagonal <= along) by (nonlinear_arith)
            requires
                0 <= along,
                0 <= diagonal,
                across * across <= 2 * along,
                diagonal * diagonal <= along * along + across * across;
    }
}

/// `along / isqrt(along² + across²)` in 16-bit arithmetic.
fn diagonal_scale(along: u16, across: u16) -> (r: u16)
    requires
        along * along + across * across <= u16::MAX,
        along != 0 || across != 0,
    ensures
        r == fov_scale(along as int, across as int),
        r <= 1,
        (r == 1) == (across * across <= 2 * along),
{
    assert(along * along <= u16::MAX && across * across <= u16::MAX) by (nonlinear_arith)
        requires along * along + across * across <= u16::MAX;
    let squared: u16 = along * along + across * across;
    let diagonal = isqrt_u16(squared);
    proof {
        lemma_diagonal_bounds(along as int, across as int, diagonal as int);
    }
    let r = along / diagonal;
    assert(r <= 1) by (nonlinear_arith)
        requires r == along / diagonal, along <= diagonal, 1 <= diagonal;
    assert((r == 1) == (along == diagonal)) by (nonlinear_arith)
        requires r == along / diagonal, along <= diagonal, 1 <= diagonal;
    r
}

/// The integer factor of the horizontal field of view of a sensor of
/// `width_px` by `height_px` pixels: `height_px / isqrt(height_px² + width_px²)`.
/// The sum of squares is computed in 16 bits, so it must not overflow, and a
/// sensor without pixels has no diagonal to divide by.
pub fn horizontal_fov_scale(width_px: u16, height_px: u16) -> (r: u16)
    requires
        width_px * width_px + height_px * height_px <= u16::MAX,
        width_px != 0 || height_px != 0,
    ensures
        r == fov_scale(height_px as int, width_px as int),
        r <= 1,
        (r == 1) == (width_px * width_px <= 2 * height_px),
{
    diagonal_scale(height_px, width_px)
}

/// The integer factor of the vertical field of view of a sensor of
/// `width_px` by `height_px` pixels: `width_px / isqrt(height_px² + width_px²)`.
pub fn vertical_fov_scale(width_px: u16, height_px: u16) -> (r: u16)
    requires
        width_px * width_px + height_px * height_px <= u16::MAX,
        width_px != 0 || height_px != 0,
    ensures
        r == fov_scale(width_px as int, height_px as int),
        r <= 1,
        (r == 1) == (height_px * height_px <= 2 * width_px),
{
    diagonal_scale(width_px, height_px)
}


/// Position of the pixel in column `column` and row `row` in the row-major
/// enumeration of a grid whose rows hold `side` pixels.
pub open spec fn grid_index(side: int, column: int, row: int) -> int {
    column * side + row
}

/// Distinct cells of a grid have distinct row-major positions.
pub proof fn lemma_grid_index_injective(side: int, a: int, b: int, c: int, d: int)
    requires
        0 <= a,
        0 <= b < side,
        0 <= c,
        0 <= d < side,
        grid_index(side, a, b) == grid_index(side, c, d),
    ensures
        a == c,
        b == d,
{
    if a < c {
        assert(a * side + b < c * side + d) by (nonlinear_arith)
            requires a + 1 <= c, 0 <= b < side, 0 <= d;
    } else if c < a {
        assert(c * side + d < a * side + b) by (nonlinear_arith)
            requires c + 1 <= a, 0 <= d < side, 0 <= b;
    }
}

/// What a scene needs to place the pixels of a sensor: the two
/// field-of-view factors, the number of intervals between the first and last
/// pixel of a row and of a column, and the pixels to place, in order.
pub struct SensorLayout {
    pub horizontal_scale: u16,
    pub vertical_scale: u16,
    /// `(width_px - 1, height_px - 1)`, computed only where a pixel is placed.
    pub intervals: Option<(u16, u16)>,
    /// `(column, row)` of each pixel to place.
    pub pixels: Vec<(u16, u16)>,
}

/// Lays out a sensor of `width_px` by `height_px` pixels. Pixels are placed
/// for every column and every row below `height_px` (the grid is square,
/// `height_px` on each side), row by row within each column.
/// The field-of-view factors are computed in 16 bits and the row intervals
/// as `width_px - 1`, so the sum of squares must fit in 16 bits and a sensor
/// must be at least one pixel wide.
pub fn sensor_layout(width_px: u16, height_px: u16) -> (layout: SensorLayout)
    requires
        width_px >= 1,
        width_px * width_px + height_px * height_px <= u16::MAX,
    ensures
        layout.horizontal_scale == fov_scale(height_px as int, width_px as int),
        layout.vertical_scale == fov_scale(width_px as int, height_px as int),
        layout.intervals == (if height_px == 0 {
            None
        } else {
            Some(((width_px - 1) as u16, (height_px - 1) as u16))
        }),
        layout.pixels@.len() == height_px * height_px,
        forall|column: int, row: int|
            0 <= column < height_px && 0 <= row < height_px
                ==> #[trigger] layout.pixels@[grid_index(height_px as int, column, row)]
                == (column as u16, row as u16),
{
    let horizontal_scale = horizontal_fov_scale(width_px, height_px);
    let vertical_scale = vertical_fov_scale(width_px, height_px);
    let intervals = if height_px == 0 {
        None
    } else {
        Some((width_px - 1, height_px - 1))
    };
    let side = height_px;
    let mut pixels: Vec<(u16, u16)> = Vec::new();
    let mut column: u16 = 0;
    while column < side
        invariant
            column <= side,
            pixels@.len() == column * side,
            forall|a: int, b: int|
                0 <= a && 0 <= b < side && grid_index(side as int, a, b) < pixels@.len()
                    ==> #[trigger] pixels@[grid_index(side as int, a, b)] == (a as u16, b as u16),
        decreases side - column,
    {
        let mut row: u16 = 0;
        while row < side
            invariant
                column < side,
                row <= side,
                pixels@.len() == column * side + row,
                forall|a: int, b: int|
                    0 <= a && 0 <= b < side && grid_index(side as int, a, b) < pixels@.len()
                        ==> #[trigger] pixels@[grid_index(side as int, a, b)] == (
                        a as u16,
                        b as u16,
                    ),
            decreases side - row,
        {
            let ghost before = pixels@;
            pixels.push((column, row));
            assert forall|a: int, b: int|
                0 <= a && 0 <= b < side && grid_index(side as int, a, b) < pixels@.len()
                    implies #[trigger] pixels@[grid_index(side as int, a, b)] == (
                    a as u16,
                    b as u16,
                ) by {
                if grid_index(side as int, a, b) == before.len() {
                    lemma_grid_index_injective(side as int, a, b, column as int, row as int);
                }
            }
            row = row + 1;
        }
        assert((column + 1) * side == column * side + side) by (nonlinear_arith);
        column = column + 1;
    }
    assert forall|a: int, b: int|
        0 <= a < side && 0 <= b < side
            implies grid_index(side as int, a, b) < pixels@.len() by {
        assert(a * side + b < side * side) by (nonlinear_arith)
            requires 0 <= a < side, 0 <= b < side;
    }
    SensorLayout { horizontal_scale, vertical_scale, intervals, pixels }
}

} // verus!
