use vstd::prelude::*;

verus! {

/// Number of a grid vertex in the row-major vertex order of a terrain patch with
/// `width` cells per row (so `width + 1` vertices per row).
pub open spec fn grid_vertex(width: int, column: int, row: int) -> int {
    row * (width + 1) + column
}

/// A vertex number as it is stored in a 16-bit index buffer (it wraps modulo 2^16).
pub open spec fn as_index(vertex: int) -> u16 {
    (vertex % 0x10000) as u16
}

/// The triangle-strip indices of one cell row `row`: the first top vertex once more
/// (to join with the previous row), then top and bottom vertex of every column, then
/// the last bottom vertex once more (to join with the next row).
pub open spec fn strip_row(width: int, row: int) -> Seq<u16> {
    Seq::new(
        (2 * (width + 2)) as nat,
        |j: int|
            if j == 0 {
                as_index(grid_vertex(width, 0, row))
            } else if j == 2 * width + 3 {
                as_index(grid_vertex(width, width, row + 1))
            } else if (j - 1) % 2 == 0 {
                as_index(grid_vertex(width, (j - 1) / 2, row))
            } else {
                as_index(grid_vertex(width, (j - 1) / 2, row + 1))
            },
    )
}

/// The strip rows `0..rows`, one after the other.
pub open spec fn strip_rows(width: int, rows: nat) -> Seq<u16>
    decreases rows,
{
    if rows == 0 {
        Seq::empty()
    } else {
        strip_rows(width, (rows - 1) as nat) + strip_row(width, rows - 1)
    }
}

/// Number of strip indices the terrain of the given size needs.
pub open spec fn strip_len(width: int, height: int) -> int {
    2 * (width + 2) * height
}

/// The strip of a `width` x `rows` patch holds exactly `2 * (width + 2) * rows`
/// indices: the count that a draw call over the whole patch uses.
pub proof fn lemma_strip_rows_len(width: int, rows: nat)
    requires
        width >= 0,
    ensures
        strip_rows(width, rows).len() == strip_len(width, rows as int),
    decreases rows,
{
    if rows == 0 {
        assert(2 * (width + 2) * 0 == 0) by (nonlinear_arith);
    } else {
        lemma_strip_rows_len(width, (rows - 1) as nat);
        assert(2 * (width + 2) * (rows - 1) + 2 * (width + 2) == 2 * (width + 2) * rows)
            by (nonlinear_arith);
    }
}

/// Every index of the strip of a `width` x `height` patch names one of the
/// `(width + 1) * (height + 1)` vertices of the patch, whenever that many vertices
/// can be addressed by 16-bit indices.
pub proof fn lemma_strip_indices_in_range(width: int, height: nat)
    requires
        width >= 0,
        (width + 1) * (height + 1) <= 0x10000,
    ensures
        forall|k: int|
            0 <= k < strip_rows(width, height).len() ==> #[trigger] strip_rows(width, height)[k]
                < (width + 1) * (height + 1),
    decreases height,
{
    lemma_strip_rows_len(width, height);
    if height > 0 {
        let h1 = (height - 1) as nat;
        assert((width + 1) * (h1 + 1) <= (width + 1) * (height + 1)) by (nonlinear_arith)
            requires
                width >= 0,
                h1 + 1 <= height + 1,
        ;
        lemma_strip_indices_in_range(width, h1);
        lemma_strip_rows_len(width, h1);
        let prev = strip_rows(width, h1);
        let row = strip_row(width, h1 as int);
        assert forall|k: int| 0 <= k < strip_rows(width, height).len() implies #[trigger] strip_rows(
            width,
            height,
        )[k] < (width + 1) * (height + 1) by {
            if k >= prev.len() {
                let j = k - prev.len();
                assert(strip_rows(width, height)[k] == row[j]);
                let c: int = if j == 0 {
                    0
                } else if j == 2 * width + 3 {
                    width
                } else {
                    (j - 1) / 2
                };
                let r: int = if j == 0 {
                    h1 as int
                } else if j == 2 * width + 3 {
                    h1 + 1int
                } else if (j - 1) % 2 == 0 {
                    h1 as int
                } else {
                    h1 + 1int
                };
                assert(0 <= c <= width && 0 <= r <= height);
                assert(0 <= grid_vertex(width, c, r) < (width + 1) * (height + 1))
                    by (nonlinear_arith)
                    requires
                        0 <= c <= width,
                        0 <= r <= height,
                        grid_vertex(width, c, r) == r * (width + 1) + c,
                ;
                assert(row[j] == as_index(grid_vertex(width, c, r)));
            }
        }
    }
}

/// Entry `j` of row `y` stands at `2 * (width + 2) * y + j` in the strip.
pub proof fn lemma_strip_row_position(width: int, rows: nat, y: int, j: int)
    requires
        width >= 0,
        0 <= y < rows,
        0 <= j < 2 * (width + 2),
    ensures
        0 <= 2 * (width + 2) * y + j < strip_rows(width, rows).len(),
        strip_rows(width, rows)[2 * (width + 2) * y + j] == strip_row(width, y)[j],
    decreases rows,
{
    lemma_strip_rows_len(width, rows);
    let r1 = (rows - 1) as nat;
    lemma_strip_rows_len(width, r1);
    assert(2 * (width + 2) * y + j < 2 * (width + 2) * rows) by (nonlinear_arith)
        requires
            0 <= y < rows,
            0 <= j < 2 * (width + 2),
            width >= 0,
    ;
    if y < r1 {
        lemma_strip_row_position(width, r1, y, j);
        assert(2 * (width + 2) * y + j < 2 * (width + 2) * r1) by (nonlinear_arith)
            requires
                0 <= y < r1,
                0 <= j < 2 * (width + 2),
                width >= 0,
        ;
    } else {
        assert(y == r1);
    }
}

/// Every cell of the patch is drawn: for the cell at column `x` of row `y`, the
/// strip holds its four corners top-left, bottom-left, top-right, bottom-right in a
/// row, so two consecutive strip triangles cover it. Rows are joined by repeating
/// the last vertex of a row and the first vertex of the next, which makes the
/// joining triangles degenerate.
pub proof fn lemma_strip_covers_cells(width: int, height: nat, y: int, x: int)
    requires
        width >= 0,
        0 <= y < height,
        0 <= x < width,
    ensures
        ({
            let s = strip_rows(width, height);
            let k = 2 * (width + 2) * y + 1 + 2 * x;
            &&& 0 <= k && k + 3 < s.len()
            &&& s[k] == as_index(grid_vertex(width, x, y))
            &&& s[k + 1] == as_index(grid_vertex(width, x, y + 1))
            &&& s[k + 2] == as_index(grid_vertex(width, x + 1, y))
            &&& s[k + 3] == as_index(grid_vertex(width, x + 1, y + 1))
        }),
        ({
            let s = strip_rows(width, height);
            let first = 2 * (width + 2) * y;
            let last = first + 2 * (width + 2) - 1;
            &&& s[first] == s[first + 1]
            &&& s[last] == s[last - 1]
        }),
{
    let k0 = 1 + 2 * x;
    lemma_strip_row_position(width, height, y, k0);
    lemma_strip_row_position(width, height, y, k0 + 1);
    lemma_strip_row_position(width, height, y, k0 + 2);
    lemma_strip_row_position(width, height, y, k0 + 3);
    lemma_strip_row_position(width, height, y, 0);
    lemma_strip_row_position(width, height, y, 1);
    lemma_strip_row_position(width, height, y, 2 * (width + 2) - 1);
    lemma_strip_row_position(width, height, y, 2 * (width + 2) - 2);
    let row = strip_row(width, y);
    assert((k0 - 1) / 2 == x && (k0 + 1 - 1) / 2 == x);
    assert((k0 + 2 - 1) / 2 == x + 1 && (k0 + 3 - 1) / 2 == x + 1);
    assert(row[k0] == as_index(grid_vertex(width, x, y)));
    assert(row[k0 + 1] == as_index(grid_vertex(width, x, y + 1)));
    assert(row[k0 + 2] == as_index(grid_vertex(width, x + 1, y)));
    assert(row[k0 + 3] == as_index(grid_vertex(width, x + 1, y + 1)));
    assert(row[0] == row[1]);
    assert((2 * width + 2 - 1) / 2 == width);
    assert(row[2 * width + 3] == row[2 * width + 2]);
}

proof fn lemma_truncate_u16(v: usize)
    ensures
        v as u16 == as_index(v as int),
{
    assert(v as u16 == v % 0x10000) by (bit_vector);
}

/// Number of strip indices a terrain patch of `width` x `height` cells needs:
/// the largest count a draw call over the patch may use.
pub fn strip_index_count(width: usize, height: usize) -> (count: usize)
    requires
        2 * (width + 2) <= usize::MAX,
        2 * (width + 2) * height <= usize::MAX,
    ensures
        count == strip_len(width as int, height as int),
{
    2 * (width + 2) * height
}

/// Index data of a terrain patch of `width` x `height` cells, drawn as one triangle
/// strip whose rows are joined by degenerate triangles.
pub fn terrain_indices(width: usize, height: usize) -> (indices: Vec<u16>)
    requires
        2 * (width + 2) <= usize::MAX,
        2 * (width + 2) * height <= usize::MAX,
    ensures
        indices@ == strip_rows(width as int, height as nat),
        indices@.len() == strip_len(width as int, height as int),
{
    let num_indices = 2 * (width + 2) * height;
    let mut indices: Vec<u16> = Vec::with_capacity(num_indices);
    let ghost w = width as int;
    let mut y: usize = 0;
    while y < height
        invariant
            y <= height,
            2 * (width + 2) <= usize::MAX,
            2 * (width + 2) * height <= usize::MAX,
            w == width as int,
            indices@ == strip_rows(w, y as nat),
        decreases height - y,
    {
        assert((y + 1) * (w + 1) + w <= 2 * (w + 2) * height) by (nonlinear_arith)
            requires
                y < height,
                w >= 0,
        ;
        let ghost base = indices@;
        let ghost row = strip_row(w, y as int);
        let mut x: usize = 0;
        while x <= width
            invariant
                x <= width + 1,
                y < height,
                2 * (width + 2) <= usize::MAX,
                w == width as int,
                (y + 1) * (w + 1) + w <= usize::MAX,
                row == strip_row(w, y as int),
                indices@ == base + row.take(if x == 0 { 0 } else if x == width + 1 { 2 * x + 2 } else { 2 * x + 1 }),
            decreases width + 1 - x,
        {
            assert(y * (w + 1) + x <= (y + 1) * (w + 1) + w && y * (w + 1) <= y * (w + 1) + x)
                by (nonlinear_arith)
                requires
                    x <= w,
                    y >= 0,
                    w >= 0,
            ;
            assert(y * (width + 1) <= usize::MAX);
            assert((y + 1) * (width + 1) <= usize::MAX);
            let row_value = y * (width + 1) + x;
            let next_row_value = (y + 1) * (width + 1) + x;
            let row_index = #[verifier::truncate] (row_value as u16);
            let next_row_index = #[verifier::truncate] (next_row_value as u16);
            proof {
                lemma_truncate_u16(row_value);
                lemma_truncate_u16(next_row_value);
            }
            if x == 0 {
                indices.push(row_index);
            }
            indices.push(row_index);
            indices.push(next_row_index);
            if x == width {
                indices.push(next_row_index);
            }
            proof {
                let len_now = if x == width { 2 * (x + 1) + 2 } else { 2 * (x + 1) + 1 };
                assert(indices@ =~= base + row.take(len_now as int));
            }
            x = x + 1;
        }
        assert(row.take(2 * width + 4) =~= row);
        y = y + 1;
        assert(indices@ =~= strip_rows(w, y as nat));
    }
    proof {
        lemma_strip_rows_len(w, height as nat);
    }
    indices
}

} // verus!
