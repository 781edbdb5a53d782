use vstd::prelude::*;
use crate::color::ColorU8;

verus! {

/// Pixels are numbered column by column: pixel `(column, row)` of an image
/// `height` rows tall has number `column * height + row`.
pub open spec fn pixel_index(height: nat, column: nat, row: nat) -> nat {
    column * height + row
}

/// The `(column, row)` pair of pixel number `n`.
pub open spec fn pixel_at(height: nat, n: nat) -> (nat, nat)
    recommends
        height > 0,
{
    (n / height, n % height)
}

/// The pixel written at place `m` of the output: rows run from the top of the
/// image (the highest row number) down to row 0, and each row from column 0
/// rightwards.
pub open spec fn output_pixel(width: nat, height: nat, m: nat) -> (nat, nat)
    recommends
        width > 0,
        height > 0,
        m < width * height,
{
    ((m % width) as nat, (height - 1 - m / width) as nat)
}

proof fn lemma_split(n: nat, q: nat, d: nat, r: nat)
    requires
        r < d,
        n == q * d + r,
    ensures
        n / d == q,
        n % d == r,
{
    vstd::arithmetic::div_mod::lemma_fundamental_div_mod_converse(n as int, d as int, q as int, r as int);
}

proof fn lemma_index_in_grid(width: nat, height: nat, column: nat, row: nat)
    requires
        column < width,
        row < height,
    ensures
        pixel_index(height, column, row) < width * height,
        pixel_at(height, pixel_index(height, column, row)) == (column, row),
{
    assert(column * height + row < width * height) by (nonlinear_arith)
        requires
            column < width,
            row < height,
    ;
    lemma_split(column * height + row, column, height, row);
}

/// The coordinates of all pixels in pixel-number order: column after column,
/// each column from row 0 upwards.
pub fn pixel_coordinates(width: u32, height: u32) -> (r: Vec<(u32, u32)>)
    requires
        width * height <= usize::MAX,
    ensures
        r@.len() == width * height,
        forall|n: int|
            0 <= n < width * height ==> (#[trigger] r@[n].0 as nat, r@[n].1 as nat) == pixel_at(
                height as nat,
                n as nat,
            ),
{
    let mut r: Vec<(u32, u32)> = Vec::new();
    let mut column: u32 = 0;
    while column < width
        invariant
            column <= width,
            r@.len() == column * height,
            width * height <= usize::MAX,
            forall|n: int|
                0 <= n < r@.len() ==> (#[trigger] r@[n].0 as nat, r@[n].1 as nat) == pixel_at(
                    height as nat,
                    n as nat,
                ),
        decreases width - column,
    {
        let mut row: u32 = 0;
        while row < height
            invariant
                column < width,
                row <= height,
                r@.len() == column * height + row,
                width * height <= usize::MAX,
                forall|n: int|
                    0 <= n < r@.len() ==> (#[trigger] r@[n].0 as nat, r@[n].1 as nat) == pixel_at(
                        height as nat,
                        n as nat,
                    ),
            decreases height - row,
        {
            proof {
                lemma_index_in_grid(width as nat, height as nat, column as nat, row as nat);
            }
            r.push((column, row));
            row = row + 1;
        }
        assert(column * height + height == (column + 1) * height) by (nonlinear_arith);
        column = column + 1;
    }
    r
}

/// `image` holds the pixels in pixel-number order; the result holds them in
/// output order, so that place `m` of the result shows `output_pixel(m)`.
pub fn output_order(width: u32, height: u32, image: &Vec<ColorU8>) -> (r: Vec<ColorU8>)
    requires
        image@.len() == width * height,
    ensures
        r@.len() == width * height,
        forall|m: int|
            0 <= m < width * height ==> #[trigger] r@[m] == image@[pixel_index(
                height as nat,
                output_pixel(width as nat, height as nat, m as nat).0,
                output_pixel(width as nat, height as nat, m as nat).1,
            ) as int],
{
    let total: usize = image.len();
    let mut r: Vec<ColorU8> = Vec::new();
    let mut rows_left: u32 = height;
    while rows_left > 0
        invariant
            rows_left <= height,
            image@.len() == width * height,
            total == image@.len(),
            r@.len() == (height - rows_left) * width,
            forall|m: int|
                0 <= m < r@.len() ==> #[trigger] r@[m] == image@[pixel_index(
                    height as nat,
                    output_pixel(width as nat, height as nat, m as nat).0,
                    output_pixel(width as nat, height as nat, m as nat).1,
                ) as int],
        decreases rows_left,
    {
        let row: u32 = rows_left - 1;
        let mut column: u32 = 0;
        while column < width
            invariant
                row < height,
                rows_left == row + 1,
                column <= width,
                image@.len() == width * height,
                total == image@.len(),
                r@.len() == (height - rows_left) * width + column,
                forall|m: int|
                    0 <= m < r@.len() ==> #[trigger] r@[m] == image@[pixel_index(
                        height as nat,
                        output_pixel(width as nat, height as nat, m as nat).0,
                        output_pixel(width as nat, height as nat, m as nat).1,
                    ) as int],
            decreases width - column,
        {
            proof {
                lemma_index_in_grid(width as nat, height as nat, column as nat, row as nat);
                lemma_split(r@.len(), (height - rows_left) as nat, width as nat, column as nat);
            }
            let index: usize = column as usize * height as usize + row as usize;
            r.push(image[index]);
            column = column + 1;
        }
        assert((height - rows_left) * width + width == (height - row) * width) by (nonlinear_arith)
            requires
                rows_left == row + 1,
                rows_left <= height,
        ;
        rows_left = row;
    }
    assert(height * width == width * height) by (nonlinear_arith);
    r
}

} // verus!
