use vstd::prelude::*;

verus! {

/// A horizontal slice `[top, top + height)` of the image rows.
#[derive(Clone, Copy, Debug, PartialEq, Eq, Structural)]
pub struct Band {
    pub top: usize,
    pub height: usize,
}

/// Rows per band for `workers` workers: one more than the even share, so
/// that the bands always reach the last row.
pub open spec fn rows_per_band_spec(height: int, workers: int) -> int {
    height / workers + 1
}

/// Number of bands: `height` rows cut into pieces of `rows` rows, the
/// last one possibly shorter.
pub open spec fn band_count_spec(height: int, rows: int) -> int {
    if height % rows == 0 {
        height / rows
    } else {
        height / rows + 1
    }
}

/// The `i`-th band of `height` rows cut into pieces of `rows` rows.
pub open spec fn band_spec(height: int, rows: int, i: int) -> Band {
    let top = i * rows;
    Band { top: top as usize, height: (if height - top < rows { height - top } else { rows }) as usize }
}

/// All bands of a render pass of `height` rows over `workers` workers.
pub open spec fn band_plan(height: int, workers: int) -> Seq<Band> {
    let rows = rows_per_band_spec(height, workers);
    Seq::new(band_count_spec(height, rows) as nat, |i: int| band_spec(height, rows, i))
}

/// Whether `row` lies in `band`.
pub open spec fn band_holds(band: Band, row: int) -> bool {
    band.top <= row < band.top + band.height
}

pub fn rows_per_band(height: usize, workers: usize) -> (r: usize)
    requires
        workers > 0,
        height < usize::MAX,
    ensures
        r == rows_per_band_spec(height as int, workers as int),
{
    proof {
        vstd::arithmetic::div_mod::lemma_div_is_ordered_by_denominator(height as int, 1, workers as int);
    }
    height / workers + 1
}

/// Column and row, in the whole image, of the `j`-th pixel (row-major) of
/// `band` in an image `width` pixels wide.
pub fn band_pixel(width: usize, band: Band, j: usize) -> (p: (usize, usize))
    requires
        width > 0,
        j < band.height * width,
        band.top + band.height <= usize::MAX,
    ensures
        p.0 == j % width,
        p.1 == band.top + j / width,
        p.0 < width,
        p.1 < band.top + band.height,
{
    proof {
        vstd::arithmetic::div_mod::lemma_div_is_ordered(j as int, band.height * width - 1, width as int);
        vstd::arithmetic::div_mod::lemma_div_multiples_vanish(band.height as int, width as int);
        vstd::arithmetic::div_mod::lemma_div_is_ordered(band.height * width - 1, band.height * width, width as int);
        vstd::arithmetic::div_mod::lemma_fundamental_div_mod(j as int, width as int);
        if j / width >= band.height {
            assert(width * (j / width) >= width * band.height) by (nonlinear_arith)
                requires
                    j / width >= band.height,
                    width > 0,
            {
            }
            assert(band.height * width == width * band.height) by (nonlinear_arith);
        }
    }
    (j % width, band.top + j / width)
}

proof fn lemma_band_top(height: int, rows: int, i: int)
    requires
        height >= 0,
        rows > 0,
        0 <= i < band_count_spec(height, rows),
    ensures
        0 <= i * rows < height,
{
    vstd::arithmetic::div_mod::lemma_fundamental_div_mod(height, rows);
    assert(0 <= i * rows) by (nonlinear_arith)
        requires
            i >= 0,
            rows > 0,
    {
    }
    if i < height / rows {
        assert(i * rows < (height / rows) * rows) by (nonlinear_arith)
            requires
                i < height / rows,
                rows > 0,
        {
        }
    } else {
        assert(i == height / rows);
        assert(height % rows != 0);
    }
}

proof fn lemma_band_fields(height: int, rows: int, i: int)
    requires
        0 <= height <= usize::MAX,
        rows > 0,
        0 <= i < band_count_spec(height, rows),
    ensures
        band_spec(height, rows, i).top == i * rows,
        band_spec(height, rows, i).height == if height - i * rows < rows {
            height - i * rows
        } else {
            rows
        },
        band_spec(height, rows, i).height >= 1,
        band_spec(height, rows, i).top + band_spec(height, rows, i).height <= height,
{
    lemma_band_top(height, rows, i);
}

/// Cuts `height` rows into the bands of one render pass over `workers`
/// workers.
pub fn plan_bands(height: usize, workers: usize) -> (plan: Vec<Band>)
    requires
        workers > 0,
        height < usize::MAX,
    ensures
        plan@ == band_plan(height as int, workers as int),
{
    let rows = rows_per_band(height, workers);
    proof {
        vstd::arithmetic::div_mod::lemma_div_is_ordered_by_denominator(height as int, 1, rows as int);
    }
    let count: usize = if height % rows == 0 {
        height / rows
    } else {
        height / rows + 1
    };
    let ghost spec_plan = band_plan(height as int, workers as int);
    let mut plan: Vec<Band> = Vec::new();
    let mut i: usize = 0;
    while i < count
        invariant
            rows == rows_per_band_spec(height as int, workers as int),
            count == band_count_spec(height as int, rows as int),
            spec_plan == band_plan(height as int, workers as int),
            i <= count,
            plan@ == spec_plan.take(i as int),
        decreases count - i,
    {
        proof {
            lemma_band_top(height as int, rows as int, i as int);
        }
        let top: usize = i * rows;
        let left: usize = height - top;
        let h: usize = if left < rows {
            left
        } else {
            rows
        };
        plan.push(Band { top, height: h });
        i = i + 1;
        assert(plan@ =~= spec_plan.take(i as int));
    }
    assert(spec_plan.take(count as int) =~= spec_plan);
    plan
}

/// The bands of a pass start at row 0, follow each other without gap or
/// overlap, are never empty, end at the last row, and are at most as many
/// as the workers.
pub proof fn lemma_plan_partitions(height: int, workers: int)
    requires
        0 <= height < usize::MAX,
        workers > 0,
    ensures
        band_plan(height, workers).len() <= workers,
        height == 0 <==> band_plan(height, workers).len() == 0,
        band_plan(height, workers).len() > 0 ==> band_plan(height, workers)[0].top == 0,
        forall|i: int|
            0 <= i < band_plan(height, workers).len() ==> #[trigger] band_plan(height, workers)[i].height
                >= 1,
        forall|i: int|
            0 <= i < band_plan(height, workers).len() - 1 ==> (#[trigger] band_plan(height, workers)[i]).top
                + band_plan(height, workers)[i].height == band_plan(height, workers)[i + 1].top,
        band_plan(height, workers).len() > 0 ==> band_plan(height, workers).last().top
            + band_plan(height, workers).last().height == height,
{
    let rows = rows_per_band_spec(height, workers);
    let plan = band_plan(height, workers);
    let n = band_count_spec(height, rows);
    vstd::arithmetic::div_mod::lemma_fundamental_div_mod(height, rows);
    vstd::arithmetic::div_mod::lemma_fundamental_div_mod(height, workers);
    assert(height / rows >= 0) by {
        vstd::arithmetic::div_mod::lemma_div_pos_is_pos(height, rows);
    }
    assert forall|i: int| 0 <= i < plan.len() implies #[trigger] plan[i].height >= 1 by {
        lemma_band_fields(height, rows, i);
    }
    assert forall|i: int| 0 <= i < plan.len() - 1 implies (#[trigger] plan[i]).top + plan[i].height
        == plan[i + 1].top by {
        lemma_band_fields(height, rows, i);
        lemma_band_fields(height, rows, i + 1);
        assert((i + 1) * rows == i * rows + rows) by (nonlinear_arith);
    }
    if n > 0 {
        lemma_band_fields(height, rows, n - 1);
        assert((n - 1) * rows == n * rows - rows) by (nonlinear_arith);
        assert((height / rows) * rows == rows * (height / rows)) by (nonlinear_arith);
        if height % rows == 0 {
            assert(n * rows == height);
        } else {
            assert(n * rows == height - height % rows + rows) by (nonlinear_arith)
                requires
                    n == height / rows + 1,
                    height == rows * (height / rows) + height % rows,
            {
            }
        }
    }
    // Fewer bands than workers: workers * rows > height.
    assert(workers * rows > height) by (nonlinear_arith)
        requires
            rows == height / workers + 1,
            height == workers * (height / workers) + height % workers,
            height % workers < workers,
    {
    }
    if n > workers {
        assert(workers * rows <= (n - 1) * rows) by (nonlinear_arith)
            requires
                workers <= n - 1,
                rows > 0,
        {
        }
        lemma_band_top(height, rows, n - 1);
    }
    if height == 0 {
        assert(height / rows == 0);
        assert(height % rows == 0);
    }
    if height > 0 {
        if height / rows == 0 {
            assert(height % rows != 0);
        }
    }
}

/// Band `i` holds `row` exactly when `i` is `row / rows`.
proof fn lemma_band_of_row(height: int, rows: int, row: int, i: int)
    requires
        0 <= height <= usize::MAX,
        rows > 0,
        0 <= row < height,
        0 <= i < band_count_spec(height, rows),
    ensures
        band_holds(band_spec(height, rows, i), row) <==> i == row / rows,
{
    lemma_band_fields(height, rows, i);
    let k = row / rows;
    vstd::arithmetic::div_mod::lemma_fundamental_div_mod(row, rows);
    assert(k * rows <= row < k * rows + rows) by (nonlinear_arith)
        requires
            row == rows * k + row % rows,
            0 <= row % rows < rows,
    {
    }
    if i < k {
        assert(i * rows + rows <= k * rows) by (nonlinear_arith)
            requires
                i + 1 <= k,
                rows > 0,
        {
        }
    } else if i > k {
        assert(k * rows + rows <= i * rows) by (nonlinear_arith)
            requires
                k + 1 <= i,
                rows > 0,
        {
        }
    }
}

/// Each row of the image lies in exactly one band: the one at
/// `row / rows_per_band`.
pub proof fn lemma_row_in_one_band(height: int, workers: int, row: int)
    requires
        height < usize::MAX,
        workers > 0,
        0 <= row < height,
    ensures
        ({
            let plan = band_plan(height, workers);
            let k = row / rows_per_band_spec(height, workers);
            &&& 0 <= k < plan.len()
            &&& band_holds(plan[k], row)
            &&& forall|i: int| 0 <= i < plan.len() && #[trigger] band_holds(plan[i], row) ==> i == k
        }),
{
    let rows = rows_per_band_spec(height, workers);
    let plan = band_plan(height, workers);
    let k = row / rows;
    assert(rows > 0) by {
        vstd::arithmetic::div_mod::lemma_div_pos_is_pos(height, workers);
    }
    vstd::arithmetic::div_mod::lemma_div_pos_is_pos(row, rows);
    vstd::arithmetic::div_mod::lemma_div_is_ordered(row, height, rows);
    assert(k < band_count_spec(height, rows)) by {
        if height % rows == 0 && k == height / rows {
            vstd::arithmetic::div_mod::lemma_fundamental_div_mod(height, rows);
            vstd::arithmetic::div_mod::lemma_fundamental_div_mod(row, rows);
            assert(rows * k <= row) by (nonlinear_arith)
                requires
                    row == rows * (row / rows) + row % rows,
                    row % rows >= 0,
                    k == row / rows,
            {
            }
        }
    }
    lemma_band_of_row(height, rows, row, k);
    assert forall|i: int| 0 <= i < plan.len() && #[trigger] band_holds(plan[i], row) implies i == k by {
        lemma_band_of_row(height, rows, row, i);
    }
}

} // verus!
