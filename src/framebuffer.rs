use vstd::prelude::*;

use crate::bands::{band_plan, lemma_plan_partitions, Band};

verus! {

/// `buf` with the pixels of `band` (rows `[top, top + height)` of a
/// `width`-wide image) replaced by `colors`, in row-major order.
pub open spec fn write_band_spec(buf: Seq<u32>, width: int, band: Band, colors: Seq<u32>) -> Seq<u32> {
    Seq::new(
        buf.len(),
        |g: int|
            if band.top * width <= g < (band.top + band.height) * width {
                colors[g - band.top * width]
            } else {
                buf[g]
            },
    )
}

/// `buf` after writing, in order, band `plan[i]` with `colors[i]` for every
/// `i`.
pub open spec fn paint(buf: Seq<u32>, width: int, plan: Seq<Band>, colors: Seq<Seq<u32>>) -> Seq<u32>
    decreases plan.len(),
{
    if plan.len() == 0 {
        buf
    } else {
        let i = plan.len() - 1;
        write_band_spec(paint(buf, width, plan.drop_last(), colors), width, plan[i], colors[i])
    }
}

/// The colours of `band`, in row-major order, when the pixel at column
/// `col` and row `row` of the whole image gets `shade(col, row)`.
pub open spec fn band_colors(width: int, band: Band, shade: spec_fn(int, int) -> u32) -> Seq<u32> {
    Seq::new((band.height * width) as nat, |j: int| shade(j % width, band.top + j / width))
}

/// The colours of every band of `plan`.
pub open spec fn plan_colors(width: int, plan: Seq<Band>, shade: spec_fn(int, int) -> u32) -> Seq<Seq<u32>> {
    Seq::new(plan.len(), |i: int| band_colors(width, plan[i], shade))
}

/// The whole image, row-major, when pixel `(col, row)` gets `shade(col, row)`.
pub open spec fn frame_spec(width: int, height: int, shade: spec_fn(int, int) -> u32) -> Seq<u32> {
    Seq::new((width * height) as nat, |g: int| shade(g % width, g / width))
}

/// A render pass over `workers` bands: `buf` painted band by band, each band
/// shaded pixel by pixel.
pub open spec fn render_spec(
    buf: Seq<u32>,
    width: int,
    height: int,
    workers: int,
    shade: spec_fn(int, int) -> u32,
) -> Seq<u32> {
    let plan = band_plan(height, workers);
    paint(buf, width, plan, plan_colors(width, plan, shade))
}

/// Row-major pixel storage of a fixed size, each pixel a packed `0x00RRGGBB`.
pub struct Framebuffer {
    width: usize,
    height: usize,
    pixels: Vec<u32>,
}

impl Framebuffer {
    pub closed spec fn view(&self) -> Seq<u32> {
        self.pixels@
    }

    pub closed spec fn spec_width(&self) -> usize {
        self.width
    }

    pub closed spec fn spec_height(&self) -> usize {
        self.height
    }

    /// The storage holds exactly `width * height` pixels.
    pub open spec fn wf(&self) -> bool {
        self@.len() == self.spec_width() * self.spec_height()
    }

    /// A black image of `width` by `height` pixels.
    pub fn new(width: usize, height: usize) -> (fb: Framebuffer)
        requires
            width * height <= usize::MAX,
        ensures
            fb.wf(),
            fb.spec_width() == width,
            fb.spec_height() == height,
            fb@ == Seq::new((width * height) as nat, |g: int| 0u32),
    {
        let n: usize = width * height;
        let mut pixels: Vec<u32> = Vec::new();
        let mut i: usize = 0;
        while i < n
            invariant
                i <= n,
                pixels@ == Seq::new(i as nat, |g: int| 0u32),
            decreases n - i,
        {
            pixels.push(0);
            i = i + 1;
            assert(pixels@ =~= Seq::new(i as nat, |g: int| 0u32));
        }
        Framebuffer { width, height, pixels }
    }

    /// An image over existing storage; `None` when the storage does not hold
    /// exactly `width * height` pixels.
    pub fn from_pixels(width: usize, height: usize, pixels: Vec<u32>) -> (fb: Option<Framebuffer>)
        ensures
            fb is Some <==> pixels@.len() == width * height,
            fb matches Some(f) ==> f.wf() && f@ == pixels@ && f.spec_width() == width
                && f.spec_height() == height,
    {
        if width.checked_mul(height) == Some(pixels.len()) {
            Some(Framebuffer { width, height, pixels })
        } else {
            None
        }
    }

    #[verifier::when_used_as_spec(spec_width)]
    pub fn width(&self) -> (w: usize)
        ensures
            w == self.spec_width(),
    {
        self.width
    }

    #[verifier::when_used_as_spec(spec_height)]
    pub fn height(&self) -> (h: usize)
        ensures
            h == self.spec_height(),
    {
        self.height
    }

    /// The pixels, row-major, for display.
    pub fn pixels(&self) -> (p: &Vec<u32>)
        ensures
            p@ == self@,
    {
        &self.pixels
    }

    /// Gives the storage back.
    pub fn into_pixels(self) -> (p: Vec<u32>)
        ensures
            p@ == self@,
    {
        self.pixels
    }

    /// Writes the colours of `band`, row-major, into its rows.
    pub fn write_band(&mut self, band: Band, colors: &Vec<u32>)
        requires
            old(self).wf(),
            band.top + band.height <= old(self).spec_height(),
            colors@.len() == band.height * old(self).spec_width(),
        ensures
            final(self).wf(),
            final(self).spec_width() == old(self).spec_width(),
            final(self).spec_height() == old(self).spec_height(),
            final(self)@ == write_band_spec(old(self)@, old(self).spec_width() as int, band, colors@),
    {
        let w = self.width;
        let _len = self.pixels.len();
        let ghost before = self.pixels@;
        proof {
            lemma_band_in_frame(w as int, self.height as int, band);
        }
        let start: usize = band.top * w;
        let n: usize = band.height * w;
        let mut j: usize = 0;
        while j < n
            invariant
                self.width == w,
                self.height == old(self).spec_height(),
                before == old(self)@,
                start == band.top * w,
                n == band.height * w,
                start + n <= before.len(),
                start + n <= usize::MAX,
                colors@.len() == n,
                j <= n,
                self.pixels@.len() == before.len(),
                forall|g: int|
                    0 <= g < before.len() ==> #[trigger] self.pixels@[g] == if start <= g < start + j {
                        colors@[g - start]
                    } else {
                        before[g]
                    },
            decreases n - j,
        {
            self.pixels.set(start + j, colors[j]);
            j = j + 1;
        }
        proof {
            assert((band.top + band.height) * w == start + n) by (nonlinear_arith)
                requires
                    start == band.top * w,
                    n == band.height * w,
            ;
            assert(self.pixels@ =~= write_band_spec(before, w as int, band, colors@));
        }
    }

    /// Writes every band of `plan` with its colours, in order.
    pub fn paint_bands(&mut self, plan: &Vec<Band>, colors: &Vec<Vec<u32>>)
        requires
            old(self).wf(),
            colors@.len() == plan@.len(),
            forall|i: int|
                0 <= i < plan@.len() ==> #[trigger] plan@[i].top + plan@[i].height <= old(
                    self,
                ).spec_height() && colors@[i]@.len() == plan@[i].height * old(self).spec_width(),
        ensures
            final(self).wf(),
            final(self).spec_width() == old(self).spec_width(),
            final(self).spec_height() == old(self).spec_height(),
            final(self)@ == paint(
                old(self)@,
                old(self).spec_width() as int,
                plan@,
                colors@.map_values(|v: Vec<u32>| v@),
            ),
    {
        let ghost cs = colors@.map_values(|v: Vec<u32>| v@);
        let mut i: usize = 0;
        while i < plan.len()
            invariant
                self.wf(),
                self.spec_width() == old(self).spec_width(),
                self.spec_height() == old(self).spec_height(),
                cs == colors@.map_values(|v: Vec<u32>| v@),
                colors@.len() == plan@.len(),
                forall|k: int|
                    0 <= k < plan@.len() ==> #[trigger] plan@[k].top + plan@[k].height
                        <= self.spec_height() && colors@[k]@.len() == plan@[k].height
                        * self.spec_width(),
                i <= plan@.len(),
                self@ == paint(old(self)@, self.spec_width() as int, plan@.take(i as int), cs),
            decreases plan@.len() - i,
        {
            self.write_band(plan[i], &colors[i]);
            proof {
                assert(plan@.take(i + 1).drop_last() =~= plan@.take(i as int));
            }
            i = i + 1;
        }
        proof {
            assert(plan@.take(i as int) =~= plan@);
        }
    }
}

/// A band within the rows of a `width * height` image covers a range of
/// pixel indices within the image.
proof fn lemma_band_in_frame(width: int, height: int, band: Band)
    requires
        width >= 0,
        band.top + band.height <= height,
    ensures
        band.top * width + band.height * width <= width * height,
        (band.top + band.height) * width == band.top * width + band.height * width,
{
    assert(band.top * width + band.height * width <= width * height) by (nonlinear_arith)
        requires
            width >= 0,
            band.top + band.height <= height,
    ;
    assert((band.top + band.height) * width == band.top * width + band.height * width)
        by (nonlinear_arith);
}

/// Pixel index `top * width + j` lies at column `j % width` of row
/// `top + j / width`.
proof fn lemma_row_major(width: int, top: int, j: int)
    requires
        width > 0,
        top >= 0,
        j >= 0,
    ensures
        (top * width + j) % width == j % width,
        (top * width + j) / width == top + j / width,
{
    vstd::arithmetic::div_mod::lemma_fundamental_div_mod(j, width);
    vstd::arithmetic::div_mod::lemma_mod_pos_bound(j, width);
    assert(top * width + j == (top + j / width) * width + j % width) by (nonlinear_arith)
        requires
            j == width * (j / width) + j % width,
    ;
    vstd::arithmetic::div_mod::lemma_fundamental_div_mod_converse(
        top * width + j,
        width,
        top + j / width,
        j % width,
    );
}

/// The first `k` bands of a pass, painted over `buf`, hold the shaded
/// image up to the bottom of band `k - 1` and `buf` below it.
proof fn lemma_paint_prefix(
    buf: Seq<u32>,
    width: int,
    height: int,
    workers: int,
    shade: spec_fn(int, int) -> u32,
    k: int,
)
    requires
        width > 0,
        workers > 0,
        0 <= height < usize::MAX,
        buf.len() == width * height,
        0 <= k <= band_plan(height, workers).len(),
    ensures
        ({
            let plan = band_plan(height, workers);
            let end = if k == 0 {
                0
            } else {
                plan[k - 1].top + plan[k - 1].height
            };
            paint(buf, width, plan.take(k), plan_colors(width, plan, shade)) == Seq::new(
                buf.len(),
                |g: int|
                    if g < end * width {
                        shade(g % width, g / width)
                    } else {
                        buf[g]
                    },
            )
        }),
    decreases k,
{
    let plan = band_plan(height, workers);
    let cs = plan_colors(width, plan, shade);
    lemma_plan_partitions(height, workers);
    if k == 0 {
        assert(plan.take(0).len() == 0);
        assert(paint(buf, width, plan.take(0), cs) =~= Seq::new(
            buf.len(),
            |g: int|
                if g < 0 * width {
                    shade(g % width, g / width)
                } else {
                    buf[g]
                },
        ));
    } else {
        lemma_paint_prefix(buf, width, height, workers, shade, k - 1);
        let band = plan[k - 1];
        let top = band.top as int;
        let prev = paint(buf, width, plan.take(k - 1), cs);
        assert(plan.take(k).drop_last() =~= plan.take(k - 1));
        assert(top == if k - 1 == 0 {
            0
        } else {
            plan[k - 2].top + plan[k - 2].height
        });
        let lhs = paint(buf, width, plan.take(k), cs);
        assert(lhs == write_band_spec(prev, width, band, cs[k - 1]));
        let rhs = Seq::new(
            buf.len(),
            |g: int|
                if g < (top + band.height) * width {
                    shade(g % width, g / width)
                } else {
                    buf[g]
                },
        );
        assert((top + band.height) * width == top * width + band.height * width) by (nonlinear_arith);
        assert forall|g: int| 0 <= g < buf.len() implies #[trigger] lhs[g] == rhs[g] by {
            if top * width <= g < (top + band.height) * width {
                let j = g - top * width;
                lemma_row_major(width, top, j);
                assert(cs[k - 1] == band_colors(width, band, shade));
            }
        }
        assert(lhs =~= rhs);
    }
}

/// Whatever the buffer held before, a render pass leaves in it the shaded
/// image: every pixel `(col, row)` holds `shade(col, row)`.
pub proof fn lemma_render_is_frame(
    buf: Seq<u32>,
    width: int,
    height: int,
    workers: int,
    shade: spec_fn(int, int) -> u32,
)
    requires
        width > 0,
        workers > 0,
        0 <= height < usize::MAX,
        buf.len() == width * height,
    ensures
        render_spec(buf, width, height, workers, shade) == frame_spec(width, height, shade),
{
    let plan = band_plan(height, workers);
    lemma_plan_partitions(height, workers);
    lemma_paint_prefix(buf, width, height, workers, shade, plan.len() as int);
    assert(plan.take(plan.len() as int) =~= plan);
    let r = render_spec(buf, width, height, workers, shade);
    assert(width * height == height * width) by (nonlinear_arith);
    assert(r =~= frame_spec(width, height, shade));
}

/// The number of workers does not change the image: passes over any two
/// worker counts leave the same pixels.
pub proof fn lemma_workers_do_not_matter(
    buf: Seq<u32>,
    width: int,
    height: int,
    workers1: int,
    workers2: int,
    shade: spec_fn(int, int) -> u32,
)
    requires
        width > 0,
        workers1 > 0,
        workers2 > 0,
        0 <= height < usize::MAX,
        buf.len() == width * height,
    ensures
        render_spec(buf, width, height, workers1, shade) == render_spec(
            buf,
            width,
            height,
            workers2,
            shade,
        ),
{
    lemma_render_is_frame(buf, width, height, workers1, shade);
    lemma_render_is_frame(buf, width, height, workers2, shade);
}

/// Rendering is idempotent: rendering the same view again, over the result
/// or over any other buffer of the image's size, gives the same pixels.
pub proof fn lemma_render_idempotent(
    buf1: Seq<u32>,
    buf2: Seq<u32>,
    width: int,
    height: int,
    workers: int,
    shade: spec_fn(int, int) -> u32,
)
    requires
        width > 0,
        workers > 0,
        0 <= height < usize::MAX,
        buf1.len() == width * height,
        buf2.len() == width * height,
    ensures
        render_spec(buf1, width, height, workers, shade) == render_spec(
            buf2,
            width,
            height,
            workers,
            shade,
        ),
        render_spec(render_spec(buf1, width, height, workers, shade), width, height, workers, shade)
            == render_spec(buf1, width, height, workers, shade),
{
    lemma_render_is_frame(buf1, width, height, workers, shade);
    lemma_render_is_frame(buf2, width, height, workers, shade);
    let once = render_spec(buf1, width, height, workers, shade);
    assert(once.len() == width * height);
    lemma_render_is_frame(once, width, height, workers, shade);
}

} // verus!
