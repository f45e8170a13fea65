use vstd::prelude::*;

use crate::escape::IterationResult;

verus! {

/// Number of colour bands in one full turn around the palette: iteration
/// counts that differ by a multiple of it get the same colour.
pub const CYCLE: u32 = 12;

/// Largest number of control points a palette may hold.
pub const MAX_PALETTE_LEN: usize = 1048576;

/// One control point of a palette.
#[derive(Clone, Copy, Debug, PartialEq, Eq, Structural)]
pub struct Rgb {
    pub r: u8,
    pub g: u8,
    pub b: u8,
}

/// `0x00RRGGBB` as a number.
pub open spec fn pack_spec(r: int, g: int, b: int) -> int {
    r * 65536 + g * 256 + b
}

/// The channel `f` twelfths of the way from `c1` to `c2`, truncated.
/// Both weights are non-negative, so the floor is the truncation.
pub open spec fn lerp_spec(c1: int, c2: int, f: int) -> int {
    (c1 * (12 - f) + c2 * f) / 12
}

/// Position of iteration count `i` on a palette of `n` points, in twelfths
/// of a control point: `(i mod 12) * n / 12` scaled by 12.
pub open spec fn position(i: int, n: int) -> int {
    (i % 12) * n
}

pub open spec fn left_index(i: int, n: int) -> int {
    (position(i, n) / 12) % n
}

pub open spec fn right_index(i: int, n: int) -> int {
    (left_index(i, n) + 1) % n
}

/// Fractional part of the position, in twelfths.
pub open spec fn fraction(i: int, n: int) -> int {
    position(i, n) % 12
}

/// The packed colour of an escape after `i` iterations on palette `pal`.
pub open spec fn color_spec(pal: Seq<Rgb>, i: int) -> int {
    let n = pal.len() as int;
    let a = pal[left_index(i, n)];
    let b = pal[right_index(i, n)];
    let f = fraction(i, n);
    pack_spec(
        lerp_spec(a.r as int, b.r as int, f),
        lerp_spec(a.g as int, b.g as int, f),
        lerp_spec(a.b as int, b.b as int, f),
    )
}

/// The colour of a classified pixel: black for a bounded orbit.
pub open spec fn result_color_spec(pal: Seq<Rgb>, res: IterationResult) -> int {
    match res {
        IterationResult::Escaped(i) => color_spec(pal, i as int),
        IterationResult::Bounded => 0,
    }
}

/// Packs three channels into `0x00RRGGBB`.
pub fn pack_rgb(r: u32, g: u32, b: u32) -> (c: u32)
    requires
        r <= 255,
        g <= 255,
        b <= 255,
    ensures
        c as int == pack_spec(r as int, g as int, b as int),
        c < 0x1000000,
{
    r * 65536 + g * 256 + b
}

/// Linear interpolation between two channels, `f` twelfths of the way.
pub fn lerp_channel(c1: u8, c2: u8, f: u32) -> (c: u32)
    requires
        f < 12,
    ensures
        c as int == lerp_spec(c1 as int, c2 as int, f as int),
        c <= 255,
        c1 <= c2 ==> c1 <= c <= c2,
        c2 <= c1 ==> c2 <= c <= c1,
{
    let a = c1 as u32;
    let b = c2 as u32;
    proof {
        lemma_lerp_between(a as int, b as int, f as int);
    }
    (a * (12 - f) + b * f) / 12
}

/// An interpolated channel lies between its two ends.
proof fn lemma_lerp_between(a: int, b: int, f: int)
    requires
        0 <= a <= 255,
        0 <= b <= 255,
        0 <= f < 12,
    ensures
        0 <= a * (12 - f) + b * f <= 255 * 12,
        a <= b ==> a <= lerp_spec(a, b, f) <= b,
        b <= a ==> b <= lerp_spec(a, b, f) <= a,
{
    let s = a * (12 - f) + b * f;
    assert(0 <= a * (12 - f) <= 255 * 12 && 0 <= b * f <= 255 * 12) by (nonlinear_arith)
        requires
            0 <= a <= 255,
            0 <= b <= 255,
            0 <= f < 12,
    {
    }
    assert((a * 12) / 12 == a);
    assert((b * 12) / 12 == b);
    if a <= b {
        assert(a * 12 <= s <= b * 12) by (nonlinear_arith)
            requires
                a <= b,
                0 <= f < 12,
                s == a * (12 - f) + b * f,
        {
        }
        vstd::arithmetic::div_mod::lemma_div_is_ordered(a * 12, s, 12);
        vstd::arithmetic::div_mod::lemma_div_is_ordered(s, b * 12, 12);
    } else {
        assert(b * 12 <= s <= a * 12) by (nonlinear_arith)
            requires
                b <= a,
                0 <= f < 12,
                s == a * (12 - f) + b * f,
        {
        }
        vstd::arithmetic::div_mod::lemma_div_is_ordered(b * 12, s, 12);
        vstd::arithmetic::div_mod::lemma_div_is_ordered(s, a * 12, 12);
    }
}

/// An ordered, cyclic sequence of control points.
pub struct Palette {
    colors: Vec<Rgb>,
}

impl Palette {
    pub closed spec fn view(&self) -> Seq<Rgb> {
        self.colors@
    }

    pub open spec fn wf(&self) -> bool {
        1 <= self@.len() <= MAX_PALETTE_LEN
    }

    /// The five-point palette: deep blue, light blue, white, orange, black.
    pub fn standard() -> (p: Palette)
        ensures
            p.wf(),
            p@ == seq![
                Rgb { r: 0, g: 7, b: 100 },
                Rgb { r: 32, g: 107, b: 203 },
                Rgb { r: 237, g: 255, b: 255 },
                Rgb { r: 255, g: 170, b: 0 },
                Rgb { r: 0, g: 2, b: 0 },
            ],
    {
        let colors = vec![
            Rgb { r: 0, g: 7, b: 100 },
            Rgb { r: 32, g: 107, b: 203 },
            Rgb { r: 237, g: 255, b: 255 },
            Rgb { r: 255, g: 170, b: 0 },
            Rgb { r: 0, g: 2, b: 0 },
        ];
        let p = Palette { colors };
        assert(p@ =~= seq![
            Rgb { r: 0, g: 7, b: 100 },
            Rgb { r: 32, g: 107, b: 203 },
            Rgb { r: 237, g: 255, b: 255 },
            Rgb { r: 255, g: 170, b: 0 },
            Rgb { r: 0, g: 2, b: 0 },
        ]);
        p
    }

    /// A palette of the given control points; `None` when there are none,
    /// or more than `MAX_PALETTE_LEN`.
    pub fn from_colors(colors: Vec<Rgb>) -> (p: Option<Palette>)
        ensures
            (1 <= colors@.len() <= MAX_PALETTE_LEN) <==> p.is_some(),
            p matches Some(q) ==> q.wf() && q@ == colors@,
    {
        if colors.len() == 0 || colors.len() > MAX_PALETTE_LEN {
            None
        } else {
            Some(Palette { colors })
        }
    }

    pub fn len(&self) -> (n: usize)
        ensures
            n == self@.len(),
    {
        self.colors.len()
    }

    /// The control point at `k`.
    pub fn get(&self, k: usize) -> (c: Rgb)
        requires
            k < self@.len(),
        ensures
            c == self@[k as int],
    {
        self.colors[k]
    }

    /// The colour of a point that escaped after `i` iterations.
    pub fn color(&self, i: u32) -> (c: u32)
        requires
            self.wf(),
        ensures
            c as int == color_spec(self@, i as int),
            c < 0x1000000,
    {
        let n = self.colors.len();
        let k: u64 = (i % CYCLE) as u64;
        assert(k * (n as u64) <= 12 * MAX_PALETTE_LEN) by (nonlinear_arith)
            requires
                k < 12,
                n <= MAX_PALETTE_LEN,
        {
        }
        let pos: u64 = k * n as u64;
        let left: usize = ((pos / 12) % (n as u64)) as usize;
        let right: usize = (left + 1) % n;
        let f: u32 = (pos % 12) as u32;
        let a = self.colors[left];
        let b = self.colors[right];
        let r = lerp_channel(a.r, b.r, f);
        let g = lerp_channel(a.g, b.g, f);
        let bl = lerp_channel(a.b, b.b, f);
        pack_rgb(r, g, bl)
    }

    /// The colour of a classified pixel: the sentinel black for a bounded
    /// orbit, the banded palette colour for an escape.
    pub fn result_color(&self, res: IterationResult) -> (c: u32)
        requires
            self.wf(),
        ensures
            c as int == result_color_spec(self@, res),
            c < 0x1000000,
    {
        match res {
            IterationResult::Escaped(i) => self.color(i),
            IterationResult::Bounded => 0,
        }
    }
}

/// Colours repeat with the bands: counts `i` and `i + 12 * n` get the same
/// colour, for every integer `n`.
pub proof fn lemma_color_cyclic(pal: Seq<Rgb>, i: int, n: int)
    ensures
        color_spec(pal, i) == color_spec(pal, i + 12 * n),
{
    vstd::arithmetic::div_mod::lemma_mod_multiples_vanish(n, i, 12);
    assert(i + 12 * n == 12 * n + i);
}

/// Every escape colour is a packed `0x00RRGGBB` value, each of its channels
/// lies between those of the two control points it is drawn from, and it is
/// the colour of one of the counts `0..12`: a pass shows at most twelve
/// escape colours besides black.
pub proof fn lemma_color_range(pal: Seq<Rgb>, i: int)
    requires
        pal.len() >= 1,
        i >= 0,
    ensures
        0 <= color_spec(pal, i) < 0x1000000,
        exists|k: int| 0 <= k < 12 && color_spec(pal, i) == #[trigger] color_spec(pal, k),
        ({
            let n = pal.len() as int;
            let a = pal[left_index(i, n)];
            let b = pal[right_index(i, n)];
            let f = fraction(i, n);
            &&& a.r <= b.r ==> a.r <= lerp_spec(a.r as int, b.r as int, f) <= b.r
            &&& b.r <= a.r ==> b.r <= lerp_spec(a.r as int, b.r as int, f) <= a.r
            &&& a.g <= b.g ==> a.g <= lerp_spec(a.g as int, b.g as int, f) <= b.g
            &&& b.g <= a.g ==> b.g <= lerp_spec(a.g as int, b.g as int, f) <= a.g
            &&& a.b <= b.b ==> a.b <= lerp_spec(a.b as int, b.b as int, f) <= b.b
            &&& b.b <= a.b ==> b.b <= lerp_spec(a.b as int, b.b as int, f) <= a.b
        }),
{
    let n = pal.len() as int;
    let pos = position(i, n);
    vstd::arithmetic::div_mod::lemma_mod_pos_bound(i, 12);
    assert(pos >= 0) by (nonlinear_arith)
        requires
            pos == (i % 12) * n,
            i % 12 >= 0,
            n >= 1,
    {
    }
    vstd::arithmetic::div_mod::lemma_mod_pos_bound(pos, 12);
    vstd::arithmetic::div_mod::lemma_div_pos_is_pos(pos, 12);
    vstd::arithmetic::div_mod::lemma_mod_pos_bound(pos / 12, n);
    vstd::arithmetic::div_mod::lemma_mod_pos_bound(left_index(i, n) + 1, n);
    let a = pal[left_index(i, n)];
    let b = pal[right_index(i, n)];
    let f = fraction(i, n);
    lemma_lerp_between(a.r as int, b.r as int, f);
    lemma_lerp_between(a.g as int, b.g as int, f);
    lemma_lerp_between(a.b as int, b.b as int, f);
    let r = lerp_spec(a.r as int, b.r as int, f);
    let g = lerp_spec(a.g as int, b.g as int, f);
    let bl = lerp_spec(a.b as int, b.b as int, f);
    assert(0 <= pack_spec(r, g, bl) < 0x1000000) by (nonlinear_arith)
        requires
            0 <= r <= 255,
            0 <= g <= 255,
            0 <= bl <= 255,
    {
    }
    let k = i % 12;
    vstd::arithmetic::div_mod::lemma_mod_twice(i, 12);
    assert(color_spec(pal, i) == color_spec(pal, k));
}

impl Palette {
    /// The colours of a run of classified pixels, in order.
    pub fn shade(&self, results: &Vec<IterationResult>) -> (colors: Vec<u32>)
        requires
            self.wf(),
        ensures
            colors@.len() == results@.len(),
            forall|j: int|
                0 <= j < results@.len() ==> #[trigger] colors@[j] as int == result_color_spec(
                    self@,
                    results@[j],
                ),
    {
        let mut colors: Vec<u32> = Vec::new();
        let mut j: usize = 0;
        while j < results.len()
            invariant
                self.wf(),
                j <= results@.len(),
                colors@.len() == j,
                forall|k: int|
                    0 <= k < j ==> #[trigger] colors@[k] as int == result_color_spec(self@, results@[k]),
            decreases results@.len() - j,
        {
            let c = self.result_color(results[j]);
            colors.push(c);
            j = j + 1;
        }
        colors
    }
}

} // verus!
