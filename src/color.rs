use vstd::prelude::*;

verus! {

/// An RGBA colour with 8-bit channels.
#[derive(Clone, Copy, Debug, PartialEq, Eq, Structural)]
pub struct Color {
    pub r: u8,
    pub g: u8,
    pub b: u8,
    pub a: u8,
}

impl Color {
    /// The four channels as a tuple.
    pub open spec fn channels(self) -> (u8, u8, u8, u8) {
        (self.r, self.g, self.b, self.a)
    }
}

/// The colour given to each iteration count, indexed by the count.
pub struct GradientTable {
    entries: Vec<Color>,
}

impl View for GradientTable {
    type V = Seq<Color>;

    closed spec fn view(&self) -> Seq<Color> {
        self.entries@
    }
}

/// The opaque colour of an RGB sample.
pub open spec fn opaque(rgb: (u8, u8, u8)) -> Color {
    Color { r: rgb.0, g: rgb.1, b: rgb.2, a: 255 }
}

impl GradientTable {
    /// Every entry is fully opaque.
    #[verifier::type_invariant]
    spec fn all_opaque(self) -> bool {
        forall|i: int| 0 <= i < self.entries@.len() ==> (#[trigger] self.entries@[i]).a == 255
    }

    /// A table with one opaque entry per sample of the gradient, in the
    /// order given: entry `i` is sample `i` with full alpha.
    pub fn from_samples(samples: &Vec<(u8, u8, u8)>) -> (t: GradientTable)
        ensures
            t@.len() == samples@.len(),
            forall|i: int| 0 <= i < samples@.len() ==> t@[i] == opaque(#[trigger] samples@[i]),
    {
        let mut entries: Vec<Color> = Vec::with_capacity(samples.len());
        let mut i: usize = 0;
        while i < samples.len()
            invariant
                0 <= i <= samples@.len(),
                entries@.len() == i,
                forall|k: int| 0 <= k < i ==> entries@[k] == opaque(#[trigger] samples@[k]),
                forall|k: int| 0 <= k < i ==> (#[trigger] entries@[k]).a == 255,
            decreases samples@.len() - i,
        {
            let (r, g, b) = samples[i];
            entries.push(Color { r, g, b, a: 255 });
            i = i + 1;
        }
        GradientTable { entries }
    }

    /// The number of entries; every entry is fully opaque.
    pub fn len(&self) -> (r: usize)
        ensures
            r == self@.len(),
            forall|i: int| 0 <= i < self@.len() ==> (#[trigger] self@[i]).a == 255,
    {
        proof {
            use_type_invariant(self);
        }
        self.entries.len()
    }

    /// The colour of iteration count `i`.
    pub fn get(&self, i: usize) -> (r: Color)
        requires
            i < self@.len(),
        ensures
            r == self@[i as int],
            r.a == 255,
    {
        proof {
            use_type_invariant(self);
        }
        self.entries[i]
    }
}

/// Number of control colours of the gradient.
pub const STOPS: usize = 5;

/// Position of control colour `s` along the iteration axis, in tenths of the
/// iteration budget: 0, 0.3, 0.6, 0.8 and 1.0 times the budget.
pub open spec fn stop_tenths(s: int) -> int {
    if s == 0 {
        0
    } else if s == 1 {
        3
    } else if s == 2 {
        6
    } else if s == 3 {
        8
    } else {
        10
    }
}

/// Position of control colour `s` in tenths of a count, for a budget of `n`.
fn stop_position(s: usize, n: u64) -> (r: u64)
    requires
        s < STOPS,
        n <= u32::MAX,
    ensures
        r == stop_tenths(s as int) * n,
{
    if s == 0 {
        0
    } else if s == 1 {
        3 * n
    } else if s == 2 {
        6 * n
    } else if s == 3 {
        8 * n
    } else {
        10 * n
    }
}

/// Where an iteration count lies on the gradient: between control colours
/// `segment` and `segment + 1`, at the fraction `num / den` of the way.
#[derive(Clone, Copy, Debug, PartialEq, Eq, Structural)]
pub struct GradientPoint {
    pub segment: usize,
    pub num: u64,
    pub den: u64,
}

/// Whether `p` places count `i` of a budget of `n` on the gradient: `i` lies
/// at or after the segment's first control position and before its second,
/// and the fraction is the distance from the first over the segment's
/// length, both in tenths of `n`.
pub open spec fn places(p: GradientPoint, i: int, n: int) -> bool {
    let s = p.segment as int;
    &&& 0 <= s < STOPS - 1
    &&& stop_tenths(s) * n <= 10 * i < stop_tenths(s + 1) * n
    &&& p.num == 10 * i - stop_tenths(s) * n
    &&& p.den == (stop_tenths(s + 1) - stop_tenths(s)) * n
}

/// The place on the gradient of each iteration count `0..n_iter`, in order:
/// one per entry of the colour table.
pub fn gradient_points(n_iter: u32) -> (r: Vec<GradientPoint>)
    ensures
        r@.len() == n_iter,
        forall|i: int| 0 <= i < n_iter ==> places(#[trigger] r@[i], i, n_iter as int),
{
    let n = n_iter as u64;
    let mut r: Vec<GradientPoint> = Vec::with_capacity(n_iter as usize);
    let mut i: u32 = 0;
    while i < n_iter
        invariant
            0 <= i <= n_iter,
            n == n_iter,
            n <= u32::MAX,
            r@.len() == i,
            forall|k: int| 0 <= k < i ==> places(#[trigger] r@[k], k, n as int),
        decreases n_iter - i,
    {
        let x = 10 * (i as u64);
        let mut s: usize = 0;
        while s < STOPS - 2 && stop_position(s + 1, n) <= x
            invariant
                0 <= s <= STOPS - 2,
                n == n_iter,
                x == 10 * i,
                i < n,
                n <= u32::MAX,
                stop_tenths(s as int) * n <= x,
            decreases STOPS - 2 - s,
        {
            s = s + 1;
        }
        let lo = stop_position(s, n);
        let hi = stop_position(s + 1, n);
        proof {
            assert(10 * (i as int) < stop_tenths(STOPS - 1) * n);
            assert(stop_tenths(s as int) < stop_tenths(s + 1));
            assert((stop_tenths(s + 1) - stop_tenths(s as int)) * n == stop_tenths(s + 1) * n
                - stop_tenths(s as int) * n) by (nonlinear_arith);
        }
        r.push(GradientPoint { segment: s, num: x - lo, den: hi - lo });
        i = i + 1;
    }
    r
}

} // verus!
