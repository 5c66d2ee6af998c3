use vstd::arithmetic::div_mod::lemma_fundamental_div_mod;
use vstd::prelude::*;

use crate::color::{Color, GradientTable};
use crate::lanes::{lemma_escaped_frozen, scalar_count, LaneGroup, LANES};
use crate::pixels::{frame_pixels, frame_size, FrameBuffer};
use crate::settings::{ConfigError, FractalSettings};

verus! {

/// Whether `pixels` shows, for each pixel, the table entry of its count.
pub open spec fn painted(
    pixels: Seq<(u8, u8, u8, u8)>,
    table: Seq<Color>,
    counts: Seq<u32>,
    upto: int,
) -> bool {
    forall|k: int|
        0 <= k < upto ==> {
            &&& (#[trigger] counts[k]) < table.len()
            &&& pixels[k] == table[counts[k] as int].channels()
        }
}

/// Whether `p` is the colour of some entry of `table`.
pub open spec fn in_table(table: Seq<Color>, p: (u8, u8, u8, u8)) -> bool {
    exists|i: int| 0 <= i < table.len() && p == (#[trigger] table[i]).channels()
}

/// Whether each of the first `upto` counts is the scalar count, with budget
/// `n`, of the escape tests observed for that pixel.
pub open spec fn counted(counts: Seq<u32>, tests: Seq<Seq<bool>>, n: int, upto: int) -> bool {
    forall|k: int| 0 <= k < upto ==> #[trigger] counts[k] as int == scalar_count(tests[k], n)
}

/// The frame bookkeeping of a renderer: the configuration, the colour table,
/// the pixel buffer, and how far the current frame has been painted. A frame
/// is painted one lane group at a time, in row-major order; the caller runs
/// each group's escape iterations between `next_group` and `finish_group`.
pub struct Fractal {
    settings: FractalSettings,
    table: GradientTable,
    buf: FrameBuffer,
    next: u64,
    frame: Ghost<Seq<u32>>,
    seen: Ghost<Seq<Seq<bool>>>,
}

impl Fractal {
    /// Number of lane groups in a row.
    pub closed spec fn groups_per_row(self) -> int {
        self.settings.spec_width() as int / LANES as int
    }

    /// Number of lane groups in a frame.
    pub closed spec fn total_groups(self) -> int {
        self.groups_per_row() * self.settings.spec_height() as int
    }

    /// Number of pixels in a frame.
    pub closed spec fn num_pixels(self) -> int {
        self.settings.spec_width() as int * self.settings.spec_height() as int
    }

    /// The configuration.
    pub closed spec fn spec_settings(self) -> FractalSettings {
        self.settings
    }

    /// The colour table.
    pub closed spec fn spec_table(self) -> Seq<Color> {
        self.table@
    }

    /// The pixel buffer, row-major.
    pub closed spec fn pixels(self) -> Seq<(u8, u8, u8, u8)> {
        frame_pixels(self.buf)
    }

    /// The index of the next lane group of the current frame to paint.
    pub closed spec fn spec_next(self) -> int {
        self.next as int
    }

    /// The iteration count of each pixel painted in the current frame.
    pub closed spec fn frame_counts(self) -> Seq<u32> {
        self.frame@
    }

    /// The escape tests observed for each pixel painted in the current
    /// frame, indexed by iteration.
    pub closed spec fn frame_tests(self) -> Seq<Seq<bool>> {
        self.seen@
    }

    /// Whether every lane group of the current frame has been painted.
    pub open spec fn frame_complete(self) -> bool {
        self.spec_next() == self.total_groups()
    }

    /// The renderer's parts agree: the table has one entry per iteration,
    /// the buffer has the configured size, and the groups painted so far in
    /// this frame show the colours of their counts.
    pub closed spec fn wf(self) -> bool {
        &&& self.settings.wf()
        &&& self.table@.len() == self.settings.spec_n_iter()
        &&& forall|i: int| 0 <= i < self.table@.len() ==> (#[trigger] self.table@[i]).a == 255
        &&& frame_size(self.buf) == (self.settings.spec_width(), self.settings.spec_height())
        &&& frame_pixels(self.buf).len() == self.num_pixels()
        &&& self.frame@.len() == self.num_pixels()
        &&& 0 <= self.next <= self.total_groups()
        &&& painted(frame_pixels(self.buf), self.table@, self.frame@, LANES * self.next)
        &&& self.seen@.len() == self.num_pixels()
        &&& counted(self.frame@, self.seen@, self.settings.spec_n_iter() as int, LANES * self.next)
    }

    /// How many pixels and lane groups a frame has: `width * height` pixels
    /// in groups of `LANES`, `width / LANES` groups to a row.
    pub proof fn lemma_frame_shape(self)
        ensures
            self.num_pixels() == self.spec_settings().spec_width() as int
                * self.spec_settings().spec_height() as int,
            self.groups_per_row() == self.spec_settings().spec_width() as int / LANES as int,
            self.total_groups() == self.groups_per_row()
                * self.spec_settings().spec_height() as int,
            self.wf() ==> self.total_groups() * (LANES as int) == self.num_pixels(),
    {
        if self.wf() {
            self.lemma_sizes();
        }
    }

    proof fn lemma_sizes(self)
        requires
            self.settings.wf(),
        ensures
            self.groups_per_row() * (LANES as int) == self.settings.spec_width(),
            self.total_groups() * (LANES as int) == self.num_pixels(),
            self.total_groups() >= 1,
            self.num_pixels() * 4 <= usize::MAX,
    {
        self.settings.lemma_valid();
        let w = self.settings.spec_width() as int;
        let h = self.settings.spec_height() as int;
        let g = self.groups_per_row();
        assert(g * 8 == w);
        assert(g * h * 8 == w * h) by (nonlinear_arith)
            requires
                g * 8 == w,
        ;
        assert(4 * w * h == w * h * 4) by (nonlinear_arith);
        assert(g * h >= 1) by (nonlinear_arith)
            requires
                g >= 1,
                h >= 1,
        ;
    }

    /// A renderer for `settings` with the colour table `table` and an
    /// all-zero pixel buffer, at the start of a frame. The table must have
    /// one entry per iteration of the budget.
    pub fn new(settings: FractalSettings, table: GradientTable) -> (r: Result<Fractal, ConfigError>)
        requires
            settings.wf(),
        ensures
            r is Ok <==> table@.len() == settings.spec_n_iter(),
            r is Err ==> r == Err::<Fractal, ConfigError>(ConfigError::TableSize),
            r matches Ok(f) ==> {
                &&& f.wf()
                &&& f.spec_settings() == settings
                &&& f.spec_table() == table@
                &&& forall|i: int| 0 <= i < table@.len() ==> (#[trigger] table@[i]).a == 255
                &&& f.spec_next() == 0
                &&& f.pixels() == Seq::new(
                    f.num_pixels() as nat,
                    |k: int| (0u8, 0u8, 0u8, 0u8),
                )
            },
    {
        proof {
            settings.lemma_valid();
        }
        if table.len() != settings.n_iter() as usize {
            return Err(ConfigError::TableSize);
        }
        let buf = FrameBuffer::new(settings.width(), settings.height());
        let f = Fractal {
            settings,
            table,
            buf,
            next: 0,
            frame: Ghost(
                Seq::new(
                    (settings.spec_width() as nat) * (settings.spec_height() as nat),
                    |k: int| 0u32,
                ),
            ),
            seen: Ghost(
                Seq::new(
                    (settings.spec_width() as nat) * (settings.spec_height() as nat),
                    |k: int| Seq::<bool>::empty(),
                ),
            ),
        };
        proof {
            f.lemma_sizes();
        }
        Ok(f)
    }

    /// Starts a new frame: the next group to paint is the first.
    pub fn begin_frame(&mut self)
        requires
            old(self).wf(),
        ensures
            final(self).wf(),
            final(self).spec_settings() == old(self).spec_settings(),
            final(self).spec_table() == old(self).spec_table(),
            final(self).pixels() == old(self).pixels(),
            final(self).spec_next() == 0,
    {
        self.next = 0;
    }

    /// The pixel at which the next lane group of the current frame starts,
    /// as (column, row), or `None` once the frame is complete. Group `g`
    /// starts at column `LANES * (g % groups_per_row)` of row
    /// `g / groups_per_row`.
    pub fn next_group(&self) -> (r: Option<(u32, u32)>)
        requires
            self.wf(),
        ensures
            r is None <==> self.frame_complete(),
            r matches Some(p) ==> {
                &&& p.0 as int == LANES * (self.spec_next() % self.groups_per_row())
                &&& p.1 as int == self.spec_next() / self.groups_per_row()
                &&& p.0 + LANES <= self.spec_settings().spec_width()
                &&& p.1 < self.spec_settings().spec_height()
            },
    {
        proof {
            self.lemma_sizes();
        }
        let gpr = (self.settings.width() / (LANES as u32)) as u64;
        let total = gpr * (self.settings.height() as u64);
        if self.next >= total {
            return None;
        }
        let gx = self.next % gpr;
        let y = self.next / gpr;
        proof {
            self.lemma_group_position(gx as int, y as int);
        }
        Some(((gx as u32) * (LANES as u32), y as u32))
    }

    proof fn lemma_group_position(self, gx: int, y: int)
        requires
            self.wf(),
            self.spec_next() < self.total_groups(),
            gx == self.spec_next() % self.groups_per_row(),
            y == self.spec_next() / self.groups_per_row(),
        ensures
            0 <= gx < self.groups_per_row(),
            0 <= y < self.spec_settings().spec_height(),
            y * self.spec_settings().spec_width() + LANES * gx == LANES * self.spec_next(),
            LANES * gx + LANES <= self.spec_settings().spec_width(),
    {
        self.lemma_sizes();
        let gpr = self.groups_per_row();
        let n = self.spec_next();
        let h = self.spec_settings().spec_height() as int;
        let w = self.spec_settings().spec_width() as int;
        lemma_fundamental_div_mod(n, gpr);
        assert(0 <= gx < gpr);
        assert(y >= 0) by (nonlinear_arith)
            requires
                n >= 0,
                gpr >= 1,
                y == n / gpr,
        ;
        assert(y < h) by (nonlinear_arith)
            requires
                n == gpr * y + gx,
                0 <= gx,
                n < gpr * h,
                gpr >= 1,
        ;
        assert(y * w + 8 * gx == 8 * n) by (nonlinear_arith)
            requires
                n == gpr * y + gx,
                w == gpr * 8,
        ;
    }

    /// A lane group with this renderer's iteration budget.
    pub fn lane_group(&self) -> (g: LaneGroup)
        requires
            self.wf(),
        ensures
            g.consistent(),
            g.spec_budget() == self.spec_settings().spec_n_iter(),
            g.spec_step() == 0,
            !g.spec_finished(),
    {
        proof {
            self.settings.lemma_valid();
        }
        LaneGroup::new(self.settings.n_iter())
    }

    /// Paints the next lane group of the current frame: lane `j` of the
    /// group takes the table entry of the group's count for lane `j`, and no
    /// other pixel changes. Returns whether the frame is now complete; on a
    /// complete frame nothing changes.
    pub fn finish_group(&mut self, group: &LaneGroup) -> (done: bool)
        requires
            old(self).wf(),
            group.wf(),
            group.spec_finished(),
            group.spec_budget() == old(self).spec_settings().spec_n_iter(),
        ensures
            final(self).wf(),
            final(self).spec_settings() == old(self).spec_settings(),
            final(self).spec_table() == old(self).spec_table(),
            old(self).frame_complete() ==> *final(self) == *old(self),
            !old(self).frame_complete() ==> {
                &&& final(self).spec_next() == old(self).spec_next() + 1
                &&& forall|j: int|
                    0 <= j < LANES ==> final(self).pixels()[LANES * old(self).spec_next() + j]
                        == final(self).spec_table()[group.spec_counts()[j] as int].channels()
                &&& forall|j: int|
                    0 <= j < LANES ==> final(self).frame_tests()[LANES * old(self).spec_next() + j]
                        == group.observed()[j]
                &&& forall|k: int|
                    0 <= k < old(self).num_pixels() && !(LANES * old(self).spec_next() <= k
                        < LANES * old(self).spec_next() + LANES) ==> final(self).pixels()[k]
                        == old(self).pixels()[k]
            },
            done == final(self).frame_complete(),
            final(self).frame_complete() ==> painted(
                final(self).pixels(),
                final(self).spec_table(),
                final(self).frame_counts(),
                final(self).num_pixels(),
            ),
            final(self).frame_complete() ==> counted(
                final(self).frame_counts(),
                final(self).frame_tests(),
                final(self).spec_settings().spec_n_iter() as int,
                final(self).num_pixels(),
            ),
    {
        proof {
            self.lemma_sizes();
            self.settings.lemma_valid();
            group.lemma_consistent();
        }
        let gpr = (self.settings.width() / (LANES as u32)) as u64;
        let total = gpr * (self.settings.height() as u64);
        if self.next >= total {
            return true;
        }
        let gx = self.next % gpr;
        let y = self.next / gpr;
        proof {
            self.lemma_group_position(gx as int, y as int);
        }
        let x0 = (gx as u32) * (LANES as u32);
        let y = y as u32;
        let ghost base = LANES * self.next;
        let ghost old_pixels = frame_pixels(self.buf);
        let ghost old_frame = self.frame@;
        let mut j: usize = 0;
        while j < LANES
            invariant
                0 <= j <= LANES,
                self.settings == old(self).settings,
                self.table@ == old(self).table@,
                self.next == old(self).next,
                self.settings.wf(),
                self.settings.spec_n_iter() > 0,
                group.consistent(),
                base == LANES * self.next,
                base + LANES <= self.num_pixels(),
                y * self.settings.spec_width() + x0 == base,
                x0 + LANES <= self.settings.spec_width(),
                y < self.settings.spec_height(),
                frame_size(self.buf) == (self.settings.spec_width(), self.settings.spec_height()),
                frame_pixels(self.buf).len() == self.num_pixels(),
                self.frame@.len() == self.num_pixels(),
                self.table@.len() == self.settings.spec_n_iter(),
                group.wf(),
                group.spec_budget() == self.settings.spec_n_iter(),
                painted(frame_pixels(self.buf), self.table@, self.frame@, base + j),
                self.seen@.len() == self.num_pixels(),
                counted(self.frame@, self.seen@, self.settings.spec_n_iter() as int, base + j),
                forall|i: int| 0 <= i < j ==> self.seen@[base + i] == group.observed()[i],
                group.spec_finished(),
                forall|k: int|
                    0 <= k < self.num_pixels() && !(base <= k < base + j) ==> frame_pixels(
                        self.buf,
                    )[k] == old_pixels[k],
                forall|i: int|
                    0 <= i < j ==> frame_pixels(self.buf)[base + i] == self.table@[group.spec_counts()[
                        i] as int].channels(),
            decreases LANES - j,
        {
            let ghost prev_pixels = frame_pixels(self.buf);
            let ghost prev_frame = self.frame@;
            let ghost prev_seen = self.seen@;
            let cnt = group.count(j);
            let c = self.table.get(cnt as usize);
            self.buf.put(x0 + j as u32, y, c);
            self.frame = Ghost(self.frame@.update(base + j, cnt));
            self.seen = Ghost(self.seen@.update(base + j, group.observed()[j as int]));
            proof {
                let o = group.observed()[j as int];
                let n = self.settings.spec_n_iter() as int;
                if group.spec_step() < n {
                    lemma_escaped_frozen(o, group.spec_step() - 1, n);
                }
                assert(cnt as int == scalar_count(o, n));
                assert forall|k: int| 0 <= k < base + j + 1 implies #[trigger] self.frame@[k] as int
                    == scalar_count(self.seen@[k], n) by {
                    if k < base + j {
                        assert(prev_frame[k] as int == scalar_count(prev_seen[k], n));
                    }
                }
                assert forall|i: int| 0 <= i < j + 1 implies self.seen@[base + i]
                    == group.observed()[i] by {
                    if i < j {
                        assert(prev_seen[base + i] == group.observed()[i]);
                    }
                }
                assert(frame_pixels(self.buf) == prev_pixels.update(base + j, c.channels()));
                assert forall|k: int| 0 <= k < base + j + 1 implies {
                    &&& (#[trigger] self.frame@[k]) < self.table@.len()
                    &&& frame_pixels(self.buf)[k] == self.table@[self.frame@[k] as int].channels()
                } by {
                    if k < base + j {
                        assert(prev_frame[k] < self.table@.len());
                    }
                }
            }
            j = j + 1;
        }
        self.next = self.next + 1;
        self.next == total
    }

    /// The configuration.
    pub fn settings(&self) -> (r: FractalSettings)
        ensures
            r == self.spec_settings(),
    {
        self.settings
    }

    /// The colour of iteration count `i`.
    pub fn table_entry(&self, i: usize) -> (r: Color)
        requires
            self.wf(),
            i < self.spec_settings().spec_n_iter(),
        ensures
            r == self.spec_table()[i as int],
    {
        self.table.get(i)
    }

    /// The pixel at column `x` of row `y`.
    pub fn pixel(&self, x: u32, y: u32) -> (r: Color)
        requires
            self.wf(),
            x < self.spec_settings().spec_width(),
            y < self.spec_settings().spec_height(),
        ensures
            r.channels() == self.pixels()[y * self.spec_settings().spec_width() + x],
    {
        self.buf.get(x, y)
    }

    /// The pixel buffer as bytes: red, green, blue and alpha of each pixel,
    /// row-major.
    pub fn to_rgba_bytes(&self) -> (r: Vec<u8>)
        requires
            self.wf(),
        ensures
            r@.len() == 4 * self.num_pixels(),
            forall|k: int|
                0 <= k < self.num_pixels() ==> {
                    &&& r@[4 * k] == (#[trigger] self.pixels()[k]).0
                    &&& r@[4 * k + 1] == self.pixels()[k].1
                    &&& r@[4 * k + 2] == self.pixels()[k].2
                    &&& r@[4 * k + 3] == self.pixels()[k].3
                },
    {
        self.buf.to_bytes()
    }
}

/// Whether pixel `k` shows the table entry of the scalar count, with budget
/// `n`, of its escape tests.
pub open spec fn shows_scalar_count(
    pixels: Seq<(u8, u8, u8, u8)>,
    table: Seq<Color>,
    tests: Seq<Seq<bool>>,
    n: int,
    k: int,
) -> bool {
    &&& 0 <= scalar_count(tests[k], n) < table.len()
    &&& pixels[k] == table[scalar_count(tests[k], n)].channels()
}

/// Once a frame is complete, every pixel shows the table entry of the
/// scalar count of its own escape tests; so every pixel is an entry of the
/// table, and fully opaque: none keeps a value from before the frame.
pub proof fn lemma_complete_frame_in_table(f: Fractal)
    requires
        f.wf(),
        f.frame_complete(),
    ensures
        forall|k: int|
            0 <= k < f.num_pixels() ==> #[trigger] shows_scalar_count(
                f.pixels(),
                f.spec_table(),
                f.frame_tests(),
                f.spec_settings().spec_n_iter() as int,
                k,
            ),
        forall|k: int| 0 <= k < f.num_pixels() ==> in_table(f.spec_table(), #[trigger] f.pixels()[k]),
        forall|k: int| 0 <= k < f.num_pixels() ==> (#[trigger] f.pixels()[k]).3 == 255,
{
    f.lemma_sizes();
    assert forall|k: int| 0 <= k < f.num_pixels() implies {
        &&& shows_scalar_count(
            f.pixels(),
            f.spec_table(),
            f.frame_tests(),
            f.spec_settings().spec_n_iter() as int,
            k,
        )
        &&& in_table(f.spec_table(), #[trigger] f.pixels()[k])
        &&& f.pixels()[k].3 == 255
    } by {
        assert(LANES * f.next == f.num_pixels());
        assert(f.frame@[k] < f.table@.len());
        assert(f.frame@[k] as int == scalar_count(f.seen@[k], f.settings.spec_n_iter() as int));
        let i = f.frame_counts()[k] as int;
        assert(0 <= i < f.spec_table().len() && f.pixels()[k] == f.spec_table()[i].channels());
    }
    assert forall|k: int| 0 <= k < f.num_pixels() implies #[trigger] shows_scalar_count(
        f.pixels(),
        f.spec_table(),
        f.frame_tests(),
        f.spec_settings().spec_n_iter() as int,
        k,
    ) by {
        assert(in_table(f.spec_table(), f.pixels()[k]));
    }
}

/// A complete frame is fixed by the colour table and the escape tests of
/// each pixel: two renderers with the same configuration and table whose
/// pixels saw the same tests hold the same pixels, whatever their buffers
/// held before.
pub proof fn lemma_frame_determined(a: Fractal, b: Fractal)
    requires
        a.wf(),
        b.wf(),
        a.frame_complete(),
        b.frame_complete(),
        a.spec_settings() == b.spec_settings(),
        a.spec_table() == b.spec_table(),
        a.frame_tests() == b.frame_tests(),
    ensures
        a.frame_counts() == b.frame_counts(),
        a.pixels() == b.pixels(),
{
    a.lemma_sizes();
    b.lemma_sizes();
    let n = a.settings.spec_n_iter() as int;
    assert forall|k: int| 0 <= k < a.num_pixels() implies a.pixels()[k] == b.pixels()[k]
        && a.frame@[k] == b.frame@[k] by {
        assert(LANES * a.next == a.num_pixels());
        assert(LANES * b.next == b.num_pixels());
        assert(a.frame@[k] as int == scalar_count(a.seen@[k], n));
        assert(b.frame@[k] as int == scalar_count(b.seen@[k], n));
        assert(a.frame@[k] < a.table@.len());
        assert(b.frame@[k] < b.table@.len());
    }
    assert(a.frame_counts() =~= b.frame_counts());
    assert(a.pixels() =~= b.pixels());
}

} // verus!
