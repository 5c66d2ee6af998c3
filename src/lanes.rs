use vstd::prelude::*;

verus! {

/// Number of adjacent pixels of a row that are iterated together.
pub const LANES: usize = 8;

/// Whether the test of iteration `t` found `|z|^2 > 4`. A test that `tests`
/// does not hold counts as not escaped.
pub open spec fn test_at(tests: Seq<bool>, t: int) -> bool {
    0 <= t < tests.len() && tests[t]
}

/// Whether a pixel whose escape tests are `tests` has escaped by iteration
/// `t`: some test at an iteration `s <= t` found `|z|^2 > 4`.
pub open spec fn escaped_by(tests: Seq<bool>, t: int) -> bool
    decreases t + 1,
{
    if t < 0 {
        false
    } else if test_at(tests, t) {
        true
    } else {
        escaped_by(tests, t - 1)
    }
}

/// The iteration count of a single pixel after the first `t` iterations of
/// the scalar escape-time loop: it is set, once, to the index of the
/// iteration whose test first finds the orbit outside radius 2, and stays 0
/// while no test has.
pub open spec fn count_after(tests: Seq<bool>, t: int) -> int
    decreases t,
{
    if t <= 0 {
        0
    } else if !escaped_by(tests, t - 2) && test_at(tests, t - 1) {
        t - 1
    } else {
        count_after(tests, t - 1)
    }
}

/// The iteration count that the scalar loop gives a pixel whose escape
/// tests are `tests`, with an iteration budget of `n`.
pub open spec fn scalar_count(tests: Seq<bool>, n: int) -> int {
    count_after(tests, n)
}

/// A pixel has escaped by iteration `t` exactly when some test up to `t`
/// found it outside.
pub proof fn lemma_escaped_by_exists(tests: Seq<bool>, t: int)
    ensures
        escaped_by(tests, t) <==> exists|s: int| 0 <= s <= t && test_at(tests, s),
    decreases t + 1,
{
    if t >= 0 {
        lemma_escaped_by_exists(tests, t - 1);
        if exists|s: int| 0 <= s <= t && test_at(tests, s) {
            let s = choose|s: int| 0 <= s <= t && test_at(tests, s);
            if s < t {
                assert(0 <= s <= t - 1 && test_at(tests, s));
            }
        }
        if exists|s: int| 0 <= s <= t - 1 && test_at(tests, s) {
            let s = choose|s: int| 0 <= s <= t - 1 && test_at(tests, s);
            assert(0 <= s <= t && test_at(tests, s));
        }
    }
}

/// A pixel that no test below the budget finds outside gets count 0.
pub proof fn lemma_scalar_count_never_escapes(tests: Seq<bool>, n: int)
    requires
        forall|e: int| 0 <= e < n ==> !test_at(tests, e),
    ensures
        scalar_count(tests, n) == 0,
    decreases n,
{
    if n > 0 {
        lemma_scalar_count_never_escapes(tests, n - 1);
    }
}

/// A pixel whose first escape test to succeed is that of iteration `e`,
/// below the budget, gets count `e`.
pub proof fn lemma_scalar_count_first_escape(tests: Seq<bool>, n: int, e: int)
    requires
        0 <= e < n,
        test_at(tests, e),
        forall|d: int| 0 <= d < e ==> !test_at(tests, d),
    ensures
        scalar_count(tests, n) == e,
{
    lemma_escaped_by_exists(tests, e - 1);
    assert(count_after(tests, e + 1) == e);
    assert(escaped_by(tests, e));
    lemma_escaped_frozen(tests, e, n);
}

/// The count of a lane after an iteration: the iteration's index `step`
/// if its test finds the lane outside for the first time, else unchanged.
pub open spec fn next_count(escaped: bool, over: bool, count: u32, step: u32) -> u32 {
    if !escaped && over {
        step
    } else {
        count
    }
}

/// A count never reaches the number of iterations run, except that it is
/// zero before any has run.
pub proof fn lemma_count_below(tests: Seq<bool>, t: int)
    ensures
        0 <= count_after(tests, t),
        t >= 1 ==> count_after(tests, t) < t,
    decreases t,
{
    if t > 0 {
        lemma_count_below(tests, t - 1);
    }
}

/// Once a pixel has escaped, later tests change neither its escape flag nor
/// its count.
pub proof fn lemma_escaped_frozen(tests: Seq<bool>, t: int, n: int)
    requires
        0 <= t < n,
        escaped_by(tests, t),
    ensures
        escaped_by(tests, n - 1),
        count_after(tests, n) == count_after(tests, t + 1),
    decreases n - t,
{
    if n - 1 > t {
        lemma_escaped_frozen(tests, t, n - 1);
    }
}

/// Escape flags and counts depend only on the tests made so far.
pub proof fn lemma_prefix_agrees(a: Seq<bool>, b: Seq<bool>, t: int)
    requires
        0 <= t <= a.len(),
        t <= b.len(),
        a.subrange(0, t) == b.subrange(0, t),
    ensures
        escaped_by(a, t - 1) == escaped_by(b, t - 1),
        escaped_by(a, t - 2) == escaped_by(b, t - 2),
        count_after(a, t) == count_after(b, t),
    decreases t,
{
    if t > 0 {
        assert(a[t - 1] == a.subrange(0, t)[t - 1]);
        assert(b[t - 1] == b.subrange(0, t)[t - 1]);
        assert(a.subrange(0, t - 1) == a.subrange(0, t).subrange(0, t - 1));
        assert(b.subrange(0, t - 1) == b.subrange(0, t).subrange(0, t - 1));
        lemma_prefix_agrees(a, b, t - 1);
    }
}

/// The escape bookkeeping of one group of `LANES` adjacent pixels: which
/// lanes have escaped, the count of each, and how many iterations have run.
/// The complex arithmetic that produces each iteration's escape tests is
/// done by the caller; the group decides what to record and when to stop.
pub struct LaneGroup {
    escaped: Vec<bool>,
    counts: Vec<u32>,
    step: u32,
    budget: u32,
    done: bool,
    tests: Ghost<Seq<Seq<bool>>>,
}

impl LaneGroup {
    /// The group's fields agree with the tests observed so far.
    pub closed spec fn wf(self) -> bool {
        &&& self.escaped@.len() == LANES
        &&& self.counts@.len() == LANES
        &&& self.tests@.len() == LANES
        &&& self.step <= self.budget
        &&& forall|j: int|
            0 <= j < LANES ==> {
                &&& (#[trigger] self.tests@[j]).len() == self.step
                &&& self.escaped@[j] == escaped_by(self.tests@[j], self.step - 1)
                &&& self.counts@[j] == count_after(self.tests@[j], self.step as int)
            }
        &&& self.done == (self.step == self.budget || forall|j: int|
            0 <= j < LANES ==> #[trigger] self.escaped@[j])
    }

    /// The escape tests observed so far, one sequence per lane, indexed by
    /// iteration.
    pub closed spec fn observed(self) -> Seq<Seq<bool>> {
        self.tests@
    }

    /// The iteration budget the group was made with.
    pub closed spec fn spec_budget(self) -> int {
        self.budget as int
    }

    /// The number of iterations observed so far.
    pub closed spec fn spec_step(self) -> int {
        self.step as int
    }

    /// The count recorded for each lane.
    pub closed spec fn spec_counts(self) -> Seq<u32> {
        self.counts@
    }

    /// Whether the group has stopped: its budget is spent or every lane has
    /// escaped.
    pub closed spec fn spec_finished(self) -> bool {
        self.done
    }

    /// What holds of every well-formed group, in terms of its observations.
    pub open spec fn consistent(self) -> bool {
        &&& self.wf()
        &&& self.observed().len() == LANES
        &&& 0 <= self.spec_step() <= self.spec_budget()
        &&& forall|j: int|
            0 <= j < LANES ==> {
                &&& (#[trigger] self.observed()[j]).len() == self.spec_step()
                &&& self.spec_counts()[j] as int == count_after(
                    self.observed()[j],
                    self.spec_step(),
                )
            }
        &&& self.spec_counts().len() == LANES
        &&& self.spec_finished() == (self.spec_step() == self.spec_budget() || forall|j: int|
            0 <= j < LANES ==> escaped_by(#[trigger] self.observed()[j], self.spec_step() - 1))
    }

    /// A well-formed group is consistent with its observations.
    pub proof fn lemma_consistent(self)
        requires
            self.wf(),
        ensures
            self.consistent(),
    {
        assert forall|j: int| 0 <= j < LANES implies (#[trigger] self.escaped@[j])
            == escaped_by(self.tests@[j], self.step - 1) by {
            assert(self.tests@[j].len() == self.step);
        }
    }

    /// A group with nothing observed yet and an iteration budget of `budget`.
    pub fn new(budget: u32) -> (g: LaneGroup)
        ensures
            g.consistent(),
            g.spec_budget() == budget,
            g.spec_step() == 0,
            g.spec_counts() == Seq::new(LANES as nat, |j: int| 0u32),
            g.spec_finished() == (budget == 0),
    {
        let g = LaneGroup {
            escaped: vec![false; LANES],
            counts: vec![0u32; LANES],
            step: 0,
            budget,
            done: budget == 0,
            tests: Ghost(Seq::new(LANES as nat, |j: int| Seq::<bool>::empty())),
        };
        proof {
            assert forall|j: int| 0 <= j < LANES implies {
                &&& !g.escaped@[j]
                &&& g.counts@[j] == 0
                &&& (#[trigger] g.tests@[j]).len() == 0
                &&& !escaped_by(g.tests@[j], -1)
                &&& count_after(g.tests@[j], 0) == 0
            } by {}
            // A lane that has not escaped: the group is not finished.
            assert(!g.escaped@[0]);
            g.lemma_consistent();
        }
        g
    }

    /// Records the escape tests of the next iteration, `over[j]` being
    /// whether lane `j`'s `|z|^2` exceeds 4 before this iteration's update.
    /// A lane whose test finds it outside for the first time takes the index
    /// of this iteration as its count, once; every other lane keeps its
    /// count. The group stops when every lane has escaped or the budget is
    /// spent. Returns whether the caller should update the orbits and
    /// observe another iteration. A stopped group is left as it is.
    pub fn observe(&mut self, over: [bool; LANES]) -> (go_on: bool)
        requires
            old(self).wf(),
        ensures
            final(self).consistent(),
            final(self).spec_budget() == old(self).spec_budget(),
            old(self).spec_finished() ==> *final(self) == *old(self),
            !old(self).spec_finished() ==> {
                &&& final(self).spec_step() == old(self).spec_step() + 1
                &&& final(self).observed() == Seq::new(
                    LANES as nat,
                    |j: int| old(self).observed()[j].push(over@[j]),
                )
            },
            go_on == !final(self).spec_finished(),
    {
        if self.done {
            proof {
                self.lemma_consistent();
            }
            return false;
        }
        let ghost old_tests = self.tests@;
        let ghost new_tests = Seq::new(LANES as nat, |j: int| old_tests[j].push(over@[j]));
        let ghost t = self.step as int;
        proof {
            assert forall|j: int| 0 <= j < LANES implies {
                &&& (#[trigger] new_tests[j]).len() == t + 1
                &&& escaped_by(new_tests[j], t) == (over@[j] || self.escaped@[j])
                &&& count_after(new_tests[j], t + 1) == (if !self.escaped@[j] && over@[j] {
                    t
                } else {
                    self.counts@[j] as int
                })
            } by {
                assert(old_tests[j].len() == t);
                assert(new_tests[j].subrange(0, t) =~= old_tests[j]);
                assert(old_tests[j].subrange(0, t) =~= old_tests[j]);
                lemma_prefix_agrees(new_tests[j], old_tests[j], t);
                assert(test_at(new_tests[j], t) == over@[j]);
            }
        }
        let ghost esc0 = self.escaped@;
        let ghost cnt0 = self.counts@;
        let ghost step0 = self.step;
        let mut all = true;
        let mut j: usize = 0;
        while j < LANES
            invariant
                0 <= j <= LANES,
                esc0.len() == LANES,
                cnt0.len() == LANES,
                self.escaped@.len() == LANES,
                self.counts@.len() == LANES,
                self.step == step0,
                self.budget == old(self).budget,
                self.done == old(self).done,
                forall|k: int|
                    0 <= k < j ==> #[trigger] self.escaped@[k] == (over@[k] || esc0[k]),
                forall|k: int|
                    0 <= k < j ==> #[trigger] self.counts@[k] == next_count(
                        esc0[k],
                        over@[k],
                        cnt0[k],
                        step0,
                    ),
                forall|k: int| j <= k < LANES ==> #[trigger] self.escaped@[k] == esc0[k],
                forall|k: int| j <= k < LANES ==> #[trigger] self.counts@[k] == cnt0[k],
                all == forall|k: int| 0 <= k < j ==> #[trigger] self.escaped@[k],
            decreases LANES - j,
        {
            let ghost prev = self.escaped@;
            let ghost prev_counts = self.counts@;
            let fresh = !self.escaped[j] && over[j];
            if fresh {
                self.escaped[j] = true;
                self.counts[j] = self.step;
            }
            let e = self.escaped[j];
            proof {
                assert(prev[j as int] == esc0[j as int]);
                if fresh {
                    assert(self.escaped@ == prev.update(j as int, true));
                    assert(self.counts@ == prev_counts.update(j as int, step0));
                } else {
                    assert(self.escaped@ == prev);
                    assert(self.counts@ == prev_counts);
                }
                if !(all && e) {
                    if !e {
                        assert(!self.escaped@[j as int]);
                    } else {
                        let k = choose|k: int| 0 <= k < j && !prev[k];
                        assert(!self.escaped@[k]);
                    }
                }
            }
            all = all && e;
            j = j + 1;
        }
        self.tests = Ghost(new_tests);
        self.step = self.step + 1;
        self.done = all || self.step == self.budget;
        proof {
            self.lemma_consistent();
        }
        !self.done
    }

    /// The count recorded for lane `j`: below the budget whenever the budget
    /// is not zero.
    pub fn count(&self, j: usize) -> (r: u32)
        requires
            self.wf(),
            j < LANES,
        ensures
            r == self.spec_counts()[j as int],
            r as int == count_after(self.observed()[j as int], self.spec_step()),
            self.spec_budget() > 0 ==> r < self.spec_budget(),
    {
        proof {
            self.lemma_consistent();
            lemma_count_below(self.tests@[j as int], self.step as int);
        }
        self.counts[j]
    }

    /// The iteration budget the group was made with.
    pub fn budget(&self) -> (r: u32)
        ensures
            r == self.spec_budget(),
    {
        self.budget
    }

    /// Whether the group has stopped.
    pub fn is_finished(&self) -> (r: bool)
        ensures
            r == self.spec_finished(),
    {
        self.done
    }
}

/// Evaluating pixels together in a group gives each the count it gets on its
/// own: once a group has stopped, the count of every lane equals the scalar
/// count of that lane's pixel, for every continuation of the tests the group
/// observed (the group may stop before a lane's own budget is spent only
/// when every lane has escaped, and after escape the tests no longer matter).
pub proof fn lemma_group_matches_scalar(g: LaneGroup, tests: Seq<Seq<bool>>)
    requires
        g.wf(),
        g.spec_finished(),
        tests.len() == LANES,
        forall|j: int|
            0 <= j < LANES ==> (#[trigger] tests[j]).len() >= g.spec_step() && tests[j].subrange(
                0,
                g.spec_step(),
            ) == g.observed()[j],
    ensures
        forall|j: int|
            0 <= j < LANES ==> g.spec_counts()[j] as int == scalar_count(
                #[trigger] tests[j],
                g.spec_budget(),
            ),
{
    g.lemma_consistent();
    let t = g.spec_step();
    assert forall|j: int| 0 <= j < LANES implies g.spec_counts()[j] as int == scalar_count(
        #[trigger] tests[j],
        g.spec_budget(),
    ) by {
        let o = g.observed()[j];
        assert(o.len() == t);
        assert(o.subrange(0, t) =~= o);
        lemma_prefix_agrees(tests[j], o, t);
        if t < g.spec_budget() {
            assert(escaped_by(o, t - 1));
            lemma_escaped_frozen(tests[j], t - 1, g.spec_budget());
        }
    }
}

} // verus!
