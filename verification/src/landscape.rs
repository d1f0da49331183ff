use vstd::prelude::*;

use crate::color::Color;
use crate::grid::Table;
use crate::rng::{fresh_rng, random_below};

verus! {

/// Number of occupied (true) cells in an occupancy sequence.
pub open spec fn count_occupied(s: Seq<bool>) -> nat
    decreases s.len(),
{
    if s.len() == 0 {
        0
    } else {
        count_occupied(s.drop_last()) + if s.last() {
            1nat
        } else {
            0nat
        }
    }
}

/// Number of free (false) cells in an occupancy sequence.
pub open spec fn count_free(s: Seq<bool>) -> nat
    decreases s.len(),
{
    if s.len() == 0 {
        0
    } else {
        count_free(s.drop_last()) + if s.last() {
            0nat
        } else {
            1nat
        }
    }
}

/// Every cell is either occupied or free, so the two counts add up to the
/// number of cells.
pub proof fn lemma_counts_sum(s: Seq<bool>)
    ensures
        count_occupied(s) + count_free(s) == s.len(),
    decreases s.len(),
{
    if s.len() > 0 {
        lemma_counts_sum(s.drop_last());
    }
}

/// Extending a prefix by one cell raises exactly one of the two counts by
/// one, according to the cell's value.
pub proof fn lemma_count_take_step(s: Seq<bool>, i: int)
    requires
        0 <= i < s.len(),
    ensures
        count_free(s.take(i + 1)) == count_free(s.take(i)) + if s[i] {
            0nat
        } else {
            1nat
        },
        count_occupied(s.take(i + 1)) == count_occupied(s.take(i)) + if s[i] {
            1nat
        } else {
            0nat
        },
{
    assert(s.take(i + 1).drop_last() =~= s.take(i));
    assert(s.take(i + 1).last() == s[i]);
}

/// A grid with no occupied cell has occupied count zero and free count
/// equal to its size.
pub proof fn lemma_count_all_free(s: Seq<bool>)
    requires
        forall|i: int| 0 <= i < s.len() ==> s[i] == false,
    ensures
        count_occupied(s) == 0,
        count_free(s) == s.len(),
    decreases s.len(),
{
    if s.len() > 0 {
        lemma_count_all_free(s.drop_last());
    }
}

/// Occupying one previously free cell raises the occupied count by exactly
/// one and lowers the free count by exactly one.
pub proof fn lemma_count_update_true(s: Seq<bool>, i: int)
    requires
        0 <= i < s.len(),
        s[i] == false,
    ensures
        count_occupied(s.update(i, true)) == count_occupied(s) + 1,
        count_free(s) == count_free(s.update(i, true)) + 1,
    decreases s.len(),
{
    let u = s.update(i, true);
    if i == s.len() - 1 {
        assert(u.drop_last() =~= s.drop_last());
    } else {
        assert(u.drop_last() =~= s.drop_last().update(i, true));
        lemma_count_update_true(s.drop_last(), i);
    }
}

/// One seed step: `next` is `prev` with exactly one previously free cell
/// now occupied, and nothing else changed.
pub open spec fn seed_step(prev: Seq<bool>, next: Seq<bool>) -> bool {
    exists|i: int| 0 <= i < prev.len() && prev[i] == false && next == prev.update(i, true)
}

/// Seeding uniqueness, over a whole run: `runs` records the occupancy grid
/// before the first seed step and after each one. If the grid starts with
/// every cell free and each step claims one cell that was still free in
/// the grid before it, then after N steps exactly N cells are occupied: no
/// step claims a cell twice.
pub proof fn lemma_seeding_uniqueness(runs: Seq<Seq<bool>>)
    requires
        runs.len() >= 1,
        forall|i: int| 0 <= i < runs[0].len() ==> runs[0][i] == false,
        forall|k: int| 0 <= k < runs.len() - 1 ==> #[trigger] seed_step(runs[k], runs[k + 1]),
    ensures
        count_occupied(runs.last()) == runs.len() - 1,
    decreases runs.len(),
{
    if runs.len() == 1 {
        lemma_count_all_free(runs[0]);
    } else {
        let prefix = runs.drop_last();
        assert forall|k: int| 0 <= k < prefix.len() - 1 implies #[trigger] seed_step(
            prefix[k],
            prefix[k + 1],
        ) by {
            assert(seed_step(runs[k], runs[k + 1]));
        }
        lemma_seeding_uniqueness(prefix);
        let k = runs.len() - 2;
        assert(prefix.last() == runs[k]);
        assert(seed_step(runs[k], runs[k + 1]));
        let i = choose|i: int|
            0 <= i < runs[k].len() && runs[k][i] == false && runs[k + 1] == runs[k].update(i, true);
        lemma_count_update_true(runs[k], i);
    }
}

/// Counts the free cells of an occupancy grid.
#[verifier::loop_isolation(false)]
fn count_free_cells(t: &Table<bool>) -> (n: usize)
    ensures
        n == count_free(t@),
{
    let len = t.len();
    let mut free: usize = 0;
    let mut i: usize = 0;
    while i < len
        invariant
            i <= len,
            free <= i,
            free == count_free(t@.take(i as int)),
        decreases len - i,
    {
        proof {
            lemma_count_take_step(t@, i as int);
        }
        if !*t.get(i) {
            free = free + 1;
        }
        i = i + 1;
    }
    proof {
        assert(t@.take(len as int) =~= t@);
    }
    free
}

/// Finds the `r`-th free cell of an occupancy grid, counting from zero in
/// linear order.
#[verifier::loop_isolation(false)]
fn find_free(t: &Table<bool>, r: usize) -> (idx: usize)
    requires
        r < count_free(t@),
    ensures
        idx < t@.len(),
        t@[idx as int] == false,
        count_free(t@.take(idx as int)) == r,
{
    let len = t.len();
    let mut k: usize = 0;
    let mut i: usize = 0;
    while i < len
        invariant
            i <= len,
            k <= r,
            k == count_free(t@.take(i as int)),
        decreases len - i,
    {
        proof {
            lemma_count_take_step(t@, i as int);
        }
        if !*t.get(i) {
            if k == r {
                return i;
            }
            k = k + 1;
        }
        i = i + 1;
    }
    proof {
        assert(t@.take(len as int) =~= t@);
    }
    unreached()
}

/// The three actions the landscape reacts to: double the grid's
/// resolution, seed one random free cell, or advance one generation.
#[derive(Clone, Copy, PartialEq, Eq, Structural, Debug)]
pub enum LandscapeTick {
    Scale,
    Tick,
    Next,
}

/// The seed landscape: an occupancy grid grown and filled cell by cell,
/// plus the color its occupied cells are rendered with and the random
/// source that picks the cells. Its view is the occupancy sequence.
pub struct SeedLandscape {
    field: Table<bool>,
    random: rand::rngs::ThreadRng,
    color: Color,
}

impl View for SeedLandscape {
    type V = Seq<bool>;

    closed spec fn view(&self) -> Seq<bool> {
        self.field@
    }
}

impl SeedLandscape {
    pub closed spec fn spec_side(&self) -> usize {
        self.field.spec_side()
    }

    /// The side of the occupancy grid.
    #[verifier::when_used_as_spec(spec_side)]
    pub fn side(&self) -> (s: usize)
        ensures
            s == self.spec_side(),
    {
        self.field.side()
    }

    /// The color that occupied cells render to.
    pub closed spec fn fill_color(&self) -> Color {
        self.color
    }

    /// The size invariant, mirrored from the occupancy grid.
    pub open spec fn wf(&self) -> bool {
        &&& self@.len() == self.spec_side() * self.spec_side()
        &&& self.spec_side() * self.spec_side() <= usize::MAX
    }

    /// A fresh landscape: a `size * size` occupancy grid with every cell
    /// free, rendered in white.
    pub fn new(size: u32) -> (l: SeedLandscape)
        requires
            (size as int) * (size as int) <= usize::MAX,
        ensures
            l.wf(),
            l.spec_side() == size as usize,
            l@.len() == (size as int) * (size as int),
            forall|i: int| 0 <= i < l@.len() ==> l@[i] == false,
            count_occupied(l@) == 0,
            l.fill_color() == Color::spec_white(),
    {
        let field = Table::new(false, size as usize);
        proof {
            lemma_count_all_free(field@);
        }
        SeedLandscape { field, random: fresh_rng(), color: Color::white() }
    }

    /// The occupancy grid, for inspection.
    pub fn occupancy(&self) -> (t: &Table<bool>)
        ensures
            t@ == self@,
            t.spec_side() == self.spec_side(),
            self.wf() ==> t.wf(),
    {
        &self.field
    }

    /// Applies one action.
    ///
    /// Scale doubles the grid's resolution: each cell fans out into a 2x2
    /// block carrying its value. Tick seeds one cell: it draws a free cell
    /// uniformly at random and occupies it; on a fully occupied grid it
    /// changes nothing, so it always returns. Next advances one
    /// generation, which in this landscape has no effect yet; the action
    /// stays part of the surface as an extension point.
    pub fn propagate(&mut self, action: LandscapeTick)
        requires
            old(self).wf(),
            (action is Scale) ==> 4 * old(self).spec_side() * old(self).spec_side()
                <= usize::MAX,
        ensures
            final(self).wf(),
            final(self).fill_color() == old(self).fill_color(),
            match action {
                LandscapeTick::Scale => {
                    &&& final(self).spec_side() == 2 * old(self).spec_side()
                    &&& final(self)@.len() == 4 * old(self)@.len()
                    &&& forall|x: int, y: int|
                        0 <= x < old(self).spec_side() && 0 <= y < old(self).spec_side() ==> {
                            let v = old(self)@[#[trigger] crate::grid::lin(
                                x,
                                y,
                                old(self).spec_side() as int,
                            )];
                            let ns = 2 * old(self).spec_side() as int;
                            &&& final(self)@[crate::grid::lin(2 * x, 2 * y, ns)] == v
                            &&& final(self)@[crate::grid::lin(2 * x + 1, 2 * y, ns)] == v
                            &&& final(self)@[crate::grid::lin(2 * x, 2 * y + 1, ns)] == v
                            &&& final(self)@[crate::grid::lin(2 * x + 1, 2 * y + 1, ns)] == v
                        }
                },
                LandscapeTick::Tick => {
                    &&& final(self).spec_side() == old(self).spec_side()
                    &&& (count_free(old(self)@) == 0 ==> final(self)@ == old(self)@)
                    &&& (count_free(old(self)@) > 0 ==> seed_step(old(self)@, final(self)@))
                    &&& count_occupied(final(self)@) == count_occupied(old(self)@) + (
                    if count_free(old(self)@) == 0 {
                        0nat
                    } else {
                        1nat
                    })
                    &&& count_free(final(self)@) + (
                    if count_free(old(self)@) == 0 {
                        0nat
                    } else {
                        1nat
                    }) == count_free(old(self)@)
                },
                LandscapeTick::Next => {
                    &&& final(self).spec_side() == old(self).spec_side()
                    &&& final(self)@ == old(self)@
                },
            },
    {
        match action {
            LandscapeTick::Scale => {
                self.field.grow();
            },
            LandscapeTick::Tick => {
                let free = count_free_cells(&self.field);
                if free > 0 {
                    let r = random_below(&mut self.random, free);
                    let idx = find_free(&self.field, r);
                    proof {
                        lemma_count_update_true(self.field@, idx as int);
                    }
                    self.field.set(idx, true);
                }
            },
            LandscapeTick::Next => {},
        }
    }

    /// Renders the occupancy grid onto `display`, which must have the same
    /// side: every occupied cell becomes the fill color, every free cell
    /// the background color, black.
    pub fn render(&self, display: &mut Table<Color>)
        requires
            self.wf(),
            old(display).wf(),
            old(display).spec_side() == self.spec_side(),
        ensures
            final(display).wf(),
            final(display).spec_side() == old(display).spec_side(),
            final(display).spec_default() == old(display).spec_default(),
            final(display)@.len() == old(display)@.len(),
            forall|i: int|
                0 <= i < self@.len() ==> final(display)@[i] == (if self@[i] {
                    self.fill_color()
                } else {
                    Color::spec_black()
                }),
    {
        let c = self.color;
        let f = |occupied: bool| -> (col: Color)
            ensures
                col == (if occupied {
                    c
                } else {
                    Color::spec_black()
                }),
            {
                if occupied {
                    c
                } else {
                    Color::black()
                }
            };
        self.field.convert_copy(display, f);
        proof {
            assert forall|i: int| 0 <= i < self@.len() implies display@[i] == (if self@[i] {
                self.fill_color()
            } else {
                Color::spec_black()
            }) by {
                assert(call_ensures(f, (self@[i],), display@[i]));
            }
        }
    }
}

} // verus!
