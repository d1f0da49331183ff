use vstd::prelude::*;

use crate::color::Color;
use vstd::pervasive::VecAdditionalExecFns;

verus! {

/// Linear address of the cell in column `x` of row `y` of a square grid
/// whose rows are `side` cells wide.
pub open spec fn lin(x: int, y: int, side: int) -> int {
    x + y * side
}

/// A cell address computed from in-range coordinates is itself in range.
pub proof fn lemma_lin_bounds(x: int, y: int, s: int)
    requires
        0 <= x < s,
        0 <= y < s,
    ensures
        0 <= y * s <= lin(x, y, s) < s * s,
{
    assert(0 <= y * s && x + y * s < s * s) by (nonlinear_arith)
        requires
            0 <= x < s,
            0 <= y < s,
    ;
}

/// Distinct in-range coordinate pairs have distinct linear addresses.
pub proof fn lemma_lin_injective(s: int)
    ensures
        forall|x1: int, y1: int, x2: int, y2: int|
            0 <= x1 < s && 0 <= y1 < s && 0 <= x2 < s && 0 <= y2 < s
                && #[trigger] lin(x1, y1, s) == #[trigger] lin(x2, y2, s) ==> x1 == x2 && y1
                == y2,
{
    assert forall|x1: int, y1: int, x2: int, y2: int|
        0 <= x1 < s && 0 <= y1 < s && 0 <= x2 < s && 0 <= y2 < s && #[trigger] lin(x1, y1, s)
            == #[trigger] lin(x2, y2, s) implies x1 == x2 && y1 == y2 by {
        assert(x1 + y1 * s == x2 + y2 * s ==> x1 == x2 && y1 == y2) by (nonlinear_arith)
            requires
                0 <= x1 < s,
                0 <= y1 < s,
                0 <= x2 < s,
                0 <= y2 < s,
        ;
    }
}

/// Every in-range coordinate pair addresses a cell of the grid.
pub proof fn lemma_lin_bounds_all(s: int)
    ensures
        forall|x: int, y: int|
            0 <= x < s && 0 <= y < s ==> 0 <= #[trigger] lin(x, y, s) < s * s,
{
    assert forall|x: int, y: int| 0 <= x < s && 0 <= y < s implies 0 <= #[trigger] lin(x, y, s)
        < s * s by {
        lemma_lin_bounds(x, y, s);
    }
}

/// A square grid of `side * side` cells of type `T`, stored row-major and
/// addressed either linearly or by `(x, y)` coordinates, where the cell at
/// `(x, y)` sits at linear index `x + y * side`.
///
/// The grid remembers the fill value it was created with and reuses it as
/// the default when it grows.
pub struct Table<T: Copy> {
    default: T,
    data: Vec<T>,
    side: usize,
}

impl<T: Copy> View for Table<T> {
    type V = Seq<T>;

    closed spec fn view(&self) -> Seq<T> {
        self.data@
    }
}

impl<T: Copy> Table<T> {
    pub closed spec fn spec_side(&self) -> usize {
        self.side
    }

    /// The width (= height) of the grid, in cells.
    #[verifier::when_used_as_spec(spec_side)]
    pub fn side(&self) -> (s: usize)
        ensures
            s == self.spec_side(),
    {
        self.side
    }

    /// The fill value that empty cells are created with.
    pub closed spec fn spec_default(&self) -> T {
        self.default
    }

    /// The size invariant: the cell sequence always holds exactly
    /// `side * side` values.
    pub open spec fn wf(&self) -> bool {
        &&& self@.len() == self.spec_side() * self.spec_side()
        &&& self.spec_side() * self.spec_side() <= usize::MAX
    }

    /// Allocates a `side * side` grid with every cell set to `fill`.
    pub fn new(fill: T, side: usize) -> (t: Table<T>)
        requires
            side * side <= usize::MAX,
        ensures
            t.wf(),
            t.spec_side() == side,
            t.spec_default() == fill,
            t@.len() == side * side,
            forall|i: int| 0 <= i < t@.len() ==> t@[i] == fill,
    {
        let count = side * side;
        let mut data: Vec<T> = Vec::new();
        let mut i: usize = 0;
        while i < count
            invariant
                i <= count,
                count == side * side,
                data@.len() == i,
                forall|j: int| 0 <= j < i ==> data@[j] == fill,
            decreases count - i,
        {
            data.push(fill);
            i = i + 1;
        }
        Table { default: fill, data, side }
    }

    /// The number of cells, `side * side`.
    pub fn len(&self) -> (n: usize)
        ensures
            n == self@.len(),
    {
        self.data.len()
    }

    /// Reads the cell at linear index `index`.
    pub fn get(&self, index: usize) -> (v: &T)
        requires
            index < self@.len(),
        ensures
            *v == self@[index as int],
    {
        &self.data[index]
    }

    /// Reads the cell at coordinates `(x, y)`.
    pub fn get_dim(&self, x: usize, y: usize) -> (v: &T)
        requires
            self.wf(),
            x < self.spec_side(),
            y < self.spec_side(),
        ensures
            *v == self@[lin(x as int, y as int, self.spec_side() as int)],
    {
        proof {
            lemma_lin_bounds(x as int, y as int, self.spec_side() as int);
        }
        self.get(x + y * self.side)
    }

    /// Overwrites the cell at linear index `index` with `value`.
    pub fn set(&mut self, index: usize, value: T)
        requires
            index < old(self)@.len(),
        ensures
            final(self)@ == old(self)@.update(index as int, value),
            final(self).spec_side() == old(self).spec_side(),
            final(self).spec_default() == old(self).spec_default(),
            old(self).wf() ==> final(self).wf(),
    {
        self.data.set(index, value);
    }

    /// Overwrites the cell at coordinates `(x, y)` with `value`.
    pub fn set_dim(&mut self, x: usize, y: usize, value: T)
        requires
            old(self).wf(),
            x < old(self).spec_side(),
            y < old(self).spec_side(),
        ensures
            final(self)@ == old(self)@.update(
                lin(x as int, y as int, old(self).spec_side() as int),
                value,
            ),
            final(self).spec_side() == old(self).spec_side(),
            final(self).spec_default() == old(self).spec_default(),
            final(self).wf(),
    {
        proof {
            lemma_lin_bounds(x as int, y as int, self.spec_side() as int);
        }
        let index = x + y * self.side;
        self.set(index, value);
    }

    /// Doubles the grid's side in place. Every old cell `(x, y)` fans out
    /// into the 2x2 block of new cells `(2x, 2y)`, `(2x+1, 2y)`,
    /// `(2x, 2y+1)`, `(2x+1, 2y+1)`, all carrying the old cell's value: a
    /// nearest-neighbor upscale. The new storage is built apart from the
    /// old one and swapped in whole, so no cell is overwritten while it is
    /// still being read.
    #[verifier::loop_isolation(false)]
    pub fn grow(&mut self)
        requires
            old(self).wf(),
            4 * old(self).spec_side() * old(self).spec_side() <= usize::MAX,
        ensures
            final(self).wf(),
            final(self).spec_side() == 2 * old(self).spec_side(),
            final(self).spec_default() == old(self).spec_default(),
            final(self)@.len() == 4 * old(self)@.len(),
            forall|x: int, y: int|
                0 <= x < old(self).spec_side() && 0 <= y < old(self).spec_side() ==> {
                    let v = old(self)@[#[trigger] lin(x, y, old(self).spec_side() as int)];
                    let ns = 2 * old(self).spec_side() as int;
                    &&& final(self)@[lin(2 * x, 2 * y, ns)] == v
                    &&& final(self)@[lin(2 * x + 1, 2 * y, ns)] == v
                    &&& final(self)@[lin(2 * x, 2 * y + 1, ns)] == v
                    &&& final(self)@[lin(2 * x + 1, 2 * y + 1, ns)] == v
                },
            forall|nx: int, ny: int|
                0 <= nx < 2 * old(self).spec_side() && 0 <= ny < 2 * old(self).spec_side()
                    ==> final(self)@[#[trigger] lin(nx, ny, 2 * old(self).spec_side() as int)]
                    == old(self)@[lin(nx / 2, ny / 2, old(self).spec_side() as int)],
    {
        let s = self.side;
        proof {
            let si = s as int;
            assert((si >= 1 ==> 2 * si <= 4 * si * si) && (2 * si) * (2 * si) == 4 * (si * si)
                && 4 * (si * si) == 4 * si * si)
                by (nonlinear_arith)
                requires
                    si >= 0,
            ;
        }
        let new_side = s * 2;
        let mut temp = Table::new(self.default, new_side);
        let ghost ns = new_side as int;
        let mut x: usize = 0;
        while x < s
            invariant
                x <= s,
                temp.wf(),
                temp.spec_side() == new_side,
                temp.spec_default() == self.spec_default(),
                temp@.len() == new_side * new_side,
                forall|ox: int, oy: int|
                    0 <= ox < x && 0 <= oy < s ==> {
                        let v = self@[#[trigger] lin(ox, oy, s as int)];
                        &&& temp@[lin(2 * ox, 2 * oy, ns)] == v
                        &&& temp@[lin(2 * ox + 1, 2 * oy, ns)] == v
                        &&& temp@[lin(2 * ox, 2 * oy + 1, ns)] == v
                        &&& temp@[lin(2 * ox + 1, 2 * oy + 1, ns)] == v
                    },
            decreases s - x,
        {
            let mut y: usize = 0;
            while y < s
                invariant
                    x < s,
                    y <= s,
                    temp.wf(),
                    temp.spec_side() == new_side,
                    temp.spec_default() == self.spec_default(),
                    temp@.len() == new_side * new_side,
                    forall|ox: int, oy: int|
                        0 <= ox < s && 0 <= oy < s && (ox < x || (ox == x && oy < y)) ==> {
                            let v = self@[#[trigger] lin(ox, oy, s as int)];
                            &&& temp@[lin(2 * ox, 2 * oy, ns)] == v
                            &&& temp@[lin(2 * ox + 1, 2 * oy, ns)] == v
                            &&& temp@[lin(2 * ox, 2 * oy + 1, ns)] == v
                            &&& temp@[lin(2 * ox + 1, 2 * oy + 1, ns)] == v
                        },
                decreases s - y,
            {
                let nx = x * 2;
                let ny = y * 2;
                proof {
                    lemma_lin_bounds(x as int, y as int, s as int);
                    lemma_lin_injective(ns);
                    lemma_lin_bounds_all(ns);
                }
                let val = *self.get_dim(x, y);
                temp.set_dim(nx, ny, val);
                temp.set_dim(nx + 1, ny, val);
                temp.set_dim(nx, ny + 1, val);
                temp.set_dim(nx + 1, ny + 1, val);
                y = y + 1;
            }
            x = x + 1;
        }
        self.data = temp.data;
        self.side = new_side;
        proof {
            lemma_grow_cell_origin(old(self)@, self@, s as int);
        }
    }

    /// The cells in linear order, as a snapshot copy.
    #[verifier::loop_isolation(false)]
    pub fn iter(&self) -> (r: Vec<T>)
        ensures
            r@ == self@,
    {
        let n = self.data.len();
        let mut r: Vec<T> = Vec::new();
        let mut i: usize = 0;
        while i < n
            invariant
                i <= n,
                r@.len() == i,
                forall|j: int| 0 <= j < i ==> r@[j] == self@[j],
            decreases n - i,
        {
            r.push(*self.get(i));
            i = i + 1;
        }
        proof {
            assert(r@ =~= self@);
        }
        r
    }

    /// Writes `f` of every cell of `self`, in linear order, into the cell
    /// of `target` with the same linear index. The two grids must have the
    /// same side, so the same cell count: a call on grids of different
    /// sides is refused.
    #[verifier::loop_isolation(false)]
    pub fn convert_copy<X: Copy, F: Fn(T) -> X>(&self, target: &mut Table<X>, f: F)
        requires
            self.wf(),
            old(target).wf(),
            old(target).spec_side() == self.spec_side(),
            forall|i: int| 0 <= i < self@.len() ==> call_requires(f, (#[trigger] self@[i],)),
        ensures
            final(target).wf(),
            final(target).spec_side() == old(target).spec_side(),
            final(target).spec_default() == old(target).spec_default(),
            final(target)@.len() == old(target)@.len(),
            forall|i: int|
                0 <= i < self@.len() ==> call_ensures(
                    f,
                    (self@[i],),
                    #[trigger] final(target)@[i],
                ),
    {
        let n = self.data.len();
        let mut i: usize = 0;
        while i < n
            invariant
                i <= n,
                target.wf(),
                target.spec_side() == old(target).spec_side(),
                target.spec_default() == old(target).spec_default(),
                target@.len() == old(target)@.len(),
                forall|j: int|
                    0 <= j < i ==> call_ensures(f, (self@[j],), #[trigger] target@[j]),
            decreases n - i,
        {
            let v = f(*self.get(i));
            target.set(i, v);
            i = i + 1;
        }
    }

    /// Surrenders the underlying cell sequence, consuming the grid.
    pub fn export_flat(self) -> (r: Vec<T>)
        ensures
            r@ == self@,
    {
        self.data
    }
}

impl<T: Copy> Clone for Table<T> {
    /// A deep copy: the clone holds the same cells, side and default.
    fn clone(&self) -> (r: Self)
        ensures
            r@ == self@,
            r.spec_side() == self.spec_side(),
            r.spec_default() == self.spec_default(),
    {
        Table { default: self.default, data: self.iter(), side: self.side }
    }
}

impl Table<Color> {
    /// Flattens a color grid to raw bytes, consuming it: four bytes per
    /// cell in linear order, channels in the order red, green, blue,
    /// alpha.
    #[verifier::loop_isolation(false)]
    pub fn export_pixels(self) -> (r: Vec<u8>)
        ensures
            r@.len() == 4 * self@.len(),
            forall|i: int|
                0 <= i < self@.len() ==> {
                    let c = #[trigger] self@[i];
                    &&& r@[4 * i] == c.r
                    &&& r@[4 * i + 1] == c.g
                    &&& r@[4 * i + 2] == c.b
                    &&& r@[4 * i + 3] == c.a
                },
    {
        let n = self.data.len();
        let mut r: Vec<u8> = Vec::new();
        let mut i: usize = 0;
        while i < n
            invariant
                i <= n,
                r@.len() == 4 * i,
                forall|j: int|
                    0 <= j < i ==> {
                        let c = #[trigger] self@[j];
                        &&& r@[4 * j] == c.r
                        &&& r@[4 * j + 1] == c.g
                        &&& r@[4 * j + 2] == c.b
                        &&& r@[4 * j + 3] == c.a
                    },
            decreases n - i,
        {
            let c = *self.get(i);
            r.push(c.r);
            r.push(c.g);
            r.push(c.b);
            r.push(c.a);
            i = i + 1;
        }
        r
    }
}

/// The law of growing, read cell by cell of the result: when `b` is `a`
/// grown from side `s` to side `2*s` (each old cell fanned out into its
/// 2x2 block), every cell `(nx, ny)` of `b` carries the value of exactly
/// one cell of `a`, the one at `(nx / 2, ny / 2)`. No cell of the result
/// mixes or misses old values.
pub proof fn lemma_grow_cell_origin<T>(a: Seq<T>, b: Seq<T>, s: int)
    requires
        s >= 0,
        a.len() == s * s,
        b.len() == (2 * s) * (2 * s),
        forall|x: int, y: int|
            0 <= x < s && 0 <= y < s ==> {
                let v = a[#[trigger] lin(x, y, s)];
                &&& b[lin(2 * x, 2 * y, 2 * s)] == v
                &&& b[lin(2 * x + 1, 2 * y, 2 * s)] == v
                &&& b[lin(2 * x, 2 * y + 1, 2 * s)] == v
                &&& b[lin(2 * x + 1, 2 * y + 1, 2 * s)] == v
            },
    ensures
        forall|nx: int, ny: int|
            0 <= nx < 2 * s && 0 <= ny < 2 * s ==> #[trigger] b[lin(nx, ny, 2 * s)] == a[lin(
                nx / 2,
                ny / 2,
                s,
            )],
{
    assert forall|nx: int, ny: int| 0 <= nx < 2 * s && 0 <= ny < 2 * s implies #[trigger] b[lin(
        nx,
        ny,
        2 * s,
    )] == a[lin(nx / 2, ny / 2, s)] by {
        let x = nx / 2;
        let y = ny / 2;
        assert(0 <= x < s && 0 <= y < s);
        assert(nx == 2 * x || nx == 2 * x + 1);
        assert(ny == 2 * y || ny == 2 * y + 1);
        assert(a[lin(x, y, s)] == a[lin(x, y, s)]);
    }
}

} // verus!
