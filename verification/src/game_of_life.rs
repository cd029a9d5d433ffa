use vstd::prelude::*;
use vstd::string::StringExecFns;

verus! {

/// An integer 2D coordinate, used both as a grid index and as a relative
/// displacement between grid positions.
#[derive(Copy, Clone, Debug, Eq, PartialEq, Structural)]
pub struct Point {
    pub x: i32,
    pub y: i32,
}

impl Point {
    pub fn new(x: i32, y: i32) -> (p: Point)
        ensures
            p == (Point { x, y }),
    {
        Point { x, y }
    }

    /// Vector sum of two points, used to move a position by an offset.
    pub fn plus(&self, rhs: &Point) -> (p: Point)
        requires
            i32::MIN <= self.x + rhs.x <= i32::MAX,
            i32::MIN <= self.y + rhs.y <= i32::MAX,
        ensures
            p.x == self.x + rhs.x,
            p.y == self.y + rhs.y,
    {
        Point { x: self.x + rhs.x, y: self.y + rhs.y }
    }
}

/// The eight compass offsets in their fixed order:
/// N, NE, E, SE, S, SW, W, NW.
pub open spec fn compass_offset(k: int) -> Point {
    if k == 0 {
        Point { x: 0i32, y: -1i32 }
    } else if k == 1 {
        Point { x: 1i32, y: -1i32 }
    } else if k == 2 {
        Point { x: 1i32, y: 0i32 }
    } else if k == 3 {
        Point { x: 1i32, y: 1i32 }
    } else if k == 4 {
        Point { x: 0i32, y: 1i32 }
    } else if k == 5 {
        Point { x: -1i32, y: 1i32 }
    } else if k == 6 {
        Point { x: -1i32, y: 0i32 }
    } else {
        Point { x: -1i32, y: -1i32 }
    }
}

fn compass_offset_at(k: usize) -> (d: Point)
    requires
        k < 8,
    ensures
        d == compass_offset(k as int),
{
    if k == 0 {
        Point { x: 0i32, y: -1i32 }
    } else if k == 1 {
        Point { x: 1i32, y: -1i32 }
    } else if k == 2 {
        Point { x: 1i32, y: 0i32 }
    } else if k == 3 {
        Point { x: 1i32, y: 1i32 }
    } else if k == 4 {
        Point { x: 0i32, y: 1i32 }
    } else if k == 5 {
        Point { x: -1i32, y: 1i32 }
    } else if k == 6 {
        Point { x: -1i32, y: 0i32 }
    } else {
        Point { x: -1i32, y: -1i32 }
    }
}

/// The state of one cell: alive or dead. No other states exist.
#[derive(PartialEq, Eq, Clone, Copy, Debug, Structural)]
pub enum CellState {
    Alive,
    Dead,
}

impl CellState {
    /// The fixed glyph a cell renders as: `'0'` when alive, `' '` when dead.
    pub open spec fn spec_glyph(self) -> char {
        if self is Alive {
            '0'
        } else {
            ' '
        }
    }

    pub fn glyph(&self) -> (c: char)
        ensures
            c == self.spec_glyph(),
    {
        match self {
            CellState::Alive => '0',
            CellState::Dead => ' ',
        }
    }
}

/// How many cells of a generation are alive.
pub open spec fn count_alive(s: Seq<CellState>) -> int
    decreases s.len(),
{
    if s.len() == 0 {
        0
    } else {
        count_alive(s.drop_last()) + if s.last() is Alive {
            1int
        } else {
            0int
        }
    }
}

/// Relies on fastrand::bool: a coin flip from the process-wide random
/// generator; nothing is promised of the value.
pub assume_specification[ fastrand::bool ]() -> bool;

/// How many of a point's in-bounds neighbors are dead and how many are
/// alive. Off-grid positions contribute to neither count.
#[derive(PartialEq, Eq, Clone, Copy, Debug, Structural)]
pub struct NeighbourState {
    pub dead: i32,
    pub alive: i32,
}

/// A dense, row-major 2D grid: cell (x, y) lives at index `y * width + x`.
#[derive(Debug)]
pub struct Grid<T> {
    pub width: usize,
    pub height: usize,
    pub cells: Vec<T>,
}

impl<T> Grid<T> {
    /// Well-formedness: the cell buffer has exactly `width * height` entries,
    /// and both dimensions fit the coordinate type, so that every cell is
    /// addressable by a `Point`.
    pub open spec fn wf(self) -> bool {
        &&& self.cells@.len() == self.width * self.height
        &&& self.width <= i32::MAX
        &&& self.height <= i32::MAX
    }

    /// Whether the (mathematical) coordinates x, y fall on the grid.
    pub open spec fn in_bounds(self, x: int, y: int) -> bool {
        0 <= x < self.width && 0 <= y < self.height
    }

    pub open spec fn spec_contains(self, p: Point) -> bool {
        self.in_bounds(p.x as int, p.y as int)
    }

    /// The linear index of an in-bounds point.
    pub open spec fn spec_idx(self, p: Point) -> int {
        self.width * p.y + p.x
    }

    /// The point a linear index maps back to.
    pub open spec fn spec_pos(self, i: int) -> Point {
        Point { x: (i % self.width as int) as i32, y: (i / self.width as int) as i32 }
    }

    /// The cell stored at an in-bounds point.
    pub open spec fn spec_cell(self, p: Point) -> T {
        self.cells@[self.spec_idx(p)]
    }

    /// True iff `p` resolves to a real cell; the sole authority on whether
    /// indexing at `p` is allowed.
    pub fn contains(&self, p: &Point) -> (r: bool)
        ensures
            r == self.spec_contains(*p),
    {
        p.x >= 0 && (p.x as usize) < self.width && p.y >= 0 && (p.y as usize) < self.height
    }

    fn idx(&self, p: &Point) -> (i: usize)
        requires
            self.wf(),
            self.spec_contains(*p),
        ensures
            i == self.spec_idx(*p),
            i < self.cells@.len(),
    {
        let _len: usize = self.cells.len();
        proof {
            assert(self.width * p.y + p.x < self.width * self.height) by (nonlinear_arith)
                requires
                    0 <= p.x < self.width,
                    0 <= p.y < self.height,
            ;
            assert(0 <= self.width * p.y) by (nonlinear_arith)
                requires
                    0 <= p.y,
                    0 <= self.width,
            ;
        }
        self.width * (p.y as usize) + (p.x as usize)
    }

    fn pos(&self, i: usize) -> (p: Point)
        requires
            self.wf(),
            i < self.cells@.len(),
        ensures
            p == self.spec_pos(i as int),
            self.spec_contains(p),
            self.spec_idx(p) == i,
    {
        proof {
            assert(self.width > 0) by (nonlinear_arith)
                requires
                    i < self.width * self.height,
                    0 <= i,
                    0 <= self.width,
            ;
            assert((i as int) / (self.width as int) < (self.height as int)) by (nonlinear_arith)
                requires
                    0 <= i < self.width * self.height,
                    0 < self.width,
            ;
            vstd::arithmetic::div_mod::lemma_fundamental_div_mod(i as int, self.width as int);
        }
        Point { x: (i % self.width) as i32, y: (i / self.width) as i32 }
    }

    /// The in-bounds neighbours of `p` among the first `n` compass offsets,
    /// in compass order.
    pub open spec fn spec_neighbours_upto(self, p: Point, n: nat) -> Seq<Point>
        decreases n,
    {
        if n == 0 {
            Seq::empty()
        } else {
            let prev = self.spec_neighbours_upto(p, (n - 1) as nat);
            let xx = p.x + compass_offset(n - 1).x;
            let yy = p.y + compass_offset(n - 1).y;
            if self.in_bounds(xx, yy) {
                prev.push(Point { x: xx as i32, y: yy as i32 })
            } else {
                prev
            }
        }
    }

    /// The in-bounds neighbours of `p`, in the fixed compass order
    /// N, NE, E, SE, S, SW, W, NW; positions beyond the border are absent.
    pub open spec fn spec_neighbours(self, p: Point) -> Seq<Point> {
        self.spec_neighbours_upto(p, 8)
    }

    /// How many points of `pts` hold a cell equal to `s`.
    pub open spec fn count_state(self, pts: Seq<Point>, s: T) -> int
        decreases pts.len(),
    {
        if pts.len() == 0 {
            0
        } else {
            self.count_state(pts.drop_last(), s) + if self.spec_cell(pts.last()) == s {
                1int
            } else {
                0int
            }
        }
    }

    proof fn lemma_neighbours_upto_props(self, p: Point, n: nat)
        requires
            self.wf(),
        ensures
            self.spec_neighbours_upto(p, n).len() <= n,
            forall|i: int|
                0 <= i < self.spec_neighbours_upto(p, n).len() ==> self.spec_contains(
                    #[trigger] self.spec_neighbours_upto(p, n)[i],
                ),
        decreases n,
    {
        if n > 0 {
            self.lemma_neighbours_upto_props(p, (n - 1) as nat);
        }
    }

    proof fn lemma_neighbours_full(self, p: Point, n: nat)
        requires
            forall|k: int|
                0 <= k < n ==> self.in_bounds(
                    p.x + compass_offset(k).x,
                    p.y + compass_offset(k).y,
                ),
        ensures
            self.spec_neighbours_upto(p, n).len() == n,
        decreases n,
    {
        if n > 0 {
            self.lemma_neighbours_full(p, (n - 1) as nat);
        }
    }

    /// The cell at `p` if `contains(p)` holds, and no value otherwise;
    /// never an out-of-range access.
    pub fn try_get(&self, p: Point) -> (r: Option<&T>)
        requires
            self.wf(),
        ensures
            match r {
                Some(c) => self.spec_contains(p) && *c == self.spec_cell(p),
                None => !self.spec_contains(p),
            },
    {
        if self.contains(&p) {
            Some(&self.cells[self.idx(&p)])
        } else {
            None
        }
    }
}

impl Grid<CellState> {
    /// Up to 8 points: each compass offset added to `point`, kept only where
    /// it lands on the grid, in the fixed compass order.
    pub fn get_neighbours(&self, point: Point) -> (r: Vec<Point>)
        requires
            self.wf(),
        ensures
            r@ == self.spec_neighbours(point),
    {
        let mut r: Vec<Point> = Vec::new();
        for k in 0..8usize
            invariant
                self.wf(),
                r@ == self.spec_neighbours_upto(point, k as nat),
        {
            let d = compass_offset_at(k);
            let xx: i64 = point.x as i64 + d.x as i64;
            let yy: i64 = point.y as i64 + d.y as i64;
            if xx >= 0 && (xx as usize) < self.width && yy >= 0 && (yy as usize) < self.height {
                r.push(Point { x: xx as i32, y: yy as i32 });
            }
            proof {
                assert(r@ == self.spec_neighbours_upto(point, (k + 1) as nat));
            }
        }
        r
    }

    /// Counts how many in-bounds neighbours of `point` are alive and how
    /// many are dead; positions beyond the border contribute to neither.
    pub fn get_neighbours_state(&self, point: Point) -> (r: NeighbourState)
        requires
            self.wf(),
        ensures
            r.alive == self.count_state(self.spec_neighbours(point), CellState::Alive),
            r.dead == self.count_state(self.spec_neighbours(point), CellState::Dead),
    {
        let mut alive: i32 = 0;
        let mut dead: i32 = 0;
        let neighbours = self.get_neighbours(point);
        proof {
            self.lemma_neighbours_upto_props(point, 8);
        }
        let n = neighbours.len();
        for i in 0..n
            invariant
                self.wf(),
                n == neighbours@.len(),
                neighbours@ == self.spec_neighbours(point),
                neighbours@.len() <= 8,
                forall|j: int|
                    0 <= j < neighbours@.len() ==> self.spec_contains(#[trigger] neighbours@[j]),
                alive == self.count_state(neighbours@.take(i as int), CellState::Alive),
                dead == self.count_state(neighbours@.take(i as int), CellState::Dead),
                0 <= alive <= i,
                0 <= dead <= i,
        {
            let q = neighbours[i];
            match self.try_get(q) {
                Some(c) => match c {
                    CellState::Alive => alive += 1,
                    CellState::Dead => dead += 1,
                },
                None => {},
            }
            proof {
                assert(neighbours@.take(i + 1).drop_last() =~= neighbours@.take(i as int));
                assert(neighbours@.take(i + 1).last() == q);
            }
        }
        proof {
            assert(neighbours@.take(n as int) =~= neighbours@);
        }
        NeighbourState { dead, alive }
    }

    /// The classic transition table, as a function of the current state and
    /// the alive-neighbour tally alone:
    /// an alive cell with 0 or 1 alive neighbours dies of underpopulation,
    /// with 2 or 3 it stays alive, with 4 to 8 it dies of overpopulation;
    /// a dead cell with exactly 3 alive neighbours comes alive by
    /// reproduction, and stays dead otherwise. A tally outside 0 to 8 never
    /// arises from a real grid and leaves the cell unchanged.
    pub open spec fn spec_next_state(cell: CellState, alive: int) -> CellState {
        match cell {
            CellState::Alive => {
                if 0 <= alive <= 1 {
                    CellState::Dead
                } else if 2 <= alive <= 3 {
                    CellState::Alive
                } else if 4 <= alive <= 8 {
                    CellState::Dead
                } else {
                    cell
                }
            },
            CellState::Dead => {
                if alive == 3 {
                    CellState::Alive
                } else {
                    cell
                }
            },
        }
    }

    /// The next state of a cell under the transition table of
    /// [`Self::spec_next_state`], given its neighbour tally.
    pub fn get_cell_state(&self, cell: &CellState, state: NeighbourState) -> (r: CellState)
        ensures
            r == Self::spec_next_state(*cell, state.alive as int),
    {
        match cell {
            CellState::Alive => {
                if 0 <= state.alive && state.alive <= 1 {
                    CellState::Dead
                } else if 2 <= state.alive && state.alive <= 3 {
                    CellState::Alive
                } else if 4 <= state.alive && state.alive <= 8 {
                    CellState::Dead
                } else {
                    *cell
                }
            },
            CellState::Dead => {
                if state.alive == 3 {
                    CellState::Alive
                } else {
                    *cell
                }
            },
        }
    }

    /// A `width` by `height` grid with every cell dead. Zero-sized grids are
    /// valid and simply hold no cells.
    pub fn new_empty(width: usize, height: usize) -> (g: Self)
        requires
            width * height <= usize::MAX,
            width <= i32::MAX,
            height <= i32::MAX,
        ensures
            g.wf(),
            g.width == width,
            g.height == height,
            forall|i: int| 0 <= i < g.cells@.len() ==> g.cells@[i] == CellState::Dead,
    {
        let size = width * height;
        let mut cells: Vec<CellState> = Vec::new();
        for k in 0..size
            invariant
                cells@.len() == k,
                forall|i: int| 0 <= i < k ==> cells@[i] == CellState::Dead,
        {
            cells.push(CellState::Dead);
        }
        Grid { width, height, cells }
    }

    /// A `width` by `height` grid with every cell drawn independently from
    /// the process-wide random source; nothing is promised of the values.
    pub fn new_random(width: usize, height: usize) -> (g: Self)
        requires
            width * height <= usize::MAX,
            width <= i32::MAX,
            height <= i32::MAX,
        ensures
            g.wf(),
            g.width == width,
            g.height == height,
    {
        let size = width * height;
        let mut cells: Vec<CellState> = Vec::new();
        for k in 0..size
            invariant
                cells@.len() == k,
        {
            let cell = if fastrand::bool() {
                CellState::Alive
            } else {
                CellState::Dead
            };
            cells.push(cell);
        }
        Grid { width, height, cells }
    }

    /// The whole next generation, computed synchronously: cell `i` of the
    /// result is the transition table applied to cell `i` of this grid and
    /// its alive-neighbour tally in this grid.
    pub open spec fn spec_step(self) -> Seq<CellState> {
        Seq::new(
            self.cells@.len(),
            |i: int|
                Self::spec_next_state(
                    self.cells@[i],
                    self.count_state(self.spec_neighbours(self.spec_pos(i)), CellState::Alive),
                ),
        )
    }

    /// Advances the grid one generation in place and returns how many cells
    /// are alive afterwards. Every next state is computed from the previous
    /// generation before the cell buffer is replaced.
    pub fn update_states(&mut self) -> (alive: u32)
        requires
            old(self).wf(),
        ensures
            final(self).wf(),
            final(self).width == old(self).width,
            final(self).height == old(self).height,
            final(self).cells@ == old(self).spec_step(),
            alive == count_alive(final(self).cells@) as u32,
            count_alive(final(self).cells@) <= u32::MAX ==> alive == count_alive(
                final(self).cells@,
            ),
    {
        let n = self.cells.len();
        let mut new_cells: Vec<CellState> = Vec::new();
        for i in 0..n
            invariant
                self.wf(),
                self == old(self),
                n == self.cells@.len(),
                new_cells@.len() == i,
                forall|j: int| 0 <= j < i ==> new_cells@[j] == self.spec_step()[j],
        {
            proof {
                assert(self.width > 0) by (nonlinear_arith)
                    requires
                        i < self.width * self.height,
                        0 <= i,
                        0 <= self.width,
                ;
            }
            let p = self.pos(i);
            let state = self.get_neighbours_state(p);
            let cell = self.cells[i];
            let next = self.get_cell_state(&cell, state);
            new_cells.push(next);
        }
        proof {
            assert(new_cells@ =~= old(self).spec_step());
        }
        self.cells = new_cells;
        let mut count: usize = 0;
        let m = self.cells.len();
        for i in 0..m
            invariant
                m == self.cells@.len(),
                count == count_alive(self.cells@.take(i as int)),
                0 <= count <= i,
        {
            if self.cells[i] == CellState::Alive {
                count += 1;
            }
            proof {
                assert(self.cells@.take(i + 1).drop_last() =~= self.cells@.take(i as int));
            }
        }
        proof {
            assert(self.cells@.take(m as int) =~= self.cells@);
        }
        #[verifier::truncate] (count as u32)
    }

    /// The textual snapshot of the grid: one glyph per cell in row-major
    /// order, each of the `height` rows of `width` glyphs closed by a line
    /// break.
    pub open spec fn spec_render(self) -> Seq<char> {
        Seq::new(
            (self.height * (self.width + 1)) as nat,
            |i: int|
                if i % (self.width + 1) == self.width {
                    '\n'
                } else {
                    self.spec_cell(
                        Point {
                            x: (i % (self.width + 1)) as i32,
                            y: (i / (self.width + 1)) as i32,
                        },
                    ).spec_glyph()
                },
        )
    }

    /// Renders the grid as text: `height` lines of `width` glyphs each,
    /// terminated by a line break after every row.
    pub fn render(&self) -> (s: String)
        requires
            self.wf(),
        ensures
            s@ == self.spec_render(),
    {
        proof {
            assert(0 <= self.height * (self.width as int + 1)) by (nonlinear_arith)
                requires
                    0 <= self.height && 0 <= self.width,
            ;
        }
        let mut s = String::new();
        proof {
            assert(s@ =~= self.spec_render().take((0int) * (self.width as int + 1)));
        }
        for y in 0..self.height
            invariant
                self.wf(),
                s@.len() == (y as int) * (self.width as int + 1),
                s@ == self.spec_render().take((y as int) * (self.width as int + 1)),
        {
            for x in 0..self.width
                invariant
                    self.wf(),
                    y < self.height,
                    s@.len() == (y as int) * (self.width as int + 1) + x,
                    s@ == self.spec_render().take((y as int) * (self.width as int + 1) + x),
            {
                let p = Point { x: x as i32, y: y as i32 };
                let c = self.cells[self.idx(&p)];
                proof {
                    reveal_strlit("0");
                    reveal_strlit(" ");
                    let i: int = (y as int) * (self.width as int + 1) + x;
                    assert(i + 1 <= self.height * (self.width as int + 1)) by (nonlinear_arith)
                        requires
                            0 <= y < self.height && 0 <= x < self.width && i == y * (
                            self.width as int + 1) + x,
                    ;
                    vstd::arithmetic::div_mod::lemma_fundamental_div_mod_converse(
                        i,
                        self.width as int + 1,
                        y as int,
                        x as int,
                    );
                }
                match c {
                    CellState::Alive => s.append("0"),
                    CellState::Dead => s.append(" "),
                }
                proof {
                    assert(s@ =~= self.spec_render().take((y as int) * (self.width as int + 1) + x + 1));
                }
            }
            s.append("\n");
            proof {
                reveal_strlit("\n");
                let i: int = (y as int) * (self.width as int + 1) + self.width;
                assert(i + 1 == ((y as int) + 1) * (self.width as int + 1)) by (nonlinear_arith)
                    requires
                        i == (y as int) * (self.width as int + 1) + self.width,
                ;
                assert(i + 1 <= self.height * (self.width as int + 1)) by (nonlinear_arith)
                    requires
                        0 <= y < self.height && i + 1 == ((y as int) + 1) * (self.width as int + 1),
                ;
                vstd::arithmetic::div_mod::lemma_fundamental_div_mod_converse(
                    i,
                    self.width as int + 1,
                    y as int,
                    self.width as int,
                );
                assert(s@ =~= self.spec_render().take(((y as int) + 1) * (self.width as int + 1)));
            }
        }
        proof {
            assert(s@ =~= self.spec_render());
        }
        s
    }

    /// Rendering shape law: the rendered text has length
    /// `height * (width + 1)`; row `y` occupies the `width` glyph positions
    /// before its line break, every glyph is one of the two cell glyphs, and
    /// each of the `height` rows is closed by exactly one line break.
    pub proof fn lemma_render_shape(self)
        requires
            self.wf(),
        ensures
            self.spec_render().len() == self.height * (self.width + 1),
            forall|y: int, x: int|
                0 <= y < self.height && 0 <= x < self.width ==> (#[trigger] self.spec_render()[y
                    * (self.width + 1) + x]) == self.spec_cell(
                    Point { x: x as i32, y: y as i32 },
                ).spec_glyph(),
            forall|y: int|
                0 <= y < self.height ==> (#[trigger] self.spec_render()[y * (self.width + 1)
                    + self.width]) == '\n',
            forall|i: int|
                0 <= i < self.spec_render().len() ==> (#[trigger] self.spec_render()[i]) == '\n'
                    || self.spec_render()[i] == '0' || self.spec_render()[i] == ' ',
    {
        let w1 = self.width as int + 1;
        assert(0 <= self.height * w1) by (nonlinear_arith)
            requires
                0 <= self.height && 0 < w1,
        ;
        assert forall|y: int, x: int|
            0 <= y < self.height && 0 <= x <= self.width implies 0 <= y * w1 + x < self.height * w1
            && (#[trigger] self.spec_render()[y * w1 + x]) == (if x == self.width {
            '\n'
        } else {
            self.spec_cell(Point { x: x as i32, y: y as i32 }).spec_glyph()
        }) by {
            assert(y * w1 + x < self.height * w1) by (nonlinear_arith)
                requires
                    0 <= y < self.height && 0 <= x <= self.width && w1 == self.width as int + 1,
            ;
            assert(0 <= y * w1 + x) by (nonlinear_arith)
                requires
                    0 <= y && 0 <= x && 0 < w1,
            ;
            vstd::arithmetic::div_mod::lemma_fundamental_div_mod_converse(y * w1 + x, w1, y, x);
        }
    }

    proof fn lemma_neighbours_agree(a: Grid<CellState>, b: Grid<CellState>, p: Point, n: nat)
        requires
            a.width == b.width,
            a.height == b.height,
        ensures
            a.spec_neighbours_upto(p, n) == b.spec_neighbours_upto(p, n),
        decreases n,
    {
        if n > 0 {
            Self::lemma_neighbours_agree(a, b, p, (n - 1) as nat);
        }
    }

    proof fn lemma_count_agree(a: Grid<CellState>, b: Grid<CellState>, pts: Seq<Point>, s: CellState)
        requires
            a.width == b.width,
            a.cells@ == b.cells@,
        ensures
            a.count_state(pts, s) == b.count_state(pts, s),
        decreases pts.len(),
    {
        if pts.len() > 0 {
            Self::lemma_count_agree(a, b, pts.drop_last(), s);
        }
    }

    /// Determinism law: two grids with the same dimensions and the same
    /// cells have the same next generation; the step hides no randomness.
    pub proof fn lemma_step_deterministic(a: Grid<CellState>, b: Grid<CellState>)
        requires
            a.width == b.width,
            a.height == b.height,
            a.cells@ == b.cells@,
        ensures
            a.spec_step() == b.spec_step(),
    {
        assert forall|i: int| 0 <= i < a.cells@.len() implies a.spec_step()[i]
            == b.spec_step()[i] by {
            Self::lemma_neighbours_agree(a, b, a.spec_pos(i), 8);
            Self::lemma_count_agree(a, b, a.spec_neighbours(a.spec_pos(i)), CellState::Alive);
        }
        assert(a.spec_step() =~= b.spec_step());
    }

    /// Still-life law: a grid in which every alive cell has exactly 2 or 3
    /// alive neighbours and no dead cell has exactly 3 alive neighbours is
    /// left unchanged by one step.
    pub proof fn lemma_still_life(g: Grid<CellState>)
        requires
            g.wf(),
            forall|i: int|
                0 <= i < g.cells@.len() ==> ((#[trigger] g.cells@[i]) is Alive ==> 2 <= g.count_state(
                    g.spec_neighbours(g.spec_pos(i)),
                    CellState::Alive,
                ) <= 3),
            forall|i: int|
                0 <= i < g.cells@.len() ==> ((#[trigger] g.cells@[i]) is Dead ==> g.count_state(
                    g.spec_neighbours(g.spec_pos(i)),
                    CellState::Alive,
                ) != 3),
        ensures
            g.spec_step() == g.cells@,
    {
        assert(g.spec_step() =~= g.cells@);
    }

    proof fn lemma_count_split(self, pts: Seq<Point>)
        ensures
            self.count_state(pts, CellState::Alive) + self.count_state(pts, CellState::Dead)
                == pts.len(),
        decreases pts.len(),
    {
        if pts.len() > 0 {
            self.lemma_count_split(pts.drop_last());
        }
    }

    /// Neighbour tally law: for any point, the alive and the dead tallies sum
    /// to the number of in-bounds neighbours, which is at most 8; a point not
    /// touching any edge has exactly 8 in-bounds neighbours.
    pub proof fn lemma_neighbour_tally(self, p: Point)
        requires
            self.wf(),
        ensures
            self.count_state(self.spec_neighbours(p), CellState::Alive) + self.count_state(
                self.spec_neighbours(p),
                CellState::Dead,
            ) == self.spec_neighbours(p).len(),
            self.spec_neighbours(p).len() <= 8,
            1 <= p.x && p.x + 1 < self.width && 1 <= p.y && p.y + 1 < self.height
                ==> self.spec_neighbours(p).len() == 8,
    {
        self.lemma_count_split(self.spec_neighbours(p));
        self.lemma_neighbours_upto_props(p, 8);
        if 1 <= p.x && p.x + 1 < self.width && 1 <= p.y && p.y + 1 < self.height {
            assert forall|k: int| 0 <= k < 8 implies self.in_bounds(
                p.x + compass_offset(k).x,
                p.y + compass_offset(k).y,
            ) by {}
            self.lemma_neighbours_full(p, 8);
        }
    }
}

impl Default for Grid<CellState> {
    /// The convenience fallback grid: 10 by 10, all cells dead.
    fn default() -> (g: Self)
        ensures
            g.wf(),
            g.width == 10,
            g.height == 10,
            forall|i: int| 0 <= i < g.cells@.len() ==> g.cells@[i] == CellState::Dead,
    {
        Grid::new_empty(10, 10)
    }
}

} // verus!
