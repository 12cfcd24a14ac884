//! Movement constraints derived from an obstacle layout, and the application
//! of directional commands to a cell position.
//!
//! Coordinates follow the layout matrix: `x` indexes its first axis and `y`
//! its second. Moving `TOP` decreases `y`, `BOTTOM` increases it, `LEFT`
//! decreases `x` and `RIGHT` increases it.

use rand::Rng;
use vstd::prelude::*;

use crate::cell::CellPosition;
use crate::matrix::{
    allocatable, assign_block, code_at, code_cells, code_dim, code_ones, code_shape, is_shaped,
    pass_at, pass_cells, pass_ones, pass_shape, pass_zeros, set_code, set_pass, CodeMatrix,
    PassMatrix,
};

verus! {

/// Layout code of a wall; every other code is free to enter.
pub const WALL: i8 = 0;

/// Layout code of a free cell.
pub const FREE: i8 = 1;

/// Layout code of an objective marker.
pub const OBJECTIVE: i8 = 2;

/// Passability of a cell with layout code `code`: 0 for a wall, 1 otherwise.
pub open spec fn passable(code: i8) -> u8 {
    if code == WALL {
        0
    } else {
        1
    }
}

/// The unpadded movement grid of a `rows` by `cols` layout.
pub open spec fn movement_grid(codes: Seq<Seq<i8>>, rows: nat, cols: nat) -> Seq<Seq<u8>> {
    Seq::new(rows, |i: int| Seq::new(cols, |j: int| passable(codes[i][j])))
}

/// The movement mask of a `rows` by `cols` layout: its movement grid with a
/// blocked border of one cell on every side, so that cell `(x, y)` of the
/// layout sits at `[x + 1][y + 1]`.
pub open spec fn movement_mask(codes: Seq<Seq<i8>>, rows: nat, cols: nat) -> Seq<Seq<u8>> {
    Seq::new(
        rows + 2,
        |i: int|
            Seq::new(
                cols + 2,
                |j: int|
                    if 1 <= i <= rows && 1 <= j <= cols {
                        passable(codes[i - 1][j - 1])
                    } else {
                        0
                    },
            ),
    )
}

/// `(a0, a1)` comes before `(b0, b1)` in the layout's scan order: by the
/// first coordinate, then by the second.
pub open spec fn scan_before(a: (int, int), b: (int, int)) -> bool {
    a.0 < b.0 || (a.0 == b.0 && a.1 < b.1)
}

/// `s` lists, in scan order and once each, exactly the cells of the
/// `rows` by `cols` layout `codes` whose code is `code`.
pub open spec fn lists_cells_with_code(
    s: Seq<(int, int)>,
    codes: Seq<Seq<i8>>,
    rows: nat,
    cols: nat,
    code: i8,
) -> bool {
    &&& forall|k: int|
        0 <= k < s.len() ==> {
            let p = #[trigger] s[k];
            &&& 0 <= p.0 < rows
            &&& 0 <= p.1 < cols
            &&& codes[p.0][p.1] == code
        }
    &&& forall|a: int, b: int|
        0 <= a < rows && 0 <= b < cols && #[trigger] codes[a][b] == code ==> s.contains((a, b))
    &&& forall|k1: int, k2: int| 0 <= k1 < k2 < s.len() ==> scan_before(#[trigger] s[k1], #[trigger] s[k2])
}

/// The coordinate pair of a cell position.
pub open spec fn coords(p: CellPosition) -> (int, int) {
    (p.x as int, p.y as int)
}

/// The coordinate pairs of an index list.
pub open spec fn index_coords(s: Seq<(usize, usize)>) -> Seq<(int, int)> {
    s.map_values(|p: (usize, usize)| (p.0 as int, p.1 as int))
}

/// The coordinate pairs of a list of drawn cells.
pub open spec fn draw_coords(s: Seq<(u32, u32)>) -> Seq<(int, int)> {
    s.map_values(|p: (u32, u32)| (p.0 as int, p.1 as int))
}

/// A `rows` by `cols` layout of free cells with a wall on each cell of
/// `walls` and an objective on each cell of `objectives`; an objective
/// overrides a wall on the same cell.
pub open spec fn marked_layout(
    rows: nat,
    cols: nat,
    walls: Seq<(u32, u32)>,
    objectives: Seq<(u32, u32)>,
) -> Seq<Seq<i8>> {
    Seq::new(
        rows,
        |i: int|
            Seq::new(
                cols,
                |j: int|
                    if draw_coords(objectives).contains((i, j)) {
                        OBJECTIVE
                    } else if draw_coords(walls).contains((i, j)) {
                        WALL
                    } else {
                        FREE
                    },
            ),
    )
}

/// Every cell of `s` lies in a `rows` by `cols` layout.
pub open spec fn draws_within(s: Seq<(u32, u32)>, rows: nat, cols: nat) -> bool {
    forall|k: int| 0 <= k < s.len() ==> (#[trigger] s[k]).0 < rows && s[k].1 < cols
}

proof fn lemma_contains_after_push(s: Seq<(int, int)>, v: (int, int))
    ensures
        forall|t: (int, int)| #[trigger] s.push(v).contains(t) <==> s.contains(t) || t == v,
{
    assert forall|t: (int, int)| #[trigger] s.push(v).contains(t) <==> s.contains(t) || t == v by {
        if s.contains(t) {
            let k = choose|k: int| 0 <= k < s.len() && s[k] == t;
            assert(s.push(v)[k] == t);
        }
        if t == v {
            assert(s.push(v)[s.len() as int] == t);
        }
        if s.push(v).contains(t) {
            let k = choose|k: int| 0 <= k < s.len() + 1 && s.push(v)[k] == t;
            if k < s.len() {
                assert(s[k] == t);
            }
        }
    }
}

/// Relies on `rand::Rng::gen_range` over the thread-local generator: a
/// number in `0..bound`, which must not be empty.
#[verifier::external_body]
fn random_below(bound: u32) -> (r: u32)
    requires
        bound > 0,
    ensures
        r < bound,
{
    rand::thread_rng().gen_range(0..bound)
}

/// The movement grid of a `rows` by `cols` layout as far as the cells
/// before `(i, j)` in scan order: those cells have their passability, the
/// later ones are still 1.
pub open spec fn marked_walls_before(codes: Seq<Seq<i8>>, rows: nat, cols: nat, i: int, j: int) -> Seq<Seq<u8>> {
    Seq::new(
        rows,
        |a: int|
            Seq::new(cols, |b: int| if a < i || (a == i && b < j) { passable(codes[a][b]) } else { 1 }),
    )
}

/// Legal single-step distance, 0 or 1, in each of the four directions.
#[derive(Clone, Copy, Debug, PartialEq, Eq, Structural)]
pub struct Shifts {
    pub top: u8,
    pub left: u8,
    pub bottom: u8,
    pub right: u8,
}

impl Shifts {
    pub fn new(top: u8, left: u8, bottom: u8, right: u8) -> (r: Self)
        ensures
            r == (Shifts { top, left, bottom, right }),
    {
        Self { top, left, bottom, right }
    }
}

/// An obstacle layout of cell codes and the movement mask derived from it.
#[derive(Debug, Hash)]
pub struct Actions {
    pub grid: CodeMatrix,
    pub action_grid: PassMatrix,
}

impl Actions {
    /// The layout codes, `codes()[x][y]`.
    pub open spec fn codes(&self) -> Seq<Seq<i8>> {
        code_cells(self.grid)
    }

    /// Length of the layout's first axis (the `x` extent).
    pub open spec fn width(&self) -> nat {
        code_shape(self.grid).0
    }

    /// Length of the layout's second axis (the `y` extent).
    pub open spec fn height(&self) -> nat {
        code_shape(self.grid).1
    }

    /// The layout has the shape it reports, its coordinates fit a
    /// `CellPosition`, and the mask is the one derived from it.
    pub open spec fn wf(&self) -> bool {
        &&& is_shaped(self.codes(), self.width(), self.height())
        &&& self.width() <= u32::MAX
        &&& self.height() <= u32::MAX
        &&& allocatable(self.width() + 2 as int, self.height() + 2 as int)
        &&& pass_shape(self.action_grid) == (self.width() + 2, self.height() + 2)
        &&& pass_cells(self.action_grid) == movement_mask(self.codes(), self.width(), self.height())
    }

    /// Whether an agent may enter cell `(x, y)`: 1 inside the layout on a
    /// cell that is not a wall, 0 elsewhere.
    pub open spec fn open_at(&self, x: int, y: int) -> u8 {
        if 0 <= x < self.width() && 0 <= y < self.height() {
            passable(self.codes()[x][y])
        } else {
            0
        }
    }

    /// The legal steps out of cell `(x, y)`.
    pub open spec fn shifts_at(&self, x: int, y: int) -> Shifts {
        Shifts {
            top: self.open_at(x, y - 1),
            left: self.open_at(x - 1, y),
            bottom: self.open_at(x, y + 1),
            right: self.open_at(x + 1, y),
        }
    }

    /// Builds the movement mask of the layout `grid`: walls become 0, every
    /// other cell 1, inside a blocked border.
    pub fn new(grid: CodeMatrix) -> (r: Self)
        requires
            code_shape(grid).0 <= u32::MAX,
            code_shape(grid).1 <= u32::MAX,
            allocatable((code_shape(grid).0 + 2) as int, (code_shape(grid).1 + 2) as int),
        ensures
            r.wf(),
            r.grid == grid,
    {
        let (x, y) = code_dim(&grid);
        let ghost codes = code_cells(grid);
        assert(allocatable(x as int, y as int) && x + 2 <= isize::MAX && y + 2 <= isize::MAX)
            by (nonlinear_arith)
            requires
                allocatable((x + 2) as int, (y + 2) as int),
        ;
        let mut action_grid = pass_zeros(x + 2, y + 2);
        let mut movement = pass_ones(x, y);
        let mut i: usize = 0;
        assert(pass_cells(movement) =~~= marked_walls_before(codes, x as nat, y as nat, 0, 0));
        while i < x
            invariant
                i <= x,
                code_shape(grid) == (x as nat, y as nat),
                code_cells(grid) == codes,
                is_shaped(codes, x as nat, y as nat),
                pass_shape(movement) == (x as nat, y as nat),
                pass_cells(movement) == marked_walls_before(codes, x as nat, y as nat, i as int, 0),
            decreases x - i,
        {
            let mut j: usize = 0;
            while j < y
                invariant
                    i < x,
                    j <= y,
                    code_shape(grid) == (x as nat, y as nat),
                    code_cells(grid) == codes,
                    is_shaped(codes, x as nat, y as nat),
                    pass_shape(movement) == (x as nat, y as nat),
                    pass_cells(movement) == marked_walls_before(codes, x as nat, y as nat, i as int, j as int),
                decreases y - j,
            {
                if code_at(&grid, i, j) == WALL {
                    set_pass(&mut movement, i, j, 0);
                }
                assert(pass_cells(movement) =~~= marked_walls_before(codes, x as nat, y as nat, i as int, j + 1));
                j = j + 1;
            }
            assert(pass_cells(movement) =~~= marked_walls_before(codes, x as nat, y as nat, i + 1, 0));
            i = i + 1;
        }
        assert(pass_cells(movement) =~~= movement_grid(codes, x as nat, y as nat));
        // The layout sits inside a one-cell border.
        assign_block(&mut action_grid, 1, x + 1, 1, y + 1, &movement);
        assert(pass_cells(action_grid) =~~= movement_mask(codes, x as nat, y as nat));
        Actions { grid, action_grid }
    }

    /// A layout whose first axis has `height` entries and whose second has
    /// `width`, with walls and then objectives marked on the given cells, and
    /// its movement mask.
    pub fn with_marks(
        height: u32,
        width: u32,
        walls: &Vec<(u32, u32)>,
        objectives: &Vec<(u32, u32)>,
    ) -> (r: Self)
        requires
            allocatable((height + 2) as int, (width + 2) as int),
            draws_within(walls@, height as nat, width as nat),
            draws_within(objectives@, height as nat, width as nat),
        ensures
            r.wf(),
            r.width() == height,
            r.height() == width,
            r.codes() == marked_layout(height as nat, width as nat, walls@, objectives@),
    {
        let rows = height as usize;
        let cols = width as usize;
        assert(allocatable(rows as int, cols as int)) by (nonlinear_arith)
            requires
                allocatable((rows + 2) as int, (cols + 2) as int),
        ;
        let mut base = code_ones(rows, cols);
        let ghost none: Seq<(u32, u32)> = Seq::empty();
        let mut k: usize = 0;
        assert(code_cells(base) =~~= marked_layout(rows as nat, cols as nat, walls@.take(0), none));
        while k < walls.len()
            invariant
                k <= walls@.len(),
                rows == height,
                cols == width,
                draws_within(walls@, height as nat, width as nat),
                none == Seq::<(u32, u32)>::empty(),
                code_shape(base) == (rows as nat, cols as nat),
                code_cells(base) == marked_layout(rows as nat, cols as nat, walls@.take(k as int), none),
            decreases walls@.len() - k,
        {
            let (x, y) = walls[k];
            set_code(&mut base, x as usize, y as usize, WALL);
            proof {
                assert(walls@.take(k + 1) =~= walls@.take(k as int).push((x, y)));
                assert(draw_coords(walls@.take(k + 1)) =~= draw_coords(walls@.take(k as int)).push(
                    (x as int, y as int),
                ));
                assert(draw_coords(none) =~= Seq::empty());
                lemma_contains_after_push(draw_coords(walls@.take(k as int)), (x as int, y as int));
                assert(code_cells(base) =~~= marked_layout(rows as nat, cols as nat, walls@.take(k + 1), none));
            }
            k = k + 1;
        }
        assert(walls@.take(walls@.len() as int) =~= walls@);
        let mut k: usize = 0;
        assert(code_cells(base) =~~= marked_layout(rows as nat, cols as nat, walls@, objectives@.take(0)));
        while k < objectives.len()
            invariant
                k <= objectives@.len(),
                rows == height,
                cols == width,
                draws_within(objectives@, height as nat, width as nat),
                code_shape(base) == (rows as nat, cols as nat),
                code_cells(base) == marked_layout(rows as nat, cols as nat, walls@, objectives@.take(k as int)),
            decreases objectives@.len() - k,
        {
            let (x, y) = objectives[k];
            set_code(&mut base, x as usize, y as usize, OBJECTIVE);
            proof {
                assert(objectives@.take(k + 1) =~= objectives@.take(k as int).push((x, y)));
                assert(draw_coords(objectives@.take(k + 1)) =~= draw_coords(objectives@.take(k as int)).push(
                    (x as int, y as int),
                ));
                lemma_contains_after_push(draw_coords(objectives@.take(k as int)), (x as int, y as int));
                assert(code_cells(base) =~~= marked_layout(rows as nat, cols as nat, walls@, objectives@.take(k + 1)));
            }
            k = k + 1;
        }
        assert(objectives@.take(objectives@.len() as int) =~= objectives@);
        Actions::new(base)
    }

    /// A random layout whose first axis has `height` entries and whose second
    /// has `width`: a tenth of the cell count (rounded down) of cells is drawn
    /// to become walls, then as many to become objectives. Drawn cells may
    /// repeat, and an objective overrides a wall.
    pub fn empty(height: u32, width: u32) -> (r: Self)
        requires
            height * width <= u32::MAX,
            allocatable((height + 2) as int, (width + 2) as int),
        ensures
            r.wf(),
            r.width() == height,
            r.height() == width,
            forall|i: int, j: int|
                0 <= i < height && 0 <= j < width ==> {
                    let c = #[trigger] r.codes()[i][j];
                    c == WALL || c == FREE || c == OBJECTIVE
                },
            exists|walls: Seq<(u32, u32)>, objectives: Seq<(u32, u32)>|
                {
                    &&& walls.len() == (height * width) / 10
                    &&& objectives.len() == (height * width) / 10
                    &&& draws_within(walls, height as nat, width as nat)
                    &&& draws_within(objectives, height as nat, width as nat)
                    &&& #[trigger] marked_layout(height as nat, width as nat, walls, objectives) == r.codes()
                },
    {
        let max = (height * width) / 10;
        assert(max > 0 ==> height > 0 && width > 0) by (nonlinear_arith)
            requires
                max == (height * width) / 10,
        ;
        let mut walls: Vec<(u32, u32)> = Vec::new();
        let mut objectives: Vec<(u32, u32)> = Vec::new();
        let mut n: u32 = 0;
        while n < max
            invariant
                n <= max,
                walls@.len() == n,
                max > 0 ==> height > 0 && width > 0,
                draws_within(walls@, height as nat, width as nat),
            decreases max - n,
        {
            let x = random_below(height);
            let y = random_below(width);
            walls.push((x, y));
            n = n + 1;
        }
        let mut n: u32 = 0;
        while n < max
            invariant
                n <= max,
                objectives@.len() == n,
                max > 0 ==> height > 0 && width > 0,
                draws_within(objectives@, height as nat, width as nat),
            decreases max - n,
        {
            let x = random_below(height);
            let y = random_below(width);
            objectives.push((x, y));
            n = n + 1;
        }
        let r = Actions::with_marks(height, width, &walls, &objectives);
        assert(marked_layout(height as nat, width as nat, walls@, objectives@) == r.codes());
        r
    }

    /// Every cell whose code is `to_find`, in scan order.
    pub fn indices_of(&self, to_find: i8) -> (r: Vec<(usize, usize)>)
        requires
            self.wf(),
        ensures
            lists_cells_with_code(index_coords(r@), self.codes(), self.width(), self.height(), to_find),
    {
        let (rows, cols) = code_dim(&self.grid);
        let ghost codes = self.codes();
        let mut found: Vec<(usize, usize)> = Vec::new();
        let mut i: usize = 0;
        while i < rows
            invariant
                i <= rows,
                self.wf(),
                codes == self.codes(),
                rows == self.width(),
                cols == self.height(),
                forall|k: int|
                    0 <= k < found@.len() ==> {
                        let p = #[trigger] index_coords(found@)[k];
                        &&& 0 <= p.0 < i
                        &&& 0 <= p.1 < cols
                        &&& codes[p.0][p.1] == to_find
                    },
                forall|a: int, b: int|
                    0 <= a < i && 0 <= b < cols && #[trigger] codes[a][b] == to_find
                        ==> index_coords(found@).contains((a, b)),
                forall|k1: int, k2: int|
                    0 <= k1 < k2 < found@.len() ==> scan_before(
                        #[trigger] index_coords(found@)[k1],
                        #[trigger] index_coords(found@)[k2],
                    ),
            decreases rows - i,
        {
            let mut j: usize = 0;
            while j < cols
                invariant
                    i < rows,
                    j <= cols,
                    self.wf(),
                    codes == self.codes(),
                    rows == self.width(),
                    cols == self.height(),
                    forall|k: int|
                        0 <= k < found@.len() ==> {
                            let p = #[trigger] index_coords(found@)[k];
                            &&& 0 <= p.1 < cols
                            &&& (p.0 < i || (p.0 == i && p.1 < j))
                            &&& 0 <= p.0
                            &&& codes[p.0][p.1] == to_find
                        },
                    forall|a: int, b: int|
                        ((0 <= a < i && 0 <= b < cols) || (a == i && 0 <= b < j))
                            && #[trigger] codes[a][b] == to_find
                            ==> index_coords(found@).contains((a, b)),
                    forall|k1: int, k2: int|
                        0 <= k1 < k2 < found@.len() ==> scan_before(
                            #[trigger] index_coords(found@)[k1],
                            #[trigger] index_coords(found@)[k2],
                        ),
                decreases cols - j,
            {
                if code_at(&self.grid, i, j) == to_find {
                    let ghost before = found@;
                    found.push((i, j));
                    proof {
                        assert(index_coords(found@) =~= index_coords(before).push((i as int, j as int)));
                        assert forall|a: int, b: int|
                            ((0 <= a < i && 0 <= b < cols) || (a == i && 0 <= b < j + 1))
                                && #[trigger] codes[a][b] == to_find
                                implies index_coords(found@).contains((a, b)) by {
                            if a == i && b == j {
                                assert(index_coords(found@)[before.len() as int] == (a, b));
                            } else {
                                let k = choose|k: int|
                                    0 <= k < index_coords(before).len() && index_coords(before)[k] == (a, b);
                                assert(index_coords(found@)[k] == (a, b));
                            }
                        }
                    }
                }
                j = j + 1;
            }
            i = i + 1;
        }
        found
    }

    /// Positions of the walls (code 0), in scan order.
    pub fn get_walls(&self) -> (r: Vec<CellPosition>)
        requires
            self.wf(),
        ensures
            lists_cells_with_code(r@.map_values(|p: CellPosition| coords(p)), self.codes(), self.width(), self.height(), WALL),
    {
        self.positions_of(WALL)
    }

    /// Positions of the objective markers (code 2), in scan order.
    pub fn get_objectives(&self) -> (r: Vec<CellPosition>)
        requires
            self.wf(),
        ensures
            lists_cells_with_code(r@.map_values(|p: CellPosition| coords(p)), self.codes(), self.width(), self.height(), OBJECTIVE),
    {
        self.positions_of(OBJECTIVE)
    }

    /// Every cell whose code is `code`, as cell positions, in scan order.
    fn positions_of(&self, code: i8) -> (r: Vec<CellPosition>)
        requires
            self.wf(),
        ensures
            lists_cells_with_code(r@.map_values(|p: CellPosition| coords(p)), self.codes(), self.width(), self.height(), code),
    {
        let found = self.indices_of(code);
        let mut r: Vec<CellPosition> = Vec::new();
        let mut k: usize = 0;
        while k < found.len()
            invariant
                k <= found@.len(),
                self.wf(),
                lists_cells_with_code(index_coords(found@), self.codes(), self.width(), self.height(), code),
                r@.map_values(|p: CellPosition| coords(p)) == index_coords(found@).take(k as int),
            decreases found@.len() - k,
        {
            let (i, j) = found[k];
            proof {
                assert(index_coords(found@)[k as int] == (i as int, j as int));
            }
            let ghost before = r@;
            r.push(CellPosition::new(i as u32, j as u32));
            proof {
                assert(r@.map_values(|p: CellPosition| coords(p)) =~= before.map_values(|p: CellPosition| coords(p)).push((i as int, j as int)));
                assert(index_coords(found@).take(k + 1) =~= index_coords(found@).take(k as int).push((i as int, j as int)));
            }
            k = k + 1;
        }
        proof {
            assert(index_coords(found@).take(found@.len() as int) =~= index_coords(found@));
        }
        r
    }

    /// The legal steps out of cell `(x, y)`, read from the mask: the
    /// neighbours above, to the left, below and to the right.
    pub fn get_shifts(&self, x: u8, y: u8) -> (r: Shifts)
        requires
            self.wf(),
            x < self.width(),
            y < self.height(),
        ensures
            r == self.shifts_at(x as int, y as int),
    {
        self.read_shifts(x as usize, y as usize)
    }

    /// The legal steps out of cell `(x, y)`: the mask entries around
    /// `[x + 1][y + 1]`, where the cell sits inside the border.
    fn read_shifts(&self, x: usize, y: usize) -> (r: Shifts)
        requires
            self.wf(),
            x < self.width(),
            y < self.height(),
        ensures
            r == self.shifts_at(x as int, y as int),
    {
        Shifts::new(
            pass_at(&self.action_grid, x + 1, y),
            pass_at(&self.action_grid, x, y + 1),
            pass_at(&self.action_grid, x + 1, y + 2),
            pass_at(&self.action_grid, x + 2, y + 1),
        )
    }
}

/// A directional command.
#[derive(Clone, Copy, Debug, PartialEq, Eq, Structural)]
pub enum Direction {
    TOP,
    LEFT,
    BOTTOM,
    RIGHT,
}

/// A movement command issued to the agents.
#[derive(Clone, Copy, Debug)]
pub struct Movement {
    direction: Direction,
}

/// The legal step distance of `shifts` in direction `d`.
pub open spec fn shift_toward(shifts: Shifts, d: Direction) -> u8 {
    match d {
        Direction::TOP => shifts.top,
        Direction::LEFT => shifts.left,
        Direction::BOTTOM => shifts.bottom,
        Direction::RIGHT => shifts.right,
    }
}

/// Where an agent at `p` ends up after a command in direction `d`: one cell
/// that way when the layout lets it enter that cell, else where it was.
pub open spec fn stepped(actions: Actions, p: CellPosition, d: Direction) -> CellPosition {
    let s = actions.shifts_at(p.x as int, p.y as int);
    match d {
        Direction::TOP => CellPosition { x: p.x, y: (p.y - s.top) as u32 },
        Direction::LEFT => CellPosition { x: (p.x - s.left) as u32, y: p.y },
        Direction::BOTTOM => CellPosition { x: p.x, y: (p.y + s.bottom) as u32 },
        Direction::RIGHT => CellPosition { x: (p.x + s.right) as u32, y: p.y },
    }
}

impl Movement {
    pub fn new(direction: Direction) -> (r: Self)
        ensures
            r.spec_direction() == direction,
    {
        Self { direction }
    }

    pub closed spec fn spec_direction(&self) -> Direction {
        self.direction
    }

    /// The direction of the command.
    pub fn direction(&self) -> (r: Direction)
        ensures
            r == self.spec_direction(),
    {
        self.direction
    }

    /// Applies the command to an agent at `position` inside the layout of
    /// `actions`: it moves one cell in the command's direction if the mask
    /// lets it, and stays otherwise.
    pub fn apply(&self, actions: &Actions, position: &mut CellPosition)
        requires
            actions.wf(),
            old(position).x < actions.width(),
            old(position).y < actions.height(),
        ensures
            *final(position) == stepped(*actions, *old(position), self.spec_direction()),
            final(position).x < actions.width(),
            final(position).y < actions.height(),
    {
        let shifts = actions.read_shifts(position.x as usize, position.y as usize);
        match self.direction {
            Direction::TOP => {
                position.y = position.y - shifts.top as u32;
            },
            Direction::LEFT => {
                position.x = position.x - shifts.left as u32;
            },
            Direction::BOTTOM => {
                position.y = position.y + shifts.bottom as u32;
            },
            Direction::RIGHT => {
                position.x = position.x + shifts.right as u32;
            },
        }
    }
}

/// The border of the mask is blocked: no step leads off the layout. From
/// the first column no step goes left, from the first row none goes up, and
/// likewise toward the far edges.
pub proof fn lemma_border_blocked(actions: Actions)
    requires
        actions.wf(),
    ensures
        forall|y: int| 0 <= y < actions.height() ==> (#[trigger] actions.shifts_at(0, y)).left == 0,
        forall|x: int| 0 <= x < actions.width() ==> (#[trigger] actions.shifts_at(x, 0)).top == 0,
        forall|y: int|
            0 <= y < actions.height() ==> (#[trigger] actions.shifts_at(actions.width() - 1, y)).right == 0,
        forall|x: int|
            0 <= x < actions.width() ==> (#[trigger] actions.shifts_at(x, actions.height() - 1)).bottom == 0,
        forall|i: int, j: int|
            0 <= i < actions.width() + 2 && 0 <= j < actions.height() + 2 && (i == 0 || j == 0 || i
                == actions.width() + 1 || j == actions.height() + 1) ==> #[trigger] pass_cells(
                actions.action_grid,
            )[i][j] == 0,
{
}

/// Every approach into a wall is blocked: from the cell on its left, on its
/// right, above it and below it.
pub proof fn lemma_wall_blocks_approach(actions: Actions, a: int, b: int)
    requires
        actions.wf(),
        0 <= a < actions.width(),
        0 <= b < actions.height(),
        actions.codes()[a][b] == WALL,
    ensures
        actions.shifts_at(a - 1, b).right == 0,
        actions.shifts_at(a + 1, b).left == 0,
        actions.shifts_at(a, b - 1).bottom == 0,
        actions.shifts_at(a, b + 1).top == 0,
{
}

/// From any cell, a neighbour inside the layout that is not a wall can be
/// entered.
pub proof fn lemma_free_neighbour_open(actions: Actions, x: int, y: int)
    requires
        actions.wf(),
        0 <= x < actions.width(),
        0 <= y < actions.height(),
    ensures
        y >= 1 && actions.codes()[x][y - 1] != WALL ==> actions.shifts_at(x, y).top == 1,
        x >= 1 && actions.codes()[x - 1][y] != WALL ==> actions.shifts_at(x, y).left == 1,
        y + 1 < actions.height() && actions.codes()[x][y + 1] != WALL ==> actions.shifts_at(x, y).bottom
            == 1,
        x + 1 < actions.width() && actions.codes()[x + 1][y] != WALL ==> actions.shifts_at(x, y).right
            == 1,
{
}

/// A command in a direction that the mask reports as blocked leaves the
/// agent where it is.
pub proof fn lemma_blocked_command_keeps_position(actions: Actions, p: CellPosition, d: Direction)
    requires
        actions.wf(),
        p.x < actions.width(),
        p.y < actions.height(),
        shift_toward(actions.shifts_at(p.x as int, p.y as int), d) == 0,
    ensures
        stepped(actions, p, d) == p,
{
}

/// The cells of a `rows` by `cols` layout.
pub open spec fn all_cells(rows: nat, cols: nat) -> Set<(int, int)> {
    Set::new(|p: (int, int)| 0 <= p.0 < rows && 0 <= p.1 < cols)
}

/// The cells of a `rows` by `cols` layout whose code is `code`.
pub open spec fn cells_with_code(codes: Seq<Seq<i8>>, rows: nat, cols: nat, code: i8) -> Set<(int, int)> {
    Set::new(|p: (int, int)| 0 <= p.0 < rows && 0 <= p.1 < cols && codes[p.0][p.1] == code)
}

/// A `rows` by `cols` layout has `rows * cols` cells.
proof fn lemma_all_cells_len(rows: nat, cols: nat)
    ensures
        all_cells(rows, cols).finite(),
        all_cells(rows, cols).len() == rows * cols,
    decreases rows,
{
    if rows == 0 {
        assert(all_cells(0, cols) =~= Set::empty());
    } else {
        let last = rows - 1;
        lemma_all_cells_len(last as nat, cols);
        let f = |j: int| (last, j);
        let range = vstd::set_lib::set_int_range(0, cols as int);
        let row = range.map(f);
        vstd::set_lib::lemma_int_range(0, cols as int);
        assert(vstd::relations::injective_on(f, range));
        vstd::set_lib::lemma_map_size(range, row, f);
        assert forall|p: (int, int)| #[trigger] all_cells(rows, cols).contains(p) implies (
        all_cells(last as nat, cols) + row).contains(p) by {
            if p.0 == last {
                assert(range.contains(p.1) && f(p.1) == p);
            }
        }
        assert(all_cells(rows, cols) =~= all_cells(last as nat, cols) + row);
        assert(all_cells(last as nat, cols).disjoint(row));
        vstd::set_lib::lemma_set_disjoint_lens(all_cells(last as nat, cols), row);
        assert(last * cols + cols == rows * cols) by (nonlinear_arith)
            requires
                last == rows - 1,
        ;
    }
}

/// A scan for a code lists each matching cell exactly once and nothing else:
/// a cell is listed if and only if it lies in the layout and has that code,
/// no cell is listed twice, and the listing is as long as there are such
/// cells.
pub proof fn lemma_listing_is_exact(s: Seq<(int, int)>, codes: Seq<Seq<i8>>, rows: nat, cols: nat, code: i8)
    requires
        lists_cells_with_code(s, codes, rows, cols, code),
    ensures
        forall|a: int, b: int|
            #[trigger] s.contains((a, b)) <==> (0 <= a < rows && 0 <= b < cols && codes[a][b] == code),
        forall|k1: int, k2: int| 0 <= k1 < s.len() && 0 <= k2 < s.len() && k1 != k2 ==> #[trigger] s[k1] != #[trigger] s[k2],
        cells_with_code(codes, rows, cols, code).finite(),
        s.len() == cells_with_code(codes, rows, cols, code).len(),
{
    assert forall|a: int, b: int|
        #[trigger] s.contains((a, b)) implies (0 <= a < rows && 0 <= b < cols && codes[a][b] == code) by {
        let k = choose|k: int| 0 <= k < s.len() && s[k] == (a, b);
        assert(s[k] == (a, b));
    }
    assert forall|k1: int, k2: int| 0 <= k1 < s.len() && 0 <= k2 < s.len() && k1 != k2 implies #[trigger] s[k1] != #[trigger] s[k2] by {
        if k1 < k2 {
            assert(scan_before(s[k1], s[k2]));
        } else {
            assert(scan_before(s[k2], s[k1]));
        }
    }
    let cells = cells_with_code(codes, rows, cols, code);
    assert forall|p: (int, int)| #[trigger] s.to_set().contains(p) <==> cells.contains(p) by {
        assert(s.contains((p.0, p.1)) <==> s.contains(p));
    }
    assert(s.to_set() =~= cells);
    assert(s.no_duplicates());
    s.unique_seq_to_set();
    lemma_all_cells_len(rows, cols);
    vstd::set_lib::lemma_set_subset_finite(all_cells(rows, cols), cells);
}

/// Where every code is a wall, a free cell or an objective, the scans for
/// the three codes share no cell, and together they list every cell of the
/// layout: their lengths add up to the number of cells.
pub proof fn lemma_scans_partition(
    walls: Seq<(int, int)>,
    free: Seq<(int, int)>,
    objectives: Seq<(int, int)>,
    codes: Seq<Seq<i8>>,
    rows: nat,
    cols: nat,
)
    requires
        lists_cells_with_code(walls, codes, rows, cols, WALL),
        lists_cells_with_code(free, codes, rows, cols, FREE),
        lists_cells_with_code(objectives, codes, rows, cols, OBJECTIVE),
        forall|i: int, j: int|
            0 <= i < rows && 0 <= j < cols ==> {
                let c = #[trigger] codes[i][j];
                c == WALL || c == FREE || c == OBJECTIVE
            },
    ensures
        walls.len() + free.len() + objectives.len() == rows * cols,
        forall|p: (int, int)| !(#[trigger] walls.contains(p) && free.contains(p)),
        forall|p: (int, int)| !(#[trigger] walls.contains(p) && objectives.contains(p)),
        forall|p: (int, int)| !(#[trigger] free.contains(p) && objectives.contains(p)),
{
    lemma_listing_is_exact(walls, codes, rows, cols, WALL);
    lemma_listing_is_exact(free, codes, rows, cols, FREE);
    lemma_listing_is_exact(objectives, codes, rows, cols, OBJECTIVE);
    let w = cells_with_code(codes, rows, cols, WALL);
    let f = cells_with_code(codes, rows, cols, FREE);
    let o = cells_with_code(codes, rows, cols, OBJECTIVE);
    assert forall|p: (int, int)| !(#[trigger] walls.contains(p) && free.contains(p)) by {
        assert(walls.contains((p.0, p.1)) == walls.contains(p));
        assert(free.contains((p.0, p.1)) == free.contains(p));
    }
    assert forall|p: (int, int)| !(#[trigger] walls.contains(p) && objectives.contains(p)) by {
        assert(walls.contains((p.0, p.1)) == walls.contains(p));
        assert(objectives.contains((p.0, p.1)) == objectives.contains(p));
    }
    assert forall|p: (int, int)| !(#[trigger] free.contains(p) && objectives.contains(p)) by {
        assert(free.contains((p.0, p.1)) == free.contains(p));
        assert(objectives.contains((p.0, p.1)) == objectives.contains(p));
    }
    assert(w.disjoint(f));
    assert((w + f).disjoint(o));
    vstd::set_lib::lemma_set_disjoint_lens(w, f);
    vstd::set_lib::lemma_set_disjoint_lens(w + f, o);
    assert forall|p: (int, int)| #[trigger] all_cells(rows, cols).contains(p) implies (w + f + o).contains(p) by {
        let c = codes[p.0][p.1];
        assert(c == WALL || c == FREE || c == OBJECTIVE);
    }
    assert(all_cells(rows, cols) =~= w + f + o);
    lemma_all_cells_len(rows, cols);
}

} // verus!
