//! The grid/cell store: the rectangular array of cell states together with
//! food placement, clearing, the decay pass, and the render snapshot.

use vstd::prelude::*;

verus! {

/// Discrete state of one grid cell.
#[derive(Clone, Copy, Debug, PartialEq, Eq, Structural)]
pub enum CellState {
    SnakeBody,
    Food,
    Empty,
}

/// One cell of the grid: its coordinates, its state, and the number of ticks
/// since it became `SnakeBody` (meaningful only while the state is `SnakeBody`).
#[derive(Clone, Copy, Debug, PartialEq, Eq, Structural)]
pub struct Cell {
    pub cell_x_index: i32,
    pub cell_y_index: i32,
    pub state: CellState,
    pub snake_body_lifetime: u32,
}

/// The fixed-size grid, row-major: the cell at `(x, y)` sits at index
/// `x + y * size_x`.
pub struct Cells {
    pub cells: Vec<Cell>,
    pub size_x: i32,
    pub size_y: i32,
}

impl Cells {
    /// Well-formedness: positive dimensions, a backing vector of exactly
    /// `size_x * size_y` cells, and each cell carrying its own row-major
    /// coordinates.
    pub open spec fn wf(self) -> bool {
        &&& 0 < self.size_x
        &&& 0 < self.size_y
        &&& self.size_x * self.size_y <= i32::MAX
        &&& self.cells@.len() == self.size_x * self.size_y
        &&& forall|i: int|
            0 <= i < self.cells@.len() ==> (#[trigger] self.cells@[i]).cell_x_index
                == i % (self.size_x as int) && self.cells@[i].cell_y_index == i / (self.size_x
                as int)
    }

    /// Row-major index of the cell at `(x, y)`.
    pub open spec fn spec_index_of(self, x: int, y: int) -> int {
        x + y * self.size_x
    }

    /// `(x, y)` lies inside the grid.
    pub open spec fn in_bounds(self, x: int, y: int) -> bool {
        0 <= x < self.size_x && 0 <= y < self.size_y
    }
}

/// Number of cells of `s` whose state is `st`.
pub open spec fn count_state(s: Seq<Cell>, st: CellState) -> nat
    decreases s.len(),
{
    if s.len() == 0 {
        0
    } else {
        count_state(s.drop_last(), st) + (if s.last().state == st {
            1nat
        } else {
            0nat
        })
    }
}

/// `c` with its state replaced by `st`, everything else kept.
pub open spec fn with_state(c: Cell, st: CellState) -> Cell {
    Cell {
        cell_x_index: c.cell_x_index,
        cell_y_index: c.cell_y_index,
        state: st,
        snake_body_lifetime: c.snake_body_lifetime,
    }
}

/// `c` turned into a fresh snake-body cell: state `SnakeBody`, age zero.
pub open spec fn as_new_body(c: Cell) -> Cell {
    Cell {
        cell_x_index: c.cell_x_index,
        cell_y_index: c.cell_y_index,
        state: CellState::SnakeBody,
        snake_body_lifetime: 0,
    }
}

/// Every cell of `s` set to `Empty`, ages and coordinates kept.
pub open spec fn cleared_seq(s: Seq<Cell>) -> Seq<Cell> {
    Seq::new(s.len(), |i: int| with_state(s[i], CellState::Empty))
}

/// One cell after the decay pass: a snake-body cell ages by one tick and
/// vanishes once its age exceeds `snake_size`; other cells are untouched.
pub open spec fn decayed_cell(c: Cell, snake_size: u32) -> Cell {
    if c.state == CellState::SnakeBody {
        Cell {
            cell_x_index: c.cell_x_index,
            cell_y_index: c.cell_y_index,
            state: if c.snake_body_lifetime + 1 > snake_size {
                CellState::Empty
            } else {
                CellState::SnakeBody
            },
            snake_body_lifetime: (c.snake_body_lifetime + 1) as u32,
        }
    } else {
        c
    }
}

/// The whole grid after the decay pass.
pub open spec fn decayed_seq(s: Seq<Cell>, snake_size: u32) -> Seq<Cell> {
    Seq::new(s.len(), |i: int| decayed_cell(s[i], snake_size))
}

/// Some cell is not occupied by the snake, so food can be placed.
pub open spec fn has_free_cell(s: Seq<Cell>) -> bool {
    exists|i: int| 0 <= i < s.len() && s[i].state != CellState::SnakeBody
}

/// Relates grid contents before and after one food placement: if any cell is
/// free of the snake, some such cell (chosen at random) now holds food and
/// nothing else changed; with no free cell the grid is unchanged.
pub open spec fn food_placed(pre: Seq<Cell>, post: Seq<Cell>) -> bool {
    if has_free_cell(pre) {
        exists|i: int|
            0 <= i < pre.len() && pre[i].state != CellState::SnakeBody && post == pre.update(
                i,
                with_state(pre[i], CellState::Food),
            )
    } else {
        post == pre
    }
}

/// No two snake-body cells of `s` share an age.
pub open spec fn ages_distinct(s: Seq<Cell>) -> bool {
    forall|i: int, j: int|
        0 <= i < s.len() && 0 <= j < s.len() && i != j && (#[trigger] s[i]).state
            == CellState::SnakeBody && (#[trigger] s[j]).state == CellState::SnakeBody
            ==> s[i].snake_body_lifetime != s[j].snake_body_lifetime
}

/// Every snake-body cell of `s` has age at most `snake_size`.
pub open spec fn ages_bounded(s: Seq<Cell>, snake_size: u32) -> bool {
    forall|i: int|
        0 <= i < s.len() && (#[trigger] s[i]).state == CellState::SnakeBody
            ==> s[i].snake_body_lifetime <= snake_size
}

/// Counting after replacing one cell: the count loses the old cell's
/// contribution and gains the new one's.
pub proof fn lemma_count_update(s: Seq<Cell>, i: int, c: Cell, st: CellState)
    requires
        0 <= i < s.len(),
    ensures
        count_state(s.update(i, c), st) == count_state(s, st) - (if s[i].state == st {
            1int
        } else {
            0int
        }) + (if c.state == st {
            1int
        } else {
            0int
        }),
    decreases s.len(),
{
    let su = s.update(i, c);
    if i == s.len() - 1 {
        assert(su.drop_last() =~= s.drop_last());
        assert(su.last() == c);
    } else {
        assert(su.drop_last() =~= s.drop_last().update(i, c));
        lemma_count_update(s.drop_last(), i, c, st);
    }
}

/// Two grids whose cells agree pointwise on "is the state `st`" have the same
/// count of `st` cells.
pub proof fn lemma_count_pointwise(s1: Seq<Cell>, s2: Seq<Cell>, st: CellState)
    requires
        s1.len() == s2.len(),
        forall|i: int|
            0 <= i < s1.len() ==> (((#[trigger] s1[i]).state == st) <==> ((#[trigger] s2[i]).state
                == st)),
    ensures
        count_state(s1, st) == count_state(s2, st),
    decreases s1.len(),
{
    if s1.len() > 0 {
        lemma_count_pointwise(s1.drop_last(), s2.drop_last(), st);
    }
}

/// The count of `st` cells is zero exactly when no cell has state `st`.
pub proof fn lemma_count_zero(s: Seq<Cell>, st: CellState)
    ensures
        (count_state(s, st) == 0) <==> (forall|i: int|
            0 <= i < s.len() ==> (#[trigger] s[i]).state != st),
    decreases s.len(),
{
    if s.len() > 0 {
        lemma_count_zero(s.drop_last(), st);
        if count_state(s, st) == 0 {
            assert forall|i: int| 0 <= i < s.len() implies (#[trigger] s[i]).state != st by {
                if i < s.len() - 1 {
                    assert(s.drop_last()[i] == s[i]);
                } else {
                    assert(s[i] == s.last());
                }
            }
        }
        if forall|i: int| 0 <= i < s.len() ==> (#[trigger] s[i]).state != st {
            assert forall|i: int|
                0 <= i < s.drop_last().len() implies (#[trigger] s.drop_last()[i]).state != st by {
                assert(s.drop_last()[i] == s[i]);
            }
            assert(s.last() == s[s.len() - 1]);
        }
    }
}

/// The count of `st` cells never exceeds the grid size, and if it falls short
/// of it some cell has another state.
pub proof fn lemma_count_below_len(s: Seq<Cell>, st: CellState)
    ensures
        count_state(s, st) <= s.len(),
        count_state(s, st) < s.len() ==> exists|i: int| 0 <= i < s.len() && s[i].state != st,
    decreases s.len(),
{
    if s.len() > 0 {
        lemma_count_below_len(s.drop_last(), st);
        if count_state(s, st) < s.len() {
            if s.last().state != st {
                assert(s[s.len() - 1].state != st);
            } else {
                let j = choose|i: int| 0 <= i < s.len() - 1 && s.drop_last()[i].state != st;
                assert(s[j].state != st);
            }
        }
    }
}

/// Pigeonhole bound: if no two snake-body cells share an age and every
/// snake-body age lies in `[lo, hi)`, there are at most `hi - lo` snake-body
/// cells.
pub proof fn lemma_count_body_age_range(s: Seq<Cell>, lo: int, hi: int)
    requires
        ages_distinct(s),
        lo <= hi,
        forall|i: int|
            0 <= i < s.len() && (#[trigger] s[i]).state == CellState::SnakeBody ==> lo <= s[i].snake_body_lifetime
                < hi,
    ensures
        count_state(s, CellState::SnakeBody) <= hi - lo,
    decreases hi - lo,
{
    if hi == lo {
        lemma_count_zero(s, CellState::SnakeBody);
    } else {
        if exists|k: int|
            0 <= k < s.len() && (#[trigger] s[k]).state == CellState::SnakeBody
                && s[k].snake_body_lifetime == hi - 1 {
            let k = choose|k: int|
                0 <= k < s.len() && (#[trigger] s[k]).state == CellState::SnakeBody
                    && s[k].snake_body_lifetime == hi - 1;
            let s2 = s.update(k, with_state(s[k], CellState::Empty));
            lemma_count_update(s, k, with_state(s[k], CellState::Empty), CellState::SnakeBody);
            assert forall|i: int|
                0 <= i < s2.len() && (#[trigger] s2[i]).state == CellState::SnakeBody implies lo
                <= s2[i].snake_body_lifetime < hi - 1 by {
                assert(s2[i] == s[i]);
                assert(s[i].snake_body_lifetime != s[k].snake_body_lifetime);
            }
            assert forall|i: int, j: int|
                0 <= i < s2.len() && 0 <= j < s2.len() && i != j && (#[trigger] s2[i]).state
                    == CellState::SnakeBody && (#[trigger] s2[j]).state
                    == CellState::SnakeBody implies s2[i].snake_body_lifetime
                != s2[j].snake_body_lifetime by {
                assert(s2[i] == s[i]);
                assert(s2[j] == s[j]);
            }
            lemma_count_body_age_range(s2, lo, hi - 1);
        } else {
            lemma_count_body_age_range(s, lo, hi - 1);
        }
    }
}

/// `0 <= x + y * sx < sx * sy` whenever `(x, y)` lies in a `sx` by `sy` grid:
/// the row-major index of an in-bounds cell is a valid vector index.
pub proof fn lemma_index_in_range(sx: int, sy: int, x: int, y: int)
    requires
        0 < sx,
        0 < sy,
        0 <= x < sx,
        0 <= y < sy,
    ensures
        0 <= x + y * sx < sx * sy,
        y * sx >= 0,
{
    assert(0 <= x + y * sx < sx * sy && y * sx >= 0) by (nonlinear_arith)
        requires
            0 < sx,
            0 < sy,
            0 <= x < sx,
            0 <= y < sy,
    ;
}

impl Cells {
    /// Builds a grid of `size_x * size_y` empty cells, each carrying its
    /// row-major coordinates.
    pub fn new(size_x: i32, size_y: i32) -> (g: Cells)
        requires
            0 < size_x,
            0 < size_y,
            size_x * size_y <= i32::MAX,
        ensures
            g.wf(),
            g.size_x == size_x,
            g.size_y == size_y,
            forall|i: int|
                0 <= i < g.cells@.len() ==> (#[trigger] g.cells@[i]).state == CellState::Empty
                    && g.cells@[i].snake_body_lifetime == 0,
    {
        let n: usize = (size_x * size_y) as usize;
        let sx: usize = size_x as usize;
        let mut cells: Vec<Cell> = Vec::new();
        let mut idx: usize = 0;
        while idx < n
            invariant
                idx <= n,
                n == size_x * size_y,
                0 < size_x,
                0 < size_y,
                size_x * size_y <= i32::MAX,
                sx == size_x,
                cells@.len() == idx,
                forall|i: int|
                    0 <= i < idx ==> (#[trigger] cells@[i]) == (Cell {
                        cell_x_index: (i % (size_x as int)) as i32,
                        cell_y_index: (i / (size_x as int)) as i32,
                        state: CellState::Empty,
                        snake_body_lifetime: 0u32,
                    }),
            decreases n - idx,
        {
            let x: usize = idx % sx;
            let y: usize = idx / sx;
            proof {
                assert((idx as int) / (size_x as int) < (size_y as int)) by (nonlinear_arith)
                    requires
                        0 < (size_x as int),
                        0 < (size_y as int),
                        0 <= (idx as int) < (size_x as int) * (size_y as int),
                ;
            }
            cells.push(
                Cell {
                    cell_x_index: x as i32,
                    cell_y_index: y as i32,
                    state: CellState::Empty,
                    snake_body_lifetime: 0,
                },
            );
            idx += 1;
        }
        Cells { cells, size_x, size_y }
    }

    /// Bounds-checked accessor for the cell at `(x, y)`; out-of-range
    /// coordinates are a caller error and are excluded by the precondition.
    pub fn get_cell(&self, x: i32, y: i32) -> (c: Cell)
        requires
            self.wf(),
            self.in_bounds(x as int, y as int),
        ensures
            c == self.cells@[self.spec_index_of(x as int, y as int)],
    {
        proof {
            lemma_index_in_range(self.size_x as int, self.size_y as int, x as int, y as int);
        }
        let idx: usize = (x + y * self.size_x) as usize;
        self.cells[idx]
    }

    /// Replaces the cell at `(x, y)`.
    pub fn set_cell(&mut self, x: i32, y: i32, c: Cell)
        requires
            old(self).wf(),
            old(self).in_bounds(x as int, y as int),
        ensures
            final(self).cells@ == old(self).cells@.update(
                old(self).spec_index_of(x as int, y as int),
                c,
            ),
            final(self).size_x == old(self).size_x,
            final(self).size_y == old(self).size_y,
    {
        proof {
            lemma_index_in_range(self.size_x as int, self.size_y as int, x as int, y as int);
        }
        let idx: usize = (x + y * self.size_x) as usize;
        self.cells[idx] = c;
    }

    /// Decay pass of one tick: every snake-body cell ages by one; any whose
    /// age then exceeds `snake_size` becomes `Empty`. In particular a body
    /// cell of age exactly `snake_size` vanishes here, whatever the head does
    /// later in the same tick.
    pub fn decay(&mut self, snake_size: u32)
        requires
            old(self).wf(),
            forall|i: int|
                0 <= i < old(self).cells@.len() && (#[trigger] old(self).cells@[i]).state
                    == CellState::SnakeBody ==> old(self).cells@[i].snake_body_lifetime < u32::MAX,
        ensures
            final(self).wf(),
            final(self).size_x == old(self).size_x,
            final(self).size_y == old(self).size_y,
            final(self).cells@ == decayed_seq(old(self).cells@, snake_size),
            forall|i: int|
                0 <= i < old(self).cells@.len() && (#[trigger] old(self).cells@[i]).state
                    == CellState::SnakeBody && old(self).cells@[i].snake_body_lifetime
                    == snake_size ==> final(self).cells@[i].state == CellState::Empty,
    {
        let n: usize = self.cells.len();
        let mut i: usize = 0;
        while i < n
            invariant
                i <= n,
                n == self.cells@.len(),
                self.cells@.len() == old(self).cells@.len(),
                self.size_x == old(self).size_x,
                self.size_y == old(self).size_y,
                forall|j: int|
                    0 <= j < i ==> (#[trigger] self.cells@[j]) == decayed_cell(
                        old(self).cells@[j],
                        snake_size,
                    ),
                forall|j: int| i <= j < n ==> (#[trigger] self.cells@[j]) == old(self).cells@[j],
                forall|j: int|
                    0 <= j < old(self).cells@.len() && (#[trigger] old(self).cells@[j]).state
                        == CellState::SnakeBody ==> old(self).cells@[j].snake_body_lifetime
                        < u32::MAX,
            decreases n - i,
        {
            let c = self.cells[i];
            match c.state {
                CellState::SnakeBody => {
                    let mut c2 = c;
                    c2.snake_body_lifetime = c.snake_body_lifetime + 1;
                    if c2.snake_body_lifetime > snake_size {
                        c2.state = CellState::Empty;
                    }
                    self.cells[i] = c2;
                },
                _ => {},
            }
            i += 1;
        }
        proof {
            assert(self.cells@ =~= decayed_seq(old(self).cells@, snake_size));
            assert forall|i2: int| 0 <= i2 < self.cells@.len() implies (#[trigger] self.cells@[i2]).cell_x_index
                == i2 % (self.size_x as int) && self.cells@[i2].cell_y_index == i2 / (self.size_x
                as int) by {
                assert(old(self).cells@[i2].cell_x_index == i2 % (self.size_x as int));
            }
        }
    }

    /// Places one piece of food on a cell chosen uniformly at random among
    /// the cells not occupied by the snake. If the snake fills the whole
    /// grid, placement is skipped and the grid is left unchanged.
    pub fn add_food(&mut self)
        requires
            old(self).wf(),
        ensures
            final(self).wf(),
            final(self).size_x == old(self).size_x,
            final(self).size_y == old(self).size_y,
            food_placed(old(self).cells@, final(self).cells@),
    {
        let n: usize = self.cells.len();
        let mut free: Vec<usize> = Vec::new();
        let mut i: usize = 0;
        while i < n
            invariant
                i <= n,
                n == self.cells@.len(),
                forall|k: int|
                    0 <= k < free@.len() ==> (#[trigger] free@[k]) < i && self.cells@[free@[k]
                        as int].state != CellState::SnakeBody,
                forall|j: int|
                    0 <= j < i && (#[trigger] self.cells@[j]).state != CellState::SnakeBody
                        ==> exists|k: int| 0 <= k < free@.len() && free@[k] == j,
            decreases n - i,
        {
            let c = self.cells[i];
            match c.state {
                CellState::SnakeBody => {},
                _ => {
                    let ghost free0 = free@;
                    free.push(i);
                    proof {
                        assert forall|j: int|
                            0 <= j < i + 1 && (#[trigger] self.cells@[j]).state
                                != CellState::SnakeBody implies exists|k: int|
                            0 <= k < free@.len() && free@[k] == j by {
                            if j == i {
                                assert(free@[free@.len() - 1] == j);
                            } else {
                                let k0 = choose|k0: int|
                                    0 <= k0 < free0.len() && free0[k0] == j;
                                assert(free@[k0] == j);
                            }
                        }
                    }
                },
            }
            i += 1;
        }
        if free.len() == 0 {
            proof {
                assert forall|j: int| 0 <= j < self.cells@.len() implies (#[trigger] self.cells@[j]).state
                    == CellState::SnakeBody by {
                    if self.cells@[j].state != CellState::SnakeBody {
                        let k = choose|k: int| 0 <= k < free@.len() && free@[k] == j;
                    }
                }
                assert(!has_free_cell(self.cells@));
            }
            return ;
        }
        let k = crate::rng::random_below(free.len());
        let idx: usize = free[k];
        let mut c = self.cells[idx];
        c.state = CellState::Food;
        self.cells[idx] = c;
        proof {
            let pre = old(self).cells@;
            assert(pre[idx as int].state != CellState::SnakeBody);
            assert(self.cells@ =~= pre.update(idx as int, with_state(pre[idx as int],
                CellState::Food)));
            assert(has_free_cell(pre));
            assert forall|i2: int| 0 <= i2 < self.cells@.len() implies (#[trigger] self.cells@[i2]).cell_x_index
                == i2 % (self.size_x as int) && self.cells@[i2].cell_y_index == i2 / (self.size_x
                as int) by {
                assert(pre[i2].cell_x_index == i2 % (self.size_x as int));
            }
        }
    }

    /// Soft-reset pass over the store: every cell becomes `Empty`, then one
    /// new piece of food is placed at random. The result holds exactly one
    /// `Food` cell and no `SnakeBody` cell.
    pub fn clear(&mut self)
        requires
            old(self).wf(),
        ensures
            final(self).wf(),
            final(self).size_x == old(self).size_x,
            final(self).size_y == old(self).size_y,
            food_placed(cleared_seq(old(self).cells@), final(self).cells@),
            count_state(final(self).cells@, CellState::Food) == 1,
            count_state(final(self).cells@, CellState::SnakeBody) == 0,
            exists|j: int|
                0 <= j < final(self).cells@.len() && final(self).cells@[j].state == CellState::Food
                    && (forall|i: int|
                    0 <= i < final(self).cells@.len() && i != j
                        ==> (#[trigger] final(self).cells@[i]).state == CellState::Empty),
    {
        let n: usize = self.cells.len();
        let mut i: usize = 0;
        while i < n
            invariant
                i <= n,
                n == self.cells@.len(),
                self.cells@.len() == old(self).cells@.len(),
                self.size_x == old(self).size_x,
                self.size_y == old(self).size_y,
                forall|j: int|
                    0 <= j < i ==> (#[trigger] self.cells@[j]) == with_state(
                        old(self).cells@[j],
                        CellState::Empty,
                    ),
                forall|j: int| i <= j < n ==> (#[trigger] self.cells@[j]) == old(self).cells@[j],
            decreases n - i,
        {
            let mut c = self.cells[i];
            c.state = CellState::Empty;
            self.cells[i] = c;
            i += 1;
        }
        proof {
            assert(self.cells@ =~= cleared_seq(old(self).cells@));
            assert forall|i2: int| 0 <= i2 < self.cells@.len() implies (#[trigger] self.cells@[i2]).cell_x_index
                == i2 % (self.size_x as int) && self.cells@[i2].cell_y_index == i2 / (self.size_x
                as int) by {
                assert(old(self).cells@[i2].cell_x_index == i2 % (self.size_x as int));
            }
        }
        let ghost cleared = self.cells@;
        self.add_food();
        proof {
            lemma_count_zero(cleared, CellState::Food);
            lemma_count_zero(cleared, CellState::SnakeBody);
            lemma_index_in_range(
                old(self).size_x as int,
                old(self).size_y as int,
                0,
                0,
            );
            assert(cleared.len() > 0);
            assert(cleared[0].state == CellState::Empty);
            assert(has_free_cell(cleared));
            let j = choose|j: int|
                0 <= j < cleared.len() && cleared[j].state != CellState::SnakeBody && self.cells@
                    == cleared.update(j, with_state(cleared[j], CellState::Food));
            lemma_count_update(cleared, j, with_state(cleared[j], CellState::Food),
                CellState::Food);
            lemma_count_update(cleared, j, with_state(cleared[j], CellState::Food),
                CellState::SnakeBody);
            assert forall|i2: int|
                0 <= i2 < self.cells@.len() && i2 != j implies (#[trigger] self.cells@[i2]).state
                == CellState::Empty by {
                assert(self.cells@[i2] == cleared[i2]);
            }
            assert(self.cells@[j].state == CellState::Food);
        }
    }

    /// Render snapshot: the per-cell discrete codes (`Empty` = 0,
    /// `SnakeBody` = 1, `Food` = 2) in row-major order. Read-only.
    pub fn snapshot(&self) -> (codes: Vec<u32>)
        ensures
            codes@.len() == self.cells@.len(),
            forall|i: int|
                0 <= i < codes@.len() ==> (#[trigger] codes@[i]) == state_code(
                    self.cells@[i].state,
                ),
    {
        let n: usize = self.cells.len();
        let mut codes: Vec<u32> = Vec::new();
        let mut i: usize = 0;
        while i < n
            invariant
                i <= n,
                n == self.cells@.len(),
                codes@.len() == i,
                forall|j: int|
                    0 <= j < i ==> (#[trigger] codes@[j]) == state_code(self.cells@[j].state),
            decreases n - i,
        {
            let code: u32 = match self.cells[i].state {
                CellState::Empty => 0,
                CellState::SnakeBody => 1,
                CellState::Food => 2,
            };
            codes.push(code);
            i += 1;
        }
        codes
    }
}

/// Discrete code a cell state is rendered as.
pub open spec fn state_code(st: CellState) -> u32 {
    match st {
        CellState::Empty => 0,
        CellState::SnakeBody => 1,
        CellState::Food => 2,
    }
}

} // verus!
