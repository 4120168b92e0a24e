//! The snake head, the direction-input state machine, and the tick
//! controller that advances the simulation by one discrete step.

use crate::grid::CellState;
use crate::grid::Cell;
use crate::grid::Cells;
use crate::grid::ages_bounded;
use crate::grid::ages_distinct;
use crate::grid::as_new_body;
use crate::grid::cleared_seq;
use crate::grid::count_state;
use crate::grid::decayed_cell;
use crate::grid::decayed_seq;
use crate::grid::food_placed;
use crate::grid::has_free_cell;
use crate::grid::lemma_count_below_len;
use crate::grid::lemma_count_body_age_range;
use crate::grid::lemma_count_pointwise;
use crate::grid::lemma_count_update;
use crate::grid::lemma_count_zero;
use crate::grid::with_state;
use vstd::prelude::*;

verus! {

/// Initial and reset target length of the snake.
pub const INITIAL_SNAKE_SIZE: u32 = 6;

/// Position of the snake's head and its target body length.
pub struct SnakeHead {
    pub x: i32,
    pub y: i32,
    pub snake_size: u32,
}

/// Current movement vector; `(0, 0)` means movement has not started.
pub struct SnakeHeadDirection {
    pub x: i32,
    pub y: i32,
}

/// One frame's worth of discrete key-edge events ("just pressed" signals):
/// the four directions plus the two debug triggers (add food, grow).
pub struct InputEdges {
    pub add_food_pressed: bool,
    pub grow_pressed: bool,
    pub up_pressed: bool,
    pub down_pressed: bool,
    pub left_pressed: bool,
    pub right_pressed: bool,
}

/// A valid movement vector: each component in `{-1, 0, 1}`, never both
/// non-zero.
pub open spec fn dir_wf(d: SnakeHeadDirection) -> bool {
    &&& -1 <= d.x <= 1
    &&& -1 <= d.y <= 1
    &&& d.x == 0 || d.y == 0
}

/// The direction after one frame of key edges. While moving horizontally,
/// Up/Down are accepted (Up first) and Left/Right ignored; while the
/// vertical component is zero and movement has not started, everything is
/// ignored; while moving vertically, Left/Right are accepted (Left first).
pub open spec fn dir_after(d: SnakeHeadDirection, k: InputEdges) -> SnakeHeadDirection {
    if d.x != 0 && k.up_pressed {
        SnakeHeadDirection { x: 0i32, y: -1i32 }
    } else if d.x != 0 && k.down_pressed {
        SnakeHeadDirection { x: 0, y: 1 }
    } else if d.y == 0 {
        d
    } else if k.left_pressed {
        SnakeHeadDirection { x: -1i32, y: 0i32 }
    } else if k.right_pressed {
        SnakeHeadDirection { x: 1, y: 0 }
    } else {
        d
    }
}

/// Reversal law of the input state machine: starting from any committed axis
/// direction, a perpendicular event changes the direction, an event along
/// the axis alone leaves it unchanged, and no combination of events ever
/// yields the direct reversal of the current direction.
pub proof fn lemma_reversal_invariant(d: SnakeHeadDirection, k: InputEdges)
    requires
        dir_wf(d),
    ensures
        dir_wf(dir_after(d, k)),
        d.x != 0 && k.up_pressed ==> dir_after(d, k) == (SnakeHeadDirection { x: 0i32, y: -1i32 }),
        d.x != 0 && !k.up_pressed && k.down_pressed ==> dir_after(d, k) == (SnakeHeadDirection {
            x: 0,
            y: 1,
        }),
        d.x != 0 && !k.up_pressed && !k.down_pressed ==> dir_after(d, k) == d,
        d.x == 0 && d.y != 0 && k.left_pressed ==> dir_after(d, k) == (SnakeHeadDirection {
            x: -1i32,
            y: 0i32,
        }),
        d.x == 0 && d.y != 0 && !k.left_pressed && k.right_pressed ==> dir_after(d, k)
            == (SnakeHeadDirection { x: 1, y: 0 }),
        d.x == 0 && d.y != 0 && !k.left_pressed && !k.right_pressed ==> dir_after(d, k) == d,
        d.x == 0 && d.y == 0 ==> dir_after(d, k) == d,
        d.x != 0 || d.y != 0 ==> !(dir_after(d, k).x == -d.x && dir_after(d, k).y == -d.y),
{
}

/// Direction state machine plus the two debug triggers, applied to one frame
/// of key edges. The accepted direction is buffered in `direction` and takes
/// effect at the next tick.
pub fn set_direction(
    direction: &mut SnakeHeadDirection,
    cells: &mut Cells,
    head: &mut SnakeHead,
    keys: &InputEdges,
)
    requires
        keys.add_food_pressed ==> old(cells).wf(),
        keys.grow_pressed ==> old(head).snake_size < u32::MAX,
    ensures
        *final(direction) == dir_after(*old(direction), *keys),
        keys.add_food_pressed ==> final(cells).wf(),
        final(cells).size_x == old(cells).size_x,
        final(cells).size_y == old(cells).size_y,
        keys.add_food_pressed ==> food_placed(old(cells).cells@, final(cells).cells@),
        !keys.add_food_pressed ==> *final(cells) == *old(cells),
        final(head).x == old(head).x,
        final(head).y == old(head).y,
        keys.grow_pressed ==> final(head).snake_size == old(head).snake_size + 1,
        !keys.grow_pressed ==> final(head).snake_size == old(head).snake_size,
{
    if keys.add_food_pressed {
        cells.add_food();
    }
    if keys.grow_pressed {
        head.snake_size = head.snake_size + 1;
    }
    if direction.x != 0 {
        if keys.up_pressed {
            direction.x = 0;
            direction.y = -1;
            return ;
        }
        if keys.down_pressed {
            direction.x = 0;
            direction.y = 1;
            return ;
        }
    }
    if direction.y == 0 {
        return ;
    }
    if keys.left_pressed {
        direction.x = -1;
        direction.y = 0;
        return ;
    }
    if keys.right_pressed {
        direction.x = 1;
        direction.y = 0;
        return ;
    }
}

/// The state a soft reset leaves behind, `dm` being the grid contents the
/// reset started from: all cells cleared but one random food cell, head
/// recentered, target length back to the initial value, direction down.
pub open spec fn reset_rel(
    pre: Cells,
    dm: Seq<Cell>,
    post: Cells,
    posth: SnakeHead,
    postd: SnakeHeadDirection,
) -> bool {
    &&& food_placed(cleared_seq(dm), post.cells@)
    &&& posth.x == (pre.size_x as int) / 2
    &&& posth.y == (pre.size_y as int) / 2
    &&& posth.snake_size == INITIAL_SNAKE_SIZE
    &&& postd.x == 0
    &&& postd.y == 1
}

/// Everything one tick does, relating the pre-state to the post-state: decay
/// first, then head advance, then wall check, then target-cell resolution.
pub open spec fn tick_rel(
    pre: Cells,
    preh: SnakeHead,
    pred: SnakeHeadDirection,
    post: Cells,
    posth: SnakeHead,
    postd: SnakeHeadDirection,
) -> bool {
    let dm = decayed_seq(pre.cells@, preh.snake_size);
    let nx = preh.x + pred.x;
    let ny = preh.y + pred.y;
    if pred.x == 0 && pred.y == 0 {
        post.cells@ == dm && posth == preh && postd == pred
    } else if !pre.in_bounds(nx, ny) {
        reset_rel(pre, dm, post, posth, postd)
    } else {
        let idx = pre.spec_index_of(nx, ny);
        match dm[idx].state {
            CellState::Empty => {
                &&& post.cells@ == dm.update(idx, as_new_body(dm[idx]))
                &&& posth.x == nx
                &&& posth.y == ny
                &&& posth.snake_size == preh.snake_size
                &&& postd == pred
            },
            CellState::Food => {
                &&& food_placed(dm.update(idx, as_new_body(dm[idx])), post.cells@)
                &&& posth.x == nx
                &&& posth.y == ny
                &&& posth.snake_size == preh.snake_size + 1
                &&& postd == pred
            },
            CellState::SnakeBody => reset_rel(pre, dm, post, posth, postd),
        }
    }
}

/// Soft reset: clear the grid (one new random food), recenter the head,
/// restore the initial target length, point the direction down.
fn soft_reset(cells: &mut Cells, head: &mut SnakeHead, direction: &mut SnakeHeadDirection)
    requires
        old(cells).wf(),
    ensures
        final(cells).wf(),
        final(cells).size_x == old(cells).size_x,
        final(cells).size_y == old(cells).size_y,
        reset_rel(
            *old(cells),
            old(cells).cells@,
            *final(cells),
            *final(head),
            *final(direction),
        ),
        count_state(final(cells).cells@, CellState::Food) == 1,
        count_state(final(cells).cells@, CellState::SnakeBody) == 0,
        final(cells).in_bounds(final(head).x as int, final(head).y as int),
        exists|j: int|
            0 <= j < final(cells).cells@.len() && final(cells).cells@[j].state == CellState::Food
                && (forall|i: int|
                0 <= i < final(cells).cells@.len() && i != j
                    ==> (#[trigger] final(cells).cells@[i]).state == CellState::Empty),
{
    cells.clear();
    let cx: i32 = ((cells.size_x as u32) / 2) as i32;
    let cy: i32 = ((cells.size_y as u32) / 2) as i32;
    head.x = cx;
    head.y = cy;
    head.snake_size = INITIAL_SNAKE_SIZE;
    direction.x = 0;
    direction.y = 1;
    proof {
        assert((old(cells).size_x as int) / 2 < old(cells).size_x as int);
        assert((old(cells).size_y as int) / 2 < old(cells).size_y as int);
    }
}

/// One fixed-rate simulation step: age and prune the snake body, advance the
/// head along the buffered direction, soft-reset on a wall or self
/// collision, otherwise occupy the target cell, growing and replacing the
/// food if it held any. The contract also carries the two global laws: the
/// grid holds exactly one food cell after every tick (given spare capacity),
/// and distinctness of body ages survives every tick.
pub fn update_cells(cells: &mut Cells, head: &mut SnakeHead, direction: &mut SnakeHeadDirection)
    requires
        old(cells).wf(),
        old(cells).in_bounds(old(head).x as int, old(head).y as int),
        dir_wf(*old(direction)),
        ages_bounded(old(cells).cells@, old(head).snake_size),
        old(head).snake_size < u32::MAX,
    ensures
        final(cells).wf(),
        final(cells).size_x == old(cells).size_x,
        final(cells).size_y == old(cells).size_y,
        final(cells).in_bounds(final(head).x as int, final(head).y as int),
        dir_wf(*final(direction)),
        tick_rel(
            *old(cells),
            *old(head),
            *old(direction),
            *final(cells),
            *final(head),
            *final(direction),
        ),
        ages_bounded(final(cells).cells@, final(head).snake_size),
        ages_distinct(old(cells).cells@) ==> ages_distinct(final(cells).cells@),
        (ages_distinct(old(cells).cells@) && count_state(old(cells).cells@, CellState::Food) == 1
            && old(cells).cells@.len() > old(head).snake_size + 1) ==> count_state(
            final(cells).cells@,
            CellState::Food,
        ) == 1,
{
    let ghost pre = *old(cells);
    let ghost preh = *old(head);
    proof {
        assert forall|i: int|
            0 <= i < pre.cells@.len() && (#[trigger] pre.cells@[i]).state
                == CellState::SnakeBody implies pre.cells@[i].snake_body_lifetime < u32::MAX by {}
    }
    cells.decay(head.snake_size);
    let ghost dm = cells.cells@;
    proof {
        lemma_decay_properties(pre.cells@, preh.snake_size);
    }
    if direction.x == 0 && direction.y == 0 {
        proof {
            lemma_count_pointwise(pre.cells@, dm, CellState::Food);
        }
        return ;
    }
    let nx = head.x + direction.x;
    let ny = head.y + direction.y;
    if nx < 0 || nx >= cells.size_x || ny < 0 || ny >= cells.size_y {
        soft_reset(cells, head, direction);
        proof {
            lemma_no_body_ages(cells.cells@, head.snake_size);
        }
        return ;
    }
    let target = cells.get_cell(nx, ny);
    let ghost idx = pre.spec_index_of(nx as int, ny as int);
    proof {
        crate::grid::lemma_index_in_range(
            pre.size_x as int,
            pre.size_y as int,
            nx as int,
            ny as int,
        );
    }
    match target.state {
        CellState::Empty => {
            let mut t2 = target;
            t2.state = CellState::SnakeBody;
            t2.snake_body_lifetime = 0;
            cells.set_cell(nx, ny, t2);
            head.x = nx;
            head.y = ny;
            proof {
                assert(t2 == as_new_body(dm[idx]));
                lemma_occupy_properties(pre.cells@, dm, idx, preh.snake_size);
                assert forall|i2: int| 0 <= i2 < cells.cells@.len() implies (
                #[trigger] cells.cells@[i2]).cell_x_index == i2 % (cells.size_x as int)
                    && cells.cells@[i2].cell_y_index == i2 / (cells.size_x as int) by {
                    assert(dm[i2].cell_x_index == i2 % (cells.size_x as int));
                }
                if ages_distinct(pre.cells@) && count_state(pre.cells@, CellState::Food) == 1 {
                    lemma_count_pointwise(pre.cells@, dm, CellState::Food);
                    lemma_count_update(dm, idx, as_new_body(dm[idx]), CellState::Food);
                }
            }
        },
        CellState::Food => {
            let mut t2 = target;
            t2.state = CellState::SnakeBody;
            t2.snake_body_lifetime = 0;
            cells.set_cell(nx, ny, t2);
            head.x = nx;
            head.y = ny;
            head.snake_size = head.snake_size + 1;
            let ghost eaten = cells.cells@;
            proof {
                assert(t2 == as_new_body(dm[idx]));
                assert(eaten == dm.update(idx, as_new_body(dm[idx])));
                lemma_occupy_properties(pre.cells@, dm, idx, preh.snake_size);
                assert forall|i2: int| 0 <= i2 < cells.cells@.len() implies (
                #[trigger] cells.cells@[i2]).cell_x_index == i2 % (cells.size_x as int)
                    && cells.cells@[i2].cell_y_index == i2 / (cells.size_x as int) by {
                    assert(dm[i2].cell_x_index == i2 % (cells.size_x as int));
                }
            }
            cells.add_food();
            proof {
                lemma_place_keeps_bodies(eaten, cells.cells@, head.snake_size);
                if ages_distinct(pre.cells@) && count_state(pre.cells@, CellState::Food) == 1
                    && pre.cells@.len() > preh.snake_size + 1 {
                    lemma_count_pointwise(pre.cells@, dm, CellState::Food);
                    lemma_count_update(dm, idx, as_new_body(dm[idx]), CellState::Food);
                    assert(count_state(eaten, CellState::Food) == 0);
                    lemma_count_body_age_range(dm, 1, preh.snake_size + 1);
                    lemma_count_update(dm, idx, as_new_body(dm[idx]), CellState::SnakeBody);
                    lemma_count_below_len(eaten, CellState::SnakeBody);
                    assert(has_free_cell(eaten));
                    let j = choose|j: int|
                        0 <= j < eaten.len() && eaten[j].state != CellState::SnakeBody
                            && cells.cells@ == eaten.update(
                            j,
                            with_state(eaten[j], CellState::Food),
                        );
                    lemma_count_zero(eaten, CellState::Food);
                    lemma_count_update(eaten, j, with_state(eaten[j], CellState::Food),
                        CellState::Food);
                }
            }
        },
        CellState::SnakeBody => {
            soft_reset(cells, head, direction);
            proof {
                lemma_no_body_ages(cells.cells@, head.snake_size);
            }
        },
    }
}

/// Occupancy law: whenever the snake-body ages are pairwise distinct and
/// bounded by `snake_size` — which `game_setup` establishes and, per its
/// contract, every `update_cells` tick preserves — the snake occupies at
/// most `snake_size + 1` cells, the extra one accounting for the decay pass
/// running before the head advances within a tick.
pub proof fn lemma_snake_occupancy(s: Seq<Cell>, snake_size: u32)
    requires
        ages_distinct(s),
        ages_bounded(s, snake_size),
    ensures
        count_state(s, CellState::SnakeBody) <= snake_size + 1,
{
    lemma_count_body_age_range(s, 0, snake_size + 1);
}

/// Creates the initial game state: a `size_x` by `size_y` grid of empty
/// cells with one random food cell, the head centered with the initial
/// target length, and the direction pointing down.
#[verifier::rlimit(50)]
pub fn game_setup(size_x: i32, size_y: i32) -> (r: (Cells, SnakeHead, SnakeHeadDirection))
    requires
        0 < size_x,
        0 < size_y,
        size_x * size_y <= i32::MAX,
    ensures
        r.0.wf(),
        r.0.size_x == size_x,
        r.0.size_y == size_y,
        count_state(r.0.cells@, CellState::Food) == 1,
        count_state(r.0.cells@, CellState::SnakeBody) == 0,
        exists|j: int|
            0 <= j < r.0.cells@.len() && r.0.cells@[j].state == CellState::Food && (forall|i: int|
                0 <= i < r.0.cells@.len() && i != j ==> (#[trigger] r.0.cells@[i]).state
                    == CellState::Empty),
        forall|i: int|
            0 <= i < r.0.cells@.len() ==> (#[trigger] r.0.cells@[i]).snake_body_lifetime == 0,
        r.1.x == (size_x as int) / 2,
        r.1.y == (size_y as int) / 2,
        r.1.snake_size == INITIAL_SNAKE_SIZE,
        r.2.x == 0,
        r.2.y == 1,
        dir_wf(r.2),
        r.0.in_bounds(r.1.x as int, r.1.y as int),
        ages_distinct(r.0.cells@),
        ages_bounded(r.0.cells@, r.1.snake_size),
{
    let mut cells = Cells::new(size_x, size_y);
    let ghost fresh = cells.cells@;
    cells.add_food();
    let head = SnakeHead {
        x: ((size_x as u32) / 2) as i32,
        y: ((size_y as u32) / 2) as i32,
        snake_size: INITIAL_SNAKE_SIZE,
    };
    let direction = SnakeHeadDirection { x: 0, y: 1 };
    proof {
        lemma_count_zero(fresh, CellState::Food);
        lemma_count_zero(fresh, CellState::SnakeBody);
        crate::grid::lemma_index_in_range(size_x as int, size_y as int, 0, 0);
        assert(fresh[0].state == CellState::Empty);
        assert(has_free_cell(fresh));
        let j = choose|j: int|
            0 <= j < fresh.len() && fresh[j].state != CellState::SnakeBody && cells.cells@
                == fresh.update(j, with_state(fresh[j], CellState::Food));
        lemma_count_update(fresh, j, with_state(fresh[j], CellState::Food), CellState::Food);
        lemma_count_update(fresh, j, with_state(fresh[j], CellState::Food), CellState::SnakeBody);
        assert forall|i: int|
            0 <= i < cells.cells@.len() && i != j implies (#[trigger] cells.cells@[i]).state
            == CellState::Empty by {
            assert(cells.cells@[i] == fresh[i]);
        }
        assert(cells.cells@[j].state == CellState::Food);
        lemma_no_body_ages(cells.cells@, INITIAL_SNAKE_SIZE);
        assert((size_x as int) / 2 < size_x as int);
        assert((size_y as int) / 2 < size_y as int);
    }
    (cells, head, direction)
}

/// After the decay pass every surviving body cell has age between 1 and
/// `snake_size`; decay touches no food cell; distinctness of body ages
/// survives it.
proof fn lemma_decay_properties(s: Seq<Cell>, snake_size: u32)
    ensures
        ages_bounded(decayed_seq(s, snake_size), snake_size),
        forall|i: int|
            0 <= i < s.len() && (#[trigger] decayed_seq(s, snake_size)[i]).state
                == CellState::SnakeBody ==> decayed_seq(s, snake_size)[i].snake_body_lifetime >= 1,
        forall|i: int|
            0 <= i < s.len() ==> (((#[trigger] s[i]).state == CellState::Food) <==> ((
            #[trigger] decayed_seq(s, snake_size)[i]).state == CellState::Food)),
        ages_distinct(s) ==> ages_distinct(decayed_seq(s, snake_size)),
{
    let dm = decayed_seq(s, snake_size);
    assert forall|i: int|
        0 <= i < dm.len() && (#[trigger] dm[i]).state == CellState::SnakeBody implies dm[i].snake_body_lifetime
        <= snake_size && dm[i].snake_body_lifetime >= 1 by {
        assert(dm[i] == decayed_cell(s[i], snake_size));
    }
    if ages_distinct(s) {
        assert forall|i: int, j: int|
            0 <= i < dm.len() && 0 <= j < dm.len() && i != j && (#[trigger] dm[i]).state
                == CellState::SnakeBody && (#[trigger] dm[j]).state
                == CellState::SnakeBody implies dm[i].snake_body_lifetime
            != dm[j].snake_body_lifetime by {
            assert(dm[i] == decayed_cell(s[i], snake_size));
            assert(dm[j] == decayed_cell(s[j], snake_size));
            assert(s[i].state == CellState::SnakeBody);
            assert(s[j].state == CellState::SnakeBody);
        }
    }
}

/// A grid with no snake-body cell trivially satisfies both age laws.
proof fn lemma_no_body_ages(s: Seq<Cell>, snake_size: u32)
    requires
        count_state(s, CellState::SnakeBody) == 0,
    ensures
        ages_distinct(s),
        ages_bounded(s, snake_size),
{
    lemma_count_zero(s, CellState::SnakeBody);
}

/// Setting the decayed target cell to a fresh body cell keeps the body ages
/// bounded (by the old bound and any larger one) and pairwise distinct.
proof fn lemma_occupy_properties(s: Seq<Cell>, dm: Seq<Cell>, idx: int, snake_size: u32)
    requires
        dm == decayed_seq(s, snake_size),
        0 <= idx < dm.len(),
    ensures
        forall|b: u32|
            snake_size <= b ==> ages_bounded(#[trigger] dm.update(idx, as_new_body(dm[idx])), b),
        ages_distinct(s) ==> ages_distinct(dm.update(idx, as_new_body(dm[idx]))),
{
    let up = dm.update(idx, as_new_body(dm[idx]));
    lemma_decay_properties(s, snake_size);
    assert forall|b: u32| snake_size <= b implies ages_bounded(
        #[trigger] dm.update(idx, as_new_body(dm[idx])),
        b,
    ) by {
        assert forall|i: int|
            0 <= i < up.len() && (#[trigger] up[i]).state == CellState::SnakeBody implies up[i].snake_body_lifetime
            <= b by {
            if i != idx {
                assert(up[i] == dm[i]);
            }
        }
    }
    if ages_distinct(s) {
        assert forall|i: int, j: int|
            0 <= i < up.len() && 0 <= j < up.len() && i != j && (#[trigger] up[i]).state
                == CellState::SnakeBody && (#[trigger] up[j]).state
                == CellState::SnakeBody implies up[i].snake_body_lifetime
            != up[j].snake_body_lifetime by {
            if i != idx && j != idx {
                assert(up[i] == dm[i]);
                assert(up[j] == dm[j]);
            } else if i == idx {
                assert(up[j] == dm[j]);
                assert(up[i].snake_body_lifetime == 0);
            } else {
                assert(up[i] == dm[i]);
                assert(up[j].snake_body_lifetime == 0);
            }
        }
    }
}

/// Food placement never touches a snake-body cell, so both age laws survive
/// it.
pub proof fn lemma_place_keeps_bodies(pre: Seq<Cell>, post: Seq<Cell>, snake_size: u32)
    requires
        food_placed(pre, post),
    ensures
        ages_bounded(pre, snake_size) ==> ages_bounded(post, snake_size),
        ages_distinct(pre) ==> ages_distinct(post),
{
    if has_free_cell(pre) {
        let j = choose|j: int|
            0 <= j < pre.len() && pre[j].state != CellState::SnakeBody && post == pre.update(
                j,
                with_state(pre[j], CellState::Food),
            );
        if ages_bounded(pre, snake_size) {
            assert forall|i: int|
                0 <= i < post.len() && (#[trigger] post[i]).state
                    == CellState::SnakeBody implies post[i].snake_body_lifetime <= snake_size by {
                assert(post[i] == pre[i]);
            }
        }
        if ages_distinct(pre) {
            assert forall|i: int, i2: int|
                0 <= i < post.len() && 0 <= i2 < post.len() && i != i2 && (#[trigger] post[i]).state
                    == CellState::SnakeBody && (#[trigger] post[i2]).state
                    == CellState::SnakeBody implies post[i].snake_body_lifetime
                != post[i2].snake_body_lifetime by {
                assert(post[i] == pre[i]);
                assert(post[i2] == pre[i2]);
            }
        }
    }
}

} // verus!
