use snake_game::grid::Cell;
use snake_game::grid::CellState;
use snake_game::grid::Cells;
use snake_game::snake::game_setup;
use snake_game::snake::set_direction;
use snake_game::snake::update_cells;
use snake_game::snake::InputEdges;
use snake_game::snake::SnakeHead;
use snake_game::snake::SnakeHeadDirection;

fn empty_grid(size_x: i32, size_y: i32) -> Cells {
    let mut cells: Vec<Cell> = Vec::new();
    for y in 0..size_y {
        for x in 0..size_x {
            cells.push(Cell {
                cell_x_index: x,
                cell_y_index: y,
                state: CellState::Empty,
                snake_body_lifetime: 0,
            });
        }
    }
    Cells { cells, size_x, size_y }
}

fn set_state(g: &mut Cells, x: i32, y: i32, state: CellState, lifetime: u32) {
    let idx = (x + y * g.size_x) as usize;
    g.cells[idx].state = state;
    g.cells[idx].snake_body_lifetime = lifetime;
}

fn state_at(g: &Cells, x: i32, y: i32) -> CellState {
    g.cells[(x + y * g.size_x) as usize].state
}

fn lifetime_at(g: &Cells, x: i32, y: i32) -> u32 {
    g.cells[(x + y * g.size_x) as usize].snake_body_lifetime
}

fn count_of(g: &Cells, state: CellState) -> usize {
    g.cells.iter().filter(|c| c.state == state).count()
}

fn no_keys() -> InputEdges {
    InputEdges {
        add_food_pressed: false,
        grow_pressed: false,
        up_pressed: false,
        down_pressed: false,
        left_pressed: false,
        right_pressed: false,
    }
}

#[test]
fn initial_state_after_setup() {
    let (g, head, dir) = game_setup(4, 4);
    assert_eq!(g.size_x, 4);
    assert_eq!(g.size_y, 4);
    assert_eq!(g.cells.len(), 16);
    assert_eq!(head.x, 2);
    assert_eq!(head.y, 2);
    assert_eq!(head.snake_size, 6);
    assert_eq!(dir.x, 0);
    assert_eq!(dir.y, 1);
    assert_eq!(count_of(&g, CellState::Food), 1);
    assert_eq!(count_of(&g, CellState::SnakeBody), 0);
    assert_eq!(count_of(&g, CellState::Empty), 15);
    assert!(g.cells.iter().all(|c| c.snake_body_lifetime == 0));
}

#[test]
fn grid_cells_carry_row_major_coordinates() {
    let (g, _, _) = game_setup(3, 2);
    for i in 0..6usize {
        assert_eq!(g.cells[i].cell_x_index, (i % 3) as i32);
        assert_eq!(g.cells[i].cell_y_index, (i / 3) as i32);
    }
}

#[test]
fn get_cell_reads_row_major() {
    let mut g = empty_grid(4, 3);
    set_state(&mut g, 3, 1, CellState::Food, 0);
    let c = g.get_cell(3, 1);
    assert_eq!(c.state, CellState::Food);
    assert_eq!(g.get_cell(0, 0).state, CellState::Empty);
}

#[test]
fn snapshot_codes_are_row_major() {
    let mut g = empty_grid(2, 2);
    set_state(&mut g, 1, 0, CellState::SnakeBody, 0);
    set_state(&mut g, 0, 1, CellState::Food, 0);
    let codes = g.snapshot();
    assert_eq!(codes, vec![0, 1, 2, 0]);
}

#[test]
fn add_food_on_full_grid_is_a_no_op() {
    let mut g = empty_grid(2, 2);
    for y in 0..2 {
        for x in 0..2 {
            set_state(&mut g, x, y, CellState::SnakeBody, 0);
        }
    }
    g.add_food();
    assert_eq!(count_of(&g, CellState::Food), 0);
    assert_eq!(count_of(&g, CellState::SnakeBody), 4);
}

#[test]
fn add_food_lands_on_the_only_free_cell() {
    // All cells but one hold the snake, so whatever the random draw, the
    // food must land on the single free cell.
    let mut g = empty_grid(2, 2);
    set_state(&mut g, 0, 0, CellState::SnakeBody, 0);
    set_state(&mut g, 1, 0, CellState::SnakeBody, 0);
    set_state(&mut g, 0, 1, CellState::SnakeBody, 0);
    g.add_food();
    assert_eq!(state_at(&g, 1, 1), CellState::Food);
    assert_eq!(count_of(&g, CellState::Food), 1);
}

#[test]
fn clear_leaves_one_food_and_no_snake() {
    let mut g = empty_grid(3, 3);
    set_state(&mut g, 0, 0, CellState::SnakeBody, 2);
    set_state(&mut g, 1, 0, CellState::SnakeBody, 1);
    set_state(&mut g, 2, 2, CellState::Food, 0);
    g.clear();
    assert_eq!(count_of(&g, CellState::Food), 1);
    assert_eq!(count_of(&g, CellState::SnakeBody), 0);
    assert_eq!(count_of(&g, CellState::Empty), 8);
}

#[test]
fn decay_removes_cell_at_age_snake_size() {
    let mut g = empty_grid(2, 2);
    set_state(&mut g, 0, 0, CellState::SnakeBody, 2);
    set_state(&mut g, 1, 0, CellState::SnakeBody, 1);
    g.decay(2);
    assert_eq!(state_at(&g, 0, 0), CellState::Empty);
    assert_eq!(state_at(&g, 1, 0), CellState::SnakeBody);
    assert_eq!(lifetime_at(&g, 1, 0), 2);
}

#[test]
fn reversal_rule_moving_right() {
    let mut g = empty_grid(4, 4);
    let mut head = SnakeHead { x: 1, y: 1, snake_size: 6 };
    let keys_up = InputEdges { up_pressed: true, ..no_keys() };
    let keys_down = InputEdges { down_pressed: true, ..no_keys() };
    let keys_left = InputEdges { left_pressed: true, ..no_keys() };

    let mut d = SnakeHeadDirection { x: 1, y: 0 };
    set_direction(&mut d, &mut g, &mut head, &keys_up);
    assert_eq!((d.x, d.y), (0, -1));

    let mut d = SnakeHeadDirection { x: 1, y: 0 };
    set_direction(&mut d, &mut g, &mut head, &keys_down);
    assert_eq!((d.x, d.y), (0, 1));

    let mut d = SnakeHeadDirection { x: 1, y: 0 };
    set_direction(&mut d, &mut g, &mut head, &keys_left);
    assert_eq!((d.x, d.y), (1, 0));
}

#[test]
fn reversal_rule_moving_left() {
    let mut g = empty_grid(4, 4);
    let mut head = SnakeHead { x: 1, y: 1, snake_size: 6 };
    let keys_right = InputEdges { right_pressed: true, ..no_keys() };
    let keys_up = InputEdges { up_pressed: true, ..no_keys() };

    let mut d = SnakeHeadDirection { x: -1, y: 0 };
    set_direction(&mut d, &mut g, &mut head, &keys_right);
    assert_eq!((d.x, d.y), (-1, 0));

    let mut d = SnakeHeadDirection { x: -1, y: 0 };
    set_direction(&mut d, &mut g, &mut head, &keys_up);
    assert_eq!((d.x, d.y), (0, -1));
}

#[test]
fn reversal_rule_moving_vertically() {
    let mut g = empty_grid(4, 4);
    let mut head = SnakeHead { x: 1, y: 1, snake_size: 6 };
    let keys_left = InputEdges { left_pressed: true, ..no_keys() };
    let keys_right = InputEdges { right_pressed: true, ..no_keys() };
    let keys_up = InputEdges { up_pressed: true, ..no_keys() };
    let keys_down = InputEdges { down_pressed: true, ..no_keys() };

    let mut d = SnakeHeadDirection { x: 0, y: 1 };
    set_direction(&mut d, &mut g, &mut head, &keys_left);
    assert_eq!((d.x, d.y), (-1, 0));

    let mut d = SnakeHeadDirection { x: 0, y: 1 };
    set_direction(&mut d, &mut g, &mut head, &keys_up);
    assert_eq!((d.x, d.y), (0, 1));

    let mut d = SnakeHeadDirection { x: 0, y: -1 };
    set_direction(&mut d, &mut g, &mut head, &keys_right);
    assert_eq!((d.x, d.y), (1, 0));

    let mut d = SnakeHeadDirection { x: 0, y: -1 };
    set_direction(&mut d, &mut g, &mut head, &keys_down);
    assert_eq!((d.x, d.y), (0, -1));
}

#[test]
fn no_input_accepted_before_movement_starts() {
    let mut g = empty_grid(4, 4);
    let mut head = SnakeHead { x: 1, y: 1, snake_size: 6 };
    let keys = InputEdges { up_pressed: true, left_pressed: true, right_pressed: true, ..no_keys() };
    let mut d = SnakeHeadDirection { x: 0, y: 0 };
    set_direction(&mut d, &mut g, &mut head, &keys);
    assert_eq!((d.x, d.y), (0, 0));
}

#[test]
fn debug_triggers_grow_and_feed() {
    let mut g = empty_grid(3, 3);
    set_state(&mut g, 2, 2, CellState::Food, 0);
    let mut head = SnakeHead { x: 1, y: 1, snake_size: 6 };
    let mut d = SnakeHeadDirection { x: 0, y: 1 };
    let keys = InputEdges { add_food_pressed: true, grow_pressed: true, ..no_keys() };
    set_direction(&mut d, &mut g, &mut head, &keys);
    assert_eq!(head.snake_size, 7);
    // The debug trigger places food without checking for an existing one; the
    // random draw may also land on the existing food cell, so the count ends
    // at either one or two.
    let foods = count_of(&g, CellState::Food);
    assert!(foods == 1 || foods == 2);
    assert_eq!((d.x, d.y), (0, 1));
}

#[test]
fn soft_reset_after_wall_collision() {
    let mut g = empty_grid(4, 4);
    set_state(&mut g, 0, 0, CellState::Food, 0);
    let mut head = SnakeHead { x: 2, y: 2, snake_size: 10 };
    let mut d = SnakeHeadDirection { x: 1, y: 0 };

    update_cells(&mut g, &mut head, &mut d);
    assert_eq!((head.x, head.y), (3, 2));
    assert_eq!(state_at(&g, 3, 2), CellState::SnakeBody);

    update_cells(&mut g, &mut head, &mut d);
    assert_eq!((head.x, head.y), (2, 2));
    assert_eq!(head.snake_size, 6);
    assert_eq!((d.x, d.y), (0, 1));
    assert_eq!(count_of(&g, CellState::Food), 1);
    assert_eq!(count_of(&g, CellState::SnakeBody), 0);
    assert_eq!(count_of(&g, CellState::Empty), 15);
}

#[test]
fn eating_food_grows_and_replaces_it() {
    let mut g = empty_grid(5, 5);
    set_state(&mut g, 3, 2, CellState::Food, 0);
    let mut head = SnakeHead { x: 2, y: 2, snake_size: 5 };
    let mut d = SnakeHeadDirection { x: 1, y: 0 };

    update_cells(&mut g, &mut head, &mut d);
    assert_eq!((head.x, head.y), (3, 2));
    assert_eq!(head.snake_size, 6);
    assert_eq!(state_at(&g, 3, 2), CellState::SnakeBody);
    assert_eq!(lifetime_at(&g, 3, 2), 0);
    assert_eq!(count_of(&g, CellState::Food), 1);
}

#[test]
fn self_collision_resets_the_game() {
    let mut g = empty_grid(4, 4);
    set_state(&mut g, 0, 0, CellState::Food, 0);
    set_state(&mut g, 2, 1, CellState::SnakeBody, 0);
    let mut head = SnakeHead { x: 1, y: 1, snake_size: 3 };
    let mut d = SnakeHeadDirection { x: 1, y: 0 };

    update_cells(&mut g, &mut head, &mut d);
    assert_eq!((head.x, head.y), (2, 2));
    assert_eq!(head.snake_size, 6);
    assert_eq!((d.x, d.y), (0, 1));
    assert_eq!(count_of(&g, CellState::Food), 1);
    assert_eq!(count_of(&g, CellState::SnakeBody), 0);
}

#[test]
fn body_cell_at_age_snake_size_decays_during_tick() {
    let mut g = empty_grid(4, 4);
    set_state(&mut g, 0, 0, CellState::Food, 0);
    set_state(&mut g, 1, 3, CellState::SnakeBody, 2);
    let mut head = SnakeHead { x: 2, y: 2, snake_size: 2 };
    let mut d = SnakeHeadDirection { x: 1, y: 0 };

    update_cells(&mut g, &mut head, &mut d);
    assert_eq!(state_at(&g, 1, 3), CellState::Empty);
    assert_eq!(state_at(&g, 3, 2), CellState::SnakeBody);
}

#[test]
fn exactly_one_food_after_every_tick() {
    let (mut g, mut head, mut d) = game_setup(8, 8);
    let turn_keys = [
        InputEdges { left_pressed: true, ..no_keys() },
        InputEdges { up_pressed: true, ..no_keys() },
        InputEdges { right_pressed: true, ..no_keys() },
        InputEdges { down_pressed: true, ..no_keys() },
    ];
    for i in 0..32 {
        let keys = &turn_keys[i % 4];
        set_direction(&mut d, &mut g, &mut head, keys);
        update_cells(&mut g, &mut head, &mut d);
        assert_eq!(count_of(&g, CellState::Food), 1, "tick {}", i);
    }
}

#[test]
fn snake_never_longer_than_size_plus_one() {
    let (mut g, mut head, mut d) = game_setup(6, 6);
    let turn_keys = [
        InputEdges { right_pressed: true, ..no_keys() },
        InputEdges { down_pressed: true, ..no_keys() },
        InputEdges { left_pressed: true, ..no_keys() },
        InputEdges { up_pressed: true, ..no_keys() },
    ];
    for i in 0..40 {
        let keys = &turn_keys[(i / 2) % 4];
        set_direction(&mut d, &mut g, &mut head, keys);
        update_cells(&mut g, &mut head, &mut d);
        let bodies = count_of(&g, CellState::SnakeBody);
        assert!(bodies <= head.snake_size as usize + 1, "tick {}: {} bodies", i, bodies);
    }
}
