//! The grid and its transition model.
//!
//! Cells are laid out row by row. Inside the library a cell is addressed by
//! its index, `0..CELLS`; callers, obstacle lists and recorded walks number the
//! cells from one, so cell `n` has index `n - 1`.

use vstd::prelude::*;
use crate::error::GridError;
use crate::lists::holds;

verus! {

/// Rows of the grid.
pub const ROWS: usize = 5;

/// Columns of the grid.
pub const COLS: usize = 5;

/// Cells of the grid.
pub const CELLS: usize = ROWS * COLS;

/// Action code: one row towards the top.
pub const UP: i32 = 1;

/// Action code: one row towards the bottom.
pub const DOWN: i32 = 2;

/// Action code: one column to the left.
pub const LEFT: i32 = 3;

/// Action code: one column to the right.
pub const RIGHT: i32 = 4;

/// Whether `action` is one of the four action codes.
pub open spec fn is_action(action: int) -> bool {
    action == UP || action == DOWN || action == LEFT || action == RIGHT
}

/// What an action adds to a cell's index (and to its number) when nothing
/// blocks it; zero for anything that is no action code.
pub open spec fn offset(action: int) -> int {
    if action == UP {
        -(COLS as int)
    } else if action == DOWN {
        COLS as int
    } else if action == LEFT {
        -1
    } else if action == RIGHT {
        1
    } else {
        0
    }
}

/// The boundary rule: the action points off the grid from the cell at `pos`.
pub open spec fn spec_hits_boundary(pos: int, action: int) -> bool {
    if action == UP {
        pos < COLS
    } else if action == DOWN {
        pos >= CELLS - COLS
    } else if action == LEFT {
        pos % (COLS as int) == 0
    } else if action == RIGHT {
        pos % (COLS as int) == COLS - 1
    } else {
        false
    }
}

/// The obstacle rule: the cell that the action points to from the cell at
/// `pos` is listed as an obstacle. Obstacles are cell numbers, so the cell at
/// `pos` enters as `pos + 1`.
pub open spec fn spec_hits_obstacles(pos: int, action: int, obstacles: Seq<i32>) -> bool {
    is_action(action) && exists|k: int|
        0 <= k < obstacles.len() && #[trigger] obstacles[k] == pos + 1 + offset(action)
}

/// The transition model: the index reached from `pos` by `action`. A blocked
/// move stays where it is; anything that is no action code yields index 0.
pub open spec fn spec_moving(pos: int, action: int, obstacles: Seq<i32>) -> int {
    if spec_hits_boundary(pos, action) || spec_hits_obstacles(pos, action, obstacles) {
        pos
    } else if is_action(action) {
        pos + offset(action)
    } else {
        0
    }
}

/// Row of the cell at `pos`.
pub open spec fn row_of(pos: int) -> int {
    pos / (COLS as int)
}

/// Column of the cell at `pos`.
pub open spec fn col_of(pos: int) -> int {
    pos % (COLS as int)
}

/// Whether `action` points off the grid from the cell at `pos`: up from the
/// top row, down from the bottom row, left from the first column, right from
/// the last.
pub open spec fn points_off_grid(pos: int, action: int) -> bool {
    ||| action == UP && row_of(pos) == 0
    ||| action == DOWN && row_of(pos) == ROWS - 1
    ||| action == LEFT && col_of(pos) == 0
    ||| action == RIGHT && col_of(pos) == COLS - 1
}

/// Whether `cell` is the number of a cell, `1..=CELLS`.
pub open spec fn is_cell(cell: int) -> bool {
    1 <= cell <= CELLS
}

/// Whether every entry of `cells` is the number of a cell.
pub open spec fn are_cells(cells: Seq<i32>) -> bool {
    forall|k: int| 0 <= k < cells.len() ==> is_cell(#[trigger] cells[k] as int)
}

/// The boundary rule is the grid's shape: it blocks an action exactly where
/// the action points off the grid.
pub proof fn lemma_boundary_is_edge(pos: int, action: int)
    requires
        0 <= pos < CELLS,
    ensures
        spec_hits_boundary(pos, action) <==> points_off_grid(pos, action),
{
}

/// Boundary reflection: an action that points off the grid leaves the cell
/// where it is, whatever the obstacles, and does so again when repeated.
pub proof fn lemma_boundary_reflection(pos: int, action: int, obstacles: Seq<i32>)
    requires
        0 <= pos < CELLS,
        points_off_grid(pos, action),
    ensures
        spec_moving(pos, action, obstacles) == pos,
        spec_moving(spec_moving(pos, action, obstacles), action, obstacles) == pos,
{
}

/// Obstacle blocking: an action that points to a listed obstacle leaves the
/// cell where it is.
pub proof fn lemma_obstacle_blocks(pos: int, action: int, obstacles: Seq<i32>, k: int)
    requires
        is_action(action),
        0 <= k < obstacles.len(),
        obstacles[k] == pos + 1 + offset(action),
    ensures
        spec_moving(pos, action, obstacles) == pos,
{
}

/// No move ends on an obstacle: where the transition model changes the cell,
/// the cell reached is not listed.
pub proof fn lemma_never_enters_obstacle(pos: int, action: int, obstacles: Seq<i32>)
    requires
        0 <= pos < CELLS,
        is_action(action),
        spec_moving(pos, action, obstacles) != pos,
    ensures
        !obstacles.contains((spec_moving(pos, action, obstacles) + 1) as i32),
{
    let aimed = spec_moving(pos, action, obstacles) + 1;
    if obstacles.contains(aimed as i32) {
        let k = choose|k: int| 0 <= k < obstacles.len() && obstacles[k] == aimed as i32;
        assert(obstacles[k] == pos + 1 + offset(action));
    }
}

/// A move stays on the grid and never wraps around a row: it ends where it
/// began, or one row up or down in the same column, or one column left or
/// right in the same row, as the action says.
pub proof fn lemma_moving_adjacent(pos: int, action: int, obstacles: Seq<i32>)
    requires
        0 <= pos < CELLS,
        is_action(action),
    ensures
        0 <= spec_moving(pos, action, obstacles) < CELLS,
        spec_moving(pos, action, obstacles) != pos ==> {
            let next = spec_moving(pos, action, obstacles);
            &&& action == UP ==> row_of(next) == row_of(pos) - 1 && col_of(next) == col_of(pos)
            &&& action == DOWN ==> row_of(next) == row_of(pos) + 1 && col_of(next) == col_of(pos)
            &&& action == LEFT ==> row_of(next) == row_of(pos) && col_of(next) == col_of(pos) - 1
            &&& action == RIGHT ==> row_of(next) == row_of(pos) && col_of(next) == col_of(pos) + 1
        },
{
}

/// Tells whether `action` would leave the grid from the cell at `pos`.
pub fn hits_boundary(pos: usize, action: i32) -> (hit: bool)
    requires
        pos < CELLS,
    ensures
        hit == spec_hits_boundary(pos as int, action as int),
{
    if action == UP {
        pos < COLS
    } else if action == DOWN {
        pos >= CELLS - COLS
    } else if action == LEFT {
        pos % COLS == 0
    } else if action == RIGHT {
        pos % COLS == COLS - 1
    } else {
        false
    }
}

/// Tells whether `action` would enter an obstacle from the cell at `pos`.
pub fn hits_obstacles(pos: usize, action: i32, obstacles: &Vec<i32>) -> (hit: bool)
    requires
        pos < CELLS,
    ensures
        hit == spec_hits_obstacles(pos as int, action as int, obstacles@),
{
    let step: i32 = if action == UP {
        -(COLS as i32)
    } else if action == DOWN {
        COLS as i32
    } else if action == LEFT {
        -1
    } else if action == RIGHT {
        1
    } else {
        return false;
    };
    let aimed: i32 = pos as i32 + 1 + step;
    let hit = holds(obstacles, aimed);
    proof {
        if hit {
            let k = choose|k: int| 0 <= k < obstacles@.len() && obstacles@[k] == aimed;
            assert(obstacles@[k] == pos + 1 + offset(action as int));
        }
    }
    hit
}

/// Moves from the cell at `pos` as `action` says, unless the grid's edge or an
/// obstacle is in the way.
pub fn moving(pos: usize, action: i32, obstacles: &Vec<i32>) -> (next: usize)
    requires
        pos < CELLS,
    ensures
        next == spec_moving(pos as int, action as int, obstacles@),
        next < CELLS,
{
    if hits_boundary(pos, action) {
        pos
    } else if hits_obstacles(pos, action, obstacles) {
        pos
    } else if action == UP {
        pos - COLS
    } else if action == DOWN {
        pos + COLS
    } else if action == LEFT {
        pos - 1
    } else if action == RIGHT {
        pos + 1
    } else {
        0
    }
}

/// Turns a cell number into the cell's index.
pub fn cell_index(cell: i32) -> (index: Result<usize, GridError>)
    ensures
        is_cell(cell as int) ==> index == Ok::<usize, GridError>((cell - 1) as usize),
        !is_cell(cell as int) ==> index == Err::<usize, GridError>(GridError::InvalidCellIndex),
{
    if 1 <= cell && cell <= CELLS as i32 {
        Ok((cell - 1) as usize)
    } else {
        Err(GridError::InvalidCellIndex)
    }
}

/// Accepts a list of obstacles in which every entry is the number of a cell.
pub fn check_obstacles(obstacles: &Vec<i32>) -> (checked: Result<(), GridError>)
    ensures
        are_cells(obstacles@) ==> checked is Ok,
        !are_cells(obstacles@) ==> checked == Err::<(), GridError>(GridError::InvalidCellIndex),
{
    let mut k: usize = 0;
    while k < obstacles.len()
        invariant
            k <= obstacles.len(),
            forall|j: int| 0 <= j < k ==> is_cell(#[trigger] obstacles@[j] as int),
        decreases obstacles.len() - k,
    {
        if cell_index(obstacles[k]).is_err() {
            return Err(GridError::InvalidCellIndex);
        }
        k += 1;
    }
    Ok(())
}

/// The transition model for callers that number the cells from one: moves
/// from `cell` as `action` says, and turns down a `cell` that is no cell
/// number and an `action` that is no action code.
pub fn checked_moving(cell: i32, action: i32, obstacles: &Vec<i32>) -> (next: Result<
    i32,
    GridError,
>)
    ensures
        !is_cell(cell as int) ==> next == Err::<i32, GridError>(GridError::InvalidCellIndex),
        is_cell(cell as int) && !is_action(action as int) ==> next == Err::<i32, GridError>(
            GridError::InvalidActionCode,
        ),
        is_cell(cell as int) && is_action(action as int) ==> next == Ok::<i32, GridError>(
            (spec_moving(cell - 1, action as int, obstacles@) + 1) as i32,
        ),
{
    match cell_index(cell) {
        Err(e) => Err(e),
        Ok(pos) => {
            if action == UP || action == DOWN || action == LEFT || action == RIGHT {
                Ok(moving(pos, action, obstacles) as i32 + 1)
            } else {
                Err(GridError::InvalidActionCode)
            }
        },
    }
}

} // verus!
