//! The trajectory sampler: walks a policy through the grid, step by step,
//! while chance decides where a walk starts and which of the candidate actions
//! each step takes.
//!
//! Walks are recorded in cell numbers, `1..=CELLS`. Whether a step keeps to the
//! policy is decided by the caller, one flag per step; the sampler draws the
//! start cells and the actions.

use vstd::prelude::*;
use rand::Rng;
use rand::rngs::StdRng;
use rand::seq::SliceRandom;
use crate::error::GridError;
use crate::grid::{
    are_cells,
    check_obstacles,
    is_action,
    is_cell,
    lemma_moving_adjacent,
    lemma_never_enters_obstacle,
    moving,
    spec_moving,
    CELLS,
};
use crate::lists::{excluding, lemma_excluding_holds, spec_excluding};
use crate::policy::{
    available_moves,
    candidates,
    check_policy,
    intended_moves,
    is_policy,
    lemma_candidates_empty,
    spec_intended,
    ALL_ACTIONS,
};

verus! {

/// Walks that one call records.
pub const NUM_TRAJECTORIES: usize = 50;

/// Steps of each walk.
pub const TRAJECTORY_LENGTH: usize = 10;

/// Steps that one call records in all.
pub const NUM_STEPS: usize = NUM_TRAJECTORIES * TRAJECTORY_LENGTH;

/// `StdRng` of rand, the generator that the sampler draws from. Nothing is
/// known of its state, nor of what it will yield.
#[verifier::external_type_specification]
#[verifier::external_body]
pub struct ExStdRng(rand::rngs::StdRng);

/// `Rng::gen_range` of rand on an inclusive range of `i32`: the number drawn
/// lies in the range. The range must not be empty, or rand panics.
#[verifier::external_body]
fn draw_between(rng: &mut StdRng, low: i32, high: i32) -> (drawn: i32)
    requires
        low <= high,
    ensures
        low <= drawn <= high,
{
    rng.gen_range(low..=high)
}

/// `SliceRandom::choose` of rand on a slice of `i32`: nothing where the slice
/// is empty, else one of its items.
#[verifier::external_body]
fn choose_move(moves: &Vec<i32>, rng: &mut StdRng) -> (chosen: Option<i32>)
    ensures
        moves@.len() == 0 ==> chosen is None,
        moves@.len() > 0 ==> chosen is Some && moves@.contains(chosen->0),
{
    moves.choose(rng).copied()
}

/// The cells that no obstacle occupies, in ascending order.
pub open spec fn spec_free_cells(obstacles: Seq<i32>) -> Seq<i32> {
    spec_excluding(1, CELLS as int, obstacles)
}

/// Whether `cell` is a cell that no obstacle occupies.
pub open spec fn is_free(cell: int, obstacles: Seq<i32>) -> bool {
    is_cell(cell) && !obstacles.contains(cell as i32)
}

/// Whether every entry of `cells` is a cell that no obstacle occupies.
pub open spec fn are_free(cells: Seq<i32>, obstacles: Seq<i32>) -> bool {
    forall|k: int| 0 <= k < cells.len() ==> is_free(#[trigger] cells[k] as int, obstacles)
}

/// The cell that a walk is in after it attempts `action` in `cell`; the walk
/// stays where it is on anything that is no action code.
pub open spec fn spec_advance(cell: int, action: int, obstacles: Seq<i32>) -> int {
    if is_action(action) {
        spec_moving(cell - 1, action, obstacles) + 1
    } else {
        cell
    }
}

/// Whether some cell is free of obstacles.
pub open spec fn has_free_cell(obstacles: Seq<i32>) -> bool {
    exists|cell: int| is_free(cell, obstacles)
}

/// Whether one step of a walk may lead from the cell `from` to the cell `to`:
/// some candidate action of the policy's code for `from` does so.
pub open spec fn is_step(
    policy: Seq<i32>,
    obstacles: Seq<i32>,
    keeps: bool,
    from: int,
    to: int,
) -> bool {
    is_cell(from) && exists|action: i32| #[trigger]
        candidates(policy[from - 1] as int, keeps).contains(action) && to == spec_advance(
            from,
            action as int,
            obstacles,
        )
}

/// The cell that a walk is in before its step number `step`: the start cell
/// before the first step, else the cell that the step before recorded.
pub open spec fn cell_before(cells: Seq<i32>, start: int, step: int) -> int {
    if step == 0 {
        start
    } else {
        cells[step - 1] as int
    }
}

/// Whether step number `step` of the walk `cells`, begun in `start`, is a step
/// that the policy, the obstacles and the step's flag allow.
pub open spec fn step_holds(
    policy: Seq<i32>,
    obstacles: Seq<i32>,
    keeps: Seq<bool>,
    cells: Seq<i32>,
    start: int,
    step: int,
) -> bool {
    is_step(policy, obstacles, keeps[step], cell_before(cells, start, step), cells[step] as int)
}

/// Whether `cells` records a walk: it begins in some free cell, which is not
/// recorded, and each entry is reached from the cell before by a step that the
/// policy, the obstacles and the step's flag in `keeps` allow.
pub open spec fn is_walk(
    policy: Seq<i32>,
    obstacles: Seq<i32>,
    keeps: Seq<bool>,
    cells: Seq<i32>,
) -> bool {
    cells.len() == keeps.len() && exists|start: int|
        is_free(start, obstacles) && forall|step: int|
            0 <= step < cells.len() ==> #[trigger] step_holds(
                policy,
                obstacles,
                keeps,
                cells,
                start,
                step,
            )
}

/// Whether a walk can run out of actions: the policy intends all four actions
/// somewhere, and some step is to leave the intended set.
pub open spec fn may_strand(policy: Seq<i32>, keeps: Seq<bool>) -> bool {
    (exists|i: int| 0 <= i < policy.len() && #[trigger] policy[i] == ALL_ACTIONS) && (exists|
        step: int,
    |
        0 <= step < keeps.len() && !#[trigger] keeps[step])
}

/// The part of a record of all walks that belongs to walk number `walk`.
pub open spec fn walk_part<T>(all: Seq<T>, walk: int) -> Seq<T> {
    all.subrange(walk * TRAJECTORY_LENGTH, (walk + 1) * TRAJECTORY_LENGTH)
}

/// The fault for which a request for walks is turned down before any is
/// drawn, if there is one. The faults are looked for in this order.
pub open spec fn spec_rejection(policy: Seq<i32>, obstacles: Seq<i32>, keeps: Seq<bool>) -> Option<
    GridError,
> {
    if policy.len() != CELLS || keeps.len() != NUM_STEPS {
        Some(GridError::InvalidDimension)
    } else if !are_cells(obstacles) {
        Some(GridError::InvalidCellIndex)
    } else if !is_policy(policy) {
        Some(GridError::InvalidActionCode)
    } else if !has_free_cell(obstacles) {
        Some(GridError::NoFreeCell)
    } else {
        None
    }
}

/// Whether `policy` names a single action for each cell.
pub open spec fn is_single_action_policy(policy: Seq<i32>) -> bool {
    policy.len() == CELLS && forall|i: int|
        0 <= i < policy.len() ==> is_action(#[trigger] policy[i] as int)
}

/// The cell that a walk from `start` is in after `steps` steps, where each
/// step takes the action that `policy` names for the cell at hand.
pub open spec fn follow(policy: Seq<i32>, obstacles: Seq<i32>, start: int, steps: nat) -> int
    decreases steps,
{
    if steps == 0 {
        start
    } else {
        let at = follow(policy, obstacles, start, (steps - 1) as nat);
        spec_advance(at, policy[at - 1] as int, obstacles)
    }
}

/// A step from a free cell ends in a free cell: it stays, or it moves to a
/// cell that is no obstacle.
pub proof fn lemma_step_stays_free(cell: int, action: int, obstacles: Seq<i32>)
    requires
        is_free(cell, obstacles),
    ensures
        is_free(spec_advance(cell, action, obstacles), obstacles),
{
    if is_action(action) {
        lemma_moving_adjacent(cell - 1, action, obstacles);
        if spec_moving(cell - 1, action, obstacles) != cell - 1 {
            lemma_never_enters_obstacle(cell - 1, action, obstacles);
        }
    }
}

/// The first `step + 1` entries of a walk from a free cell are free cells.
proof fn lemma_free_prefix(
    policy: Seq<i32>,
    obstacles: Seq<i32>,
    keeps: Seq<bool>,
    cells: Seq<i32>,
    start: int,
    step: int,
)
    requires
        0 <= step < cells.len(),
        is_free(start, obstacles),
        forall|s: int|
            0 <= s < cells.len() ==> #[trigger] step_holds(
                policy,
                obstacles,
                keeps,
                cells,
                start,
                s,
            ),
    ensures
        is_free(cells[step] as int, obstacles),
    decreases step,
{
    if step > 0 {
        lemma_free_prefix(policy, obstacles, keeps, cells, start, step - 1);
    }
    let from = cell_before(cells, start, step);
    assert(step_holds(policy, obstacles, keeps, cells, start, step));
    let action = choose|action: i32| #[trigger]
        candidates(policy[from - 1] as int, keeps[step]).contains(action) && cells[step]
            == spec_advance(from, action as int, obstacles);
    lemma_step_stays_free(from, action as int, obstacles);
}

/// A walk never sets foot on an obstacle: every cell it records is free.
pub proof fn lemma_walk_avoids_obstacles(
    policy: Seq<i32>,
    obstacles: Seq<i32>,
    keeps: Seq<bool>,
    cells: Seq<i32>,
)
    requires
        is_walk(policy, obstacles, keeps, cells),
    ensures
        are_free(cells, obstacles),
{
    let start = choose|start: int|
        is_free(start, obstacles) && forall|step: int|
            0 <= step < cells.len() ==> #[trigger] step_holds(
                policy,
                obstacles,
                keeps,
                cells,
                start,
                step,
            );
    assert forall|k: int| 0 <= k < cells.len() implies is_free(
        #[trigger] cells[k] as int,
        obstacles,
    ) by {
        lemma_free_prefix(policy, obstacles, keeps, cells, start, k);
    }
}

/// A step that keeps to a policy code of a single action takes that action:
/// where it leads is not left to chance.
pub proof fn lemma_certain_step(policy: Seq<i32>, obstacles: Seq<i32>, from: int, to: int)
    requires
        policy.len() == CELLS,
        is_action(policy[from - 1] as int),
        is_step(policy, obstacles, true, from, to),
    ensures
        to == spec_advance(from, policy[from - 1] as int, obstacles),
        is_cell(to),
{
    let code = policy[from - 1];
    let action = choose|action: i32| #[trigger]
        candidates(code as int, true).contains(action) && to == spec_advance(
            from,
            action as int,
            obstacles,
        );
    assert(spec_intended(code as int) == seq![code]);
    assert(action == code);
}

/// Under a policy of single actions, the first `step + 1` entries of a walk
/// whose steps all keep to the policy are where `follow` says.
proof fn lemma_follow_prefix(
    policy: Seq<i32>,
    obstacles: Seq<i32>,
    keeps: Seq<bool>,
    cells: Seq<i32>,
    start: int,
    step: int,
)
    requires
        is_single_action_policy(policy),
        cells.len() == keeps.len(),
        0 <= step < cells.len(),
        is_cell(start),
        forall|s: int| 0 <= s < keeps.len() ==> keeps[s],
        forall|s: int|
            0 <= s < cells.len() ==> #[trigger] step_holds(
                policy,
                obstacles,
                keeps,
                cells,
                start,
                s,
            ),
    ensures
        cells[step] == follow(policy, obstacles, start, (step + 1) as nat),
        is_cell(cells[step] as int),
    decreases step,
{
    if step > 0 {
        lemma_follow_prefix(policy, obstacles, keeps, cells, start, step - 1);
    }
    let at = cell_before(cells, start, step);
    assert(at == follow(policy, obstacles, start, step as nat));
    assert(step_holds(policy, obstacles, keeps, cells, start, step));
    lemma_certain_step(policy, obstacles, at, cells[step] as int);
    assert(follow(policy, obstacles, start, (step + 1) as nat) == spec_advance(
        at,
        policy[at - 1] as int,
        obstacles,
    ));
}

/// With every step keeping to a policy of single actions, a walk is settled
/// by the cell it starts in: each entry is the cell that the policy's own
/// action leads to from the cell before.
pub proof fn lemma_certain_walk(
    policy: Seq<i32>,
    obstacles: Seq<i32>,
    keeps: Seq<bool>,
    cells: Seq<i32>,
)
    requires
        is_single_action_policy(policy),
        forall|s: int| 0 <= s < keeps.len() ==> keeps[s],
        is_walk(policy, obstacles, keeps, cells),
    ensures
        exists|start: int|
            is_free(start, obstacles) && forall|s: int|
                0 <= s < cells.len() ==> #[trigger] cells[s] == follow(
                    policy,
                    obstacles,
                    start,
                    (s + 1) as nat,
                ),
{
    let start = choose|start: int|
        is_free(start, obstacles) && forall|step: int|
            0 <= step < cells.len() ==> #[trigger] step_holds(
                policy,
                obstacles,
                keeps,
                cells,
                start,
                step,
            );
    assert forall|s: int| 0 <= s < cells.len() implies #[trigger] cells[s] == follow(
        policy,
        obstacles,
        start,
        (s + 1) as nat,
    ) by {
        lemma_follow_prefix(policy, obstacles, keeps, cells, start, s);
    }
}

/// Lists the cells that no obstacle occupies.
pub fn free_cells(obstacles: &Vec<i32>) -> (free: Vec<i32>)
    ensures
        free@ == spec_free_cells(obstacles@),
{
    excluding(1, CELLS as i32, obstacles)
}

/// Takes one step of a walk: the cell reached from `cell` by `action`.
pub fn advance(cell: i32, action: i32, obstacles: &Vec<i32>) -> (next: i32)
    requires
        is_cell(cell as int),
    ensures
        next == spec_advance(cell as int, action as int, obstacles@),
        is_cell(next as int),
{
    if 1 <= action && action <= 4 {
        moving((cell - 1) as usize, action, obstacles) as i32 + 1
    } else {
        cell
    }
}

/// Draws the cell in which a walk starts: any of the free cells, or nothing
/// where every cell is an obstacle.
pub fn draw_start(obstacles: &Vec<i32>, rng: &mut StdRng) -> (start: Option<i32>)
    ensures
        start is Some <==> has_free_cell(obstacles@),
        start is Some ==> is_free(start->0 as int, obstacles@),
{
    let free = free_cells(obstacles);
    proof {
        lemma_excluding_holds(1, CELLS as int, obstacles@, 0);
    }
    if free.len() == 0 {
        proof {
            assert forall|cell: int| !is_free(cell, obstacles@) by {
                lemma_excluding_holds(1, CELLS as int, obstacles@, cell as i32);
            }
        }
        None
    } else {
        let rank: i32 = draw_between(rng, 1, free.len() as i32);
        let cell: i32 = free[(rank - 1) as usize];
        proof {
            assert(free@.contains(cell));
            lemma_excluding_holds(1, CELLS as int, obstacles@, cell);
            assert(is_free(cell as int, obstacles@));
        }
        Some(cell)
    }
}

/// Draws the action of one step: any of the step's candidates, or nothing
/// where there is none.
pub fn draw_action(code: i32, keeps: bool, rng: &mut StdRng) -> (action: Option<i32>)
    ensures
        action is Some <==> candidates(code as int, keeps).len() > 0,
        action is Some ==> candidates(code as int, keeps).contains(action->0),
{
    let intended = intended_moves(code);
    if keeps {
        choose_move(&intended, rng)
    } else {
        let available = available_moves(&intended);
        choose_move(&available, rng)
    }
}

/// Samples one walk of `TRAJECTORY_LENGTH` steps under `policy` and records
/// the cell after each step. The flags of its steps are the entries of `keeps`
/// from `first` on.
pub fn sample_walk(
    policy: &Vec<i32>,
    obstacles: &Vec<i32>,
    keeps: &Vec<bool>,
    first: usize,
    rng: &mut StdRng,
) -> (walk: Result<Vec<i32>, GridError>)
    requires
        is_policy(policy@),
        first + TRAJECTORY_LENGTH <= keeps.len(),
    ensures
        !has_free_cell(obstacles@) ==> walk == Err::<Vec<i32>, GridError>(GridError::NoFreeCell),
        has_free_cell(obstacles@) ==> walk is Ok || walk == Err::<Vec<i32>, GridError>(
            GridError::NoAlternativeAction,
        ),
        walk == Err::<Vec<i32>, GridError>(GridError::NoAlternativeAction) ==> may_strand(
            policy@,
            keeps@.subrange(first as int, first + TRAJECTORY_LENGTH),
        ),
        walk matches Ok(cells) ==> cells@.len() == TRAJECTORY_LENGTH && are_free(
            cells@,
            obstacles@,
        ) && is_walk(
            policy@,
            obstacles@,
            keeps@.subrange(first as int, first + TRAJECTORY_LENGTH),
            cells@,
        ),
{
    let ghost flags = keeps@.subrange(first as int, first + TRAJECTORY_LENGTH);
    let start: i32 = match draw_start(obstacles, rng) {
        Some(cell) => cell,
        None => {
            return Err(GridError::NoFreeCell);
        },
    };
    let mut cells: Vec<i32> = Vec::new();
    let mut cell: i32 = start;
    let mut step: usize = 0;
    while step < TRAJECTORY_LENGTH
        invariant
            step <= TRAJECTORY_LENGTH,
            cells@.len() == step,
            is_policy(policy@),
            first + TRAJECTORY_LENGTH <= keeps.len(),
            is_free(start as int, obstacles@),
            flags == keeps@.subrange(first as int, first + TRAJECTORY_LENGTH),
            is_free(cell as int, obstacles@),
            cell == cell_before(cells@, start as int, step as int),
            are_free(cells@, obstacles@),
            forall|s: int|
                0 <= s < step ==> #[trigger] step_holds(
                    policy@,
                    obstacles@,
                    flags,
                    cells@,
                    start as int,
                    s,
                ),
        decreases TRAJECTORY_LENGTH - step,
    {
        let code: i32 = policy[(cell - 1) as usize];
        let keep: bool = keeps[first + step];
        let ghost before = cells@;
        match draw_action(code, keep, rng) {
            None => {
                proof {
                    lemma_candidates_empty(code as int, keep);
                    assert(policy@[cell - 1] == ALL_ACTIONS);
                    assert(!flags[step as int]);
                }
                return Err(GridError::NoAlternativeAction);
            },
            Some(action) => {
                let next: i32 = advance(cell, action, obstacles);
                cells.push(next);
                proof {
                    lemma_step_stays_free(cell as int, action as int, obstacles@);
                    assert(flags[step as int] == keep);
                    assert(is_step(policy@, obstacles@, keep, cell as int, next as int));
                    assert forall|s: int| 0 <= s < step + 1 implies #[trigger] step_holds(
                        policy@,
                        obstacles@,
                        flags,
                        cells@,
                        start as int,
                        s,
                    ) by {
                        if s < step {
                            assert(step_holds(policy@, obstacles@, flags, before, start as int, s));
                        }
                    }
                }
                cell = next;
            },
        }
        step += 1;
    }
    Ok(cells)
}

/// Samples `NUM_TRAJECTORIES` walks of `TRAJECTORY_LENGTH` steps each under
/// `policy`, and records the cell after each step, walk after walk.
///
/// `policy` holds one policy code per cell and `obstacles` the numbers of the
/// blocked cells. `keeps` holds one flag per step, walk after walk: whether
/// the step draws its action from the set that the policy intends or from the
/// other actions. Each walk starts in a free cell drawn from `rng`; the start
/// itself is not recorded.
pub fn generate_trajs(
    policy: Vec<i32>,
    obstacles: Vec<i32>,
    keeps: Vec<bool>,
    rng: &mut StdRng,
) -> (trajs: Result<Vec<i32>, GridError>)
    ensures
        spec_rejection(policy@, obstacles@, keeps@) matches Some(fault) ==> trajs == Err::<
            Vec<i32>,
            GridError,
        >(fault),
        spec_rejection(policy@, obstacles@, keeps@) is None ==> trajs is Ok || trajs == Err::<
            Vec<i32>,
            GridError,
        >(GridError::NoAlternativeAction),
        trajs == Err::<Vec<i32>, GridError>(GridError::NoAlternativeAction) ==> may_strand(
            policy@,
            keeps@,
        ),
        trajs matches Ok(cells) ==> cells@.len() == NUM_STEPS && are_free(cells@, obstacles@)
            && forall|walk: int|
            0 <= walk < NUM_TRAJECTORIES ==> is_walk(
                policy@,
                obstacles@,
                walk_part(keeps@, walk),
                #[trigger] walk_part(cells@, walk),
            ),
{
    if policy.len() != CELLS || keeps.len() != NUM_STEPS {
        return Err(GridError::InvalidDimension);
    }
    if check_obstacles(&obstacles).is_err() {
        return Err(GridError::InvalidCellIndex);
    }
    if check_policy(&policy).is_err() {
        return Err(GridError::InvalidActionCode);
    }
    let mut cells: Vec<i32> = Vec::new();
    let mut walk: usize = 0;
    proof {
        reveal(holds_walks);
    }
    while walk < NUM_TRAJECTORIES
        invariant
            walk <= NUM_TRAJECTORIES,
            cells@.len() == walk * TRAJECTORY_LENGTH,
            keeps.len() == NUM_STEPS,
            is_policy(policy@),
            are_cells(obstacles@),
            walk > 0 ==> has_free_cell(obstacles@),
            holds_walks(policy@, obstacles@, keeps@, cells@, walk as int),
        decreases NUM_TRAJECTORIES - walk,
    {
        let ghost before = cells@;
        match sample_walk(&policy, &obstacles, &keeps, walk * TRAJECTORY_LENGTH, rng) {
            Err(fault) => {
                proof {
                    if has_free_cell(obstacles@) {
                        lemma_strands_in_part(policy@, keeps@, walk as int);
                    }
                }
                return Err(fault);
            },
            Ok(mut one) => {
                let ghost added = one@;
                cells.append(&mut one);
                proof {
                    assert(keeps@.subrange(
                        walk * TRAJECTORY_LENGTH,
                        walk * TRAJECTORY_LENGTH + TRAJECTORY_LENGTH,
                    ) == walk_part(keeps@, walk as int));
                    lemma_append_walk(policy@, obstacles@, keeps@, before, added, walk as int);
                }
            },
        }
        walk += 1;
    }
    proof {
        reveal(holds_walks);
    }
    Ok(cells)
}

/// Whether `cells` records `walks` walks, one after the other, and free cells
/// alone.
#[verifier::opaque]
spec fn holds_walks(
    policy: Seq<i32>,
    obstacles: Seq<i32>,
    keeps: Seq<bool>,
    cells: Seq<i32>,
    walks: int,
) -> bool {
    &&& cells.len() == walks * TRAJECTORY_LENGTH
    &&& are_free(cells, obstacles)
    &&& forall|w: int|
        0 <= w < walks ==> is_walk(
            policy,
            obstacles,
            walk_part(keeps, w),
            #[trigger] walk_part(cells, w),
        )
}

/// A record of walks that grows by one walk holds the walks it held, and the
/// new one.
proof fn lemma_append_walk(
    policy: Seq<i32>,
    obstacles: Seq<i32>,
    keeps: Seq<bool>,
    before: Seq<i32>,
    added: Seq<i32>,
    walk: int,
)
    requires
        0 <= walk,
        (walk + 1) * TRAJECTORY_LENGTH <= keeps.len(),
        holds_walks(policy, obstacles, keeps, before, walk),
        are_free(added, obstacles),
        is_walk(policy, obstacles, walk_part(keeps, walk), added),
    ensures
        holds_walks(policy, obstacles, keeps, before + added, walk + 1),
{
    reveal(holds_walks);
    let all = before + added;
    assert(added.len() == TRAJECTORY_LENGTH);
    assert forall|k: int| 0 <= k < all.len() implies is_free(#[trigger] all[k] as int, obstacles) by {
        if k >= before.len() {
            assert(all[k] == added[k - before.len()]);
        } else {
            assert(all[k] == before[k]);
        }
    }
    assert forall|w: int| 0 <= w < walk + 1 implies is_walk(
        policy,
        obstacles,
        walk_part(keeps, w),
        #[trigger] walk_part(all, w),
    ) by {
        if w < walk {
            assert((w + 1) * TRAJECTORY_LENGTH <= walk * TRAJECTORY_LENGTH) by (nonlinear_arith)
                requires
                    w + 1 <= walk,
            ;
            assert(walk_part(all, w) =~= walk_part(before, w));
        } else {
            assert(walk_part(all, w) =~= added);
        }
    }
}

/// A walk that can strand within its own flags can strand within all flags.
proof fn lemma_strands_in_part(policy: Seq<i32>, keeps: Seq<bool>, walk: int)
    requires
        0 <= walk,
        (walk + 1) * TRAJECTORY_LENGTH <= keeps.len(),
        may_strand(policy, walk_part(keeps, walk)),
    ensures
        may_strand(policy, keeps),
{
    let part = walk_part(keeps, walk);
    let step = choose|step: int| 0 <= step < part.len() && !#[trigger] part[step];
    assert(!keeps[walk * TRAJECTORY_LENGTH + step]);
}

} // verus!
