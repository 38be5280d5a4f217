//! What value iteration needs that is not arithmetic on values: the check of
//! a request, the table of cells that each action reaches, and the decisions
//! that carry the sweeps to their end.
//!
//! The caller owns the value vectors, performs each sweep and compares the
//! last two vectors; the driver says after each comparison whether to sweep
//! again, to stop, or to give up.

use vstd::prelude::*;
use crate::error::GridError;
use crate::grid::{are_cells, cell_index, check_obstacles, is_cell, moving, spec_moving, CELLS};

verus! {

/// Actions, and so entries in each row of the move table.
pub const ACTIONS: usize = 4;

/// Whether `table` is the move table of `obstacles`: one row per cell, and in
/// row `pos` at place `k` the index reached from `pos` by the action with code
/// `k + 1`.
pub open spec fn is_move_table(table: Seq<Vec<usize>>, obstacles: Seq<i32>) -> bool {
    table.len() == CELLS && forall|pos: int|
        0 <= pos < CELLS ==> (#[trigger] table[pos])@.len() == ACTIONS && forall|k: int|
            0 <= k < ACTIONS ==> #[trigger] table[pos]@[k] == spec_moving(pos, k + 1, obstacles)
                && table[pos]@[k] < CELLS
}

/// What a checked request hands on: the index of the end cell, if the request
/// names one.
pub open spec fn spec_end_index(end_cell: Option<i32>) -> Option<usize> {
    match end_cell {
        Some(cell) => Some((cell - 1) as usize),
        None => None,
    }
}

/// The fault in a request for value iteration, if there is one. The faults
/// are looked for in this order.
pub open spec fn spec_request_fault(rewards: int, obstacles: Seq<i32>, end_cell: Option<i32>)
    -> Option<GridError> {
    if rewards != CELLS {
        Some(GridError::InvalidDimension)
    } else if !are_cells(obstacles) {
        Some(GridError::InvalidCellIndex)
    } else if end_cell is Some && !is_cell(end_cell->0 as int) {
        Some(GridError::InvalidCellIndex)
    } else {
        None
    }
}

/// Checks a request for value iteration: `rewards` is the number of rewards
/// given, `obstacles` the numbers of the blocked cells, `end_cell` the number
/// of the absorbing cell where there is one. Hands back the end cell's index.
pub fn check_request(rewards: usize, obstacles: &Vec<i32>, end_cell: Option<i32>) -> (checked:
    Result<Option<usize>, GridError>)
    ensures
        spec_request_fault(rewards as int, obstacles@, end_cell) matches Some(fault) ==> checked
            == Err::<Option<usize>, GridError>(fault),
        spec_request_fault(rewards as int, obstacles@, end_cell) is None ==> checked == Ok::<
            Option<usize>,
            GridError,
        >(spec_end_index(end_cell)),
{
    if rewards != CELLS {
        return Err(GridError::InvalidDimension);
    }
    if check_obstacles(obstacles).is_err() {
        return Err(GridError::InvalidCellIndex);
    }
    match end_cell {
        None => Ok(None),
        Some(cell) => match cell_index(cell) {
            Ok(index) => Ok(Some(index)),
            Err(fault) => Err(fault),
        },
    }
}

/// Builds the move table of `obstacles`: for each cell, the indices that the
/// four actions reach from it, in the order of their codes.
pub fn move_table(obstacles: &Vec<i32>) -> (table: Vec<Vec<usize>>)
    ensures
        is_move_table(table@, obstacles@),
{
    let mut table: Vec<Vec<usize>> = Vec::new();
    let mut pos: usize = 0;
    while pos < CELLS
        invariant
            pos <= CELLS,
            table@.len() == pos,
            forall|p: int|
                0 <= p < pos ==> (#[trigger] table@[p])@.len() == ACTIONS && forall|k: int|
                    0 <= k < ACTIONS ==> #[trigger] table@[p]@[k] == spec_moving(
                        p,
                        k + 1,
                        obstacles@,
                    ) && table@[p]@[k] < CELLS,
        decreases CELLS - pos,
    {
        let mut row: Vec<usize> = Vec::new();
        let mut action: i32 = 1;
        while action <= ACTIONS as i32
            invariant
                pos < CELLS,
                1 <= action <= ACTIONS + 1,
                row@.len() == action - 1,
                forall|k: int|
                    0 <= k < row@.len() ==> #[trigger] row@[k] == spec_moving(
                        pos as int,
                        k + 1,
                        obstacles@,
                    ) && row@[k] < CELLS,
            decreases ACTIONS + 1 - action,
        {
            row.push(moving(pos, action, obstacles));
            action += 1;
        }
        table.push(row);
        pos += 1;
    }
    table
}

/// The two states of value iteration.
#[derive(Clone, Copy, Debug, PartialEq, Eq, Structural)]
pub enum Phase {
    /// The last two value vectors still differ by more than the tolerance.
    Iterating,
    /// They agree within the tolerance: the fixed point is reached. Final.
    Converged,
}

/// What the driver tells the caller to do next.
#[derive(Clone, Copy, Debug, PartialEq, Eq, Structural)]
pub enum Verdict {
    /// Perform one more sweep, then compare again.
    Sweep,
    /// Stop: the values at hand are the result.
    Done,
}

/// The driver of value iteration: its state, the sweeps it has granted and
/// the most it will grant.
#[derive(Clone, Copy, Debug, PartialEq, Eq, Structural)]
pub struct Driver {
    /// The state the iteration is in.
    pub phase: Phase,
    /// Sweeps granted so far.
    pub sweeps: usize,
    /// Sweeps granted at most.
    pub limit: usize,
}

/// The driver's transition: the state after the caller reports whether the
/// last two value vectors agree within the tolerance.
pub open spec fn spec_decide(driver: Driver, settled: bool) -> Driver {
    if driver.phase == Phase::Converged {
        driver
    } else if settled {
        Driver { phase: Phase::Converged, sweeps: driver.sweeps, limit: driver.limit }
    } else if driver.sweeps < driver.limit {
        Driver { phase: Phase::Iterating, sweeps: (driver.sweeps + 1) as usize, limit: driver.limit }
    } else {
        driver
    }
}

/// The driver's answer to the same report.
pub open spec fn spec_verdict(driver: Driver, settled: bool) -> Result<Verdict, GridError> {
    if driver.phase == Phase::Converged || settled {
        Ok(Verdict::Done)
    } else if driver.sweeps < driver.limit {
        Ok(Verdict::Sweep)
    } else {
        Err(GridError::NonConvergence)
    }
}

/// The driver after it has taken `reports` one by one.
pub open spec fn spec_run(driver: Driver, reports: Seq<bool>) -> Driver
    decreases reports.len(),
{
    if reports.len() == 0 {
        driver
    } else {
        spec_decide(spec_run(driver, reports.drop_last()), reports.last())
    }
}

impl Driver {
    /// A driver has granted no more sweeps than its limit.
    pub open spec fn wf(self) -> bool {
        self.sweeps <= self.limit
    }

    /// A driver that is iterating, has granted no sweep and will grant `limit`.
    pub fn new(limit: usize) -> (driver: Driver)
        ensures
            driver == (Driver { phase: Phase::Iterating, sweeps: 0, limit }),
            driver.wf(),
    {
        Driver { phase: Phase::Iterating, sweeps: 0, limit }
    }

    /// Takes the caller's report, `settled`, on whether the last two value
    /// vectors agree within the tolerance, and decides what follows: the
    /// iteration is done once they agree; until then one more sweep is
    /// granted, or the iteration fails where the limit is used up.
    pub fn decide(&mut self, settled: bool) -> (verdict: Result<Verdict, GridError>)
        ensures
            *final(self) == spec_decide(*old(self), settled),
            verdict == spec_verdict(*old(self), settled),
            old(self).wf() ==> final(self).wf(),
    {
        if self.phase == Phase::Converged {
            Ok(Verdict::Done)
        } else if settled {
            self.phase = Phase::Converged;
            Ok(Verdict::Done)
        } else if self.sweeps < self.limit {
            self.sweeps = self.sweeps + 1;
            Ok(Verdict::Sweep)
        } else {
            Err(GridError::NonConvergence)
        }
    }
}

/// Convergence is final: a converged driver answers every report with
/// `Done` and does not change.
pub proof fn lemma_converged_is_final(driver: Driver, settled: bool)
    requires
        driver.phase == Phase::Converged,
    ensures
        spec_decide(driver, settled) == driver,
        spec_verdict(driver, settled) == Ok::<Verdict, GridError>(Verdict::Done),
{
}

/// The limit holds: a sweep is granted only while fewer than `limit` were,
/// each grant counts as one, and nothing else changes the count.
pub proof fn lemma_sweeps_are_counted(driver: Driver, settled: bool)
    requires
        driver.wf(),
    ensures
        spec_decide(driver, settled).wf(),
        spec_decide(driver, settled).limit == driver.limit,
        spec_verdict(driver, settled) == Ok::<Verdict, GridError>(Verdict::Sweep)
            <==> spec_decide(driver, settled).sweeps == driver.sweeps + 1,
        spec_verdict(driver, settled) != Ok::<Verdict, GridError>(Verdict::Sweep)
            ==> spec_decide(driver, settled).sweeps == driver.sweeps,
{
}

/// No run outlasts the limit: whatever is reported, and however often, the
/// driver grants no more sweeps than its limit and no more than it took
/// reports, and once every sweep is granted it turns down each report of
/// disagreement.
pub proof fn lemma_run_is_bounded(limit: usize, reports: Seq<bool>)
    ensures
        ({
            let start = Driver { phase: Phase::Iterating, sweeps: 0, limit };
            let end = spec_run(start, reports);
            &&& end.limit == limit
            &&& end.sweeps <= limit
            &&& end.sweeps <= reports.len()
            &&& end.sweeps == limit ==> spec_verdict(end, false) != Ok::<Verdict, GridError>(
                Verdict::Sweep,
            )
        }),
    decreases reports.len(),
{
    if reports.len() > 0 {
        lemma_run_is_bounded(limit, reports.drop_last());
    }
}

} // verus!
