//! Policy codes: one integer per cell that names the set of actions the agent
//! intends there.
//!
//! A single action is its own code. A tie between two actions is written with
//! the two codes as digits, the lower first; a tie among three or all four
//! actions is written as the sum of their codes. Every non-empty set of
//! actions has exactly one code.

use vstd::prelude::*;
use crate::error::GridError;
use crate::grid::{is_action, CELLS, DOWN, LEFT, RIGHT, UP};
use crate::lists::{excluding, lemma_excluding_holds, spec_excluding};

verus! {

/// The code table: the actions that `code` intends, in ascending order; empty
/// for a number that is no policy code.
pub open spec fn spec_intended(code: int) -> Seq<i32> {
    if code == 1 {
        seq![UP]
    } else if code == 2 {
        seq![DOWN]
    } else if code == 3 {
        seq![LEFT]
    } else if code == 4 {
        seq![RIGHT]
    } else if code == 12 {
        seq![UP, DOWN]
    } else if code == 13 {
        seq![UP, LEFT]
    } else if code == 14 {
        seq![UP, RIGHT]
    } else if code == 23 {
        seq![DOWN, LEFT]
    } else if code == 24 {
        seq![DOWN, RIGHT]
    } else if code == 34 {
        seq![LEFT, RIGHT]
    } else if code == 6 {
        seq![UP, DOWN, LEFT]
    } else if code == 7 {
        seq![UP, DOWN, RIGHT]
    } else if code == 8 {
        seq![UP, LEFT, RIGHT]
    } else if code == 9 {
        seq![DOWN, LEFT, RIGHT]
    } else if code == 10 {
        seq![UP, DOWN, LEFT, RIGHT]
    } else {
        Seq::empty()
    }
}

/// Whether `code` is in the code table.
pub open spec fn is_policy_code(code: int) -> bool {
    spec_intended(code).len() > 0
}

/// The actions left to an agent that does not act as intended: the four
/// actions without those of `intended`, in ascending order.
pub open spec fn spec_available(intended: Seq<i32>) -> Seq<i32> {
    spec_excluding(UP as int, RIGHT as int, intended)
}

/// The actions a step draws from: the intended ones where the step keeps to
/// the policy, the others where it does not.
pub open spec fn candidates(code: int, keeps: bool) -> Seq<i32> {
    if keeps {
        spec_intended(code)
    } else {
        spec_available(spec_intended(code))
    }
}

/// A policy that can be walked: one policy code for each cell.
pub open spec fn is_policy(policy: Seq<i32>) -> bool {
    policy.len() == CELLS && forall|i: int|
        0 <= i < policy.len() ==> is_policy_code(#[trigger] policy[i] as int)
}

/// Whether `actions` writes down a set of actions that is not empty: action
/// codes in ascending order, none twice.
pub open spec fn is_action_set(actions: Seq<i32>) -> bool {
    &&& actions.len() > 0
    &&& forall|i: int| 0 <= i < actions.len() ==> is_action(#[trigger] actions[i] as int)
    &&& forall|i: int, j: int| 0 <= i < j < actions.len() ==> actions[i] < actions[j]
}

/// Every policy code intends a set of actions that is not empty.
pub proof fn lemma_intended_is_action_set(code: int)
    requires
        is_policy_code(code),
    ensures
        is_action_set(spec_intended(code)),
{
}

/// No two policy codes intend the same set.
pub proof fn lemma_codes_differ(a: int, b: int)
    requires
        is_policy_code(a),
        is_policy_code(b),
        spec_intended(a) == spec_intended(b),
    ensures
        a == b,
{
    let x = spec_intended(a);
    let y = spec_intended(b);
    assert(x.len() == y.len());
    assert(x[0] == y[0]);
    if x.len() > 1 {
        assert(x[1] == y[1]);
    }
    if x.len() > 2 {
        assert(x[2] == y[2]);
    }
}

/// Every set of actions that is not empty has a policy code.
pub proof fn lemma_every_set_has_a_code(actions: Seq<i32>)
    requires
        is_action_set(actions),
    ensures
        exists|code: int| is_policy_code(code) && #[trigger] spec_intended(code) == actions,
{
    let n = actions.len();
    if n >= 5 {
        assert(actions[0] < actions[1] < actions[2] < actions[3] < actions[4]);
    }
    let code: int = if n == 1 {
        actions[0] as int
    } else if n == 2 {
        10 * actions[0] + actions[1]
    } else if n == 3 {
        actions[0] + actions[1] + actions[2]
    } else {
        ALL_ACTIONS as int
    };
    if n >= 2 {
        assert(actions[0] < actions[1]);
    }
    if n >= 3 {
        assert(actions[1] < actions[2]);
    }
    if n >= 4 {
        assert(actions[2] < actions[3]);
    }
    assert(spec_intended(code) =~= actions);
}

/// The code that intends all four actions, and so leaves none over.
pub const ALL_ACTIONS: i32 = 10;

/// A step always has an action to draw, with one exception: a step that is to
/// leave the intended set where that set holds all four actions.
pub proof fn lemma_candidates_empty(code: int, keeps: bool)
    requires
        is_policy_code(code),
    ensures
        candidates(code, keeps).len() == 0 <==> code == ALL_ACTIONS && !keeps,
{
    let intended = spec_intended(code);
    let others = spec_available(intended);
    if !keeps {
        if code == ALL_ACTIONS {
            if others.len() > 0 {
                let x = others[0];
                assert(others.contains(x));
                lemma_excluding_holds(UP as int, RIGHT as int, intended, x);
                assert(intended[x - 1] == x);
            }
        } else {
            let x: i32 = if !intended.contains(UP) {
                UP
            } else if !intended.contains(DOWN) {
                DOWN
            } else if !intended.contains(LEFT) {
                LEFT
            } else {
                RIGHT
            };
            assert(intended.contains(UP) && intended.contains(DOWN) && intended.contains(LEFT)
                ==> !intended.contains(RIGHT));
            lemma_excluding_holds(UP as int, RIGHT as int, intended, x);
            assert(others.contains(x));
        }
    }
}

/// Every candidate of a step is one of the four actions.
pub proof fn lemma_candidates_are_actions(code: int, keeps: bool, action: i32)
    requires
        candidates(code, keeps).contains(action),
    ensures
        is_action(action as int),
{
    if !keeps {
        lemma_excluding_holds(UP as int, RIGHT as int, spec_intended(code), action);
    }
}

/// Decodes a policy code into the actions it intends.
pub fn intended_moves(code: i32) -> (intended: Vec<i32>)
    ensures
        intended@ == spec_intended(code as int),
{
    let intended: Vec<i32> = if code == 1 {
        vec![UP]
    } else if code == 2 {
        vec![DOWN]
    } else if code == 3 {
        vec![LEFT]
    } else if code == 4 {
        vec![RIGHT]
    } else if code == 12 {
        vec![UP, DOWN]
    } else if code == 13 {
        vec![UP, LEFT]
    } else if code == 14 {
        vec![UP, RIGHT]
    } else if code == 23 {
        vec![DOWN, LEFT]
    } else if code == 24 {
        vec![DOWN, RIGHT]
    } else if code == 34 {
        vec![LEFT, RIGHT]
    } else if code == 6 {
        vec![UP, DOWN, LEFT]
    } else if code == 7 {
        vec![UP, DOWN, RIGHT]
    } else if code == 8 {
        vec![UP, LEFT, RIGHT]
    } else if code == 9 {
        vec![DOWN, LEFT, RIGHT]
    } else if code == 10 {
        vec![UP, DOWN, LEFT, RIGHT]
    } else {
        Vec::new()
    };
    assert(intended@ =~= spec_intended(code as int));
    intended
}

/// Lists the actions that `intended` leaves over.
pub fn available_moves(intended: &Vec<i32>) -> (available: Vec<i32>)
    ensures
        available@ == spec_available(intended@),
{
    excluding(UP, RIGHT, intended)
}

/// Accepts a policy that holds one policy code for each cell.
pub fn check_policy(policy: &Vec<i32>) -> (checked: Result<(), GridError>)
    ensures
        checked is Ok <==> is_policy(policy@),
        checked == Err::<(), GridError>(GridError::InvalidDimension) <==> policy@.len() != CELLS,
        checked == Err::<(), GridError>(GridError::InvalidActionCode) <==> policy@.len() == CELLS
            && !is_policy(policy@),
{
    if policy.len() != CELLS {
        return Err(GridError::InvalidDimension);
    }
    let mut i: usize = 0;
    while i < policy.len()
        invariant
            i <= policy.len(),
            policy.len() == CELLS,
            forall|j: int| 0 <= j < i ==> is_policy_code(#[trigger] policy@[j] as int),
        decreases policy.len() - i,
    {
        if !is_known_code(policy[i]) {
            return Err(GridError::InvalidActionCode);
        }
        i += 1;
    }
    Ok(())
}

/// Tells whether `code` is in the code table.
pub fn is_known_code(code: i32) -> (known: bool)
    ensures
        known == is_policy_code(code as int),
{
    (1 <= code && code <= 4) || (6 <= code && code <= 10) || code == 12 || code == 13 || code
        == 14 || code == 23 || code == 24 || code == 34
}

} // verus!
