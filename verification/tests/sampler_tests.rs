use gridworld::error::GridError;
use gridworld::policy::{available_moves, intended_moves};
use gridworld::sampler::{
    advance, draw_action, draw_start, free_cells, generate_trajs, sample_walk, NUM_STEPS,
    NUM_TRAJECTORIES, TRAJECTORY_LENGTH,
};
use rand::rngs::StdRng;
use rand::SeedableRng;

fn drawn_from(code: i32, keeps: bool) -> Vec<i32> {
    let intended = intended_moves(code);
    if keeps {
        intended
    } else {
        available_moves(&intended)
    }
}

fn step_allowed(policy: &[i32], obstacles: &Vec<i32>, keeps: bool, from: i32, to: i32) -> bool {
    drawn_from(policy[(from - 1) as usize], keeps)
        .iter()
        .any(|action| advance(from, *action, obstacles) == to)
}

fn walk_allowed(policy: &[i32], obstacles: &Vec<i32>, keeps: &[bool], cells: &[i32]) -> bool {
    let started = (1..=25)
        .filter(|start| !obstacles.contains(start))
        .any(|start| step_allowed(policy, obstacles, keeps[0], start, cells[0]));
    let went_on = (1..cells.len())
        .all(|t| step_allowed(policy, obstacles, keeps[t], cells[t - 1], cells[t]));
    cells.len() == keeps.len() && started && went_on
}

fn mixed_policy() -> Vec<i32> {
    vec![
        4, 24, 2, 23, 3, 14, 6, 7, 8, 9, 1, 12, 13, 34, 2, 4, 4, 24, 9, 3, 1, 14, 4, 8, 13,
    ]
}

fn mixed_flags() -> Vec<bool> {
    (0..NUM_STEPS).map(|step| step % 3 != 1).collect()
}

#[test]
fn sampler_sizes() {
    assert_eq!(NUM_TRAJECTORIES, 50);
    assert_eq!(TRAJECTORY_LENGTH, 10);
    assert_eq!(NUM_STEPS, 500);
}

#[test]
fn advance_numbers_cells_from_one() {
    assert_eq!(advance(2, 2, &vec![7]), 2);
    assert_eq!(advance(2, 2, &vec![]), 7);
    assert_eq!(advance(1, 1, &vec![]), 1);
    assert_eq!(advance(1, 3, &vec![]), 1);
    assert_eq!(advance(25, 4, &vec![]), 25);
    assert_eq!(advance(25, 2, &vec![]), 25);
    assert_eq!(advance(20, 2, &vec![]), 25);
    assert_eq!(advance(5, 1, &vec![]), 5);
    assert_eq!(advance(13, 1, &vec![]), 8);
    assert_eq!(advance(13, 4, &vec![14]), 13);
}

#[test]
fn advance_stays_on_an_unknown_action() {
    assert_eq!(advance(13, 0, &vec![]), 13);
    assert_eq!(advance(13, 5, &vec![]), 13);
    assert_eq!(advance(1, -1, &vec![2]), 1);
}

#[test]
fn free_cells_are_the_cells_without_obstacles() {
    assert_eq!(free_cells(&vec![]), (1..=25).collect::<Vec<i32>>());
    assert_eq!(free_cells(&(2..=24).collect()), vec![1, 25]);
    assert_eq!(free_cells(&(1..=25).collect()), Vec::<i32>::new());
    assert_eq!(free_cells(&vec![0, 26, 13, 13]).len(), 24);
    assert!(!free_cells(&vec![0, 26, 13, 13]).contains(&13));
}

#[test]
fn start_is_a_free_cell() {
    let mut rng = StdRng::seed_from_u64(11);
    let obstacles = vec![1, 2, 3, 7, 13, 19, 25];
    for _ in 0..200 {
        let start = draw_start(&obstacles, &mut rng).unwrap();
        assert!((1..=25).contains(&start));
        assert!(!obstacles.contains(&start));
    }
}

#[test]
fn start_is_the_one_free_cell() {
    let mut rng = StdRng::seed_from_u64(5);
    let obstacles: Vec<i32> = (1..=25).filter(|cell| *cell != 17).collect();
    for _ in 0..20 {
        assert_eq!(draw_start(&obstacles, &mut rng), Some(17));
    }
}

#[test]
fn no_start_on_a_full_grid() {
    let mut rng = StdRng::seed_from_u64(5);
    assert_eq!(draw_start(&(1..=25).collect(), &mut rng), None);
}

#[test]
fn starts_vary() {
    let mut rng = StdRng::seed_from_u64(2024);
    let mut seen = vec![false; 26];
    for _ in 0..400 {
        seen[draw_start(&vec![], &mut rng).unwrap() as usize] = true;
    }
    assert!(!seen[0]);
    assert!(seen[1..].iter().all(|hit| *hit));
}

#[test]
fn action_of_a_single_code_is_certain() {
    let mut rng = StdRng::seed_from_u64(3);
    for code in 1..=4 {
        for _ in 0..20 {
            assert_eq!(draw_action(code, true, &mut rng), Some(code));
        }
    }
}

#[test]
fn action_off_a_triple_is_certain() {
    let mut rng = StdRng::seed_from_u64(3);
    assert_eq!(draw_action(6, false, &mut rng), Some(4));
    assert_eq!(draw_action(7, false, &mut rng), Some(3));
    assert_eq!(draw_action(8, false, &mut rng), Some(2));
    assert_eq!(draw_action(9, false, &mut rng), Some(1));
}

#[test]
fn action_comes_from_the_right_set() {
    let mut rng = StdRng::seed_from_u64(77);
    for code in [1, 2, 3, 4, 6, 7, 8, 9, 12, 13, 14, 23, 24, 34] {
        for keeps in [true, false] {
            for _ in 0..30 {
                let action = draw_action(code, keeps, &mut rng).unwrap();
                assert!(drawn_from(code, keeps).contains(&action));
            }
        }
    }
}

#[test]
fn each_candidate_is_drawn_sooner_or_later() {
    let mut rng = StdRng::seed_from_u64(9);
    let mut seen = vec![false; 5];
    for _ in 0..200 {
        seen[draw_action(10, true, &mut rng).unwrap() as usize] = true;
    }
    assert_eq!(seen, vec![false, true, true, true, true]);
}

#[test]
fn no_action_where_none_is_left() {
    let mut rng = StdRng::seed_from_u64(3);
    assert_eq!(draw_action(10, false, &mut rng), None);
    assert!(draw_action(10, true, &mut rng).is_some());
}

#[test]
fn no_action_for_an_unknown_code_that_keeps() {
    let mut rng = StdRng::seed_from_u64(3);
    assert_eq!(draw_action(5, true, &mut rng), None);
    assert_eq!(draw_action(0, true, &mut rng), None);
    // Off the empty set, every action is a candidate.
    assert!(draw_action(5, false, &mut rng).is_some());
}

#[test]
fn trajectories_have_five_hundred_cells() {
    let mut rng = StdRng::seed_from_u64(1);
    let cells = generate_trajs(mixed_policy(), vec![7, 19], mixed_flags(), &mut rng).unwrap();
    assert_eq!(cells.len(), 500);
    assert!(cells.iter().all(|cell| (1..=25).contains(cell)));
}

#[test]
fn trajectories_are_walks() {
    let policy = mixed_policy();
    let obstacles = vec![7, 19];
    let keeps = mixed_flags();
    for seed in 0..5 {
        let mut rng = StdRng::seed_from_u64(seed);
        let cells =
            generate_trajs(policy.clone(), obstacles.clone(), keeps.clone(), &mut rng).unwrap();
        for walk in 0..NUM_TRAJECTORIES {
            let part = walk * TRAJECTORY_LENGTH..(walk + 1) * TRAJECTORY_LENGTH;
            assert!(walk_allowed(&policy, &obstacles, &keeps[part.clone()], &cells[part]));
        }
    }
}

#[test]
fn same_seed_same_trajectories() {
    let mut one = StdRng::seed_from_u64(808);
    let mut two = StdRng::seed_from_u64(808);
    let first = generate_trajs(mixed_policy(), vec![3], mixed_flags(), &mut one);
    let second = generate_trajs(mixed_policy(), vec![3], mixed_flags(), &mut two);
    assert!(first.is_ok());
    assert_eq!(first, second);
}

#[test]
fn certain_steps_take_the_policy_action() {
    // Every step keeps to the policy and every code names one action, so each
    // cell follows from the one before.
    let policy: Vec<i32> = (0..25).map(|index| index % 4 + 1).collect();
    let obstacles = vec![8, 18];
    let mut rng = StdRng::seed_from_u64(31);
    let cells =
        generate_trajs(policy.clone(), obstacles.clone(), vec![true; 500], &mut rng).unwrap();
    for walk in 0..NUM_TRAJECTORIES {
        let cells = &cells[walk * 10..walk * 10 + 10];
        for t in 1..10 {
            let from = cells[t - 1];
            assert_eq!(cells[t], advance(from, policy[(from - 1) as usize], &obstacles));
        }
        assert!((1..=25).any(|start| !obstacles.contains(&start)
            && advance(start, policy[(start - 1) as usize], &obstacles) == cells[0]));
    }
}

#[test]
fn certain_walks_down_end_in_the_bottom_row() {
    let mut rng = StdRng::seed_from_u64(4);
    let cells = generate_trajs(vec![2; 25], vec![], vec![true; 500], &mut rng).unwrap();
    let mut columns = vec![false; 5];
    for walk in 0..NUM_TRAJECTORIES {
        let cells = &cells[walk * 10..walk * 10 + 10];
        let column = (cells[0] - 1) % 5;
        columns[column as usize] = true;
        for t in 0..10 {
            assert_eq!((cells[t] - 1) % 5, column);
            if t > 0 {
                assert!(cells[t] == cells[t - 1] + 5 || (cells[t] == cells[t - 1] && cells[t] > 20));
            }
        }
        assert!(cells[3] > 20);
        assert_eq!(cells[9], 21 + column);
    }
    // The walks do not all start in one column.
    assert!(columns.iter().filter(|hit| **hit).count() > 1);
}

#[test]
fn certain_walks_to_the_corner_never_drift_back() {
    // Right along each row, down along the last column: towards cell 25.
    let policy: Vec<i32> = (1..=25).map(|cell| if cell % 5 == 0 { 2 } else { 4 }).collect();
    let mut rng = StdRng::seed_from_u64(66);
    let cells = generate_trajs(policy, vec![], vec![true; 500], &mut rng).unwrap();
    let far = |cell: i32| (4 - (cell - 1) / 5) + (4 - (cell - 1) % 5);
    for walk in 0..NUM_TRAJECTORIES {
        let cells = &cells[walk * 10..walk * 10 + 10];
        for t in 1..10 {
            assert!(far(cells[t]) <= far(cells[t - 1]));
            assert!(far(cells[t]) < far(cells[t - 1]) || cells[t] == 25);
        }
        assert_eq!(cells[9], 25);
    }
}

#[test]
fn steps_off_the_policy_avoid_the_intended_action() {
    // The policy says up everywhere and no step keeps to it: no walk ever
    // moves up.
    let mut rng = StdRng::seed_from_u64(12);
    let cells = generate_trajs(vec![1; 25], vec![], vec![false; 500], &mut rng).unwrap();
    let mut moved = vec![false; 5];
    for walk in 0..NUM_TRAJECTORIES {
        let cells = &cells[walk * 10..walk * 10 + 10];
        for t in 1..10 {
            assert_ne!(cells[t], cells[t - 1] - 5);
            for action in 2..=4 {
                if cells[t] != cells[t - 1] && cells[t] == advance(cells[t - 1], action, &vec![]) {
                    moved[action as usize] = true;
                }
            }
        }
    }
    assert_eq!(moved, vec![false, false, true, true, true]);
}

#[test]
fn walled_in_walks_stay_put() {
    // Cell 13 is the one free cell, and its four neighbours are obstacles.
    let obstacles: Vec<i32> = (1..=25).filter(|cell| *cell != 13).collect();
    let mut rng = StdRng::seed_from_u64(8);
    let cells = generate_trajs(vec![10; 25], obstacles, vec![true; 500], &mut rng).unwrap();
    assert_eq!(cells, vec![13; 500]);
}

#[test]
fn wrong_lengths_are_a_dimension_fault() {
    let mut rng = StdRng::seed_from_u64(1);
    assert_eq!(
        generate_trajs(vec![1; 24], vec![], vec![true; 500], &mut rng),
        Err(GridError::InvalidDimension)
    );
    assert_eq!(
        generate_trajs(vec![1; 25], vec![], vec![true; 499], &mut rng),
        Err(GridError::InvalidDimension)
    );
    assert_eq!(
        generate_trajs(vec![1; 25], vec![], vec![], &mut rng),
        Err(GridError::InvalidDimension)
    );
}

#[test]
fn obstacle_off_the_grid_is_a_cell_fault() {
    let mut rng = StdRng::seed_from_u64(1);
    assert_eq!(
        generate_trajs(vec![1; 25], vec![0], vec![true; 500], &mut rng),
        Err(GridError::InvalidCellIndex)
    );
    assert_eq!(
        generate_trajs(vec![1; 25], vec![4, 26], vec![true; 500], &mut rng),
        Err(GridError::InvalidCellIndex)
    );
}

#[test]
fn unknown_policy_code_is_an_action_fault() {
    let mut rng = StdRng::seed_from_u64(1);
    let mut policy = vec![1; 25];
    policy[12] = 5;
    assert_eq!(
        generate_trajs(policy, vec![], vec![true; 500], &mut rng),
        Err(GridError::InvalidActionCode)
    );
}

#[test]
fn full_grid_is_a_free_cell_fault() {
    let mut rng = StdRng::seed_from_u64(1);
    assert_eq!(
        generate_trajs(vec![1; 25], (1..=25).collect(), vec![true; 500], &mut rng),
        Err(GridError::NoFreeCell)
    );
}

#[test]
fn faults_are_reported_in_order() {
    let mut rng = StdRng::seed_from_u64(1);
    let full: Vec<i32> = (1..=25).collect();
    let mut off_grid = full.clone();
    off_grid.push(26);
    assert_eq!(
        generate_trajs(vec![5; 24], off_grid.clone(), vec![true; 500], &mut rng),
        Err(GridError::InvalidDimension)
    );
    assert_eq!(
        generate_trajs(vec![5; 25], off_grid, vec![true; 500], &mut rng),
        Err(GridError::InvalidCellIndex)
    );
    assert_eq!(
        generate_trajs(vec![5; 25], full, vec![true; 500], &mut rng),
        Err(GridError::InvalidActionCode)
    );
}

#[test]
fn leaving_all_four_actions_strands() {
    let mut rng = StdRng::seed_from_u64(1);
    assert_eq!(
        generate_trajs(vec![10; 25], vec![], vec![false; 500], &mut rng),
        Err(GridError::NoAlternativeAction)
    );
}

#[test]
fn all_four_actions_are_fine_while_steps_keep() {
    let policy = vec![10; 25];
    let mut rng = StdRng::seed_from_u64(1);
    let cells = generate_trajs(policy.clone(), vec![], vec![true; 500], &mut rng).unwrap();
    for walk in 0..NUM_TRAJECTORIES {
        let part = walk * 10..walk * 10 + 10;
        assert!(walk_allowed(&policy, &vec![], &vec![true; 10], &cells[part]));
    }
}

#[test]
fn one_walk_has_ten_cells() {
    let policy = mixed_policy();
    let keeps = mixed_flags();
    let obstacles = vec![12];
    let mut rng = StdRng::seed_from_u64(21);
    let cells = sample_walk(&policy, &obstacles, &keeps, 40, &mut rng).unwrap();
    assert_eq!(cells.len(), 10);
    assert!(walk_allowed(&policy, &obstacles, &keeps[40..50], &cells));
}

#[test]
fn one_walk_fails_on_a_full_grid() {
    let mut rng = StdRng::seed_from_u64(21);
    assert_eq!(
        sample_walk(&vec![1; 25], &(1..=25).collect(), &vec![true; 10], 0, &mut rng),
        Err(GridError::NoFreeCell)
    );
}
