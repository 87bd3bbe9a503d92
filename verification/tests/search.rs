use wata::bfs::BFS;
use wata::cost::C;
use wata::point::P;
use wata::state::SearchState;

fn nothing_filled(_p: P) -> bool {
    false
}

fn no_goal(_p: P) -> bool {
    false
}

fn wall_with_hole(p: P) -> bool {
    p.x == 2 && !(p.y == 4 && p.z == 4)
}

fn state_slot(r: usize, s: SearchState) -> usize {
    (((s.p.x as usize) * r + s.p.y as usize) * r + s.p.z as usize) * 7 + s.d
}

#[test]
fn new_planner_has_nothing_on_record() {
    let bfs = BFS::new(3);
    assert_eq!(bfs.r, 3);
    assert_eq!(bfs.cost.len(), 3 * 3 * 3 * 7);
    assert_eq!(bfs.prev.len(), 3 * 3 * 3 * 7);
    assert!(bfs.cost.iter().all(|c| *c == C(i32::MAX, i32::MAX)));
    assert!(bfs.prev.iter().all(|s| *s == SearchState::dummy()));
    assert!(bfs.que.is_empty());
    assert_eq!(bfs.get_cost(P::new(1, 2, 0)), i32::MAX);
}

#[test]
fn planner_of_extent_zero_finds_nothing() {
    let mut bfs = BFS::new(0);
    assert_eq!(bfs.cost.len(), 0);
    let starts = vec![P::new(0, 0, 0)];
    assert_eq!(bfs.bfs(nothing_filled, &starts, |_p: P| true), None);
}

#[test]
fn search_without_starts_finds_nothing() {
    let mut bfs = BFS::new(3);
    let starts: Vec<P> = Vec::new();
    assert_eq!(bfs.bfs(nothing_filled, &starts, |_p: P| true), None);
    assert_eq!(bfs.get_cost(P::new(0, 0, 0)), i32::MAX);
}

#[test]
fn start_outside_the_grid_is_ignored() {
    let mut bfs = BFS::new(3);
    let starts = vec![P::new(3, 0, 0), P::new(-1, 0, 0), P::new(0, 0, 7)];
    assert_eq!(bfs.bfs(nothing_filled, &starts, |_p: P| true), None);
}

#[test]
fn blocked_start_is_ignored() {
    let mut bfs = BFS::new(3);
    let starts = vec![P::new(1, 1, 1)];
    assert_eq!(bfs.bfs(|p: P| p == P::new(1, 1, 1), &starts, |_p: P| true), None);
    assert_eq!(bfs.get_cost(P::new(1, 1, 1)), i32::MAX);
}

#[test]
fn start_state_costs_no_command_and_a_full_run() {
    let mut bfs = BFS::new(3);
    let starts = vec![P::new(1, 0, 2)];
    assert_eq!(bfs.bfs(nothing_filled, &starts, |_p: P| true), Some(P::new(1, 0, 2)));
    let s = SearchState { p: P::new(1, 0, 2), d: 6 };
    assert_eq!(bfs.cost[state_slot(3, s)], C(0, 15));
    assert_eq!(bfs.prev[state_slot(3, s)], SearchState::dummy());
    for d in 0..6 {
        let t = SearchState { p: P::new(1, 0, 2), d };
        assert_eq!(bfs.cost[state_slot(3, t)], C(i32::MAX, i32::MAX));
    }
}

#[test]
fn cost_field_of_the_small_open_grid() {
    let mut bfs = BFS::new(3);
    let starts = vec![P::new(0, 0, 0)];
    assert_eq!(bfs.bfs(nothing_filled, &starts, no_goal), None);
    for x in 0..3 {
        for y in 0..3 {
            for z in 0..3 {
                let off_axis = (x > 0) as i32 + (y > 0) as i32 + (z > 0) as i32;
                let expected = if off_axis == 0 {
                    0
                } else if off_axis <= 2 && (x == 0 || y == 0 || z == 0) {
                    1
                } else {
                    2
                };
                assert_eq!(bfs.get_cost(P::new(x, y, z)), expected);
            }
        }
    }
}

#[test]
fn records_after_one_turn_one_corner_and_steps() {
    let mut bfs = BFS::new(3);
    let starts = vec![P::new(0, 0, 0)];
    assert_eq!(bfs.bfs(nothing_filled, &starts, no_goal), None);
    let origin = SearchState { p: P::new(0, 0, 0), d: 6 };
    // A turn at the start begins a command with an empty run.
    let turned = SearchState { p: P::new(0, 0, 0), d: 0 };
    assert_eq!(bfs.cost[state_slot(3, turned)], C(1, 0));
    assert_eq!(bfs.prev[state_slot(3, turned)], origin);
    // Each step lengthens the run and keeps the predecessor of the run.
    let one = SearchState { p: P::new(1, 0, 0), d: 0 };
    let two = SearchState { p: P::new(2, 0, 0), d: 0 };
    assert_eq!(bfs.cost[state_slot(3, one)], C(1, 1));
    assert_eq!(bfs.prev[state_slot(3, one)], origin);
    assert_eq!(bfs.cost[state_slot(3, two)], C(1, 2));
    assert_eq!(bfs.prev[state_slot(3, two)], origin);
    // A corner after one step begins the second leg with ten steps used up.
    let corner = SearchState { p: P::new(1, 0, 0), d: 2 };
    assert_eq!(bfs.cost[state_slot(3, corner)], C(1, 10));
    assert_eq!(bfs.prev[state_slot(3, corner)], one);
    let after = SearchState { p: P::new(1, 1, 0), d: 2 };
    assert_eq!(bfs.cost[state_slot(3, after)], C(1, 11));
    assert_eq!(bfs.prev[state_slot(3, after)], one);
    // Facing back from where the run came takes a new command.
    let about = SearchState { p: P::new(1, 0, 0), d: 1 };
    assert_eq!(bfs.cost[state_slot(3, about)], C(1, 10));
}

#[test]
fn cost_field_of_the_large_open_grid() {
    let mut bfs = BFS::new(20);
    let starts = vec![P::new(0, 0, 0)];
    assert_eq!(bfs.bfs(nothing_filled, &starts, no_goal), None);
    assert_eq!(bfs.get_cost(P::new(0, 0, 0)), 0);
    assert_eq!(bfs.get_cost(P::new(1, 0, 0)), 1);
    assert_eq!(bfs.get_cost(P::new(15, 0, 0)), 1);
    assert_eq!(bfs.get_cost(P::new(16, 0, 0)), 3);
    assert_eq!(bfs.get_cost(P::new(5, 5, 0)), 1);
    assert_eq!(bfs.get_cost(P::new(6, 5, 0)), 2);
    assert_eq!(bfs.get_cost(P::new(5, 5, 5)), 2);
    assert_eq!(bfs.get_cost(P::new(15, 15, 0)), 2);
    assert_eq!(bfs.get_cost(P::new(15, 15, 15)), 3);
    assert_eq!(bfs.get_cost(P::new(19, 1, 0)), 2);
    assert_eq!(bfs.get_cost(P::new(3, 0, 19)), 2);
    assert_eq!(bfs.get_cost(P::new(16, 15, 15)), 4);
}

#[test]
fn run_that_used_up_its_limit_is_not_continued() {
    // A state reached at the end of a full run keeps that cost, so the same facing
    // is never entered again with a fresh run at the same point.
    let mut bfs = BFS::new(20);
    let starts = vec![P::new(0, 0, 0)];
    let corridor = |p: P| p.y != 0 || p.z != 0;
    assert_eq!(bfs.bfs(corridor, &starts, |p: P| p == P::new(16, 0, 0)), None);
    assert_eq!(bfs.get_cost(P::new(15, 0, 0)), 1);
    assert_eq!(bfs.get_cost(P::new(16, 0, 0)), i32::MAX);
    let end = SearchState { p: P::new(15, 0, 0), d: 0 };
    assert_eq!(bfs.cost[state_slot(20, end)], C(1, 15));
}

#[test]
fn goal_is_the_cheapest_accepted_point() {
    let mut bfs = BFS::new(3);
    let starts = vec![P::new(0, 0, 0)];
    assert_eq!(bfs.bfs(nothing_filled, &starts, |p: P| p.x == 2), Some(P::new(2, 0, 0)));
}

#[test]
fn second_leg_is_cheaper_than_new_command() {
    let mut bfs = BFS::new(3);
    let starts = vec![P::new(0, 0, 0)];
    assert_eq!(bfs.bfs(nothing_filled, &starts, |p: P| p == P::new(2, 2, 2)), Some(P::new(2, 2, 2)));
    assert_eq!(bfs.get_cost(P::new(2, 2, 2)), 2);
}

#[test]
fn nearest_of_several_starts_counts() {
    let mut bfs = BFS::new(3);
    let starts = vec![P::new(0, 0, 0), P::new(2, 2, 2), P::new(0, 0, 0)];
    assert_eq!(bfs.bfs(nothing_filled, &starts, |p: P| p == P::new(2, 2, 1)), Some(P::new(2, 2, 1)));
    assert_eq!(bfs.get_cost(P::new(2, 2, 1)), 1);
    assert_eq!(bfs.get_cost(P::new(0, 0, 0)), 0);
    assert_eq!(bfs.get_cost(P::new(2, 2, 2)), 0);
}

#[test]
fn search_goes_round_a_wall() {
    let mut bfs = BFS::new(5);
    let starts = vec![P::new(0, 0, 0)];
    assert_eq!(bfs.bfs(wall_with_hole, &starts, |p: P| p == P::new(4, 0, 0)), Some(P::new(4, 0, 0)));
    assert_eq!(bfs.get_cost(P::new(4, 0, 0)), 3);
}

#[test]
fn enclosed_goal_is_not_found() {
    let mut bfs = BFS::new(5);
    let starts = vec![P::new(0, 0, 0)];
    let shell = |p: P| {
        p != P::new(2, 2, 2) && 1 <= p.x && p.x <= 3 && 1 <= p.y && p.y <= 3 && 1 <= p.z && p.z <= 3
    };
    assert_eq!(bfs.bfs(shell, &starts, |p: P| p == P::new(2, 2, 2)), None);
    assert_eq!(bfs.get_cost(P::new(2, 2, 2)), i32::MAX);
}

#[test]
fn blocked_points_get_no_cost() {
    let mut bfs = BFS::new(5);
    let starts = vec![P::new(0, 0, 0)];
    assert_eq!(bfs.bfs(wall_with_hole, &starts, no_goal), None);
    for y in 0..5 {
        for z in 0..5 {
            let p = P::new(2, y, z);
            if wall_with_hole(p) {
                assert_eq!(bfs.get_cost(p), i32::MAX);
                for d in 0..7 {
                    let s = SearchState { p, d };
                    assert_eq!(bfs.cost[state_slot(5, s)], C(i32::MAX, i32::MAX));
                    assert_eq!(bfs.prev[state_slot(5, s)], SearchState::dummy());
                }
            }
        }
    }
    assert_eq!(bfs.get_cost(P::new(2, 4, 4)), 2);
    assert_eq!(bfs.get_cost(P::new(4, 0, 0)), 3);
    assert_eq!(bfs.get_cost(P::new(4, 4, 4)), 2);
    assert_eq!(bfs.get_cost(P::new(0, 4, 4)), 1);
}

#[test]
fn cost_query_gives_the_same_answer_twice() {
    let mut bfs = BFS::new(5);
    let starts = vec![P::new(0, 0, 0)];
    assert_eq!(bfs.bfs(wall_with_hole, &starts, no_goal), None);
    for x in 0..5 {
        for y in 0..5 {
            for z in 0..5 {
                let p = P::new(x, y, z);
                let first = bfs.get_cost(p);
                assert_eq!(bfs.get_cost(p), first);
            }
        }
    }
}

#[test]
fn settled_costs_are_the_costs_at_the_end() {
    // Searching on after a goal was found changes no cost below the cost at which it
    // was found.
    let goal = P::new(3, 4, 4);
    let starts = vec![P::new(0, 0, 0)];
    let mut early = BFS::new(5);
    assert_eq!(early.bfs(wall_with_hole, &starts, |p: P| p == goal), Some(goal));
    let mut full = BFS::new(5);
    assert_eq!(full.bfs(wall_with_hole, &starts, no_goal), None);
    let mut found_at = C(i32::MAX, i32::MAX);
    for d in 0..7 {
        let c = early.cost[state_slot(5, SearchState { p: goal, d })];
        if c < found_at {
            found_at = c;
        }
    }
    // One command of two legs to (0, 4, 4), then three steps of a new run along x.
    assert_eq!(found_at, C(2, 3));
    let mut compared = 0;
    for i in 0..early.cost.len() {
        if early.cost[i] <= found_at {
            assert_eq!(early.cost[i], full.cost[i]);
            assert_eq!(early.prev[i], full.prev[i]);
            compared += 1;
        }
        assert!(full.cost[i] <= early.cost[i]);
    }
    assert!(compared > 100);
}

#[test]
fn layer_of_the_cost_field() {
    let mut bfs = BFS::new(3);
    let starts = vec![P::new(0, 0, 0)];
    assert_eq!(bfs.bfs(nothing_filled, &starts, no_goal), None);
    assert_eq!(bfs.layer_costs(0), vec![vec![0, 1, 1], vec![1, 1, 1], vec![1, 1, 1]]);
    assert_eq!(bfs.layer_costs(1), vec![vec![1, 1, 1], vec![1, 2, 2], vec![1, 2, 2]]);
    let fresh = BFS::new(2);
    assert_eq!(fresh.layer_costs(1), vec![vec![i32::MAX, i32::MAX], vec![i32::MAX, i32::MAX]]);
}

#[test]
fn exhaustive_cost_field_does_not_depend_on_the_order_of_starts() {
    let forward = vec![P::new(0, 0, 0), P::new(4, 4, 0), P::new(1, 3, 2)];
    let backward = vec![P::new(1, 3, 2), P::new(4, 4, 0), P::new(0, 0, 0)];
    let mut one = BFS::new(5);
    assert_eq!(one.bfs(wall_with_hole, &forward, no_goal), None);
    let mut other = BFS::new(5);
    assert_eq!(other.bfs(wall_with_hole, &backward, no_goal), None);
    assert_eq!(one.cost, other.cost);
}
