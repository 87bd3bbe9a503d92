use wata::bfs::BFS;
use wata::command::Command;
use wata::point::P;

fn nothing_filled(_p: P) -> bool {
    false
}

fn wall_with_hole(p: P) -> bool {
    p.x == 2 && !(p.y == 4 && p.z == 4)
}

fn axis_length(d: P) -> i32 {
    let nonzero = (d.x != 0) as i32 + (d.y != 0) as i32 + (d.z != 0) as i32;
    assert!(nonzero <= 1);
    d.x.abs() + d.y.abs() + d.z.abs()
}

fn sign_step(d: P) -> P {
    P::new(d.x.signum(), d.y.signum(), d.z.signum())
}

/// Carries the commands out from `from` and returns every point passed, `from` first.
fn carry_out(from: P, cmds: &Vec<Command>) -> Vec<P> {
    let mut at = from;
    let mut passed = vec![from];
    for cmd in cmds.iter() {
        let legs = match *cmd {
            Command::SMove(d) => vec![d],
            Command::LMove(d1, d2) => vec![d1, d2],
        };
        for leg in legs {
            let unit = sign_step(leg);
            for _ in 0..axis_length(leg) {
                at = P::new(at.x + unit.x, at.y + unit.y, at.z + unit.z);
                passed.push(at);
            }
        }
    }
    passed
}

#[test]
fn route_round_a_wall() {
    let mut bfs = BFS::new(5);
    let starts = vec![P::new(0, 0, 0)];
    let goal = P::new(4, 0, 0);
    assert_eq!(bfs.bfs(wall_with_hole, &starts, |p: P| p == goal), Some(goal));
    let cmds = bfs.restore(goal);
    assert_eq!(cmds.len() as i32, bfs.get_cost(goal));
    assert_eq!(cmds.len(), 3);
    let passed = carry_out(P::new(0, 0, 0), &cmds);
    assert_eq!(*passed.last().unwrap(), goal);
    for p in passed {
        assert!(p.is_valid(5));
        assert!(!wall_with_hole(p));
    }
}

#[test]
fn route_leads_from_a_start_to_the_goal() {
    let starts = vec![P::new(0, 0, 0), P::new(19, 0, 0)];
    for goal in [P::new(16, 0, 0), P::new(7, 3, 1), P::new(12, 1, 6), P::new(19, 5, 5)] {
        let mut bfs = BFS::new(20);
        assert_eq!(bfs.bfs(nothing_filled, &starts, |p: P| p == goal), Some(goal));
        let cmds = bfs.restore(goal);
        assert_eq!(cmds.len() as i32, bfs.get_cost(goal));
        let from_first = carry_out(starts[0], &cmds);
        let from_second = carry_out(starts[1], &cmds);
        assert!(*from_first.last().unwrap() == goal || *from_second.last().unwrap() == goal);
    }
}

#[test]
fn commands_keep_within_their_limits() {
    let mut bfs = BFS::new(20);
    let starts = vec![P::new(0, 0, 0)];
    assert_eq!(bfs.bfs(nothing_filled, &starts, |_p: P| false), None);
    let mut single = 0;
    let mut double = 0;
    for x in 0..20 {
        for y in 0..20 {
            for z in (0..20).step_by(3) {
                let p = P::new(x, y, z);
                if bfs.get_cost(p) == i32::MAX {
                    continue;
                }
                for cmd in bfs.restore(p) {
                    match cmd {
                        Command::SMove(d) => {
                            assert!(axis_length(d) <= 15);
                            single += 1;
                        }
                        Command::LMove(d1, d2) => {
                            assert!(axis_length(d1) <= 5);
                            assert!(axis_length(d2) <= 5);
                            double += 1;
                        }
                    }
                }
            }
        }
    }
    assert!(single > 0 && double > 0);
}

#[test]
fn longest_single_run_and_longest_legs() {
    let mut bfs = BFS::new(20);
    let starts = vec![P::new(2, 2, 2)];
    assert_eq!(bfs.bfs(nothing_filled, &starts, |_p: P| false), None);
    assert_eq!(bfs.restore(P::new(17, 2, 2)), vec![Command::SMove(P::new(15, 0, 0))]);
    assert_eq!(bfs.restore(P::new(2, 2, 0)), vec![Command::SMove(P::new(0, 0, -2))]);
    assert_eq!(
        bfs.restore(P::new(7, 7, 2)),
        vec![Command::LMove(P::new(0, 5, 0), P::new(5, 0, 0))]
    );
    assert_eq!(bfs.get_cost(P::new(8, 7, 2)), 2);
    assert_eq!(bfs.get_cost(P::new(18, 2, 2)), 3);
}

#[test]
fn route_to_a_start_visited_again_is_one_empty_run() {
    // After the start has been left, its directed states are on record with one
    // command, and the route is read off the cheapest directed state.
    let mut bfs = BFS::new(3);
    let starts = vec![P::new(0, 0, 0)];
    assert_eq!(bfs.bfs(nothing_filled, &starts, |_p: P| false), None);
    assert_eq!(bfs.get_cost(P::new(0, 0, 0)), 0);
    assert_eq!(bfs.restore(P::new(0, 0, 0)), vec![Command::SMove(P::new(0, 0, 0))]);
}

#[test]
fn first_cheapest_facing_decides_the_route() {
    // Both orders of the two legs cost the same; the leg along x comes first.
    let mut bfs = BFS::new(3);
    let starts = vec![P::new(0, 0, 0)];
    assert_eq!(bfs.bfs(nothing_filled, &starts, |_p: P| false), None);
    assert_eq!(
        bfs.restore(P::new(1, 1, 0)),
        vec![Command::LMove(P::new(0, 1, 0), P::new(1, 0, 0))]
    );
}
