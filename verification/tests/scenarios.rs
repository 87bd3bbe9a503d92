use wata::bfs::BFS;
use wata::command::Command;
use wata::point::P;

#[test]
fn straight_run_is_one_command() {
    let mut bfs = BFS::new(3);
    let starts = vec![P::new(0, 0, 0)];
    let found = bfs.bfs(|_p: P| false, &starts, |p: P| p == P::new(2, 0, 0));
    assert_eq!(found, Some(P::new(2, 0, 0)));
    assert_eq!(bfs.get_cost(P::new(2, 0, 0)), 1);
    assert_eq!(bfs.restore(P::new(2, 0, 0)), vec![Command::SMove(P::new(2, 0, 0))]);
}

#[test]
fn corner_is_one_command_of_two_legs() {
    let mut bfs = BFS::new(3);
    let starts = vec![P::new(0, 0, 0)];
    let found = bfs.bfs(|_p: P| false, &starts, |p: P| p == P::new(1, 1, 0));
    assert_eq!(found, Some(P::new(1, 1, 0)));
    assert_eq!(bfs.get_cost(P::new(1, 1, 0)), 1);
    let cmds = bfs.restore(P::new(1, 1, 0));
    let first_x = vec![Command::LMove(P::new(1, 0, 0), P::new(0, 1, 0))];
    let first_y = vec![Command::LMove(P::new(0, 1, 0), P::new(1, 0, 0))];
    assert!(cmds == first_x || cmds == first_y);
}

#[test]
fn start_that_is_goal_needs_no_command() {
    let mut bfs = BFS::new(3);
    let starts = vec![P::new(1, 1, 1)];
    let found = bfs.bfs(|_p: P| false, &starts, |p: P| p == P::new(1, 1, 1));
    assert_eq!(found, Some(P::new(1, 1, 1)));
    assert_eq!(bfs.get_cost(P::new(1, 1, 1)), 0);
    assert_eq!(bfs.restore(P::new(1, 1, 1)), Vec::<Command>::new());
}
