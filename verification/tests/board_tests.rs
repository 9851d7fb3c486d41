use snake_game::board::{Board, StepOutcome};
use snake_game::geometry::{Direction, Point};
use snake_game::report::Verdict;
use snake_game::snake::Snake;

fn board(
    width: usize,
    height: usize,
    players: Vec<Snake>,
    eggs: Vec<Point>,
    death_penalty: isize,
) -> Board {
    Board { width, height, players, eggs, death_penalty }
}

fn snake_of(points: Vec<Point>, direction: Direction) -> Snake {
    Snake { points, direction }
}

fn pt(x: isize, y: isize) -> Point {
    Point { x, y }
}

#[test]
fn new_board_places_players_in_corners() {
    let b = Board::new(20, 15, true, 4);
    assert_eq!(b.width, 20);
    assert_eq!(b.height, 15);
    assert_eq!(b.death_penalty, 4);
    assert_eq!(b.players.len(), 2);
    assert_eq!(b.players[0].points, vec![pt(0, 0)]);
    assert_eq!(b.players[0].direction, Direction::Right);
    assert_eq!(b.players[1].points, vec![pt(19, 14)]);
    assert_eq!(b.players[1].direction, Direction::Left);
    assert!(b.eggs.is_empty());
}

#[test]
fn occupancy_queries() {
    let b = board(
        5,
        5,
        vec![snake_of(vec![pt(1, 1), pt(2, 1)], Direction::Right)],
        vec![pt(3, 3)],
        3,
    );
    assert!(b.point_contains_snake(pt(1, 1)));
    assert!(b.point_contains_snake(pt(2, 1)));
    assert!(!b.point_contains_snake(pt(3, 3)));
    assert!(b.point_contains_egg(pt(3, 3)));
    assert!(!b.point_contains_egg(pt(1, 1)));
    assert!(b.point_contains_body(pt(1, 1), &b.players[0]));
    assert!(!b.point_contains_body(pt(2, 1), &b.players[0]));
    assert!(!b.point_contains_other_snake(pt(1, 1), 0));
    assert!(b.point_contains_other_snake(pt(1, 1), 1));
}

#[test]
fn out_of_bounds_detection() {
    let b = board(3, 2, vec![snake_of(vec![pt(0, 0)], Direction::Right)], vec![], 3);
    assert!(!b.point_is_out_of_bounds(pt(0, 0)));
    assert!(!b.point_is_out_of_bounds(pt(2, 1)));
    assert!(b.point_is_out_of_bounds(pt(-1, 0)));
    assert!(b.point_is_out_of_bounds(pt(0, -1)));
    assert!(b.point_is_out_of_bounds(pt(3, 0)));
    assert!(b.point_is_out_of_bounds(pt(0, 2)));
}

#[test]
fn egg_spawns_only_on_the_free_cell() {
    // A 3 by 1 grid with one cell taken by the snake and one by an egg:
    // the only spot left is (2, 0).
    let b = board(
        3,
        1,
        vec![snake_of(vec![pt(0, 0)], Direction::Right)],
        vec![pt(1, 0)],
        3,
    );
    let p = b.new_egg_position();
    assert_eq!(p, Some(pt(2, 0)));
}

#[test]
fn egg_spawn_reports_full_board() {
    let b = board(1, 1, vec![snake_of(vec![pt(0, 0)], Direction::Right)], vec![], 3);
    assert_eq!(b.new_egg_position(), None);
}

#[test]
fn add_eggs_fills_free_cells() {
    let mut b = board(2, 2, vec![snake_of(vec![pt(0, 0)], Direction::Right)], vec![], 3);
    b.add_eggs(2);
    assert_eq!(b.eggs.len(), 2);
    assert_ne!(b.eggs[0], b.eggs[1]);
    for egg in &b.eggs {
        assert_ne!(*egg, pt(0, 0));
        assert!(0 <= egg.x && egg.x < 2 && 0 <= egg.y && egg.y < 2);
    }
}

#[test]
fn add_eggs_stops_when_board_is_full() {
    let mut b = board(2, 1, vec![snake_of(vec![pt(0, 0)], Direction::Right)], vec![], 3);
    b.add_eggs(5);
    assert_eq!(b.eggs, vec![pt(1, 0)]);
}

#[test]
fn tick_moves_snake_without_food() {
    // Scenario: a lone snake at the origin heading right on a 3 by 3 board
    // with nothing in the way advances by one cell and keeps its length.
    let mut b = board(3, 3, vec![snake_of(vec![pt(0, 0)], Direction::Right)], vec![], 3);
    let outcome = b.step();
    assert!(matches!(outcome, StepOutcome::Continue));
    assert_eq!(b.players[0].points, vec![pt(1, 0)]);
    assert!(b.eggs.is_empty());
}

#[test]
fn tick_with_food_grows_snake_and_respawns_egg() {
    let mut b = board(
        3,
        3,
        vec![snake_of(vec![pt(0, 0)], Direction::Right)],
        vec![pt(1, 0)],
        3,
    );
    let outcome = b.step();
    assert!(matches!(outcome, StepOutcome::Continue));
    assert_eq!(b.players[0].points, vec![pt(0, 0), pt(1, 0)]);
    // The eaten egg is replaced: the count is restored and the new egg lies
    // on a free cell.
    assert_eq!(b.eggs.len(), 1);
    assert_ne!(b.eggs[0], pt(0, 0));
    assert_ne!(b.eggs[0], pt(1, 0));
    assert!(0 <= b.eggs[0].x && b.eggs[0].x < 3);
    assert!(0 <= b.eggs[0].y && b.eggs[0].y < 3);
}

#[test]
fn tick_detects_self_collision() {
    // Scenario: a snake of length four curls onto its own body. The head is
    // at (2, 2) heading up, so the next head lands on (2, 1), a body cell.
    let mut b = board(
        4,
        4,
        vec![snake_of(vec![pt(1, 2), pt(1, 1), pt(2, 1), pt(2, 2)], Direction::Up)],
        vec![],
        3,
    );
    let outcome = b.step();
    match outcome {
        StepOutcome::GameOver(report) => {
            assert_eq!(report.dead, vec![true]);
            // A single-player report carries the penalised score and no
            // verdict.
            assert_eq!(report.scores, vec![0]);
            assert_eq!(report.verdict, None);
        },
        StepOutcome::Continue => panic!("self-collision must end the game"),
    }
}

#[test]
fn tick_detects_out_of_bounds() {
    // Scenario: the first snake walks off the left edge while the second
    // stays on the grid; the survivor wins even though the scores tie.
    let mut b = board(
        5,
        5,
        vec![
            snake_of(vec![pt(0, 0)], Direction::Left),
            snake_of(vec![pt(4, 4)], Direction::Up),
        ],
        vec![],
        0,
    );
    let outcome = b.step();
    match outcome {
        StepOutcome::GameOver(report) => {
            assert_eq!(report.dead, vec![true, false]);
            assert_eq!(report.scores, vec![0, 0]);
            assert_eq!(report.verdict, Some(Verdict::PlayerTwoWins));
        },
        StepOutcome::Continue => panic!("leaving the grid must end the game"),
    }
}

#[test]
fn tick_mutual_kill_with_equal_scores_is_a_draw() {
    // Scenario: both heads land on (2, 0); equal lengths mean equal scores,
    // and a tie where both died is a draw.
    let mut b = board(
        5,
        1,
        vec![
            snake_of(vec![pt(0, 0), pt(1, 0)], Direction::Right),
            snake_of(vec![pt(4, 0), pt(3, 0)], Direction::Left),
        ],
        vec![],
        3,
    );
    let outcome = b.step();
    match outcome {
        StepOutcome::GameOver(report) => {
            assert_eq!(report.dead, vec![true, true]);
            assert_eq!(report.scores, vec![-2, -2]);
            assert_eq!(report.verdict, Some(Verdict::Draw));
        },
        StepOutcome::Continue => panic!("mutual kill must end the game"),
    }
}

#[test]
fn tick_mutual_kill_with_unequal_scores_picks_the_higher() {
    // Scenario: a mutual kill where the longer snake scores higher and so
    // wins even though it too died.
    let mut b = board(
        5,
        2,
        vec![
            snake_of(vec![pt(0, 0), pt(1, 0)], Direction::Right),
            snake_of(vec![pt(4, 1), pt(4, 0), pt(3, 0)], Direction::Left),
        ],
        vec![],
        3,
    );
    let outcome = b.step();
    match outcome {
        StepOutcome::GameOver(report) => {
            assert_eq!(report.dead, vec![true, true]);
            assert_eq!(report.scores, vec![-2, -1]);
            assert_eq!(report.verdict, Some(Verdict::PlayerTwoWins));
        },
        StepOutcome::Continue => panic!("mutual kill must end the game"),
    }
}

#[test]
fn tick_catches_heads_already_coinciding() {
    let mut b = board(
        5,
        5,
        vec![
            snake_of(vec![pt(2, 2)], Direction::Right),
            snake_of(vec![pt(2, 2)], Direction::Left),
        ],
        vec![],
        3,
    );
    let outcome = b.step();
    match outcome {
        StepOutcome::GameOver(report) => {
            assert_eq!(report.dead, vec![true, true]);
            assert_eq!(report.scores, vec![-3, -3]);
            assert_eq!(report.verdict, Some(Verdict::Draw));
        },
        StepOutcome::Continue => panic!("coinciding heads must end the game"),
    }
    // The defensive check fires before anything moves.
    assert_eq!(b.players[0].points, vec![pt(2, 2)]);
    assert_eq!(b.players[1].points, vec![pt(2, 2)]);
}

#[test]
fn tick_detects_collision_with_other_snake() {
    // The first snake runs into the second snake's body.
    let mut b = board(
        5,
        5,
        vec![
            snake_of(vec![pt(0, 1)], Direction::Right),
            snake_of(vec![pt(2, 1), pt(1, 1)], Direction::Down),
        ],
        vec![],
        3,
    );
    let outcome = b.step();
    match outcome {
        StepOutcome::GameOver(report) => {
            assert_eq!(report.dead, vec![true, false]);
            assert_eq!(report.scores, vec![-3, 1]);
            assert_eq!(report.verdict, Some(Verdict::PlayerTwoWins));
        },
        StepOutcome::Continue => panic!("running into another snake must end the game"),
    }
}
