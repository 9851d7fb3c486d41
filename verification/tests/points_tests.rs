use snake_game::geometry::Point;
use snake_game::points::{contains_point, find_point, remove_multiple};
use snake_game::report::{GameOverReport, Verdict, game_over_message};
use snake_game::geometry::Direction;
use snake_game::snake::Snake;

fn pt(x: isize, y: isize) -> Point {
    Point { x, y }
}

#[test]
fn find_point_returns_first_index() {
    let points = vec![pt(0, 0), pt(1, 0), pt(1, 0)];
    assert_eq!(find_point(&points, pt(1, 0)), Some(1));
    assert_eq!(find_point(&points, pt(0, 0)), Some(0));
    assert_eq!(find_point(&points, pt(2, 2)), None);
}

#[test]
fn contains_point_matches_membership() {
    let points = vec![pt(0, 0), pt(3, 4)];
    assert!(contains_point(&points, pt(3, 4)));
    assert!(!contains_point(&points, pt(4, 3)));
}

#[test]
fn remove_multiple_drops_listed_positions() {
    let mut values: Vec<u32> = vec![10, 20, 30, 40, 50];
    remove_multiple(&mut values, &vec![1, 3]);
    assert_eq!(values, vec![10, 30, 50]);
}

#[test]
fn remove_multiple_ignores_repeats_and_overshoots() {
    let mut values: Vec<u32> = vec![10, 20, 30];
    remove_multiple(&mut values, &vec![0, 0, 9]);
    assert_eq!(values, vec![20, 30]);
}

fn report_for(lens: Vec<usize>, dead: Vec<usize>, penalty: isize) -> GameOverReport {
    let players: Vec<Snake> = lens
        .into_iter()
        .map(|len| {
            let mut points = Vec::new();
            for x in 0..len {
                points.push(pt(x as isize, 0));
            }
            Snake { points, direction: Direction::Right }
        })
        .collect();
    game_over_message(&players, &dead, penalty)
}

#[test]
fn report_flags_and_scores_each_player() {
    let report = report_for(vec![4, 2], vec![0], 3);
    assert_eq!(report.dead, vec![true, false]);
    assert_eq!(report.scores, vec![0, 1]);
    assert_eq!(report.verdict, Some(Verdict::PlayerTwoWins));
}

#[test]
fn report_higher_score_wins_even_dead() {
    let report = report_for(vec![9, 2], vec![0], 3);
    assert_eq!(report.scores, vec![5, 1]);
    assert_eq!(report.verdict, Some(Verdict::PlayerOneWins));
}

#[test]
fn report_tie_with_both_dead_is_a_draw() {
    let report = report_for(vec![3, 3], vec![0, 1], 3);
    assert_eq!(report.dead, vec![true, true]);
    assert_eq!(report.scores, vec![-1, -1]);
    assert_eq!(report.verdict, Some(Verdict::Draw));
}

#[test]
fn report_single_player_dead_is_penalised() {
    let report = report_for(vec![5], vec![0], 3);
    assert_eq!(report.dead, vec![true]);
    assert_eq!(report.scores, vec![1]);
    assert_eq!(report.verdict, None);
}

#[test]
fn report_single_player_alive_has_no_penalty_and_no_verdict() {
    let report = report_for(vec![5], vec![], 3);
    assert_eq!(report.dead, vec![false]);
    assert_eq!(report.scores, vec![4]);
    assert_eq!(report.verdict, None);
}
