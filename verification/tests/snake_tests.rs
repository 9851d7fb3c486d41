use snake_game::geometry::{Direction, Point};
use snake_game::snake::Snake;

fn snake_of(points: Vec<Point>, direction: Direction) -> Snake {
    Snake { points, direction }
}

#[test]
fn head_is_last_point() {
    let s = snake_of(
        vec![Point { x: 0, y: 0 }, Point { x: 1, y: 0 }],
        Direction::Right,
    );
    assert_eq!(s.head(), Point { x: 1, y: 0 });
}

#[test]
fn body_is_all_but_head() {
    let s = snake_of(
        vec![Point { x: 0, y: 0 }, Point { x: 1, y: 0 }, Point { x: 1, y: 1 }],
        Direction::Down,
    );
    assert_eq!(s.body(), vec![Point { x: 0, y: 0 }, Point { x: 1, y: 0 }]);
}

#[test]
fn reversal_onto_neck_is_ignored() {
    let mut s = snake_of(
        vec![Point { x: 0, y: 0 }, Point { x: 1, y: 0 }],
        Direction::Right,
    );
    s.set_direction(Direction::Left);
    assert_eq!(s.direction, Direction::Right);
    s.set_direction(Direction::Up);
    assert_eq!(s.direction, Direction::Up);
}

#[test]
fn reversal_accepted_on_single_cell_snake() {
    let mut s = snake_of(vec![Point { x: 3, y: 3 }], Direction::Right);
    s.set_direction(Direction::Left);
    assert_eq!(s.direction, Direction::Left);
}

#[test]
fn stretch_appends_new_head() {
    let mut s = snake_of(vec![Point { x: 0, y: 0 }], Direction::Down);
    s.stretch();
    assert_eq!(s.points, vec![Point { x: 0, y: 0 }, Point { x: 0, y: 1 }]);
}

#[test]
fn stretch_then_shrink_advances_head_keeping_length() {
    let mut s = snake_of(
        vec![Point { x: 0, y: 0 }, Point { x: 1, y: 0 }],
        Direction::Right,
    );
    s.stretch();
    s.shrink();
    assert_eq!(s.points, vec![Point { x: 1, y: 0 }, Point { x: 2, y: 0 }]);
}

#[test]
fn score_counts_food_and_penalty() {
    let s = snake_of(
        vec![Point { x: 0, y: 0 }, Point { x: 1, y: 0 }, Point { x: 2, y: 0 }],
        Direction::Right,
    );
    assert_eq!(s.score(false, 3), 2);
    assert_eq!(s.score(true, 3), -1);
    assert_eq!(s.score(true, 0), 2);
}
