use snake_game::geometry::{Direction, Point};

#[test]
fn relative_moves_one_cell() {
    let p = Point { x: 2, y: 3 };
    assert_eq!(p.relative(Direction::Up), Point { x: 2, y: 2 });
    assert_eq!(p.relative(Direction::Down), Point { x: 2, y: 4 });
    assert_eq!(p.relative(Direction::Left), Point { x: 1, y: 3 });
    assert_eq!(p.relative(Direction::Right), Point { x: 3, y: 3 });
}

#[test]
fn relative_then_opposite_returns() {
    let p = Point { x: 7, y: -4 };
    assert_eq!(p.relative(Direction::Up).relative(Direction::Down), p);
    assert_eq!(p.relative(Direction::Down).relative(Direction::Up), p);
    assert_eq!(p.relative(Direction::Left).relative(Direction::Right), p);
    assert_eq!(p.relative(Direction::Right).relative(Direction::Left), p);
}

#[test]
fn random_point_lies_within_bounds() {
    for _ in 0..200 {
        let p = Point::random(5, 3);
        assert!(0 <= p.x && p.x < 5);
        assert!(0 <= p.y && p.y < 3);
    }
}

#[test]
fn random_point_on_unit_grid_is_origin() {
    let p = Point::random(1, 1);
    assert_eq!(p, Point { x: 0, y: 0 });
}
