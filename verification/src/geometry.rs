//! Grid geometry: cells, headings, and the unit step a heading induces.

use vstd::prelude::*;

verus! {

/// One of the four axis-aligned headings a snake can travel in.
#[derive(PartialEq, Eq, Structural, Copy, Clone, Debug)]
pub enum Direction {
    Up,
    Down,
    Left,
    Right,
}

/// A cell of the grid. The origin is the top-left corner; `x` grows to the
/// right and `y` grows downward. Coordinates are signed so that a head one
/// step beyond the grid edge is still representable (and then detected as
/// out of bounds).
#[derive(PartialEq, Eq, Structural, Copy, Clone, Debug)]
pub struct Point {
    pub x: isize,
    pub y: isize,
}

/// The heading that undoes `d`: one step in `d` followed by one step in
/// `opposite(d)` returns to the starting cell.
pub open spec fn opposite(d: Direction) -> Direction {
    match d {
        Direction::Up => Direction::Down,
        Direction::Down => Direction::Up,
        Direction::Left => Direction::Right,
        Direction::Right => Direction::Left,
    }
}

/// Both coordinates of `p` are strictly inside the machine range, so a one
/// cell step in any direction neither overflows nor wraps.
pub open spec fn can_step(p: Point) -> bool {
    &&& isize::MIN < p.x < isize::MAX
    &&& isize::MIN < p.y < isize::MAX
}

/// The cell one step from `p` in direction `d`: the mathematical model of
/// [`Point::relative`]. Up decreases `y`, Down increases `y`, Left decreases
/// `x`, Right increases `x`.
pub open spec fn spec_relative(p: Point, d: Direction) -> Point {
    match d {
        Direction::Up => Point { x: p.x, y: (p.y - 1) as isize },
        Direction::Down => Point { x: p.x, y: (p.y + 1) as isize },
        Direction::Left => Point { x: (p.x - 1) as isize, y: p.y },
        Direction::Right => Point { x: (p.x + 1) as isize, y: p.y },
    }
}

impl Point {
    /// The cell one step away in direction `direction`.
    pub fn relative(&self, direction: Direction) -> (r: Point)
        requires
            can_step(*self),
        ensures
            r == spec_relative(*self, direction),
    {
        match direction {
            Direction::Up => Point { x: self.x, y: self.y - 1 },
            Direction::Down => Point { x: self.x, y: self.y + 1 },
            Direction::Left => Point { x: self.x - 1, y: self.y },
            Direction::Right => Point { x: self.x + 1, y: self.y },
        }
    }

    /// A uniformly random cell of a `width` by `height` grid. Consumes the
    /// process-wide random source; nothing beyond the bounds is promised of
    /// the result.
    pub fn random(width: usize, height: usize) -> (r: Point)
        requires
            1 <= width <= isize::MAX as usize,
            1 <= height <= isize::MAX as usize,
        ensures
            0 <= r.x < width as int,
            0 <= r.y < height as int,
    {
        let x = random_below(width);
        let y = random_below(height);
        Point { x: x as isize, y: y as isize }
    }
}

/// Relies on rand::random_range over `0..bound`: a sample of the thread-local
/// generator that lies within the given half-open range; it panics only on an
/// empty range, which the `requires` keeps out.
#[verifier::external_body]
pub(crate) fn random_below(bound: usize) -> (r: usize)
    requires
        1 <= bound,
    ensures
        r < bound,
{
    rand::random_range(0..bound)
}

/// Stepping in a direction and then in its opposite returns to the starting
/// point, for every point whose coordinates admit the step.
pub proof fn lemma_relative_opposite(p: Point, d: Direction)
    requires
        can_step(p),
    ensures
        spec_relative(spec_relative(p, d), opposite(d)) == p,
{
}

} // verus!
