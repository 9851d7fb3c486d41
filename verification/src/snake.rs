//! A snake: an ordered sequence of grid cells (tail first, head last) and a
//! current heading, with growth, shrinking and scoring.

use vstd::prelude::*;
use crate::geometry::{Direction, Point, can_step, opposite, spec_relative};

verus! {

/// Two cells that share an edge of the grid: one is a unit step from the
/// other along exactly one axis.
pub open spec fn adjacent(a: Point, b: Point) -> bool {
    ||| (a.x == b.x && (a.y - b.y == 1 || b.y - a.y == 1))
    ||| (a.y == b.y && (a.x - b.x == 1 || b.x - a.x == 1))
}

/// The score of a snake of `len` cells: one point per food item eaten
/// (length minus one), less `penalty` when the snake is dead.
pub open spec fn spec_score(len: int, is_dead: bool, penalty: int) -> int {
    len - 1 - (if is_dead { penalty } else { 0 })
}

/// A snake. The first point is the tail (the next cell to be vacated), the
/// last point is the head (the cell most recently entered).
#[derive(Debug)]
pub struct Snake {
    pub points: Vec<Point>,
    pub direction: Direction,
}

impl Snake {
    /// The head: the most recently added point.
    pub open spec fn spec_head(self) -> Point {
        self.points@.last()
    }

    /// The cell the head will occupy after one step along the heading.
    pub open spec fn next_head(self) -> Point {
        spec_relative(self.spec_head(), self.direction)
    }

    /// A snake is well formed when it has at least one point and consecutive
    /// points are adjacent cells: the body is a connected path.
    pub open spec fn wf(self) -> bool {
        &&& self.points@.len() >= 1
        &&& forall|k: int|
            0 <= k < self.points@.len() - 1 ==> adjacent(
                #[trigger] self.points@[k],
                self.points@[k + 1],
            )
    }

    /// The heading after a request for `requested`: adopted unless it would
    /// move the head straight onto the point behind it.
    pub open spec fn next_direction(self, requested: Direction) -> Direction {
        if self.points@.len() == 1 || self.points@[self.points@.len() - 2] != spec_relative(
            self.spec_head(),
            requested,
        ) {
            requested
        } else {
            self.direction
        }
    }

    /// A snake of a single cell heading in `direction`.
    pub fn new(start: Point, direction: Direction) -> (r: Snake)
        ensures
            r.points@ == seq![start],
            r.direction == direction,
            r.wf(),
    {
        let mut points: Vec<Point> = Vec::new();
        points.push(start);
        Snake { points, direction }
    }

    /// The last point of the sequence.
    pub fn head(&self) -> (r: Point)
        requires
            self.points@.len() >= 1,
        ensures
            r == self.spec_head(),
    {
        self.points[self.points.len() - 1]
    }

    /// Every point but the head, tail first.
    pub fn body(&self) -> (r: Vec<Point>)
        requires
            self.points@.len() >= 1,
        ensures
            r@ == self.points@.drop_last(),
    {
        let mut r: Vec<Point> = Vec::new();
        let mut i: usize = 0;
        while i < self.points.len() - 1
            invariant
                self.points@.len() >= 1,
                i <= self.points@.len() - 1,
                r@ == self.points@.take(i as int),
            decreases self.points@.len() - 1 - i,
        {
            r.push(self.points[i]);
            i += 1;
        }
        assert(self.points@.take(self.points@.len() - 1) =~= self.points@.drop_last());
        r
    }

    /// Adopt `requested` as the heading, unless the snake is longer than one
    /// cell and `requested` points straight at the cell behind the head (a
    /// 180 degree reversal), which is silently ignored.
    pub fn set_direction(&mut self, requested: Direction)
        requires
            old(self).points@.len() >= 1,
            can_step(old(self).spec_head()),
        ensures
            final(self).points == old(self).points,
            final(self).direction == old(self).next_direction(requested),
    {
        let len = self.points.len();
        if len == 1 || !(self.points[len - 2] == self.head().relative(requested)) {
            self.direction = requested;
        }
    }

    /// Grow a new head one cell along the current heading; length rises by
    /// one and every existing point stays.
    pub fn stretch(&mut self)
        requires
            old(self).points@.len() >= 1,
            can_step(old(self).spec_head()),
        ensures
            final(self).points@ == old(self).points@.push(old(self).next_head()),
            final(self).direction == old(self).direction,
    {
        let new_head = self.head().relative(self.direction);
        self.points.push(new_head);
    }

    /// Remove the tail, the oldest point. Removing the last remaining point
    /// would empty the snake, so callers keep length at least two.
    pub fn shrink(&mut self)
        requires
            old(self).points@.len() >= 2,
        ensures
            final(self).points@ == old(self).points@.drop_first(),
            final(self).direction == old(self).direction,
    {
        self.points.remove(0);
        assert(old(self).points@.remove(0) =~= old(self).points@.drop_first());
    }

    /// The snake's score: food eaten (length minus one), less `penalty` when
    /// `is_dead` holds.
    pub fn score(&self, is_dead: bool, penalty: isize) -> (r: isize)
        requires
            self.points@.len() <= isize::MAX as usize,
            isize::MIN <= spec_score(
                self.points@.len() as int,
                is_dead,
                penalty as int,
            ) <= isize::MAX,
        ensures
            r as int == spec_score(self.points@.len() as int, is_dead, penalty as int),
    {
        let applied: isize = if is_dead {
            penalty
        } else {
            0
        };
        (self.points.len() as isize) - 1 - applied
    }
}

/// A 180 degree reversal is rejected: on a snake of length at least two
/// whose neck lies one step behind the head against the current heading,
/// requesting the opposite of that heading leaves the heading unchanged.
pub proof fn lemma_reverse_rejected(s: Snake)
    requires
        s.points@.len() >= 2,
        s.points@[s.points@.len() - 2] == spec_relative(s.spec_head(), opposite(s.direction)),
    ensures
        s.next_direction(opposite(s.direction)) == s.direction,
{
}

/// On a snake of a single cell there is no neck to reverse into, so even the
/// exact opposite of the current heading is adopted.
pub proof fn lemma_reverse_accepted_when_single(s: Snake)
    requires
        s.points@.len() == 1,
    ensures
        s.next_direction(opposite(s.direction)) == opposite(s.direction),
{
}

/// The non-eating tick: growing a new head and then dropping the tail keeps
/// the length, shifts every surviving point one place toward the tail, drops
/// the old tail, and ends with the advanced head as the last point.
pub proof fn lemma_stretch_then_shrink(s: Snake)
    requires
        s.points@.len() >= 1,
    ensures
        s.points@.push(s.next_head()).drop_first().len() == s.points@.len(),
        s.points@.push(s.next_head()).drop_first() == s.points@.drop_first().push(s.next_head()),
        forall|k: int|
            0 <= k < s.points@.len() - 1 ==> s.points@.push(s.next_head()).drop_first()[k]
                == s.points@[k + 1],
        s.points@.push(s.next_head()).drop_first().last() == s.next_head(),
{
    assert(s.points@.push(s.next_head()).drop_first() =~= s.points@.drop_first().push(
        s.next_head(),
    ));
}

} // verus!
