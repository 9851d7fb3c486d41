//! The board: grid dimensions, snakes and food, and the one-tick simulation
//! step with movement, feeding, collision detection and the game-over rule.

use vstd::prelude::*;
use crate::geometry::{Direction, Point, can_step};
use crate::points::{contains_point, find_point, remove_multiple, removed_at};
use crate::report::{GameOverReport, game_over_message, score_fits, spec_report};
use crate::snake::{Snake, adjacent};

verus! {

/// The penalty a dead snake's score carries unless a game configures its
/// own: the single-player default.
pub const DEFAULT_DEATH_PENALTY: isize = 3;

/// How many uniformly random cells a food spawn samples before it falls
/// back to scanning the grid for a free cell.
const RANDOM_SPAWN_ATTEMPTS: usize = 32;

/// What one simulation tick ends in: the game goes on, or it is over and
/// the report says who died, the scores, and the winner.
#[derive(Debug)]
pub enum StepOutcome {
    Continue,
    GameOver(GameOverReport),
}

/// The playing field: a `width` by `height` grid of cells, one or two
/// snakes, the food items ("eggs"), and the configured death penalty.
#[derive(Debug)]
pub struct Board {
    pub width: usize,
    pub height: usize,
    pub players: Vec<Snake>,
    pub eggs: Vec<Point>,
    pub death_penalty: isize,
}

/// The body of a snake after the move phase of one tick: the head advances
/// one cell along the heading; the tail is kept exactly when the new head
/// lands on an egg, and dropped otherwise.
pub open spec fn moved_points(s: Snake, eggs: Seq<Point>) -> Seq<Point> {
    if eggs.contains(s.next_head()) {
        s.points@.push(s.next_head())
    } else {
        s.points@.drop_first().push(s.next_head())
    }
}

/// Every snake of `b` after the move phase of one tick.
pub open spec fn spec_moved(b: Board) -> Seq<Seq<Point>> {
    Seq::new(b.players@.len(), |i: int| moved_points(b.players@[i], b.eggs@))
}

/// The indexes (into `eggs`) of the eggs eaten during the move phase, in
/// player order: one entry for each player whose advanced head lands on an
/// egg.
pub open spec fn spec_eaten(players: Seq<Snake>, eggs: Seq<Point>) -> Seq<usize>
    decreases players.len(),
{
    if players.len() == 0 {
        Seq::empty()
    } else {
        spec_eaten(players.drop_last(), eggs) + (if eggs.contains(players.last().next_head()) {
            seq![eggs.index_of(players.last().next_head()) as usize]
        } else {
            Seq::<usize>::empty()
        })
    }
}

/// Whether snake `i` of the pre-tick board `b` is dead once every snake has
/// moved: its new head is off the grid, on another snake, or on its own
/// body.
pub open spec fn spec_died(b: Board, i: int) -> bool {
    let moved = spec_moved(b);
    let h = moved[i].last();
    ||| !b.spec_in_bounds(h)
    ||| exists|j: int| 0 <= j < moved.len() && j != i && (#[trigger] moved[j]).contains(h)
    ||| moved[i].drop_last().contains(h)
}

/// Some snake of the pre-tick board `b` dies this tick.
pub open spec fn spec_any_died(b: Board) -> bool {
    exists|i: int| 0 <= i < b.players@.len() && spec_died(b, i)
}

/// Two snakes' heads already coincide before anything moves this tick: the
/// defensive check the step makes first in a two-player game.
pub open spec fn spec_pre_collision(b: Board) -> bool {
    b.players@.len() == 2 && b.players@[0].spec_head() == b.players@[1].spec_head()
}

/// The pre-move body lengths, in player order.
pub open spec fn spec_lens(b: Board) -> Seq<int> {
    Seq::new(b.players@.len(), |i: int| b.players@[i].points@.len() as int)
}

/// The body lengths after the move phase, in player order.
pub open spec fn spec_moved_lens(b: Board) -> Seq<int> {
    Seq::new(b.players@.len(), |i: int| spec_moved(b)[i].len() as int)
}

/// This tick's death flags, in player order.
pub open spec fn spec_death_flags(b: Board) -> Seq<bool> {
    Seq::new(b.players@.len(), |i: int| spec_died(b, i))
}

/// How the eggs of `after` relate to the pre-tick board `before` on a tick
/// that everyone survives: the eaten eggs are removed, each spawned
/// replacement lay on a free cell when it was placed, and the count is
/// restored in full unless the board ran out of free cells.
pub open spec fn spec_replenished(before: Board, after: Board, spawned: Seq<Point>) -> bool {
    let eaten = spec_eaten(before.players@, before.eggs@);
    let kept = removed_at(before.eggs@, eaten);
    &&& spawned.len() <= eaten.len()
    &&& after.eggs@ == kept + spawned
    &&& forall|k: int|
        0 <= k < spawned.len() ==> {
            &&& before.spec_in_bounds(#[trigger] spawned[k])
            &&& !(kept + spawned.take(k)).contains(spawned[k])
            &&& !after.spec_point_contains_snake(spawned[k])
        }
    &&& spawned.len() == eaten.len() || (forall|p: Point| #[trigger]
        after.spec_in_bounds(p) ==> after.spec_occupied(p))
}

/// Whether snake `i`'s head, where it now stands on board `b`, makes it
/// dead: off the grid, on another snake, or on the snake's own body.
pub open spec fn spec_head_dead(b: Board, i: int) -> bool {
    let h = b.players@[i].points@.last();
    ||| !b.spec_in_bounds(h)
    ||| b.spec_point_contains_other_snake(h, i)
    ||| b.players@[i].points@.drop_last().contains(h)
}

impl Board {
    /// `p` lies on the grid.
    pub open spec fn spec_in_bounds(self, p: Point) -> bool {
        &&& 0 <= p.x
        &&& (p.x as int) < self.width as int
        &&& 0 <= p.y
        &&& (p.y as int) < self.height as int
    }

    /// Some snake occupies `p`.
    pub open spec fn spec_point_contains_snake(self, p: Point) -> bool {
        exists|i: int|
            0 <= i < self.players@.len() && (#[trigger] self.players@[i]).points@.contains(p)
    }

    /// A snake other than number `me` occupies `p`.
    pub open spec fn spec_point_contains_other_snake(self, p: Point, me: int) -> bool {
        exists|i: int|
            0 <= i < self.players@.len() && i != me && (#[trigger] self.players@[i]).points@.contains(
                p,
            )
    }

    /// `p` is taken: an egg or some snake stands on it. A new egg may only
    /// go on a cell where this is false.
    pub open spec fn spec_occupied(self, p: Point) -> bool {
        self.eggs@.contains(p) || self.spec_point_contains_snake(p)
    }

    /// The grid has positive extent that fits signed coordinates, one or two
    /// snakes whose bodies are connected paths of on-grid cells, and eggs on
    /// distinct free on-grid cells.
    pub open spec fn wf(self) -> bool {
        &&& 1 <= self.width as int <= isize::MAX as int
        &&& 1 <= self.height as int <= isize::MAX as int
        &&& 1 <= self.players@.len() <= 2
        &&& forall|i: int| 0 <= i < self.players@.len() ==> (#[trigger] self.players@[i]).wf()
        &&& forall|i: int, k: int|
            0 <= i < self.players@.len() && 0 <= k < self.players@[i].points@.len()
                ==> self.spec_in_bounds(#[trigger] self.players@[i].points@[k])
        &&& forall|j: int|
            0 <= j < self.eggs@.len() ==> self.spec_in_bounds(#[trigger] self.eggs@[j])
        &&& self.eggs@.no_duplicates()
        &&& forall|i: int, j: int|
            0 <= i < self.players@.len() && 0 <= j < self.eggs@.len() ==> !(
            #[trigger] self.players@[i].points@.contains(#[trigger] self.eggs@[j]))
    }

    /// A fresh board with no food: player one in the top-left corner heading
    /// right, and, in a two-player game, player two in the bottom-right
    /// corner heading left.
    pub fn new(width: usize, height: usize, multiplayer: bool, death_penalty: isize) -> (r: Board)
        requires
            1 <= width as int <= isize::MAX as int,
            1 <= height as int <= isize::MAX as int,
        ensures
            r.wf(),
            r.width == width,
            r.height == height,
            r.death_penalty == death_penalty,
            r.eggs@.len() == 0,
            r.players@.len() == (if multiplayer {
                2int
            } else {
                1int
            }),
            r.players@[0].points@ == seq![Point { x: 0, y: 0 }],
            r.players@[0].direction == Direction::Right,
            multiplayer ==> r.players@[1].points@ == seq![
                Point { x: (width - 1) as isize, y: (height - 1) as isize },
            ] && r.players@[1].direction == Direction::Left,
    {
        let mut players: Vec<Snake> = Vec::new();
        players.push(Snake::new(Point { x: 0, y: 0 }, Direction::Right));
        if multiplayer {
            players.push(
                Snake::new(
                    Point { x: (width - 1) as isize, y: (height - 1) as isize },
                    Direction::Left,
                ),
            );
        }
        Board { width, height, players, eggs: Vec::new(), death_penalty }
    }

    /// Whether any snake occupies `point`.
    pub fn point_contains_snake(&self, point: Point) -> (r: bool)
        ensures
            r == self.spec_point_contains_snake(point),
    {
        let mut i: usize = 0;
        while i < self.players.len()
            invariant
                i <= self.players@.len(),
                forall|k: int|
                    0 <= k < i ==> !(#[trigger] self.players@[k]).points@.contains(point),
            decreases self.players@.len() - i,
        {
            if contains_point(&self.players[i].points, point) {
                return true;
            }
            i += 1;
        }
        false
    }

    /// Whether an egg lies on `point`.
    pub fn point_contains_egg(&self, point: Point) -> (r: bool)
        ensures
            r == self.eggs@.contains(point),
    {
        contains_point(&self.eggs, point)
    }

    /// Whether `point` lies on `player`'s body (its points except the head).
    pub fn point_contains_body(&self, point: Point, player: &Snake) -> (r: bool)
        requires
            player.points@.len() >= 1,
        ensures
            r == player.points@.drop_last().contains(point),
    {
        let body = player.body();
        contains_point(&body, point)
    }

    /// Whether a snake other than number `player_index` occupies `point`.
    pub fn point_contains_other_snake(&self, point: Point, player_index: usize) -> (r: bool)
        ensures
            r == self.spec_point_contains_other_snake(point, player_index as int),
    {
        let mut i: usize = 0;
        while i < self.players.len()
            invariant
                i <= self.players@.len(),
                forall|k: int|
                    0 <= k < i && k != player_index ==> !(
                    #[trigger] self.players@[k]).points@.contains(point),
            decreases self.players@.len() - i,
        {
            if i != player_index {
                if contains_point(&self.players[i].points, point) {
                    return true;
                }
            }
            i += 1;
        }
        false
    }

    /// A cell where a new egg may go: on the grid, on no snake and on no
    /// egg. A bounded number of uniformly random cells is sampled first;
    /// if every sample is taken, the grid is scanned cell by cell, so the
    /// search terminates even on a crowded board. `None` exactly when every
    /// cell of the grid is occupied.
    pub fn new_egg_position(&self) -> (r: Option<Point>)
        requires
            1 <= self.width as int <= isize::MAX as int,
            1 <= self.height as int <= isize::MAX as int,
        ensures
            match r {
                Some(p) => self.spec_in_bounds(p) && !self.spec_occupied(p),
                None => forall|p: Point| #[trigger]
                    self.spec_in_bounds(p) ==> self.spec_occupied(p),
            },
    {
        let mut attempts: usize = 0;
        while attempts < RANDOM_SPAWN_ATTEMPTS
            invariant
                1 <= self.width as int <= isize::MAX as int,
                1 <= self.height as int <= isize::MAX as int,
            decreases RANDOM_SPAWN_ATTEMPTS - attempts,
        {
            let point = Point::random(self.width, self.height);
            if !self.point_contains_egg(point) && !self.point_contains_snake(point) {
                return Some(point);
            }
            attempts += 1;
        }
        let mut y: usize = 0;
        while y < self.height
            invariant
                1 <= self.width as int <= isize::MAX as int,
                1 <= self.height as int <= isize::MAX as int,
                y <= self.height,
                forall|p: Point|
                    self.spec_in_bounds(p) && (p.y as int) < y as int ==> #[trigger] self.spec_occupied(p),
            decreases self.height - y,
        {
            let mut x: usize = 0;
            while x < self.width
                invariant
                    1 <= self.width as int <= isize::MAX as int,
                    1 <= self.height as int <= isize::MAX as int,
                    y < self.height,
                    x <= self.width,
                    forall|p: Point|
                        self.spec_in_bounds(p) && (p.y as int) < y as int ==> #[trigger] self.spec_occupied(p),
                    forall|p: Point|
                        self.spec_in_bounds(p) && p.y as int == y as int && (p.x as int) < x as int
                            ==> #[trigger] self.spec_occupied(p),
                decreases self.width - x,
            {
                let point = Point { x: x as isize, y: y as isize };
                if !self.point_contains_egg(point) && !self.point_contains_snake(point) {
                    return Some(point);
                }
                proof {
                    assert(self.spec_occupied(point));
                    assert forall|p: Point|
                        self.spec_in_bounds(p) && p.y as int == y as int && (p.x as int) < x as int
                            + 1 implies #[trigger] self.spec_occupied(p) by {
                        if p.x as int == x as int {
                            assert(p == point);
                        }
                    }
                }
                x += 1;
            }
            y += 1;
        }
        None
    }

    /// Add up to `n` eggs, each on a cell that is free at the moment the egg
    /// is placed. Stops short of `n` only when the board runs out of free
    /// cells; the grid, the snakes and the existing eggs are untouched.
    pub fn add_eggs(&mut self, n: usize)
        requires
            1 <= old(self).width as int <= isize::MAX as int,
            1 <= old(self).height as int <= isize::MAX as int,
            old(self).eggs@.len() + n <= usize::MAX,
        ensures
            final(self).width == old(self).width,
            final(self).height == old(self).height,
            final(self).players == old(self).players,
            final(self).death_penalty == old(self).death_penalty,
            old(self).eggs@.len() <= final(self).eggs@.len() <= old(self).eggs@.len() + n,
            final(self).eggs@.take(old(self).eggs@.len() as int) == old(self).eggs@,
            forall|j: int|
                old(self).eggs@.len() <= j < final(self).eggs@.len() ==> {
                    &&& old(self).spec_in_bounds(#[trigger] final(self).eggs@[j])
                    &&& !final(self).eggs@.take(j).contains(final(self).eggs@[j])
                    &&& !old(self).spec_point_contains_snake(final(self).eggs@[j])
                },
            final(self).eggs@.len() == old(self).eggs@.len() + n || (forall|p: Point| #[trigger]
                final(self).spec_in_bounds(p) ==> final(self).spec_occupied(p)),
    {
        let mut added: usize = 0;
        while added < n
            invariant
                1 <= self.width as int <= isize::MAX as int,
                1 <= self.height as int <= isize::MAX as int,
                self.width == old(self).width,
                self.height == old(self).height,
                self.players == old(self).players,
                self.death_penalty == old(self).death_penalty,
                added <= n,
                old(self).eggs@.len() + n <= usize::MAX,
                self.eggs@.len() == old(self).eggs@.len() + added,
                self.eggs@.take(old(self).eggs@.len() as int) == old(self).eggs@,
                forall|j: int|
                    old(self).eggs@.len() <= j < self.eggs@.len() ==> {
                        &&& old(self).spec_in_bounds(#[trigger] self.eggs@[j])
                        &&& !self.eggs@.take(j).contains(self.eggs@[j])
                        &&& !old(self).spec_point_contains_snake(self.eggs@[j])
                    },
            decreases n - added,
        {
            let maybe = self.new_egg_position();
            match maybe {
                Some(point) => {
                    let ghost before = self.eggs@;
                    self.eggs.push(point);
                    proof {
                        assert(self.eggs@.take(before.len() as int) =~= before);
                        assert(self.eggs@.take(old(self).eggs@.len() as int) =~= old(self).eggs@);
                        assert(!old(self).spec_point_contains_snake(point)) by {
                            if old(self).spec_point_contains_snake(point) {
                                let i = choose|i: int|
                                    0 <= i < old(self).players@.len() && (
                                    #[trigger] old(self).players@[i]).points@.contains(point);
                                assert(self.players@[i].points@.contains(point));
                            }
                        }
                        assert forall|j: int|
                            old(self).eggs@.len() <= j < self.eggs@.len() implies {
                            &&& old(self).spec_in_bounds(#[trigger] self.eggs@[j])
                            &&& !self.eggs@.take(j).contains(self.eggs@[j])
                            &&& !old(self).spec_point_contains_snake(self.eggs@[j])
                        } by {
                            if j < before.len() {
                                assert(self.eggs@[j] == before[j]);
                                assert(self.eggs@.take(j) =~= before.take(j));
                            } else {
                                assert(j == before.len());
                                assert(self.eggs@.take(j) =~= before);
                                assert(self.eggs@[j] == point);
                            }
                        }
                    }
                    added += 1;
                },
                None => {
                    return;
                },
            }
        }
    }

    /// The move phase of one tick: first every snake grows a new head, then
    /// each snake either keeps its tail — its new head found an egg, whose
    /// index is recorded — or drops it. Two passes, so that one snake's
    /// growth this tick is neither mistaken for food nor measured against a
    /// stale length.
    fn move_phase(&mut self) -> (eggs_eaten: Vec<usize>)
        requires
            old(self).wf(),
        ensures
            final(self).width == old(self).width,
            final(self).height == old(self).height,
            final(self).death_penalty == old(self).death_penalty,
            final(self).eggs == old(self).eggs,
            final(self).players@.len() == old(self).players@.len(),
            forall|k: int|
                0 <= k < old(self).players@.len() ==> (#[trigger] final(self).players@[k]).points@
                    == spec_moved(*old(self))[k] && final(self).players@[k].direction == old(
                    self,
                ).players@[k].direction,
            eggs_eaten@ == spec_eaten(old(self).players@, old(self).eggs@),
    {
        let n = self.players.len();
        let mut i: usize = 0;
        while i < n
            invariant
                old(self).wf(),
                n == old(self).players@.len(),
                self.width == old(self).width,
                self.height == old(self).height,
                self.death_penalty == old(self).death_penalty,
                self.eggs == old(self).eggs,
                self.players@.len() == n as int,
                i <= n,
                forall|k: int|
                    0 <= k < i ==> (#[trigger] self.players@[k]).points@ == old(
                        self,
                    ).players@[k].points@.push(old(self).players@[k].next_head()) && self.players@[k].direction
                        == old(self).players@[k].direction,
                forall|k: int| i <= k < n ==> #[trigger] self.players@[k] == old(self).players@[k],
            decreases n - i,
        {
            proof {
                assert(old(self).players@[i as int].wf());
                let pts = old(self).players@[i as int].points@;
                assert(old(self).spec_in_bounds(pts[pts.len() - 1]));
                assert(can_step(old(self).players@[i as int].spec_head()));
            }
            let snake = &mut self.players[i];
            snake.stretch();
            i += 1;
        }
        let ghost eggs = old(self).eggs@;
        let mut eggs_eaten: Vec<usize> = Vec::new();
        let mut i: usize = 0;
        while i < n
            invariant
                old(self).wf(),
                n == old(self).players@.len(),
                self.width == old(self).width,
                self.height == old(self).height,
                self.death_penalty == old(self).death_penalty,
                self.eggs == old(self).eggs,
                eggs == old(self).eggs@,
                self.players@.len() == n as int,
                i <= n,
                forall|k: int|
                    0 <= k < i ==> (#[trigger] self.players@[k]).points@ == spec_moved(
                        *old(self),
                    )[k] && self.players@[k].direction == old(self).players@[k].direction,
                forall|k: int|
                    i <= k < n ==> (#[trigger] self.players@[k]).points@ == old(
                        self,
                    ).players@[k].points@.push(old(self).players@[k].next_head())
                        && self.players@[k].direction == old(self).players@[k].direction,
                eggs_eaten@ == spec_eaten(old(self).players@.take(i as int), eggs),
            decreases n - i,
        {
            proof {
                assert(old(self).players@[i as int].wf());
                assert(self.players@[i as int].points@.len() >= 2);
                assert(self.players@[i as int].points@.last() == old(
                    self,
                ).players@[i as int].next_head());
                assert(old(self).players@.take(i as int + 1).drop_last() =~= old(
                    self,
                ).players@.take(i as int));
                assert(old(self).players@.take(i as int + 1).last() == old(
                    self,
                ).players@[i as int]);
            }
            let head = self.players[i].head();
            let found = find_point(&self.eggs, head);
            match found {
                Some(idx) => {
                    eggs_eaten.push(idx);
                    proof {
                        assert(eggs[idx as int] == head);
                        assert(eggs.contains(head));
                        let c = eggs.index_of(head);
                        assert(0 <= c < eggs.len() && eggs[c] == head);
                        assert(c == idx as int) by {
                            if c != idx as int {
                                assert(eggs[c] == eggs[idx as int]);
                            }
                        }
                        assert(eggs_eaten@ =~= spec_eaten(old(self).players@.take(i as int), eggs)
                            + seq![idx]);
                        assert(self.players@[i as int].points@ == moved_points(
                            old(self).players@[i as int],
                            eggs,
                        ));
                    }
                },
                None => {
                    proof {
                        assert(!eggs.contains(head));
                        assert(eggs_eaten@ =~= spec_eaten(old(self).players@.take(i as int), eggs)
                            + Seq::<usize>::empty());
                    }
                    let snake = &mut self.players[i];
                    snake.shrink();
                    proof {
                        let s = old(self).players@[i as int];
                        assert(s.points@.push(s.next_head()).drop_first()
                            =~= s.points@.drop_first().push(s.next_head()));
                        assert(self.players@[i as int].points@ == moved_points(s, eggs));
                    }
                },
            }
            i += 1;
        }
        proof {
            assert(old(self).players@.take(n as int) =~= old(self).players@);
        }
        eggs_eaten
    }

    /// Which snakes, where they now stand, are dead: their indexes, in
    /// rising order.
    fn detect_deaths(&self) -> (dead: Vec<usize>)
        requires
            self.width as int <= isize::MAX as int,
            self.height as int <= isize::MAX as int,
            forall|i: int| 0 <= i < self.players@.len() ==> (#[trigger] self.players@[i]).points@.len() >= 1,
        ensures
            forall|k: int|
                0 <= k < self.players@.len() ==> (dead@.contains(k as usize) == spec_head_dead(
                    *self,
                    k,
                )),
            forall|j: int|
                0 <= j < dead@.len() ==> (#[trigger] dead@[j] as int) < self.players@.len()
                    && spec_head_dead(*self, dead@[j] as int),
    {
        let n = self.players.len();
        let mut dead: Vec<usize> = Vec::new();
        let mut i: usize = 0;
        while i < n
            invariant
                n == self.players@.len(),
                self.width as int <= isize::MAX as int,
                self.height as int <= isize::MAX as int,
                forall|k: int|
                    0 <= k < self.players@.len() ==> (#[trigger] self.players@[k]).points@.len()
                        >= 1,
                i <= n,
                forall|k: int|
                    0 <= k < i ==> (dead@.contains(k as usize) == spec_head_dead(*self, k)),
                forall|j: int|
                    0 <= j < dead@.len() ==> (#[trigger] dead@[j] as int) < i && spec_head_dead(
                        *self,
                        dead@[j] as int,
                    ),
            decreases n - i,
        {
            let head = self.players[i].head();
            let oob = self.point_is_out_of_bounds(head);
            let other = self.point_contains_other_snake(head, i);
            let own = self.point_contains_body(head, &self.players[i]);
            let died = oob || other || own;
            proof {
                assert(died == spec_head_dead(*self, i as int));
            }
            let ghost before = dead@;
            if died {
                dead.push(i);
            }
            proof {
                assert forall|k: int|
                    0 <= k < i + 1 implies (dead@.contains(k as usize) == spec_head_dead(
                    *self,
                    k,
                )) by {
                    if died {
                        assert(dead@ == before.push(i));
                        if k < i {
                            assert(dead@.contains(k as usize) == before.contains(k as usize)) by {
                                if before.contains(k as usize) {
                                    let j = choose|j: int|
                                        0 <= j < before.len() && before[j] == k as usize;
                                    assert(dead@[j] == k as usize);
                                }
                                if dead@.contains(k as usize) {
                                    let j = choose|j: int|
                                        0 <= j < dead@.len() && dead@[j] == k as usize;
                                    if j < before.len() {
                                        assert(before[j] == k as usize);
                                    }
                                }
                            }
                        } else {
                            assert(dead@[dead@.len() - 1] == i);
                            assert(dead@.contains(i as usize));
                        }
                    } else {
                        if k == i {
                            assert(!dead@.contains(i as usize)) by {
                                if dead@.contains(i as usize) {
                                    let j = choose|j: int|
                                        0 <= j < dead@.len() && dead@[j] == i as usize;
                                }
                            }
                        }
                    }
                }
            }
            i += 1;
        }
        dead
    }

    /// Advance the simulation exactly one tick, in this order: a defensive
    /// check for two heads already on one cell (two-player), the move phase,
    /// the death checks over every new head, and — only when every snake
    /// survives — removal of the eaten eggs and spawning of as many new
    /// ones. A tick on which any snake dies ends the game: the board keeps
    /// the moved snakes, the eggs stay as they were, and the report carries
    /// each snake's death flag and score and, in a two-player game, the
    /// verdict.
    pub fn step(&mut self) -> (r: StepOutcome)
        requires
            old(self).wf(),
            old(self).eggs@.len() + 2 <= usize::MAX,
            forall|i: int|
                0 <= i < old(self).players@.len() ==> score_fits(
                    (#[trigger] old(self).players@[i]).points@.len() as int,
                    old(self).death_penalty as int,
                ) && score_fits(
                    old(self).players@[i].points@.len() as int + 1,
                    old(self).death_penalty as int,
                ),
        ensures
            final(self).width == old(self).width,
            final(self).height == old(self).height,
            final(self).death_penalty == old(self).death_penalty,
            final(self).players@.len() == old(self).players@.len(),
            forall|i: int|
                0 <= i < old(self).players@.len() ==> (#[trigger] final(self).players@[i]).direction
                    == old(self).players@[i].direction,
            spec_pre_collision(*old(self)) ==> {
                &&& *final(self) == *old(self)
                &&& match r {
                    StepOutcome::GameOver(rep) => spec_report(
                        rep,
                        spec_lens(*old(self)),
                        seq![true, true],
                        old(self).death_penalty as int,
                    ),
                    StepOutcome::Continue => false,
                }
            },
            !spec_pre_collision(*old(self)) ==> {
                &&& forall|i: int|
                    0 <= i < old(self).players@.len() ==> (
                    #[trigger] final(self).players@[i]).points@ == spec_moved(*old(self))[i]
                &&& spec_any_died(*old(self)) ==> {
                    &&& final(self).eggs == old(self).eggs
                    &&& match r {
                        StepOutcome::GameOver(rep) => spec_report(
                            rep,
                            spec_moved_lens(*old(self)),
                            spec_death_flags(*old(self)),
                            old(self).death_penalty as int,
                        ),
                        StepOutcome::Continue => false,
                    }
                }
                &&& !spec_any_died(*old(self)) ==> {
                    &&& match r {
                        StepOutcome::Continue => true,
                        StepOutcome::GameOver(_) => false,
                    }
                    &&& final(self).wf()
                    &&& exists|spawned: Seq<Point>|
                        spec_replenished(*old(self), *final(self), spawned)
                }
            },
    {
        let ghost orig: Board = *old(self);
        let n = self.players.len();

        // Defensive pre-move check: in a two-player game, two heads already
        // on the same cell end the game with both snakes dead.
        if n == 2 {
            let head0 = self.players[0].head();
            let head1 = self.players[1].head();
            if head0 == head1 {
                let mut both: Vec<usize> = Vec::new();
                both.push(0);
                both.push(1);
                let report = game_over_message(&self.players, &both, self.death_penalty);
                proof {
                    assert(spec_pre_collision(orig));
                    assert(both@[0] == 0usize && both@[1] == 1usize);
                    assert(both@.contains(0usize) && both@.contains(1usize));
                    assert(Seq::new(orig.players@.len(), |i: int| both@.contains(i as usize))
                        =~= seq![true, true]);
                    assert(Seq::new(
                        orig.players@.len(),
                        |i: int| orig.players@[i].points@.len() as int,
                    ) =~= spec_lens(orig));
                }
                return StepOutcome::GameOver(report);
            }
        }
        proof {
            assert(!spec_pre_collision(orig));
        }

        let eggs_eaten = self.move_phase();
        let dead_players = self.detect_deaths();
        proof {
            assert forall|k: int| 0 <= k < n implies spec_head_dead(*self, k) == spec_died(
                orig,
                k,
            ) by {
                assert(self.players@[k].points@ == spec_moved(orig)[k]);
                let h = spec_moved(orig)[k].last();
                assert(self.spec_in_bounds(h) == orig.spec_in_bounds(h));
                assert(self.spec_point_contains_other_snake(h, k) == (exists|j: int|
                    0 <= j < spec_moved(orig).len() && j != k && (#[trigger] spec_moved(
                        orig,
                    )[j]).contains(h))) by {
                    if self.spec_point_contains_other_snake(h, k) {
                        let j = choose|j: int|
                            0 <= j < self.players@.len() && j != k && (
                            #[trigger] self.players@[j]).points@.contains(h);
                        assert(spec_moved(orig)[j].contains(h));
                    }
                    if exists|j: int|
                        0 <= j < spec_moved(orig).len() && j != k && (#[trigger] spec_moved(
                            orig,
                        )[j]).contains(h) {
                        let j = choose|j: int|
                            0 <= j < spec_moved(orig).len() && j != k && (#[trigger] spec_moved(
                                orig,
                            )[j]).contains(h);
                        assert(self.players@[j].points@.contains(h));
                    }
                }
            }
            assert forall|i: int| 0 <= i < n implies score_fits(
                (#[trigger] self.players@[i]).points@.len() as int,
                self.death_penalty as int,
            ) by {
                let s = orig.players@[i];
                assert(self.players@[i].points@ == moved_points(s, orig.eggs@));
            }
        }

        if dead_players.len() > 0 {
            proof {
                assert(spec_died(orig, dead_players@[0] as int));
                assert(spec_any_died(orig));
            }
            let report = game_over_message(&self.players, &dead_players, self.death_penalty);
            proof {
                assert(Seq::new(self.players@.len(), |i: int| dead_players@.contains(i as usize))
                    =~= spec_death_flags(orig));
                assert(Seq::new(
                    self.players@.len(),
                    |i: int| self.players@[i].points@.len() as int,
                ) =~= spec_moved_lens(orig));
            }
            return StepOutcome::GameOver(report);
        }
        proof {
            assert(!spec_any_died(orig)) by {
                if spec_any_died(orig) {
                    let i = choose|i: int| 0 <= i < orig.players@.len() && spec_died(orig, i);
                    assert(dead_players@.contains(i as usize));
                }
            }
        }

        // Everyone survives: replace what was eaten.
        let ghost eaten = spec_eaten(orig.players@, orig.eggs@);
        let ghost kept = removed_at(orig.eggs@, eaten);
        remove_multiple(&mut self.eggs, &eggs_eaten);
        proof {
            assert(self.eggs@ == kept);
            crate::points::lemma_removed_at_len(orig.eggs@, eaten);
            lemma_eaten_len(orig.players@, orig.eggs@);
            assert(eaten.len() <= 2);
        }
        let count = eggs_eaten.len();
        self.add_eggs(count);
        proof {
            let spawned = self.eggs@.skip(kept.len() as int);
            assert(self.eggs@ =~= kept + spawned);
            assert(spec_replenished(orig, *self, spawned)) by {
                assert forall|k: int| 0 <= k < spawned.len() implies {
                    &&& orig.spec_in_bounds(#[trigger] spawned[k])
                    &&& !(kept + spawned.take(k)).contains(spawned[k])
                    &&& !self.spec_point_contains_snake(spawned[k])
                } by {
                    let j = kept.len() as int + k;
                    assert(self.eggs@[j] == spawned[k]);
                    assert(self.eggs@.take(j) =~= kept + spawned.take(k));
                }
            }
            lemma_step_preserves_wf(orig, *self, spawned);
        }
        StepOutcome::Continue
    }

    /// Whether `point` lies off the grid.
    pub fn point_is_out_of_bounds(&self, point: Point) -> (r: bool)
        requires
            self.width as int <= isize::MAX as int,
            self.height as int <= isize::MAX as int,
        ensures
            r == !self.spec_in_bounds(point),
    {
        point.x < 0 || point.y < 0 || point.x >= self.width as isize || point.y
            >= self.height as isize
    }
}

/// Moving preserves a snake's shape: the moved body is nonempty and exactly
/// one cell longer on an eating tick, it is still a connected path, its last
/// cell is the advanced head, and every other cell was already part of the
/// snake.
proof fn lemma_moved_wf(s: Snake, eggs: Seq<Point>)
    requires
        s.wf(),
        can_step(s.spec_head()),
    ensures
        moved_points(s, eggs).len() == s.points@.len() + (if eggs.contains(s.next_head()) {
            1int
        } else {
            0int
        }),
        moved_points(s, eggs).len() >= 1,
        forall|k: int|
            0 <= k < moved_points(s, eggs).len() - 1 ==> adjacent(
                #[trigger] moved_points(s, eggs)[k],
                moved_points(s, eggs)[k + 1],
            ),
        moved_points(s, eggs).last() == s.next_head(),
        forall|k: int|
            0 <= k < moved_points(s, eggs).len() - 1 ==> s.points@.contains(
                #[trigger] moved_points(s, eggs)[k],
            ),
{
    let m = moved_points(s, eggs);
    let pts = s.points@;
    assert(adjacent(s.spec_head(), s.next_head()));
    if eggs.contains(s.next_head()) {
        assert forall|k: int| 0 <= k < m.len() - 1 implies adjacent(
            #[trigger] m[k],
            m[k + 1],
        ) by {
            if k < pts.len() - 1 {
                assert(m[k] == pts[k] && m[k + 1] == pts[k + 1]);
            } else {
                assert(m[k] == pts.last() && m[k + 1] == s.next_head());
            }
        }
        assert forall|k: int| 0 <= k < m.len() - 1 implies pts.contains(#[trigger] m[k]) by {
            assert(m[k] == pts[k]);
        }
    } else {
        assert forall|k: int| 0 <= k < m.len() - 1 implies adjacent(
            #[trigger] m[k],
            m[k + 1],
        ) by {
            if k < pts.len() - 2 {
                assert(m[k] == pts[k + 1] && m[k + 1] == pts[k + 2]);
            } else {
                assert(m[k] == pts[pts.len() - 1] && m[k + 1] == s.next_head());
            }
        }
        assert forall|k: int| 0 <= k < m.len() - 1 implies pts.contains(#[trigger] m[k]) by {
            assert(m[k] == pts[k + 1]);
        }
    }
}

/// A player whose advanced head stands on an egg contributes that egg's
/// index to the eaten list.
proof fn lemma_eaten_contains(players: Seq<Snake>, eggs: Seq<Point>, i: int)
    requires
        0 <= i < players.len(),
        players.len() <= 2,
        eggs.contains(players[i].next_head()),
    ensures
        spec_eaten(players, eggs).contains(eggs.index_of(players[i].next_head()) as usize),
{
    let h = players[i].next_head();
    let idx = eggs.index_of(h) as usize;
    assert(0 <= eggs.index_of(h) < eggs.len() && eggs[eggs.index_of(h)] == h);
    if players.len() == 1 {
        assert(players.drop_last() =~= Seq::<Snake>::empty());
        assert(spec_eaten(Seq::<Snake>::empty(), eggs) == Seq::<usize>::empty());
        assert(players.last() == players[0]);
        let e = spec_eaten(players, eggs);
        assert(e =~= seq![idx]);
        assert(e[0] == idx);
        assert(e.contains(idx));
    } else {
        let rest = players.drop_last();
        assert(rest =~= seq![players[0]]);
        assert(rest.drop_last() =~= Seq::<Snake>::empty());
        assert(spec_eaten(Seq::<Snake>::empty(), eggs) == Seq::<usize>::empty());
        assert(rest.last() == players[0]);
        let e = spec_eaten(players, eggs);
        let e0 = spec_eaten(rest, eggs);
        if i == 0 {
            assert(e0 =~= seq![idx]);
            assert(e0[0] == idx);
            assert(e[0] == idx);
            assert(e.contains(idx));
        } else {
            assert(players.last() == players[1]);
            assert(e == e0 + seq![idx]);
            assert(e[e.len() - 1] == idx);
            assert(e.contains(idx));
        }
    }
}

/// At most one egg is eaten per player.
proof fn lemma_eaten_len(players: Seq<Snake>, eggs: Seq<Point>)
    ensures
        spec_eaten(players, eggs).len() <= players.len(),
    decreases players.len(),
{
    if players.len() > 0 {
        lemma_eaten_len(players.drop_last(), eggs);
    }
}

/// Every entry of the eaten list indexes an egg.
proof fn lemma_eaten_valid(players: Seq<Snake>, eggs: Seq<Point>)
    ensures
        forall|k: int|
            0 <= k < spec_eaten(players, eggs).len() ==> (#[trigger] spec_eaten(
                players,
                eggs,
            )[k] as int) < eggs.len(),
    decreases players.len(),
{
    if players.len() > 0 {
        lemma_eaten_valid(players.drop_last(), eggs);
        let e = spec_eaten(players, eggs);
        let e0 = spec_eaten(players.drop_last(), eggs);
        assert forall|k: int| 0 <= k < e.len() implies (#[trigger] e[k] as int) < eggs.len() by {
            if k < e0.len() {
                assert(e[k] == e0[k]);
            } else {
                let h = players.last().next_head();
                assert(eggs.contains(h));
                assert(0 <= eggs.index_of(h) < eggs.len() && eggs[eggs.index_of(h)] == h);
            }
        }
    }
}

/// On a tick where a snake eats — its advanced head lands on an egg — its
/// length grows by exactly one.
pub proof fn lemma_eating_growth(s: Snake, eggs: Seq<Point>)
    requires
        eggs.contains(s.next_head()),
    ensures
        moved_points(s, eggs).len() == s.points@.len() + 1,
{
}

/// A surviving tick restores the food count: when the eaten eggs have
/// pairwise distinct indexes and a replacement spawned for each, the board
/// afterwards holds exactly as many eggs as before the tick.
pub proof fn lemma_food_count_restored(before: Board, after: Board, spawned: Seq<Point>)
    requires
        before.wf(),
        before.eggs@.len() <= usize::MAX,
        spec_replenished(before, after, spawned),
        spec_eaten(before.players@, before.eggs@).no_duplicates(),
        spawned.len() == spec_eaten(before.players@, before.eggs@).len(),
    ensures
        after.eggs@.len() == before.eggs@.len(),
{
    let eaten = spec_eaten(before.players@, before.eggs@);
    lemma_eaten_valid(before.players@, before.eggs@);
    crate::points::lemma_removed_at_len(before.eggs@, eaten);
    crate::points::lemma_hit_count_all(before.eggs@.len(), eaten);
}

/// The eaten egg is gone once the tick ends: on a surviving tick, the cell
/// whose egg some snake ate holds no egg afterwards — the eater's head now
/// stands there, and new eggs spawn only on free cells.
pub proof fn lemma_eaten_egg_gone(before: Board, after: Board, spawned: Seq<Point>, i: int)
    requires
        before.wf(),
        spec_replenished(before, after, spawned),
        after.players@.len() == before.players@.len(),
        forall|k: int|
            0 <= k < before.players@.len() ==> (#[trigger] after.players@[k]).points@ == spec_moved(
                before,
            )[k],
        0 <= i < before.players@.len(),
        before.eggs@.contains(before.players@[i].next_head()),
    ensures
        !after.eggs@.contains(before.players@[i].next_head()),
{
    let h = before.players@[i].next_head();
    let eaten = spec_eaten(before.players@, before.eggs@);
    let kept = removed_at(before.eggs@, eaten);
    lemma_eaten_contains(before.players@, before.eggs@, i);
    crate::points::lemma_removed_at_elements(before.eggs@, eaten);
    let c = before.eggs@.index_of(h);
    assert(0 <= c < before.eggs@.len() && before.eggs@[c] == h);
    assert(after.players@[i].points@ == spec_moved(before)[i]);
    assert(spec_moved(before)[i].last() == h);
    assert(after.players@[i].points@.contains(h)) by {
        assert(after.players@[i].points@[after.players@[i].points@.len() - 1] == h);
    }
    assert(after.spec_point_contains_snake(h));
    if after.eggs@.contains(h) {
        let j = choose|j: int| 0 <= j < after.eggs@.len() && after.eggs@[j] == h;
        if j < kept.len() {
            assert(kept[j] == h);
            assert(kept.contains(kept[j]));
            let p = choose|p: int|
                0 <= p < before.eggs@.len() && !eaten.contains(p as usize) && before.eggs@[p]
                    == kept[j];
            assert(p == c) by {
                if p != c {
                    assert(before.eggs@[p] == before.eggs@[c]);
                }
            }
        } else {
            assert(after.eggs@[j] == spawned[j - kept.len()]);
            assert(!after.spec_point_contains_snake(spawned[j - kept.len()]));
        }
    }
}

/// Surviving a tick preserves the board invariant: the moved snakes are
/// still connected on-grid paths, and the replenished eggs still lie on
/// distinct cells that no snake occupies.
proof fn lemma_step_preserves_wf(before: Board, after: Board, spawned: Seq<Point>)
    requires
        before.wf(),
        !spec_any_died(before),
        after.width == before.width,
        after.height == before.height,
        after.death_penalty == before.death_penalty,
        after.players@.len() == before.players@.len(),
        forall|i: int|
            0 <= i < before.players@.len() ==> (#[trigger] after.players@[i]).points@ == spec_moved(
                before,
            )[i],
        spec_replenished(before, after, spawned),
    ensures
        after.wf(),
{
    let eaten = spec_eaten(before.players@, before.eggs@);
    let kept = removed_at(before.eggs@, eaten);
    let n = before.players@.len() as int;
    crate::points::lemma_removed_at_len(before.eggs@, eaten);
    crate::points::lemma_removed_at_elements(before.eggs@, eaten);
    crate::points::lemma_removed_at_no_duplicates(before.eggs@, eaten);
    assert forall|i: int| 0 <= i < n implies can_step(
        (#[trigger] before.players@[i]).spec_head(),
    ) by {
        assert(before.players@[i].wf());
        let pts = before.players@[i].points@;
        assert(before.spec_in_bounds(pts[pts.len() - 1]));
    }
    // The snakes: still connected paths, every cell on the grid.
    assert forall|i: int| 0 <= i < n implies (#[trigger] after.players@[i]).wf() by {
        lemma_moved_wf(before.players@[i], before.eggs@);
    }
    assert forall|i: int, k: int|
        0 <= i < n && 0 <= k < after.players@[i].points@.len() implies after.spec_in_bounds(
        #[trigger] after.players@[i].points@[k],
    ) by {
        lemma_moved_wf(before.players@[i], before.eggs@);
        let m = spec_moved(before)[i];
        if k < m.len() - 1 {
            assert(before.players@[i].points@.contains(m[k]));
            let p = choose|p: int|
                0 <= p < before.players@[i].points@.len() && before.players@[i].points@[p] == m[k];
            assert(before.spec_in_bounds(before.players@[i].points@[p]));
        } else {
            assert(!spec_died(before, i));
            assert(before.spec_in_bounds(m.last()));
        }
    }
    // The eggs: on the grid, distinct, on no snake.
    assert forall|j: int| 0 <= j < after.eggs@.len() implies after.spec_in_bounds(
        #[trigger] after.eggs@[j],
    ) by {
        if j < kept.len() {
            assert(after.eggs@[j] == kept[j]);
            assert(kept.contains(kept[j]));
            let p = choose|p: int|
                0 <= p < before.eggs@.len() && !eaten.contains(p as usize) && before.eggs@[p]
                    == kept[j];
            assert(before.spec_in_bounds(before.eggs@[p]));
        } else {
            assert(after.eggs@[j] == spawned[j - kept.len()]);
            assert(before.spec_in_bounds(spawned[j - kept.len()]));
        }
    }
    assert(after.eggs@.no_duplicates()) by {
        assert forall|a: int, b: int|
            0 <= a < b < after.eggs@.len() implies after.eggs@[a] != after.eggs@[b] by {
            if b < kept.len() {
                assert(after.eggs@[a] == kept[a] && after.eggs@[b] == kept[b]);
            } else {
                let kb = b - kept.len();
                assert(after.eggs@[b] == spawned[kb]);
                assert(!(kept + spawned.take(kb)).contains(spawned[kb]));
                assert((kept + spawned.take(kb))[a] == after.eggs@[a]);
                assert((kept + spawned.take(kb)).contains(after.eggs@[a]));
            }
        }
    }
    assert forall|i: int, j: int|
        0 <= i < n && 0 <= j < after.eggs@.len() implies !(
    #[trigger] after.players@[i].points@.contains(#[trigger] after.eggs@[j])) by {
        let e = after.eggs@[j];
        if j < kept.len() {
            assert(kept.contains(kept[j]));
            let p = choose|p: int|
                0 <= p < before.eggs@.len() && !eaten.contains(p as usize) && before.eggs@[p]
                    == kept[j];
            if after.players@[i].points@.contains(e) {
                lemma_moved_wf(before.players@[i], before.eggs@);
                let m = spec_moved(before)[i];
                let k = choose|k: int| 0 <= k < m.len() && m[k] == e;
                if k < m.len() - 1 {
                    assert(before.players@[i].points@.contains(m[k]));
                    let q = choose|q: int|
                        0 <= q < before.players@[i].points@.len()
                            && before.players@[i].points@[q] == m[k];
                    assert(!before.players@[i].points@.contains(before.eggs@[p]));
                } else {
                    // The egg stands where the advanced head now is, so the
                    // egg was eaten, yet position p survived the removal.
                    assert(e == before.players@[i].next_head());
                    assert(before.eggs@.contains(before.players@[i].next_head()));
                    lemma_eaten_contains(before.players@, before.eggs@, i);
                    let c = before.eggs@.index_of(before.players@[i].next_head());
                    assert(0 <= c < before.eggs@.len() && before.eggs@[c] == e);
                    assert(c == p) by {
                        if c != p {
                            assert(before.eggs@[c] == before.eggs@[p]);
                        }
                    }
                    assert(eaten.contains(p as usize));
                }
            }
        } else {
            assert(e == spawned[j - kept.len()]);
            assert(!after.spec_point_contains_snake(e));
            if after.players@[i].points@.contains(e) {
                assert(after.spec_point_contains_snake(e));
            }
        }
    }
}

} // verus!
