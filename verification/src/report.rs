//! The structured game-over report: per-snake death flags, scores, and the
//! winner rule for two-player games.

use vstd::prelude::*;
use crate::points::contains_usize;
use crate::snake::{Snake, spec_score};

verus! {

/// The outcome of a finished two-player game.
#[derive(PartialEq, Eq, Structural, Copy, Clone, Debug)]
pub enum Verdict {
    PlayerOneWins,
    PlayerTwoWins,
    Draw,
}

/// What a finished game reports: for each snake whether it died and its
/// score, and, in a two-player game, the verdict.
#[derive(Debug)]
pub struct GameOverReport {
    pub dead: Vec<bool>,
    pub scores: Vec<isize>,
    pub verdict: Option<Verdict>,
}

/// The winner rule: the higher score wins; on a tie the game is a draw only
/// when both snakes died, and otherwise the surviving snake wins.
pub open spec fn spec_verdict(score0: int, score1: int, dead0: bool, dead1: bool) -> Verdict {
    if score0 > score1 {
        Verdict::PlayerOneWins
    } else if score0 < score1 {
        Verdict::PlayerTwoWins
    } else if dead0 && dead1 {
        Verdict::Draw
    } else if dead0 {
        Verdict::PlayerTwoWins
    } else {
        Verdict::PlayerOneWins
    }
}

/// Both scores a snake of `len` cells can be given, dead or alive, fit in
/// `isize` under penalty `penalty`.
pub open spec fn score_fits(len: int, penalty: int) -> bool {
    &&& len <= isize::MAX as int
    &&& isize::MIN <= spec_score(len, true, penalty) <= isize::MAX
    &&& isize::MIN <= spec_score(len, false, penalty) <= isize::MAX
}

/// What `rep` must hold for snakes of body lengths `lens` and death flags
/// `dead` under `penalty`: the flags and scores per snake, and the verdict
/// in a two-player game. A single-player report carries the lone snake's
/// flag and penalised score, and no verdict.
pub open spec fn spec_report(
    rep: GameOverReport,
    lens: Seq<int>,
    dead: Seq<bool>,
    penalty: int,
) -> bool {
    &&& rep.dead@ == dead
    &&& rep.scores@.len() == lens.len()
    &&& dead.len() == lens.len()
    &&& lens.len() == 2 ==> {
        &&& rep.scores@[0] as int == spec_score(lens[0], dead[0], penalty)
        &&& rep.scores@[1] as int == spec_score(lens[1], dead[1], penalty)
        &&& rep.verdict == Some(
            spec_verdict(
                spec_score(lens[0], dead[0], penalty),
                spec_score(lens[1], dead[1], penalty),
                dead[0],
                dead[1],
            ),
        )
    }
    &&& lens.len() == 1 ==> {
        &&& rep.scores@[0] as int == spec_score(lens[0], dead[0], penalty)
        &&& rep.verdict is None
    }
}

/// Build the game-over report for `players`, of which those whose index is
/// listed in `dead_players` died this tick.
pub fn game_over_message(players: &Vec<Snake>, dead_players: &Vec<usize>, penalty: isize) -> (r:
    GameOverReport)
    requires
        1 <= players@.len() <= 2,
        forall|i: int|
            0 <= i < players@.len() ==> score_fits(
                (#[trigger] players@[i]).points@.len() as int,
                penalty as int,
            ),
    ensures
        spec_report(
            r,
            Seq::new(players@.len(), |i: int| players@[i].points@.len() as int),
            Seq::new(players@.len(), |i: int| dead_players@.contains(i as usize)),
            penalty as int,
        ),
{
    let ghost lens = Seq::new(players@.len(), |i: int| players@[i].points@.len() as int);
    let ghost flags = Seq::new(players@.len(), |i: int| dead_players@.contains(i as usize));
    if players.len() == 2 {
        let dead0 = contains_usize(dead_players, 0);
        let dead1 = contains_usize(dead_players, 1);
        let score0 = players[0].score(dead0, penalty);
        let score1 = players[1].score(dead1, penalty);
        let verdict = if score0 > score1 {
            Verdict::PlayerOneWins
        } else if score0 < score1 {
            Verdict::PlayerTwoWins
        } else if dead0 && dead1 {
            Verdict::Draw
        } else if dead0 {
            Verdict::PlayerTwoWins
        } else {
            Verdict::PlayerOneWins
        };
        let mut dead: Vec<bool> = Vec::new();
        dead.push(dead0);
        dead.push(dead1);
        let mut scores: Vec<isize> = Vec::new();
        scores.push(score0);
        scores.push(score1);
        assert(dead@ =~= flags);
        GameOverReport { dead, scores, verdict: Some(verdict) }
    } else {
        let dead0 = contains_usize(dead_players, 0);
        let score0 = players[0].score(dead0, penalty);
        let mut dead: Vec<bool> = Vec::new();
        dead.push(dead0);
        let mut scores: Vec<isize> = Vec::new();
        scores.push(score0);
        assert(dead@ =~= flags);
        GameOverReport { dead, scores, verdict: None }
    }
}

} // verus!
