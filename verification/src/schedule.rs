//! Games on the schedule: the two participants, their scores, and how many
//! periods were played.

use vstd::prelude::*;

verus! {

/// One participant of a game: the team and its score.
#[derive(Debug, Clone, Copy, PartialEq, Eq, Structural)]
pub struct TeamRecord {
    pub team_id: u32,
    pub score: u32,
}

/// The two participants of a game.
#[derive(Debug, Clone, Copy, PartialEq, Eq, Structural)]
pub struct Teams {
    pub away: TeamRecord,
    pub home: TeamRecord,
}

/// One game: its participants and the period count; regulation play is three
/// periods, so a fourth means overtime and a fifth a shootout.
#[derive(Debug, Clone, Copy, PartialEq, Eq, Structural)]
pub struct Game {
    pub teams: Teams,
    pub current_period: u32,
}

impl Game {
    /// The winner: the home team when it outscores the away team, the away
    /// team otherwise.
    pub open spec fn spec_winner(&self) -> u32 {
        if self.teams.home.score > self.teams.away.score {
            self.teams.home.team_id
        } else {
            self.teams.away.team_id
        }
    }

    /// The loser: the participant the winner beat.
    pub open spec fn spec_loser(&self) -> u32 {
        if self.teams.home.score > self.teams.away.score {
            self.teams.away.team_id
        } else {
            self.teams.home.team_id
        }
    }

    pub fn home_team(&self) -> (r: u32)
        ensures
            r == self.teams.home.team_id,
    {
        self.teams.home.team_id
    }

    pub fn away_team(&self) -> (r: u32)
        ensures
            r == self.teams.away.team_id,
    {
        self.teams.away.team_id
    }

    pub fn winner(&self) -> (r: u32)
        ensures
            r == self.spec_winner(),
    {
        if self.teams.home.score > self.teams.away.score {
            self.teams.home.team_id
        } else {
            self.teams.away.team_id
        }
    }

    pub fn loser(&self) -> (r: u32)
        ensures
            r == self.spec_loser(),
    {
        if self.teams.home.score > self.teams.away.score {
            self.teams.away.team_id
        } else {
            self.teams.home.team_id
        }
    }

    pub fn overtime(&self) -> (r: bool)
        ensures
            r == (self.current_period > 3),
    {
        self.current_period > 3
    }

    pub fn shootout(&self) -> (r: bool)
        ensures
            r == (self.current_period > 4),
    {
        self.current_period > 4
    }
}

/// The period-by-period account of a game.
#[derive(Debug, Clone)]
pub struct LineScore {
    pub current_period: u32,
    pub periods: Vec<Period>,
}

/// One played period and its kind.
#[derive(Debug, Clone)]
pub struct Period {
    pub period_type: String,
}

} // verus!
