//! Playoff-race analysis for a hockey league: a Monte Carlo season-completion
//! simulator, the playoff qualification rule, an odds estimator, an
//! ideal-outcome resolver for individual games, and a markdown builder for the
//! reports the analysis produces.

use vstd::prelude::*;

pub mod analysis;
pub mod decimal;
pub mod markdown;
pub mod nhlapi;
pub mod schedule;
pub mod simulation;
pub mod standings;
pub mod teams;

verus! {

/// What can go wrong while preparing or running an analysis: every failure
/// names the team or the shortage that caused it.
#[derive(Debug, Clone, Copy, PartialEq, Eq, Structural)]
pub enum Error {
    /// A standings record or a game names a team the roster does not hold.
    TeamNotFound(u32),
    /// An abbreviation that matches no team of the roster.
    TeamAbbrevNotFound,
    /// A standings record whose points or games played do not follow from
    /// its tally.
    InvalidRecord(u32),
    /// A tracked team without a single recorded game: its record gives the
    /// sampler no weights.
    NoGamesPlayed(u32),
    /// An odds estimate over zero trials.
    ZeroTrials,
    /// Too few teams to fill the seed lists and the bracket.
    InsufficientTeams,
}

/// The run configuration: the credentials of the posting account and the
/// teams whose playoff races are analyzed, by abbreviation.  With `test`
/// set, reports go to files instead of being posted.
#[derive(Debug, Clone)]
pub struct Config {
    pub client_id: String,
    pub client_secret: String,
    pub username: String,
    pub password: String,
    pub user_agent: String,
    pub playoffs: Vec<String>,
    pub test: bool,
}

/// A season that starts in the fall spans two calendar years; playoff runs are
/// named after the year in which they end.  Before July the current year is
/// the playoff year, from July on it is the next one.
pub fn get_season_year(year: i32, month: u32) -> (r: i32)
    requires
        1 <= month <= 12,
        year < i32::MAX,
    ensures
        r == if month < 7 {
            year as int
        } else {
            year as int + 1
        },
{
    if month < 7 {
        year
    } else {
        year + 1
    }
}

} // verus!
