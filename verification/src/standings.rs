//! Standings records: one team's actual record at a point of the season.

use vstd::prelude::*;
use crate::decimal::{spec_decimal, u32_string};
use crate::nhlapi::LeagueRecord;

verus! {

/// One summarized stretch of games, such as the last ten: a tally and the
/// league's name for the stretch's kind.
#[derive(Debug, Clone)]
pub struct Record {
    pub wins: u32,
    pub losses: u32,
    pub ot: u32,
    pub kind: String,
}

/// The summarized stretches the league reports alongside a standings
/// record.
#[derive(Debug, Clone)]
pub struct Records {
    pub overall_records: Vec<Record>,
}

/// One team's standings record: its tally, points, and the league's ranks
/// for it.  The points follow the tally: two per win, one per overtime loss.
#[derive(Debug, Clone, Copy, PartialEq, Eq, Structural)]
pub struct TeamRecord {
    pub team_id: u32,
    pub league_record: LeagueRecord,
    pub goals_against: u32,
    pub goals_scored: u32,
    pub points: u32,
    pub row: u32,
    pub games_played: u32,
    pub division_rank: u32,
    pub conference_rank: u32,
    pub league_rank: u32,
    pub wildcard_rank: u32,
}

impl TeamRecord {
    /// The record written the usual way: wins, losses, and overtime losses
    /// separated by dashes.
    pub fn format(&self) -> (s: String)
        ensures
            s@ == spec_decimal(self.league_record.wins as nat) + "-"@ + spec_decimal(
                self.league_record.losses as nat,
            ) + "-"@ + spec_decimal(self.league_record.ot as nat),
    {
        let mut s = u32_string(self.league_record.wins);
        s.append("-");
        let losses = u32_string(self.league_record.losses);
        s.append(losses.as_str());
        s.append("-");
        let ot = u32_string(self.league_record.ot);
        s.append(ot.as_str());
        s
    }
}

} // verus!
