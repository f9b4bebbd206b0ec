//! The league's reference data: teams and the groups they play in.

use vstd::prelude::*;

verus! {

/// A team and the division and conference it belongs to.  Reference data:
/// fixed for the duration of an analysis run.
#[derive(Debug, Clone, Copy, PartialEq, Eq, Structural)]
pub struct Team {
    pub id: u32,
    pub division_id: u32,
    pub conference_id: u32,
}

/// The first team of the roster with the given id.
pub open spec fn spec_find_team(teams: Seq<Team>, id: u32) -> Option<Team>
    decreases teams.len(),
{
    if teams.len() == 0 {
        None
    } else if teams.first().id == id {
        Some(teams.first())
    } else {
        spec_find_team(teams.drop_first(), id)
    }
}

/// A division of the league.
#[derive(Debug, Clone)]
pub struct Division {
    pub id: u32,
    pub name: String,
}

/// A conference of the league.
#[derive(Debug, Clone)]
pub struct Conference {
    pub id: u32,
    pub name: String,
}

/// A venue's time zone.
#[derive(Debug, Clone)]
pub struct TimeZone {
    pub id: String,
    pub offset: i32,
    pub code: String,
}

/// The venue a team plays at.
#[derive(Debug, Clone)]
pub struct Venue {
    pub id: Option<u32>,
    pub name: String,
    pub city: String,
    pub timezone: TimeZone,
}

} // verus!
