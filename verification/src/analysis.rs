//! The analysis layer: the arena of downloaded league data, team lookups,
//! and the analyzer that annotates games, builds seed lists, and assigns the
//! playoff bracket.

use vstd::prelude::*;
use crate::Error;
use crate::schedule::Game;
use crate::simulation::{contains_id, pick_ideal_loser, spec_base_ok, TIMES};
use crate::standings::TeamRecord;
use crate::teams::{spec_find_team, Team};

verus! {

/// The uppercase code point of an ASCII letter; any other character keeps
/// its own code point.
pub open spec fn spec_upper_code(c: char) -> int {
    if 'a' <= c && c <= 'z' {
        c as u32 - 32
    } else {
        c as u32 as int
    }
}

/// Whether the stored name equals the query with the query's ASCII letters
/// uppercased.
pub open spec fn spec_upper_eq(query: Seq<char>, stored: Seq<char>) -> bool {
    stored.len() == query.len() && forall|i: int|
        0 <= i < query.len() ==> (#[trigger] stored[i]) as u32 == spec_upper_code(query[i])
}

/// The first record of the given team.
pub open spec fn spec_find_record(records: Seq<TeamRecord>, id: u32) -> Option<TeamRecord>
    decreases records.len(),
{
    if records.len() == 0 {
        None
    } else if records.first().team_id == id {
        Some(records.first())
    } else {
        spec_find_record(records.drop_first(), id)
    }
}

/// All the league data one analysis run reads: the roster (with each team's
/// abbreviation alongside), the standings of today and of yesterday, and the
/// games of yesterday (results) and of today (scheduled).
pub struct Api {
    pub teams: Vec<Team>,
    pub abbrevs: Vec<String>,
    pub past_standings: Vec<TeamRecord>,
    pub standings: Vec<TeamRecord>,
    pub results: Vec<Game>,
    pub games: Vec<Game>,
}

impl Api {
    /// One abbreviation per roster entry.
    pub open spec fn wf(&self) -> bool {
        self.abbrevs@.len() == self.teams@.len()
    }

    /// Looks a team up by id; the first roster entry with that id, or an
    /// error naming the id.
    pub fn get_team_by_id(&self, team_id: u32) -> (r: Result<Team, Error>)
        ensures
            match r {
                Ok(t) => spec_find_team(self.teams@, team_id) == Some(t),
                Err(e) => spec_find_team(self.teams@, team_id) is None && e == Error::TeamNotFound(
                    team_id,
                ),
            },
    {
        let n = self.teams.len();
        proof {
            assert(self.teams@.skip(0) =~= self.teams@);
        }
        let mut i: usize = 0;
        while i < n
            invariant
                n == self.teams@.len(),
                i <= n,
                spec_find_team(self.teams@, team_id) == spec_find_team(
                    self.teams@.skip(i as int),
                    team_id,
                ),
            decreases n - i,
        {
            proof {
                assert(self.teams@.skip(i as int).first() == self.teams@[i as int]);
                assert(self.teams@.skip(i as int).drop_first() =~= self.teams@.skip(i + 1));
            }
            if self.teams[i].id == team_id {
                return Ok(self.teams[i]);
            }
            i += 1;
        }
        proof {
            assert(self.teams@.skip(n as int).len() == 0);
        }
        Err(Error::TeamNotFound(team_id))
    }

    /// Looks a team up by abbreviation, ignoring the case of the query's
    /// ASCII letters; the first roster entry whose stored abbreviation is
    /// the uppercased query.
    pub fn get_team_by_abbrev(&self, abbrev: &str) -> (r: Result<Team, Error>)
        requires
            self.wf(),
        ensures
            match r {
                Ok(t) => exists|i: int|
                    0 <= i < self.teams@.len() && spec_upper_eq(abbrev@, #[trigger] self.abbrevs@[i]@)
                        && t == self.teams@[i],
                Err(e) => (forall|i: int|
                    0 <= i < self.teams@.len() ==> !spec_upper_eq(
                        abbrev@,
                        #[trigger] self.abbrevs@[i]@,
                    )) && e == Error::TeamAbbrevNotFound,
            },
    {
        let n = self.teams.len();
        let mut i: usize = 0;
        while i < n
            invariant
                self.wf(),
                n == self.teams@.len(),
                i <= n,
                forall|k: int| 0 <= k < i ==> !spec_upper_eq(abbrev@, #[trigger] self.abbrevs@[k]@),
            decreases n - i,
        {
            if upper_eq(abbrev, self.abbrevs[i].as_str()) {
                return Ok(self.teams[i]);
            }
            i += 1;
        }
        Err(Error::TeamAbbrevNotFound)
    }

    /// The points of the team's record in today's (or, for `past`,
    /// yesterday's) standings, or an error naming the team.
    pub fn get_points(&self, team_id: u32, past: bool) -> (r: Result<u32, Error>)
        ensures
            ({
                let records = if past {
                    self.past_standings@
                } else {
                    self.standings@
                };
                match r {
                    Ok(p) => spec_find_record(records, team_id) is Some && p == spec_find_record(
                        records,
                        team_id,
                    )->Some_0.points,
                    Err(e) => spec_find_record(records, team_id) is None && e
                        == Error::TeamNotFound(team_id),
                }
            }),
    {
        let records = if past {
            &self.past_standings
        } else {
            &self.standings
        };
        let n = records.len();
        proof {
            assert(records@.skip(0) =~= records@);
        }
        let mut i: usize = 0;
        while i < n
            invariant
                n == records@.len(),
                i <= n,
                records@ == if past {
                    self.past_standings@
                } else {
                    self.standings@
                },
                spec_find_record(records@, team_id) == spec_find_record(
                    records@.skip(i as int),
                    team_id,
                ),
            decreases n - i,
        {
            proof {
                assert(records@.skip(i as int).first() == records@[i as int]);
                assert(records@.skip(i as int).drop_first() =~= records@.skip(i + 1));
            }
            if records[i].team_id == team_id {
                return Ok(records[i].points);
            }
            i += 1;
        }
        proof {
            assert(records@.skip(n as int).len() == 0);
        }
        Err(Error::TeamNotFound(team_id))
    }
}

/// The ids of the roster's teams in the conference, in roster order.
pub open spec fn spec_conf_ids(teams: Seq<Team>, conference_id: u32) -> Seq<u32>
    decreases teams.len(),
{
    if teams.len() == 0 {
        Seq::empty()
    } else {
        let rest = spec_conf_ids(teams.drop_first(), conference_id);
        if teams.first().conference_id == conference_id {
            seq![teams.first().id] + rest
        } else {
            rest
        }
    }
}

/// An id on the conference list names some roster team: looking it up
/// cannot fail.
pub proof fn lemma_conf_ids_found(teams: Seq<Team>, conference_id: u32, id: u32)
    requires
        spec_conf_ids(teams, conference_id).contains(id),
    ensures
        spec_find_team(teams, id) is Some,
    decreases teams.len(),
{
    if teams.len() > 0 {
        let rest = spec_conf_ids(teams.drop_first(), conference_id);
        if teams.first().conference_id == conference_id {
            if teams.first().id != id {
                let all = seq![teams.first().id] + rest;
                let i = choose|i: int| 0 <= i < all.len() && all[i] == id;
                assert(rest[i - 1] == id);
                lemma_conf_ids_found(teams.drop_first(), conference_id, id);
            }
        } else {
            lemma_conf_ids_found(teams.drop_first(), conference_id, id);
        }
    }
}

/// The conference list holds exactly the ids of the conference's teams: an
/// id is on it just when some roster team with that id plays in the
/// conference.
pub proof fn lemma_conf_ids_contains(teams: Seq<Team>, conference_id: u32, id: u32)
    ensures
        spec_conf_ids(teams, conference_id).contains(id) <==> exists|i: int|
            0 <= i < teams.len() && #[trigger] teams[i].id == id && teams[i].conference_id
                == conference_id,
    decreases teams.len(),
{
    if teams.len() > 0 {
        let rest_teams = teams.drop_first();
        lemma_conf_ids_contains(rest_teams, conference_id, id);
        let rest = spec_conf_ids(rest_teams, conference_id);
        let first = teams.first();

        if exists|i: int|
            0 <= i < rest_teams.len() && #[trigger] rest_teams[i].id == id
                && rest_teams[i].conference_id == conference_id {
            let i = choose|i: int|
                0 <= i < rest_teams.len() && #[trigger] rest_teams[i].id == id
                    && rest_teams[i].conference_id == conference_id;
            assert(teams[i + 1].id == id && teams[i + 1].conference_id == conference_id);
        }
        if exists|i: int|
            0 <= i < teams.len() && #[trigger] teams[i].id == id && teams[i].conference_id
                == conference_id {
            let i = choose|i: int|
                0 <= i < teams.len() && #[trigger] teams[i].id == id && teams[i].conference_id
                    == conference_id;
            if i > 0 {
                assert(rest_teams[i - 1].id == id && rest_teams[i - 1].conference_id
                    == conference_id);
            }
        }

        if first.conference_id == conference_id {
            let all = seq![first.id] + rest;
            if all.contains(id) {
                let i = choose|i: int| 0 <= i < all.len() && all[i] == id;
                if i > 0 {
                    assert(rest[i - 1] == id);
                }
            }
            if rest.contains(id) {
                let j = choose|j: int| 0 <= j < rest.len() && rest[j] == id;
                assert(all[j + 1] == id);
            }
            if first.id == id {
                assert(all[0] == id);
            }
        }
    }
}

/// Whether the target team takes part in the game.
pub open spec fn spec_involved(g: Game, my_id: u32) -> bool {
    g.teams.away.team_id == my_id || g.teams.home.team_id == my_id
}

/// Whether the game matters to the target team: the target plays in it, or
/// at least one participant is a conference rival.
pub open spec fn spec_relevant_game(g: Game, my_id: u32, ids: Seq<u32>) -> bool {
    spec_involved(g, my_id) || ids.contains(g.teams.home.team_id) || ids.contains(
        g.teams.away.team_id,
    )
}

/// The cheap rules for the ideal loser.  When the target plays, the
/// opponent should lose.  When exactly one participant is a conference
/// rival, that rival should lose, whatever the odds say.  Otherwise no
/// cheap rule applies and the simulations must decide.
pub open spec fn spec_ideal_loser_rule(g: Game, my_id: u32, ids: Seq<u32>) -> Option<u32> {
    let home = g.teams.home.team_id;
    let away = g.teams.away.team_id;
    if spec_involved(g, my_id) {
        if my_id == home {
            Some(away)
        } else {
            Some(home)
        }
    } else if ids.contains(home) && !ids.contains(away) {
        Some(home)
    } else if ids.contains(away) && !ids.contains(home) {
        Some(away)
    } else {
        None
    }
}

/// What holds of an annotated game's ideal loser: exactly the cheap rule's
/// choice where one applies, and in any case one of the participants.
pub open spec fn spec_loser_ok(m: Matchup, my_id: u32, ids: Seq<u32>) -> bool {
    match spec_ideal_loser_rule(m.game, my_id, ids) {
        Some(l) => m.ideal_loser == l,
        None => m.ideal_loser == m.game.teams.home.team_id || m.ideal_loser
            == m.game.teams.away.team_id,
    }
}

/// The analyzer for one target team: the team and the ids of its
/// conference rivals.
pub struct Analyzer {
    my_team: Team,
    own_conference_team_ids: Vec<u32>,
}

impl Analyzer {
    pub closed spec fn spec_my_team(&self) -> Team {
        self.my_team
    }

    pub closed spec fn spec_ids(&self) -> Seq<u32> {
        self.own_conference_team_ids@
    }

    /// The analyzer was built over this arena: its conference list is the
    /// arena's.
    pub open spec fn wf_for(&self, api: &Api) -> bool {
        self.spec_ids() == spec_conf_ids(api.teams@, self.spec_my_team().conference_id)
    }

    /// Sets an analyzer up for the target team: collects the ids of the
    /// roster's teams in the target's conference.
    pub fn new(api: &Api, my_team: Team) -> (a: Analyzer)
        ensures
            a.spec_my_team() == my_team,
            a.wf_for(api),
    {
        let conf = my_team.conference_id;
        let mut ids: Vec<u32> = Vec::new();
        let n = api.teams.len();
        let mut i: usize = 0;
        proof {
            assert(api.teams@.skip(0) =~= api.teams@);
            assert(Seq::<u32>::empty() + spec_conf_ids(api.teams@, conf) =~= spec_conf_ids(
                api.teams@,
                conf,
            ));
        }
        while i < n
            invariant
                n == api.teams@.len(),
                i <= n,
                spec_conf_ids(api.teams@, conf) == ids@ + spec_conf_ids(
                    api.teams@.skip(i as int),
                    conf,
                ),
            decreases n - i,
        {
            let ghost before = ids@;
            proof {
                assert(api.teams@.skip(i as int).first() == api.teams@[i as int]);
                assert(api.teams@.skip(i as int).drop_first() =~= api.teams@.skip(i + 1));
            }
            let t = api.teams[i];
            if t.conference_id == conf {
                ids.push(t.id);
                proof {
                    assert(before + seq![t.id] + spec_conf_ids(api.teams@.skip(i + 1), conf)
                        =~= before + (seq![t.id] + spec_conf_ids(api.teams@.skip(i + 1), conf)));
                    assert(ids@ =~= before + seq![t.id]);
                }
            }
            i += 1;
        }
        proof {
            assert(api.teams@.skip(n as int).len() == 0);
            assert(ids@ + Seq::<u32>::empty() =~= ids@);
        }
        Analyzer { my_team, own_conference_team_ids: ids }
    }
}

/// A rank position within a standings group, with the record it ranks.
#[derive(Debug, Clone, Copy, PartialEq, Eq, Structural)]
pub struct Seed {
    pub seed: u32,
    pub record: TeamRecord,
}

/// One first-round pairing of the playoff bracket.
#[derive(Debug, Clone, Copy, PartialEq, Eq, Structural)]
pub struct PlayoffMatchup {
    pub high_team: TeamRecord,
    pub low_team: TeamRecord,
}

impl PlayoffMatchup {
    fn new(high_team: TeamRecord, low_team: TeamRecord) -> (r: PlayoffMatchup)
        ensures
            r.high_team == high_team,
            r.low_team == low_team,
    {
        PlayoffMatchup { high_team, low_team }
    }
}

/// A game annotated for the target team: whether it is a finished result,
/// whether the target plays in it, and which participant should lose.
#[derive(Debug, Clone, Copy, PartialEq, Eq, Structural)]
pub struct Matchup {
    pub game: Game,
    pub is_result: bool,
    pub is_my_team_involed: bool,
    pub ideal_loser: u32,
}

impl Matchup {
    /// The mood of a finished game: the ideal loser lost in regulation,
    /// great; the ideal loser lost but took a point in overtime, merely
    /// good; the ideal loser won, bad.
    pub open spec fn spec_mood(&self) -> Seq<char> {
        if self.game.spec_loser() == self.ideal_loser {
            if self.game.current_period > 3 {
                "Good"@
            } else {
                "Great"@
            }
        } else {
            "Bad"@
        }
    }

    /// The participant to cheer for: the one facing the ideal loser.
    pub fn cheer_for(&self) -> (r: u32)
        requires
            self.ideal_loser == self.game.teams.home.team_id || self.ideal_loser
                == self.game.teams.away.team_id,
        ensures
            r == if self.ideal_loser == self.game.teams.home.team_id {
                self.game.teams.away.team_id
            } else {
                self.game.teams.home.team_id
            },
    {
        if self.game.home_team() == self.ideal_loser {
            self.game.away_team()
        } else {
            self.game.home_team()
        }
    }

    pub fn get_mood(&self) -> (r: &'static str)
        ensures
            r@ == self.spec_mood(),
    {
        if self.game.loser() == self.ideal_loser {
            if self.game.overtime() {
                "Good"
            } else {
                "Great"
            }
        } else {
            "Bad"
        }
    }
}

/// A game paired with what is already known of it: whether it is a result
/// and whether the target team plays in it.
pub struct MatchupPre {
    pub game: Game,
    pub is_result: bool,
    pub is_my_team_involed: bool,
}

impl MatchupPre {
    pub fn create(a: &Analyzer, game: &Game, is_result: bool) -> (m: MatchupPre)
        ensures
            m.game == *game,
            m.is_result == is_result,
            m.is_my_team_involed == spec_involved(*game, a.spec_my_team().id),
    {
        let is_my_team_involed = game.teams.away.team_id == a.my_team.id
            || game.teams.home.team_id == a.my_team.id;
        MatchupPre { game: *game, is_result, is_my_team_involed }
    }

    pub fn is_relevant(&self, a: &Analyzer) -> (r: bool)
        ensures
            r == (self.is_my_team_involed || a.spec_ids().contains(self.game.teams.home.team_id)
                || a.spec_ids().contains(self.game.teams.away.team_id)),
    {
        self.is_my_team_involed || contains_id(
            &a.own_conference_team_ids,
            self.game.home_team(),
        ) || contains_id(&a.own_conference_team_ids, self.game.away_team())
    }

    /// Resolves the ideal loser for this game.  The target's opponent where
    /// the target plays; the lone conference rival where only one
    /// participant is one; otherwise two pre-seeded simulation runs decide,
    /// and only then can the standings be refused.
    pub fn pick_winner(self, a: &Analyzer, api: &Api) -> (r: Result<Matchup, Error>)
        requires
            self.is_my_team_involed == spec_involved(self.game, a.spec_my_team().id),
        ensures
            ({
                let my_id = a.spec_my_team().id;
                let ids = a.spec_ids();
                let records = if self.is_result {
                    api.past_standings@
                } else {
                    api.standings@
                };
                match r {
                    Ok(m) => {
                        &&& m.game == self.game
                        &&& m.is_result == self.is_result
                        &&& m.is_my_team_involed == self.is_my_team_involed
                        &&& spec_loser_ok(m, my_id, ids)
                        &&& (spec_ideal_loser_rule(self.game, my_id, ids) is None
                            ==> spec_base_ok(
                            api.teams@,
                            records,
                            a.spec_my_team().conference_id,
                        ))
                    },
                    Err(e) => {
                        &&& spec_ideal_loser_rule(self.game, my_id, ids) is None
                        &&& !spec_base_ok(api.teams@, records, a.spec_my_team().conference_id)
                        &&& (e is TeamNotFound || e is InvalidRecord || e is NoGamesPlayed)
                    },
                }
            }),
    {
        let home_team = self.game.home_team();
        let away_team = self.game.away_team();

        let ideal_loser: u32;
        if self.is_my_team_involed {
            if a.my_team.id == home_team {
                ideal_loser = away_team;
            } else {
                ideal_loser = home_team;
            }
        } else if contains_id(&a.own_conference_team_ids, home_team) && !contains_id(
            &a.own_conference_team_ids,
            away_team,
        ) {
            ideal_loser = home_team;
        } else if contains_id(&a.own_conference_team_ids, away_team) && !contains_id(
            &a.own_conference_team_ids,
            home_team,
        ) {
            ideal_loser = away_team;
        } else {
            let records = if self.is_result {
                &api.past_standings
            } else {
                &api.standings
            };
            ideal_loser = match pick_ideal_loser(api, a.my_team, records, &self.game, TIMES) {
                Ok(id) => id,
                Err(e) => {
                    return Err(e);
                },
            };
        }

        Ok(
            Matchup {
                game: self.game,
                is_result: self.is_result,
                is_my_team_involed: self.is_my_team_involed,
                ideal_loser,
            },
        )
    }
}

/// The games of one day that matter to the target team without it playing
/// in them, in schedule order.
pub open spec fn spec_other_games(gs: Seq<Game>, my_id: u32, ids: Seq<u32>) -> Seq<Game>
    decreases gs.len(),
{
    if gs.len() == 0 {
        Seq::empty()
    } else {
        let rest = spec_other_games(gs.drop_last(), my_id, ids);
        let g = gs.last();
        if spec_relevant_game(g, my_id, ids) && !spec_involved(g, my_id) {
            rest.push(g)
        } else {
            rest
        }
    }
}

/// The target team's own game of one day: the last it plays in, if any.
pub open spec fn spec_my_game(gs: Seq<Game>, my_id: u32) -> Option<Game>
    decreases gs.len(),
{
    if gs.len() == 0 {
        None
    } else if spec_involved(gs.last(), my_id) {
        Some(gs.last())
    } else {
        spec_my_game(gs.drop_last(), my_id)
    }
}

/// Whether annotating the list calls for the simulations at all: some
/// relevant game of other teams falls under no cheap rule.
pub open spec fn spec_needs_sim(gs: Seq<Game>, my_id: u32, ids: Seq<u32>) -> bool {
    exists|i: int|
        0 <= i < gs.len() && spec_relevant_game(#[trigger] gs[i], my_id, ids) && !spec_involved(
            gs[i],
            my_id,
        ) && spec_ideal_loser_rule(gs[i], my_id, ids) is None
}

/// Annotates one day's games for the target team: its own game (the last,
/// if it plays several) and every other relevant game, each with its ideal
/// loser.  Irrelevant games are left out entirely.
fn process_games(a: &Analyzer, api: &Api, list: &Vec<Game>, is_result: bool) -> (r: Result<
    (Option<Matchup>, Vec<Matchup>),
    Error,
>)
    ensures
        ({
            let my_id = a.spec_my_team().id;
            let ids = a.spec_ids();
            let conf = a.spec_my_team().conference_id;
            let records = if is_result {
                api.past_standings@
            } else {
                api.standings@
            };
            match r {
                Ok(p) => {
                    &&& (match p.0 {
                        Some(m) => spec_my_game(list@, my_id) == Some(m.game) && m.is_result
                            == is_result && m.is_my_team_involed && spec_loser_ok(m, my_id, ids),
                        None => spec_my_game(list@, my_id) is None,
                    })
                    &&& p.1@.len() == spec_other_games(list@, my_id, ids).len()
                    &&& (forall|k: int|
                        0 <= k < p.1@.len() ==> {
                            let m = #[trigger] p.1@[k];
                            &&& m.game == spec_other_games(list@, my_id, ids)[k]
                            &&& m.is_result == is_result
                            &&& !m.is_my_team_involed
                            &&& spec_loser_ok(m, my_id, ids)
                        })
                    &&& !(spec_needs_sim(list@, my_id, ids) && !spec_base_ok(
                        api.teams@,
                        records,
                        conf,
                    ))
                },
                Err(e) => spec_needs_sim(list@, my_id, ids) && !spec_base_ok(
                    api.teams@,
                    records,
                    conf,
                ) && (e is TeamNotFound || e is InvalidRecord || e is NoGamesPlayed),
            }
        }),
{
    let ghost my_id = a.spec_my_team().id;
    let ghost ids = a.spec_ids();
    let ghost conf = a.spec_my_team().conference_id;
    let ghost records = if is_result {
        api.past_standings@
    } else {
        api.standings@
    };
    let mut my_game: Option<Matchup> = None;
    let mut others: Vec<Matchup> = Vec::new();
    let n = list.len();
    for i in 0..n
        invariant
            n == list@.len(),
            my_id == a.spec_my_team().id,
            ids == a.spec_ids(),
            conf == a.spec_my_team().conference_id,
            records == if is_result {
                api.past_standings@
            } else {
                api.standings@
            },
            match my_game {
                Some(m) => spec_my_game(list@.take(i as int), my_id) == Some(m.game) && m.is_result
                    == is_result && m.is_my_team_involed && spec_loser_ok(m, my_id, ids),
                None => spec_my_game(list@.take(i as int), my_id) is None,
            },
            others@.len() == spec_other_games(list@.take(i as int), my_id, ids).len(),
            forall|k: int|
                0 <= k < others@.len() ==> {
                    let m = #[trigger] others@[k];
                    &&& m.game == spec_other_games(list@.take(i as int), my_id, ids)[k]
                    &&& m.is_result == is_result
                    &&& !m.is_my_team_involed
                    &&& spec_loser_ok(m, my_id, ids)
                },
            spec_needs_sim(list@.take(i as int), my_id, ids) ==> spec_base_ok(
                api.teams@,
                records,
                conf,
            ),
    {
        let game = list[i];
        proof {
            assert(list@.take(i + 1).drop_last() =~= list@.take(i as int));
            assert(list@.take(i + 1).last() == list@[i as int]);
        }
        let m = MatchupPre::create(a, &game, is_result);
        if m.is_relevant(a) {
            if m.is_my_team_involed {
                match m.pick_winner(a, api) {
                    Ok(mu) => {
                        my_game = Some(mu);
                    },
                    Err(e) => {
                        // The target plays in this game, so a cheap rule
                        // decides it and the simulations are never asked.
                        proof {
                            assert(spec_ideal_loser_rule(game, my_id, ids) is Some);
                        }
                        return Err(e);
                    },
                }
            } else {
                match m.pick_winner(a, api) {
                    Ok(mu) => {
                        others.push(mu);
                        proof {
                            assert(spec_other_games(list@.take(i + 1), my_id, ids)
                                =~= spec_other_games(list@.take(i as int), my_id, ids).push(game));
                        }
                    },
                    Err(e) => {
                        proof {
                            let gi = i as int;
                            assert(spec_relevant_game(list@[gi], my_id, ids) && !spec_involved(
                                list@[gi],
                                my_id,
                            ) && spec_ideal_loser_rule(list@[gi], my_id, ids) is None);
                            assert(spec_needs_sim(list@, my_id, ids));
                        }
                        return Err(e);
                    },
                }
            }
        }
    }
    proof {
        assert(list@.take(n as int) =~= list@);
    }
    Ok((my_game, others))
}

/// The seed lists the current standings yield: the top three conference
/// records of the target's division, the top three of the other division,
/// and the rest of the conference as wildcards, each list numbered from one
/// in standings order.
pub open spec fn spec_seeds(records: Seq<TeamRecord>, teams: Seq<Team>, my: Team) -> (
    Seq<Seed>,
    Seq<Seed>,
    Seq<Seed>,
)
    decreases records.len(),
{
    if records.len() == 0 {
        (Seq::<Seed>::empty(), Seq::<Seed>::empty(), Seq::<Seed>::empty())
    } else {
        let prev = spec_seeds(records.drop_last(), teams, my);
        let rec = records.last();
        if spec_conf_ids(teams, my.conference_id).contains(rec.team_id) {
            let t = spec_find_team(teams, rec.team_id)->Some_0;
            if t.division_id == my.division_id {
                if prev.0.len() < 3 {
                    (
                        prev.0.push(Seed { seed: (prev.0.len() + 1) as u32, record: rec }),
                        prev.1,
                        prev.2,
                    )
                } else {
                    (
                        prev.0,
                        prev.1,
                        prev.2.push(Seed { seed: (prev.2.len() + 1) as u32, record: rec }),
                    )
                }
            } else {
                if prev.1.len() < 3 {
                    (
                        prev.0,
                        prev.1.push(Seed { seed: (prev.1.len() + 1) as u32, record: rec }),
                        prev.2,
                    )
                } else {
                    (
                        prev.0,
                        prev.1,
                        prev.2.push(Seed { seed: (prev.2.len() + 1) as u32, record: rec }),
                    )
                }
            }
        } else {
            prev
        }
    }
}

/// The bracket from current standings: the two division leaders ranked by
/// points, the higher leader facing the second wildcard, the lower facing
/// the first, and each division's second and third seeds facing each other.
pub open spec fn spec_playoffs(own: Seq<Seed>, other: Seq<Seed>, wc: Seq<Seed>) -> Seq<
    PlayoffMatchup,
>
    recommends
        own.len() >= 3,
        other.len() >= 3,
        wc.len() >= 2,
{
    let own_leader = own[0].record;
    let other_leader = other[0].record;
    let high = if other_leader.points > own_leader.points {
        other_leader
    } else {
        own_leader
    };
    let low = if other_leader.points > own_leader.points {
        own_leader
    } else {
        other_leader
    };
    seq![
        PlayoffMatchup { high_team: high, low_team: wc[1].record },
        PlayoffMatchup { high_team: low, low_team: wc[0].record },
        PlayoffMatchup { high_team: own[1].record, low_team: own[2].record },
        PlayoffMatchup { high_team: other[1].record, low_team: other[2].record },
    ]
}

/// Builds the three seed lists from today's standings.
fn build_seeds(a: &Analyzer, api: &Api) -> (r: (Vec<Seed>, Vec<Seed>, Vec<Seed>))
    requires
        a.wf_for(api),
    ensures
        r.0@ == spec_seeds(api.standings@, api.teams@, a.spec_my_team()).0,
        r.1@ == spec_seeds(api.standings@, api.teams@, a.spec_my_team()).1,
        r.2@ == spec_seeds(api.standings@, api.teams@, a.spec_my_team()).2,
{
    let ghost my = a.spec_my_team();
    let mut own: Vec<Seed> = Vec::new();
    let mut other: Vec<Seed> = Vec::new();
    let mut wc: Vec<Seed> = Vec::new();
    let n = api.standings.len();
    for i in 0..n
        invariant
            a.wf_for(api),
            my == a.spec_my_team(),
            n == api.standings@.len(),
            own@.len() <= 3,
            other@.len() <= 3,
            wc@.len() <= i,
            own@ == spec_seeds(api.standings@.take(i as int), api.teams@, my).0,
            other@ == spec_seeds(api.standings@.take(i as int), api.teams@, my).1,
            wc@ == spec_seeds(api.standings@.take(i as int), api.teams@, my).2,
    {
        let rec = api.standings[i];
        proof {
            assert(api.standings@.take(i + 1).drop_last() =~= api.standings@.take(i as int));
            assert(api.standings@.take(i + 1).last() == api.standings@[i as int]);
        }
        if contains_id(&a.own_conference_team_ids, rec.team_id) {
            let t = match api.get_team_by_id(rec.team_id) {
                Ok(t) => t,
                Err(e) => {
                    proof {
                        lemma_conf_ids_found(api.teams@, my.conference_id, rec.team_id);
                    }
                    return (own, other, wc);
                },
            };
            if t.division_id == a.my_team.division_id {
                if own.len() < 3 {
                    own.push(Seed { seed: (own.len() + 1) as u32, record: rec });
                } else {
                    wc.push(Seed { seed: (wc.len() + 1) as u32, record: rec });
                }
            } else {
                if other.len() < 3 {
                    other.push(Seed { seed: (other.len() + 1) as u32, record: rec });
                } else {
                    wc.push(Seed { seed: (wc.len() + 1) as u32, record: rec });
                }
            }
        }
    }
    proof {
        assert(api.standings@.take(n as int) =~= api.standings@);
    }
    (own, other, wc)
}

/// Everything one analysis run produces for the target team: its own games
/// and the other relevant ones annotated, the seed lists, and the bracket.
#[derive(Debug)]
pub struct Analysis {
    pub my_team: Team,
    pub my_result: Option<Matchup>,
    pub results: Vec<Matchup>,
    pub my_game: Option<Matchup>,
    pub games: Vec<Matchup>,
    pub own_division_seed: Vec<Seed>,
    pub other_division_seed: Vec<Seed>,
    pub wildcard_seed: Vec<Seed>,
    pub playoffs: Vec<PlayoffMatchup>,
}

impl Analyzer {
    /// Runs the whole analysis: annotates today's games and yesterday's
    /// results, builds the seed lists, and assigns the bracket.  Fails when
    /// a needed simulation cannot be built from the standings, or when the
    /// conference is too small for three seeds a division and two
    /// wildcards.
    pub fn perform(&self, api: &Api) -> (r: Result<Analysis, Error>)
        requires
            self.wf_for(api),
        ensures
            ({
                let my = self.spec_my_team();
                let my_id = my.id;
                let ids = self.spec_ids();
                let seeds = spec_seeds(api.standings@, api.teams@, my);
                let games_blocked = spec_needs_sim(api.games@, my_id, ids) && !spec_base_ok(
                    api.teams@,
                    api.standings@,
                    my.conference_id,
                );
                let results_blocked = spec_needs_sim(api.results@, my_id, ids) && !spec_base_ok(
                    api.teams@,
                    api.past_standings@,
                    my.conference_id,
                );
                match r {
                    Ok(an) => {
                        &&& !games_blocked
                        &&& !results_blocked
                        &&& an.my_team == my
                        &&& (match an.my_game {
                            Some(m) => spec_my_game(api.games@, my_id) == Some(m.game)
                                && !m.is_result && m.is_my_team_involed && spec_loser_ok(
                                m,
                                my_id,
                                ids,
                            ),
                            None => spec_my_game(api.games@, my_id) is None,
                        })
                        &&& an.games@.len() == spec_other_games(api.games@, my_id, ids).len()
                        &&& (forall|k: int|
                            0 <= k < an.games@.len() ==> {
                                let m = #[trigger] an.games@[k];
                                &&& m.game == spec_other_games(api.games@, my_id, ids)[k]
                                &&& !m.is_result
                                &&& !m.is_my_team_involed
                                &&& spec_loser_ok(m, my_id, ids)
                            })
                        &&& (match an.my_result {
                            Some(m) => spec_my_game(api.results@, my_id) == Some(m.game)
                                && m.is_result && m.is_my_team_involed && spec_loser_ok(
                                m,
                                my_id,
                                ids,
                            ),
                            None => spec_my_game(api.results@, my_id) is None,
                        })
                        &&& an.results@.len() == spec_other_games(api.results@, my_id, ids).len()
                        &&& (forall|k: int|
                            0 <= k < an.results@.len() ==> {
                                let m = #[trigger] an.results@[k];
                                &&& m.game == spec_other_games(api.results@, my_id, ids)[k]
                                &&& m.is_result
                                &&& !m.is_my_team_involed
                                &&& spec_loser_ok(m, my_id, ids)
                            })
                        &&& an.own_division_seed@ == seeds.0
                        &&& an.other_division_seed@ == seeds.1
                        &&& an.wildcard_seed@ == seeds.2
                        &&& seeds.0.len() >= 3
                        &&& seeds.1.len() >= 3
                        &&& seeds.2.len() >= 2
                        &&& an.playoffs@ == spec_playoffs(seeds.0, seeds.1, seeds.2)
                    },
                    Err(e) => {
                        &&& (games_blocked || results_blocked || seeds.0.len() < 3
                            || seeds.1.len() < 3 || seeds.2.len() < 2)
                        &&& (e is TeamNotFound || e is InvalidRecord || e is NoGamesPlayed || e
                            is InsufficientTeams)
                        &&& (seeds.0.len() < 3 || seeds.1.len() < 3 || seeds.2.len() < 2 ==> e
                            == Error::InsufficientTeams)
                        &&& (e == Error::InsufficientTeams ==> seeds.0.len() < 3 || seeds.1.len()
                            < 3 || seeds.2.len() < 2)
                    },
                }
            }),
    {
        // Insufficient data is detected before any simulation work starts.
        let (own, other, wc) = build_seeds(self, api);
        if own.len() < 3 || other.len() < 3 || wc.len() < 2 {
            return Err(Error::InsufficientTeams);
        }
        let (my_game, games) = match process_games(self, api, &api.games, false) {
            Ok(p) => p,
            Err(e) => {
                return Err(e);
            },
        };
        let (my_result, results) = match process_games(self, api, &api.results, true) {
            Ok(p) => p,
            Err(e) => {
                return Err(e);
            },
        };
        let high: TeamRecord;
        let low: TeamRecord;
        if other[0].record.points > own[0].record.points {
            high = other[0].record;
            low = own[0].record;
        } else {
            high = own[0].record;
            low = other[0].record;
        }
        let mut playoffs: Vec<PlayoffMatchup> = Vec::new();
        playoffs.push(PlayoffMatchup::new(high, wc[1].record));
        playoffs.push(PlayoffMatchup::new(low, wc[0].record));
        playoffs.push(PlayoffMatchup::new(own[1].record, own[2].record));
        playoffs.push(PlayoffMatchup::new(other[1].record, other[2].record));
        proof {
            assert(playoffs@ =~= spec_playoffs(own@, other@, wc@));
        }
        Ok(
            Analysis {
                my_team: self.my_team,
                my_result,
                results,
                my_game,
                games,
                own_division_seed: own,
                other_division_seed: other,
                wildcard_seed: wc,
                playoffs,
            },
        )
    }
}

/// Whether the stored string equals the query uppercased, comparing ASCII
/// case-insensitively on the query's side.
fn upper_eq(query: &str, stored: &str) -> (r: bool)
    ensures
        r == spec_upper_eq(query@, stored@),
{
    let qn = query.unicode_len();
    let sn = stored.unicode_len();
    if qn != sn {
        return false;
    }
    for i in 0..qn
        invariant
            qn == query@.len(),
            qn == stored@.len(),
            forall|k: int|
                0 <= k < i ==> (#[trigger] stored@[k]) as u32 == spec_upper_code(query@[k]),
    {
        let q = query.get_char(i);
        let s = stored.get_char(i);
        let up = if 'a' <= q && q <= 'z' {
            q as u32 - 32
        } else {
            q as u32
        };
        if s as u32 != up {
            return false;
        }
    }
    true
}

} // verus!
