use playoffsbot::analysis::{Analyzer, Api, Matchup, MatchupPre};
use playoffsbot::decimal::u32_string;
use playoffsbot::nhlapi::{LeagueRecord, Season};
use playoffsbot::schedule::{Game, TeamRecord as GameSide, Teams};
use playoffsbot::simulation::{
    complete_season, odds_for_team, pick_ideal_loser, qualifies, sort_entries, Entry,
};
use playoffsbot::standings::TeamRecord;
use playoffsbot::teams::Team;
use playoffsbot::{get_season_year, Error};

fn team(id: u32, division_id: u32, conference_id: u32) -> Team {
    Team {
        id,
        division_id,
        conference_id,
    }
}

fn record(team_id: u32, wins: u32, losses: u32, ot: u32) -> TeamRecord {
    TeamRecord {
        team_id,
        league_record: LeagueRecord { wins, losses, ot },
        goals_against: 0,
        goals_scored: 0,
        points: 2 * wins + ot,
        row: wins,
        games_played: wins + losses + ot,
        division_rank: 0,
        conference_rank: 0,
        league_rank: 0,
        wildcard_rank: 0,
    }
}

fn entry(team_id: u32, division_id: u32, wins: u32, losses: u32, ot: u32) -> Entry {
    Entry {
        team_id,
        division_id,
        wins,
        losses,
        ot,
        games_played: wins + losses + ot,
        points: 2 * wins + ot,
    }
}

fn game(home: u32, home_score: u32, away: u32, away_score: u32, period: u32) -> Game {
    Game {
        teams: Teams {
            away: GameSide {
                team_id: away,
                score: away_score,
            },
            home: GameSide {
                team_id: home,
                score: home_score,
            },
        },
        current_period: period,
    }
}

/// Conference 1 holds divisions 10 (teams 1-4) and 20 (teams 5-10);
/// conference 2 holds division 30 (teams 11-12).
fn league_teams() -> (Vec<Team>, Vec<String>) {
    let mut teams = Vec::new();
    let mut abbrevs = Vec::new();
    for id in 1..=4u32 {
        teams.push(team(id, 10, 1));
        abbrevs.push(format!("T{:02}", id));
    }
    for id in 5..=10u32 {
        teams.push(team(id, 20, 1));
        abbrevs.push(format!("T{:02}", id));
    }
    for id in 11..=12u32 {
        teams.push(team(id, 30, 2));
        abbrevs.push(format!("T{:02}", id));
    }
    (teams, abbrevs)
}

/// Standings in conference-rank order: three division-10 teams and the whole
/// of division 20 above team 4, the target of most tests.
fn league_standings() -> Vec<TeamRecord> {
    vec![
        record(1, 50, 20, 0),  // 100 points, division 10
        record(2, 49, 21, 0),  // 98 points, division 10
        record(3, 48, 22, 0),  // 96 points, division 10
        record(5, 47, 22, 1),  // 95 points, division 20
        record(6, 47, 23, 0),  // 94 points, division 20
        record(7, 46, 23, 1),  // 93 points, division 20
        record(8, 46, 24, 0),  // 92 points, division 20
        record(9, 45, 24, 1),  // 91 points, division 20
        record(10, 45, 25, 0), // 90 points, division 20
        record(4, 30, 40, 0),  // 60 points, division 10: the target
        record(11, 40, 30, 0), // other conference
        record(12, 39, 31, 0), // other conference
    ]
}

fn league_api() -> Api {
    let (teams, abbrevs) = league_teams();
    Api {
        teams,
        abbrevs,
        past_standings: league_standings(),
        standings: league_standings(),
        results: Vec::new(),
        games: Vec::new(),
    }
}

/// An arena whose conference-1 standings cannot seed a simulation: team 3
/// has no game played.  Any resolver that reaches the Monte Carlo branch on
/// it must fail, so a cheap-rule answer proves no simulation ran.
fn blocked_api() -> Api {
    let (teams, abbrevs) = league_teams();
    let mut standings = league_standings();
    standings[2] = record(3, 0, 0, 0);
    Api {
        teams,
        abbrevs,
        past_standings: standings.clone(),
        standings,
        results: Vec::new(),
        games: Vec::new(),
    }
}

#[test]
fn test_get_season_year() {
    assert_eq!(get_season_year(2019, 3), 2019);
    assert_eq!(get_season_year(2018, 11), 2019);
}

#[test]
fn season_parse_accepts_eight_digits() {
    let season = Season::parse("20182019").unwrap();
    assert_eq!(season.begin, 2018);
    assert_eq!(season.end, 2019);
}

#[test]
fn season_parse_rejects_bad_codes() {
    assert!(Season::parse("2018201").is_none());
    assert!(Season::parse("201820199").is_none());
    assert!(Season::parse("2018201a").is_none());
    assert!(Season::parse("").is_none());
}

#[test]
fn decimal_rendering() {
    assert_eq!(u32_string(0).as_str(), "0");
    assert_eq!(u32_string(7).as_str(), "7");
    assert_eq!(u32_string(10).as_str(), "10");
    assert_eq!(u32_string(123456).as_str(), "123456");
    assert_eq!(u32_string(u32::MAX).as_str(), "4294967295");
}

#[test]
fn record_format() {
    assert_eq!(record(1, 50, 20, 3).format().as_str(), "50-20-3");
}

#[test]
fn completed_seasons_play_exactly_82_games() {
    // The simulator must stop every team at 82 games (P-style check on a
    // run's real output).
    let base = vec![
        entry(1, 10, 30, 20, 5),
        entry(2, 10, 10, 60, 2),
        entry(3, 20, 41, 41, 0),
        entry(4, 20, 82, 0, 0),
    ];
    let done = complete_season(&base);
    assert_eq!(done.len(), base.len());
    for (b, c) in base.iter().zip(done.iter()) {
        assert_eq!(c.team_id, b.team_id);
        assert_eq!(c.games_played, 82);
        assert_eq!(c.wins + c.losses + c.ot, 82);
        assert!(c.wins >= b.wins && c.losses >= b.losses && c.ot >= b.ot);
    }
}

#[test]
fn completed_seasons_keep_points_invariant() {
    let base = vec![entry(1, 10, 30, 20, 5), entry(2, 10, 1, 0, 1)];
    let done = complete_season(&base);
    for c in &done {
        assert_eq!(c.points, 2 * c.wins + c.ot);
    }
}

#[test]
fn all_win_record_samples_only_wins() {
    // A team with only wins on record can only draw wins, so its completed
    // season is fully determined; a draw outside the weights would show up
    // here at once.
    let base = vec![entry(1, 10, 5, 0, 0)];
    let done = complete_season(&base);
    assert_eq!(done[0].wins, 82);
    assert_eq!(done[0].losses, 0);
    assert_eq!(done[0].ot, 0);
    assert_eq!(done[0].points, 164);
}

#[test]
fn sort_ranks_by_points_then_wins() {
    let entries = vec![
        entry(1, 10, 30, 20, 5),  // 65 points
        entry(2, 10, 40, 30, 0),  // 80 points
        entry(3, 10, 31, 25, 3),  // 65 points, more wins than team 1
        entry(4, 10, 40, 28, 0),  // 80 points, equal to team 2
    ];
    let sorted = sort_entries(&entries);
    let ids: Vec<u32> = sorted.iter().map(|e| e.team_id).collect();
    // Equal rank keeps the earlier entry first: team 2 before team 4.
    assert_eq!(ids, vec![2, 4, 3, 1]);
}

fn scenario_entries() -> Vec<Entry> {
    vec![
        entry(1, 10, 50, 20, 0),
        entry(2, 10, 49, 21, 0),
        entry(3, 10, 48, 22, 0),
        entry(5, 20, 47, 22, 1),
        entry(6, 20, 47, 23, 0),
        entry(7, 20, 46, 23, 1),
        entry(8, 20, 46, 24, 0),
        entry(9, 20, 45, 24, 1),
        entry(4, 10, 30, 40, 0),
    ]
}

#[test]
fn qualification_scenario_division_and_wildcards_filled() {
    // Three division rivals outrank the target and both wildcard slots go
    // to other-division teams with more points: the target stays out.
    let snapshot = scenario_entries();
    assert!(!qualifies(&snapshot, 4, 10));
    // The wildcard teams themselves are in.
    assert!(qualifies(&snapshot, 8, 20));
    assert!(qualifies(&snapshot, 9, 20));
    // The division qualifiers are in.
    assert!(qualifies(&snapshot, 1, 10));
    assert!(qualifies(&snapshot, 7, 20));
}

#[test]
fn qualification_is_pure() {
    let snapshot = scenario_entries();
    let first = qualifies(&snapshot, 4, 10);
    let second = qualifies(&snapshot, 4, 10);
    assert_eq!(first, second);
    let first_in = qualifies(&snapshot, 8, 20);
    let second_in = qualifies(&snapshot, 8, 20);
    assert_eq!(first_in, second_in);
}

#[test]
fn odds_are_bounded_by_trials() {
    let api = league_api();
    let my_team = team(4, 10, 1);
    let count = odds_for_team(&api, my_team, false, 100).unwrap();
    assert!(count <= 100);
}

#[test]
fn one_trial_gives_zero_or_one() {
    let api = league_api();
    let my_team = team(4, 10, 1);
    let count = odds_for_team(&api, my_team, false, 1).unwrap();
    assert!(count == 0 || count == 1);
}

#[test]
fn zero_trials_are_refused() {
    let api = league_api();
    let my_team = team(4, 10, 1);
    assert_eq!(odds_for_team(&api, my_team, false, 0), Err(Error::ZeroTrials));
}

#[test]
fn certain_qualifier_wins_every_trial() {
    // A two-team conference has room for everyone, so the target qualifies
    // in every single trial.
    let teams = vec![team(1, 10, 1), team(2, 20, 1)];
    let api = Api {
        teams,
        abbrevs: vec!["AAA".to_string(), "BBB".to_string()],
        past_standings: vec![record(1, 41, 41, 0), record(2, 41, 41, 0)],
        standings: vec![record(1, 41, 41, 0), record(2, 41, 41, 0)],
        results: Vec::new(),
        games: Vec::new(),
    };
    let count = odds_for_team(&api, team(1, 10, 1), false, 50).unwrap();
    assert_eq!(count, 50);
}

#[test]
fn standings_with_unknown_team_are_refused() {
    let api = league_api();
    let mut broken = league_api();
    broken.standings.push(record(99, 10, 10, 0));
    assert!(odds_for_team(&api, team(4, 10, 1), false, 10).is_ok());
    assert_eq!(
        odds_for_team(&broken, team(4, 10, 1), false, 10),
        Err(Error::TeamNotFound(99))
    );
}

#[test]
fn inconsistent_record_is_refused() {
    let mut broken = league_api();
    broken.standings[0].points = 1;
    assert_eq!(
        odds_for_team(&broken, team(4, 10, 1), false, 10),
        Err(Error::InvalidRecord(1))
    );
}

#[test]
fn record_without_games_is_refused() {
    let api = blocked_api();
    assert_eq!(
        odds_for_team(&api, team(4, 10, 1), false, 10),
        Err(Error::NoGamesPlayed(3))
    );
}

#[test]
fn ideal_loser_is_a_participant() {
    let api = league_api();
    let g = game(5, 0, 6, 0, 3);
    let loser = pick_ideal_loser(&api, team(4, 10, 1), &api.standings, &g, 50).unwrap();
    assert!(loser == 5 || loser == 6);
}

#[test]
fn own_game_names_opponent_without_simulating() {
    // The target plays: the opponent is the ideal loser, and the blocked
    // standings prove the Monte Carlo branch was never taken.
    let api = blocked_api();
    let analyzer = Analyzer::new(&api, team(4, 10, 1));
    let g = game(4, 0, 5, 0, 3);
    let m = MatchupPre::create(&analyzer, &g, false);
    assert!(m.is_my_team_involed);
    let matchup = m.pick_winner(&analyzer, &api).unwrap();
    assert_eq!(matchup.ideal_loser, 5);

    let g2 = game(5, 0, 4, 0, 3);
    let m2 = MatchupPre::create(&analyzer, &g2, false);
    let matchup2 = m2.pick_winner(&analyzer, &api).unwrap();
    assert_eq!(matchup2.ideal_loser, 5);
}

#[test]
fn lone_conference_rival_loses_without_simulating() {
    // Exactly one participant is a conference rival: that rival is the
    // ideal loser, again with standings that would make a simulation fail.
    let api = blocked_api();
    let analyzer = Analyzer::new(&api, team(4, 10, 1));
    let g = game(5, 0, 11, 0, 3);
    let m = MatchupPre::create(&analyzer, &g, false);
    assert!(!m.is_my_team_involed);
    let matchup = m.pick_winner(&analyzer, &api).unwrap();
    assert_eq!(matchup.ideal_loser, 5);

    let g2 = game(11, 0, 5, 0, 3);
    let m2 = MatchupPre::create(&analyzer, &g2, false);
    let matchup2 = m2.pick_winner(&analyzer, &api).unwrap();
    assert_eq!(matchup2.ideal_loser, 5);
}

#[test]
fn cheer_for_names_the_other_side() {
    let m = Matchup {
        game: game(5, 2, 6, 3, 3),
        is_result: false,
        is_my_team_involed: false,
        ideal_loser: 5,
    };
    assert_eq!(m.cheer_for(), 6);
    let m2 = Matchup {
        ideal_loser: 6,
        ..m
    };
    assert_eq!(m2.cheer_for(), 5);
}

#[test]
fn mood_labels() {
    // Home team 5 scores less: it is the loser.
    let lost_in_overtime = Matchup {
        game: game(5, 2, 6, 3, 4),
        is_result: true,
        is_my_team_involed: false,
        ideal_loser: 5,
    };
    assert_eq!(lost_in_overtime.get_mood(), "Good");

    let lost_in_regulation = Matchup {
        game: game(5, 2, 6, 3, 3),
        ..lost_in_overtime
    };
    assert_eq!(lost_in_regulation.get_mood(), "Great");

    let wrong_team_lost = Matchup {
        game: game(5, 3, 6, 2, 3),
        ..lost_in_overtime
    };
    assert_eq!(wrong_team_lost.get_mood(), "Bad");
}

#[test]
fn analyzer_excludes_out_of_conference_games() {
    // A finished game between two teams of the other conference must not
    // appear anywhere in the analysis.
    let mut api = league_api();
    api.results.push(game(11, 3, 12, 2, 3));
    let analyzer = Analyzer::new(&api, team(4, 10, 1));
    let analysis = analyzer.perform(&api).unwrap();
    assert!(analysis.my_result.is_none());
    assert!(analysis.results.is_empty());
    assert!(analysis.my_game.is_none());
    assert!(analysis.games.is_empty());
}

#[test]
fn analyzer_annotates_results_end_to_end() {
    // A rival (team 5) loses to an outsider in overtime: the rival is the
    // ideal loser and the mood is merely good for the extra point.
    let mut api = league_api();
    api.results.push(game(5, 2, 11, 3, 4));
    let analyzer = Analyzer::new(&api, team(4, 10, 1));
    let analysis = analyzer.perform(&api).unwrap();
    assert!(analysis.my_result.is_none());
    assert_eq!(analysis.results.len(), 1);
    let m = &analysis.results[0];
    assert_eq!(m.ideal_loser, 5);
    assert!(m.is_result);
    assert_eq!(m.get_mood(), "Good");
}

#[test]
fn analyzer_builds_bracket_from_current_standings() {
    // Division leaders with 100 and 95 points: the 100-point leader faces
    // the second-ranked wildcard, the 95-point leader the first.
    let api = league_api();
    let analyzer = Analyzer::new(&api, team(4, 10, 1));
    let analysis = analyzer.perform(&api).unwrap();

    let own: Vec<u32> = analysis.own_division_seed.iter().map(|s| s.record.team_id).collect();
    let other: Vec<u32> = analysis.other_division_seed.iter().map(|s| s.record.team_id).collect();
    let wildcard: Vec<u32> = analysis.wildcard_seed.iter().map(|s| s.record.team_id).collect();
    assert_eq!(own, vec![1, 2, 3]);
    assert_eq!(other, vec![5, 6, 7]);
    assert_eq!(wildcard, vec![8, 9, 10, 4]);
    let seeds: Vec<u32> = analysis.wildcard_seed.iter().map(|s| s.seed).collect();
    assert_eq!(seeds, vec![1, 2, 3, 4]);

    assert_eq!(analysis.playoffs.len(), 4);
    assert_eq!(analysis.playoffs[0].high_team.team_id, 1); // 100 points
    assert_eq!(analysis.playoffs[0].low_team.team_id, 9); // second wildcard
    assert_eq!(analysis.playoffs[1].high_team.team_id, 5); // 95 points
    assert_eq!(analysis.playoffs[1].low_team.team_id, 8); // first wildcard
    assert_eq!(analysis.playoffs[2].high_team.team_id, 2);
    assert_eq!(analysis.playoffs[2].low_team.team_id, 3);
    assert_eq!(analysis.playoffs[3].high_team.team_id, 6);
    assert_eq!(analysis.playoffs[3].low_team.team_id, 7);
}

#[test]
fn analyzer_reports_small_conferences() {
    // Two teams cannot fill three seeds a division and two wildcards.
    let teams = vec![team(1, 10, 1), team(2, 20, 1)];
    let api = Api {
        teams,
        abbrevs: vec!["AAA".to_string(), "BBB".to_string()],
        past_standings: vec![record(1, 41, 41, 0), record(2, 41, 41, 0)],
        standings: vec![record(1, 41, 41, 0), record(2, 41, 41, 0)],
        results: Vec::new(),
        games: Vec::new(),
    };
    let analyzer = Analyzer::new(&api, team(1, 10, 1));
    assert!(matches!(analyzer.perform(&api), Err(Error::InsufficientTeams)));
}

#[test]
fn team_lookup_by_id_and_points() {
    let api = league_api();
    assert_eq!(api.get_team_by_id(7).unwrap().division_id, 20);
    assert_eq!(api.get_team_by_id(99), Err(Error::TeamNotFound(99)));
    assert_eq!(api.get_points(1, false).unwrap(), 100);
    assert_eq!(api.get_points(4, true).unwrap(), 60);
    assert_eq!(api.get_points(99, false), Err(Error::TeamNotFound(99)));
}

#[test]
fn team_lookup_by_abbrev_ignores_case() {
    let api = league_api();
    assert_eq!(api.get_team_by_abbrev("t07").unwrap().id, 7);
    assert_eq!(api.get_team_by_abbrev("T07").unwrap().id, 7);
    assert_eq!(api.get_team_by_abbrev("t99"), Err(Error::TeamAbbrevNotFound));
}
