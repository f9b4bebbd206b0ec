//! The Monte Carlo core: completing a season from each team's own record,
//! ranking the outcome, the playoff qualification rule, the odds estimator,
//! and the ideal-loser decision for a single game.

use vstd::prelude::*;
use vstd::seq_lib::group_to_multiset_ensures;
use crate::analysis::Api;
use crate::schedule::Game;
use crate::standings::TeamRecord;
use crate::teams::{spec_find_team, Team};
use crate::Error;

verus! {

/// How many trials one odds estimate runs by default.
pub const TIMES: u32 = 50_000;

/// One team's projection state during a simulation trial: its id and
/// division, and the record the trial grows game by game.
#[derive(Debug, Clone, Copy, PartialEq, Eq, Structural)]
pub struct Entry {
    pub team_id: u32,
    pub division_id: u32,
    pub wins: u32,
    pub losses: u32,
    pub ot: u32,
    pub games_played: u32,
    pub points: u32,
}

/// A well-formed projection entry: the points follow the tally (two per win,
/// one per overtime loss), the games played count the tally, and no team
/// plays more than the 82 games of a full season.
pub open spec fn entry_wf(e: Entry) -> bool {
    &&& e.points == 2 * e.wins + e.ot
    &&& e.wins + e.losses + e.ot == e.games_played
    &&& e.games_played <= 82
}

/// An entry the sampler can draw from: well formed, with at least one
/// recorded game to weight the draw.
pub open spec fn entry_sampleable(e: Entry) -> bool {
    entry_wf(e) && e.games_played >= 1
}

/// One game outcome for one team.
#[derive(Debug, Clone, Copy, PartialEq, Eq, Structural)]
pub enum Event {
    Win,
    Loss,
    Ot,
}

impl Event {
    /// The points an outcome is worth: two for a win, one for an overtime
    /// loss, none for a loss.
    pub open spec fn spec_points(&self) -> u32 {
        match self {
            Event::Win => 2,
            Event::Loss => 0,
            Event::Ot => 1,
        }
    }

    pub fn points(&self) -> (r: u32)
        ensures
            r == self.spec_points(),
    {
        match self {
            Event::Win => 2,
            Event::Loss => 0,
            Event::Ot => 1,
        }
    }
}

/// Relies on rand::Rng::gen_range over rand::thread_rng: a draw from the
/// half-open range below `n`, which is non-empty because `n > 0`.
#[verifier::external_body]
fn random_below(n: u32) -> (r: u32)
    requires
        n > 0,
    ensures
        r < n,
{
    rand::Rng::gen_range(&mut rand::thread_rng(), 0..n)
}

/// Draws one outcome for the team with probability proportional to the
/// team's own counts to date.  Whatever is drawn had a positive count.
fn random_event(base: &Entry) -> (e: Event)
    requires
        0 < base.wins + base.losses + base.ot <= u32::MAX,
    ensures
        e == Event::Win ==> base.wins > 0,
        e == Event::Loss ==> base.losses > 0,
        e == Event::Ot ==> base.ot > 0,
{
    let total = base.wins + base.losses + base.ot;
    let r = random_below(total);
    if r < base.wins {
        Event::Win
    } else if r < base.wins + base.losses {
        Event::Loss
    } else {
        Event::Ot
    }
}

/// How a completed trial entry relates to its base: the same team and
/// division, a tally that only grew, a full season played, and the points
/// still following the tally.  An outcome kind the base has no record of is
/// never drawn, so its count stays zero.
pub open spec fn completes(base: Entry, c: Entry) -> bool {
    &&& c.team_id == base.team_id
    &&& c.division_id == base.division_id
    &&& c.wins >= base.wins
    &&& c.losses >= base.losses
    &&& c.ot >= base.ot
    &&& (base.wins == 0 ==> c.wins == 0)
    &&& (base.losses == 0 ==> c.losses == 0)
    &&& (base.ot == 0 ==> c.ot == 0)
    &&& c.games_played == 82
    &&& entry_wf(c)
}

/// A full hypothetical season: every base entry advanced to completion.
pub open spec fn season_completion(base: Seq<Entry>, c: Seq<Entry>) -> bool {
    &&& c.len() == base.len()
    &&& forall|i: int| 0 <= i < base.len() ==> completes(base[i], #[trigger] c[i])
}

/// Advances every entry to a full 82-game season, drawing each remaining
/// game from that entry's own original counts.  Every produced entry has
/// played exactly 82 games and keeps the points invariant.
pub fn complete_season(base: &Vec<Entry>) -> (r: Vec<Entry>)
    requires
        forall|i: int| 0 <= i < base@.len() ==> entry_sampleable(#[trigger] base@[i]),
    ensures
        season_completion(base@, r@),
{
    let mut entries: Vec<Entry> = Vec::new();
    let n = base.len();
    for idx in 0..n
        invariant
            n == base@.len(),
            forall|i: int| 0 <= i < base@.len() ==> entry_sampleable(#[trigger] base@[i]),
            entries@.len() == idx,
            forall|k: int| 0 <= k < idx ==> completes(base@[k], #[trigger] entries@[k]),
    {
        let b = base[idx];
        let mut e = b;
        while e.games_played < 82
            invariant
                entry_sampleable(b),
                entry_wf(e),
                e.team_id == b.team_id,
                e.division_id == b.division_id,
                e.wins >= b.wins,
                e.losses >= b.losses,
                e.ot >= b.ot,
                b.wins == 0 ==> e.wins == 0,
                b.losses == 0 ==> e.losses == 0,
                b.ot == 0 ==> e.ot == 0,
            decreases 82 - e.games_played,
        {
            let ev = random_event(&b);
            e.games_played = e.games_played + 1;
            e.points = e.points + ev.points();
            match ev {
                Event::Win => {
                    e.wins = e.wins + 1;
                },
                Event::Loss => {
                    e.losses = e.losses + 1;
                },
                Event::Ot => {
                    e.ot = e.ot + 1;
                },
            }
        }
        entries.push(e);
    }
    entries
}

/// Ranks at least as high: more points, or equal points and at least as many
/// wins.  Ties beyond points and wins stay unresolved.
pub open spec fn rank_ge(a: Entry, b: Entry) -> bool {
    a.points > b.points || (a.points == b.points && a.wins >= b.wins)
}

/// Ranked from best to worst by points, then wins.
pub open spec fn sorted_by_rank(s: Seq<Entry>) -> bool {
    forall|i: int, j: int| 0 <= i < j < s.len() ==> rank_ge(#[trigger] s[i], #[trigger] s[j])
}

fn exec_rank_ge(a: &Entry, b: &Entry) -> (r: bool)
    ensures
        r == rank_ge(*a, *b),
{
    a.points > b.points || (a.points == b.points && a.wins >= b.wins)
}

/// Sorts the entries by points, then wins, both descending.  The contract
/// leaves the order of entries of equal rank open: ties beyond points and
/// wins are unresolved.
pub fn sort_entries(entries: &Vec<Entry>) -> (r: Vec<Entry>)
    ensures
        sorted_by_rank(r@),
        r@.to_multiset() == entries@.to_multiset(),
{
    broadcast use group_to_multiset_ensures;

    let mut r: Vec<Entry> = Vec::new();
    let n = entries.len();
    for idx in 0..n
        invariant
            n == entries@.len(),
            sorted_by_rank(r@),
            r@.to_multiset() == entries@.take(idx as int).to_multiset(),
    {
        let e = entries[idx];
        let mut j: usize = 0;
        while j < r.len() && exec_rank_ge(&r[j], &e)
            invariant
                j <= r@.len(),
                forall|k: int| 0 <= k < j ==> rank_ge(#[trigger] r@[k], e),
            decreases r@.len() - j,
        {
            j += 1;
        }
        let ghost prev = r@;
        r.insert(j, e);
        proof {
            assert forall|p: int, q: int| 0 <= p < q < r@.len() implies rank_ge(
                #[trigger] r@[p],
                #[trigger] r@[q],
            ) by {
                if q < j {
                    assert(r@[p] == prev[p] && r@[q] == prev[q]);
                } else if p < j && q == j {
                    assert(r@[p] == prev[p] && r@[q] == e);
                } else if p < j && q > j {
                    assert(r@[p] == prev[p] && r@[q] == prev[q - 1]);
                } else if p == j {
                    assert(r@[p] == e && r@[q] == prev[q - 1]);
                    assert(j < prev.len() && !rank_ge(prev[j as int], e));
                    assert(rank_ge(prev[j as int], prev[q - 1]) || j == q - 1);
                } else {
                    assert(r@[p] == prev[p - 1] && r@[q] == prev[q - 1]);
                }
            }
            assert(r@ == prev.insert(j as int, e));
            vstd::seq_lib::to_multiset_insert(prev, j as int, e);
            vstd::seq_lib::to_multiset_build(entries@.take(idx as int), entries@[idx as int]);
            assert(entries@.take(idx + 1) =~= entries@.take(idx as int).push(entries@[idx as int]));
        }
    }
    proof {
        assert(entries@.take(n as int) =~= entries@);
    }
    r
}

/// The first `limit` team ids of `s` whose division matches (`want` true) or
/// differs from (`want` false) `div`, in ranked order.
pub open spec fn spec_take_division(s: Seq<Entry>, div: u32, want: bool, limit: int) -> Seq<u32>
    decreases s.len(),
{
    if s.len() == 0 || limit <= 0 {
        Seq::empty()
    } else if (s.first().division_id == div) == want {
        seq![s.first().team_id] + spec_take_division(s.drop_first(), div, want, limit - 1)
    } else {
        spec_take_division(s.drop_first(), div, want, limit)
    }
}

/// The first `limit` team ids of `s` that are not already among `top`, in
/// ranked order.
pub open spec fn spec_take_wildcard(s: Seq<Entry>, top: Seq<u32>, limit: int) -> Seq<u32>
    decreases s.len(),
{
    if s.len() == 0 || limit <= 0 {
        Seq::empty()
    } else if !top.contains(s.first().team_id) {
        seq![s.first().team_id] + spec_take_wildcard(s.drop_first(), top, limit - 1)
    } else {
        spec_take_wildcard(s.drop_first(), top, limit)
    }
}

/// The division qualifiers of a ranked conference snapshot: the top three of
/// the target's division, then the top three of the other division.
pub open spec fn spec_division_qualifiers(s: Seq<Entry>, my_div: u32) -> Seq<u32> {
    spec_take_division(s, my_div, true, 3) + spec_take_division(s, my_div, false, 3)
}

/// Whether `team_id` qualifies under a ranked conference snapshot: among the
/// top three of either division, or among the two best of the rest.
pub open spec fn spec_qualifies(s: Seq<Entry>, team_id: u32, my_div: u32) -> bool {
    let top = spec_division_qualifiers(s, my_div);
    top.contains(team_id) || spec_take_wildcard(s, top, 2).contains(team_id)
}

pub(crate) fn contains_id(ids: &Vec<u32>, id: u32) -> (r: bool)
    ensures
        r == ids@.contains(id),
{
    let n = ids.len();
    for i in 0..n
        invariant
            n == ids@.len(),
            forall|k: int| 0 <= k < i ==> ids@[k] != id,
    {
        if ids[i] == id {
            return true;
        }
    }
    false
}

fn take_division_ids(entries: &Vec<Entry>, div: u32, want: bool, limit: usize) -> (r: Vec<u32>)
    ensures
        r@ == spec_take_division(entries@, div, want, limit as int),
{
    let mut r: Vec<u32> = Vec::new();
    let mut i: usize = 0;
    proof {
        assert(entries@.skip(0) =~= entries@);
        assert(Seq::<u32>::empty() + spec_take_division(entries@, div, want, limit as int)
            =~= spec_take_division(entries@, div, want, limit as int));
    }
    while i < entries.len() && r.len() < limit
        invariant
            i <= entries@.len(),
            r@.len() <= limit,
            spec_take_division(entries@, div, want, limit as int) == r@ + spec_take_division(
                entries@.skip(i as int),
                div,
                want,
                limit - r@.len(),
            ),
        decreases entries@.len() - i,
    {
        let ghost before = r@;
        let e = entries[i];
        proof {
            assert(entries@.skip(i as int).first() == entries@[i as int]);
            assert(entries@.skip(i as int).drop_first() =~= entries@.skip(i + 1));
        }
        if (e.division_id == div) == want {
            r.push(e.team_id);
            proof {
                assert(before + seq![e.team_id] + spec_take_division(
                    entries@.skip(i + 1),
                    div,
                    want,
                    limit - before.len() - 1,
                ) =~= before + (seq![e.team_id] + spec_take_division(
                    entries@.skip(i + 1),
                    div,
                    want,
                    limit - before.len() - 1,
                )));
                assert(r@ =~= before + seq![e.team_id]);
            }
        }
        i += 1;
    }
    proof {
        if i == entries@.len() {
            assert(entries@.skip(i as int).len() == 0);
        }
        assert(r@ + Seq::<u32>::empty() =~= r@);
    }
    r
}

fn take_wildcard_ids(entries: &Vec<Entry>, top: &Vec<u32>, limit: usize) -> (r: Vec<u32>)
    ensures
        r@ == spec_take_wildcard(entries@, top@, limit as int),
{
    let mut r: Vec<u32> = Vec::new();
    let mut i: usize = 0;
    proof {
        assert(entries@.skip(0) =~= entries@);
        assert(Seq::<u32>::empty() + spec_take_wildcard(entries@, top@, limit as int)
            =~= spec_take_wildcard(entries@, top@, limit as int));
    }
    while i < entries.len() && r.len() < limit
        invariant
            i <= entries@.len(),
            r@.len() <= limit,
            spec_take_wildcard(entries@, top@, limit as int) == r@ + spec_take_wildcard(
                entries@.skip(i as int),
                top@,
                limit - r@.len(),
            ),
        decreases entries@.len() - i,
    {
        let ghost before = r@;
        let e = entries[i];
        proof {
            assert(entries@.skip(i as int).first() == entries@[i as int]);
            assert(entries@.skip(i as int).drop_first() =~= entries@.skip(i + 1));
        }
        if !contains_id(top, e.team_id) {
            r.push(e.team_id);
            proof {
                assert(before + seq![e.team_id] + spec_take_wildcard(
                    entries@.skip(i + 1),
                    top@,
                    limit - before.len() - 1,
                ) =~= before + (seq![e.team_id] + spec_take_wildcard(
                    entries@.skip(i + 1),
                    top@,
                    limit - before.len() - 1,
                )));
                assert(r@ =~= before + seq![e.team_id]);
            }
        }
        i += 1;
    }
    proof {
        if i == entries@.len() {
            assert(entries@.skip(i as int).len() == 0);
        }
        assert(r@ + Seq::<u32>::empty() =~= r@);
    }
    r
}

/// Decides qualification from a conference snapshot in ranked order: the top
/// three of each division qualify, then the two best of the rest as
/// wildcards.  A pure function of the snapshot.
pub fn qualifies(entries: &Vec<Entry>, team_id: u32, my_division_id: u32) -> (r: bool)
    ensures
        r == spec_qualifies(entries@, team_id, my_division_id),
{
    let mut top = take_division_ids(entries, my_division_id, true, 3);
    let mut other = take_division_ids(entries, my_division_id, false, 3);
    let ghost own = top@;
    let ghost oth = other@;
    top.append(&mut other);
    proof {
        assert(top@ == own + oth);
    }
    if contains_id(&top, team_id) {
        return true;
    }
    let wildcard = take_wildcard_ids(entries, &top, 2);
    contains_id(&wildcard, team_id)
}

/// The projection entry a standings record yields, under the division of
/// the record's team.
pub open spec fn spec_entry_of(rec: TeamRecord, division_id: u32) -> Entry {
    Entry {
        team_id: rec.team_id,
        division_id: division_id,
        wins: rec.league_record.wins,
        losses: rec.league_record.losses,
        ot: rec.league_record.ot,
        games_played: rec.games_played,
        points: rec.points,
    }
}

/// One standings record fit for a simulation base: its team on the roster,
/// and, when that team is in the conference, a sampleable entry.
pub open spec fn spec_record_ok(teams: Seq<Team>, rec: TeamRecord, conference_id: u32) -> bool {
    match spec_find_team(teams, rec.team_id) {
        Some(t) => t.conference_id == conference_id ==> entry_sampleable(
            spec_entry_of(rec, t.division_id),
        ),
        None => false,
    }
}

/// When a simulation base can be built at all.
pub open spec fn spec_base_ok(teams: Seq<Team>, records: Seq<TeamRecord>, conference_id: u32) -> bool {
    forall|i: int| 0 <= i < records.len() ==> spec_record_ok(teams, #[trigger] records[i], conference_id)
}

/// The conference base a roster and standings yield: one entry per record
/// whose team shares the conference, in standings order.
pub open spec fn spec_base_entries(
    teams: Seq<Team>,
    records: Seq<TeamRecord>,
    conference_id: u32,
) -> Seq<Entry>
    decreases records.len(),
{
    if records.len() == 0 {
        Seq::empty()
    } else {
        let rest = spec_base_entries(teams, records.drop_first(), conference_id);
        match spec_find_team(teams, records.first().team_id) {
            Some(t) => if t.conference_id == conference_id {
                seq![spec_entry_of(records.first(), t.division_id)] + rest
            } else {
                rest
            },
            None => rest,
        }
    }
}

/// An entry with one more win recorded: a win, two points, one game.
pub open spec fn spec_win_applied(e: Entry) -> Entry {
    Entry {
        wins: (e.wins + 1) as u32,
        points: (e.points + 2) as u32,
        games_played: (e.games_played + 1) as u32,
        ..e
    }
}

/// An entry with one more loss recorded: a loss and one game, no points.
pub open spec fn spec_loss_applied(e: Entry) -> Entry {
    Entry { losses: (e.losses + 1) as u32, games_played: (e.games_played + 1) as u32, ..e }
}

/// The base after forcing one more win (`win` true) or loss (`win` false)
/// for the team: the first entry of the team gains the outcome, unless it
/// has already played a full season or the team is not tracked.
pub open spec fn spec_force_outcome(base: Seq<Entry>, team_id: u32, win: bool) -> Seq<Entry>
    decreases base.len(),
{
    if base.len() == 0 {
        base
    } else if base.first().team_id == team_id {
        if base.first().games_played < 82 {
            seq![
                if win {
                    spec_win_applied(base.first())
                } else {
                    spec_loss_applied(base.first())
                },
            ] + base.drop_first()
        } else {
            base
        }
    } else {
        seq![base.first()] + spec_force_outcome(base.drop_first(), team_id, win)
    }
}

proof fn lemma_force_outcome_found(base: Seq<Entry>, team_id: u32, win: bool, i: int)
    requires
        0 <= i < base.len(),
        base[i].team_id == team_id,
        forall|k: int| 0 <= k < i ==> base[k].team_id != team_id,
    ensures
        spec_force_outcome(base, team_id, win) == if base[i].games_played < 82 {
            base.update(
                i,
                if win {
                    spec_win_applied(base[i])
                } else {
                    spec_loss_applied(base[i])
                },
            )
        } else {
            base
        },
    decreases i,
{
    let forced = if win {
        spec_win_applied(base[i])
    } else {
        spec_loss_applied(base[i])
    };
    if i == 0 {
        if base[0].games_played < 82 {
            assert(seq![forced] + base.drop_first() =~= base.update(0, forced));
        }
    } else {
        lemma_force_outcome_found(base.drop_first(), team_id, win, i - 1);
        assert(base.drop_first()[i - 1] == base[i]);
        if base[i].games_played < 82 {
            assert(seq![base.first()] + base.drop_first().update(i - 1, forced) =~= base.update(
                i,
                forced,
            ));
        } else {
            assert(seq![base.first()] + base.drop_first() =~= base);
        }
    }
}

proof fn lemma_force_outcome_absent(base: Seq<Entry>, team_id: u32, win: bool)
    requires
        forall|k: int| 0 <= k < base.len() ==> base[k].team_id != team_id,
    ensures
        spec_force_outcome(base, team_id, win) == base,
    decreases base.len(),
{
    if base.len() > 0 {
        lemma_force_outcome_absent(base.drop_first(), team_id, win);
        assert(seq![base.first()] + base.drop_first() =~= base);
    }
}

/// A value one trial can give: the qualification rule's verdict on some
/// completed, ranked season grown from the base.
pub open spec fn trial_verdict(base: Seq<Entry>, my: Team, v: bool) -> bool {
    exists|c: Seq<Entry>, s: Seq<Entry>|
        #![trigger season_completion(base, c), sorted_by_rank(s)]
        {
            &&& season_completion(base, c)
            &&& s.to_multiset() == c.to_multiset()
            &&& sorted_by_rank(s)
            &&& v == spec_qualifies(s, my.id, my.division_id)
        }
}

/// How many of the trial outcomes are a qualification.
pub open spec fn count_true(vs: Seq<bool>) -> int
    decreases vs.len(),
{
    if vs.len() == 0 {
        0
    } else {
        count_true(vs.drop_last()) + if vs.last() {
            1int
        } else {
            0int
        }
    }
}

/// What the per-trial verdicts pin down: when no completed, ranked season
/// grown from the base can refuse the target, every trial answers yes and a
/// count over the trials is full; when none can admit it, the count is
/// zero.
pub proof fn lemma_count_pinned_by_verdicts(base: Seq<Entry>, my: Team, vs: Seq<bool>)
    requires
        forall|i: int| 0 <= i < vs.len() ==> trial_verdict(base, my, #[trigger] vs[i]),
    ensures
        !trial_verdict(base, my, false) ==> count_true(vs) == vs.len(),
        !trial_verdict(base, my, true) ==> count_true(vs) == 0,
    decreases vs.len(),
{
    if vs.len() > 0 {
        assert(forall|i: int|
            0 <= i < vs.drop_last().len() ==> #[trigger] vs.drop_last()[i] == vs[i]);
        lemma_count_pinned_by_verdicts(base, my, vs.drop_last());
        assert(trial_verdict(base, my, vs.last()));
    }
}

/// One conference's simulation state: the target team and the base records
/// every trial starts from.
pub struct Simulation {
    my_team: Team,
    base: Vec<Entry>,
}

impl Simulation {
    pub closed spec fn spec_my_team(&self) -> Team {
        self.my_team
    }

    pub closed spec fn spec_base(&self) -> Seq<Entry> {
        self.base@
    }

    /// Every base entry can seed a trial.
    pub open spec fn wf(&self) -> bool {
        forall|i: int| 0 <= i < self.spec_base().len() ==> entry_sampleable(
            #[trigger] self.spec_base()[i],
        )
    }

    /// Builds the base for the target team's conference from the roster and
    /// the standings.  Fails on a record whose team the roster lacks, whose
    /// points or games do not follow from its tally, or with no game played.
    pub fn new(api: &Api, my_team: Team, records: &Vec<TeamRecord>) -> (r: Result<Simulation, Error>)
        ensures
            match r {
                Ok(sim) => {
                    &&& spec_base_ok(api.teams@, records@, my_team.conference_id)
                    &&& sim.spec_my_team() == my_team
                    &&& sim.spec_base() == spec_base_entries(
                        api.teams@,
                        records@,
                        my_team.conference_id,
                    )
                    &&& sim.wf()
                },
                Err(e) => {
                    &&& !spec_base_ok(api.teams@, records@, my_team.conference_id)
                    &&& (match e {
                        Error::TeamNotFound(id) => exists|i: int|
                            0 <= i < records@.len() && (#[trigger] records@[i]).team_id == id
                                && spec_find_team(api.teams@, id) is None,
                        Error::InvalidRecord(id) => exists|i: int|
                            0 <= i < records@.len() && (#[trigger] records@[i]).team_id == id
                                && (match spec_find_team(api.teams@, id) {
                                Some(t) => t.conference_id == my_team.conference_id && !entry_wf(
                                    spec_entry_of(records@[i], t.division_id),
                                ),
                                None => false,
                            }),
                        Error::NoGamesPlayed(id) => exists|i: int|
                            0 <= i < records@.len() && (#[trigger] records@[i]).team_id == id
                                && records@[i].games_played == 0
                                && (match spec_find_team(api.teams@, id) {
                                Some(t) => t.conference_id == my_team.conference_id,
                                None => false,
                            }),
                        _ => false,
                    })
                },
            },
    {
        let conf = my_team.conference_id;
        let mut base: Vec<Entry> = Vec::new();
        let n = records.len();
        let mut i: usize = 0;
        proof {
            assert(records@.skip(0) =~= records@);
            assert(Seq::<Entry>::empty() + spec_base_entries(api.teams@, records@, conf)
                =~= spec_base_entries(api.teams@, records@, conf));
        }
        while i < n
            invariant
                n == records@.len(),
                i <= n,
                conf == my_team.conference_id,
                forall|k: int|
                    0 <= k < i ==> spec_record_ok(api.teams@, #[trigger] records@[k], conf),
                spec_base_entries(api.teams@, records@, conf) == base@ + spec_base_entries(
                    api.teams@,
                    records@.skip(i as int),
                    conf,
                ),
                forall|k: int| 0 <= k < base@.len() ==> entry_sampleable(#[trigger] base@[k]),
            decreases n - i,
        {
            let ghost before = base@;
            let rec = records[i];
            proof {
                assert(records@.skip(i as int).first() == records@[i as int]);
                assert(records@.skip(i as int).drop_first() =~= records@.skip(i + 1));
            }
            let t = match api.get_team_by_id(rec.team_id) {
                Ok(t) => t,
                Err(_) => {
                    return Err(Error::TeamNotFound(rec.team_id));
                },
            };
            if t.conference_id == conf {
                let lr = rec.league_record;
                let sum_ok = (lr.wins as u64) + (lr.losses as u64) + (lr.ot as u64) == (
                rec.games_played as u64);
                let pts_ok = (rec.points as u64) == 2 * (lr.wins as u64) + (lr.ot as u64);
                if !(sum_ok && pts_ok && rec.games_played <= 82) {
                    return Err(Error::InvalidRecord(rec.team_id));
                }
                if rec.games_played == 0 {
                    return Err(Error::NoGamesPlayed(rec.team_id));
                }
                let e = Entry {
                    team_id: rec.team_id,
                    division_id: t.division_id,
                    wins: lr.wins,
                    losses: lr.losses,
                    ot: lr.ot,
                    games_played: rec.games_played,
                    points: rec.points,
                };
                base.push(e);
                proof {
                    assert(e == spec_entry_of(records@[i as int], t.division_id));
                    assert(before + seq![e] + spec_base_entries(
                        api.teams@,
                        records@.skip(i + 1),
                        conf,
                    ) =~= before + (seq![e] + spec_base_entries(
                        api.teams@,
                        records@.skip(i + 1),
                        conf,
                    )));
                    assert(base@ =~= before + seq![e]);
                }
            }
            i += 1;
        }
        proof {
            assert(records@.skip(n as int).len() == 0);
            assert(base@ + Seq::<Entry>::empty() =~= base@);
        }
        Ok(Simulation { my_team, base })
    }

    /// Forces one more win for the team before the trials run: the team's
    /// entry, if tracked and short of a full season, gains a win, two
    /// points, and a game.
    pub fn give_team_win(&mut self, team_id: u32)
        requires
            old(self).wf(),
        ensures
            final(self).spec_my_team() == old(self).spec_my_team(),
            final(self).spec_base() == spec_force_outcome(old(self).spec_base(), team_id, true),
            final(self).wf(),
    {
        let n = self.base.len();
        let mut i: usize = 0;
        while i < n
            invariant
                old(self).wf(),
                self == old(self),
                n == self.base@.len(),
                i <= n,
                forall|k: int| 0 <= k < i ==> self.base@[k].team_id != team_id,
            decreases n - i,
        {
            if self.base[i].team_id == team_id {
                if self.base[i].games_played < 82 {
                    proof {
                        assert(entry_sampleable(old(self).spec_base()[i as int]));
                    }
                    let mut e = self.base[i];
                    e.wins = e.wins + 1;
                    e.points = e.points + 2;
                    e.games_played = e.games_played + 1;
                    self.base[i] = e;
                }
                proof {
                    lemma_force_outcome_found(old(self).spec_base(), team_id, true, i as int);
                }
                return;
            }
            i += 1;
        }
        proof {
            lemma_force_outcome_absent(old(self).spec_base(), team_id, true);
        }
    }

    /// Forces one more loss for the team before the trials run: the team's
    /// entry, if tracked and short of a full season, gains a loss and a
    /// game, and no points.
    pub fn give_team_loss(&mut self, team_id: u32)
        requires
            old(self).wf(),
        ensures
            final(self).spec_my_team() == old(self).spec_my_team(),
            final(self).spec_base() == spec_force_outcome(old(self).spec_base(), team_id, false),
            final(self).wf(),
    {
        let n = self.base.len();
        let mut i: usize = 0;
        while i < n
            invariant
                old(self).wf(),
                self == old(self),
                n == self.base@.len(),
                i <= n,
                forall|k: int| 0 <= k < i ==> self.base@[k].team_id != team_id,
            decreases n - i,
        {
            if self.base[i].team_id == team_id {
                if self.base[i].games_played < 82 {
                    proof {
                        assert(entry_sampleable(old(self).spec_base()[i as int]));
                    }
                    let mut e = self.base[i];
                    e.losses = e.losses + 1;
                    e.games_played = e.games_played + 1;
                    self.base[i] = e;
                }
                proof {
                    lemma_force_outcome_found(old(self).spec_base(), team_id, false, i as int);
                }
                return;
            }
            i += 1;
        }
        proof {
            lemma_force_outcome_absent(old(self).spec_base(), team_id, false);
        }
    }

    /// One trial: completes the season from the base, ranks the outcome, and
    /// applies the qualification rule to the target team.  The answer is the
    /// rule's verdict on some completed, ranked season grown from the base.
    fn run(&self) -> (r: bool)
        requires
            self.wf(),
        ensures
            trial_verdict(self.spec_base(), self.spec_my_team(), r),
    {
        let completed = complete_season(&self.base);
        let sorted = sort_entries(&completed);
        let q = qualifies(&sorted, self.my_team.id, self.my_team.division_id);
        proof {
            assert(season_completion(self.spec_base(), completed@));
            assert(sorted@.to_multiset() == completed@.to_multiset());
            assert(sorted_by_rank(sorted@));
            assert(q == spec_qualifies(
                sorted@,
                self.spec_my_team().id,
                self.spec_my_team().division_id,
            ));
        }
        q
    }

    /// Runs the trial `times` times and counts how often the target team
    /// qualified: the result counts the qualifications among `times` trial
    /// outcomes, each of them a verdict some completed season can give, so
    /// it never exceeds the number of trials.
    pub fn run_for(&self, times: u32) -> (r: u32)
        requires
            self.wf(),
        ensures
            r <= times,
            exists|vs: Seq<bool>|
                #![trigger count_true(vs)]
                {
                    &&& vs.len() == times
                    &&& (forall|i: int|
                        0 <= i < vs.len() ==> trial_verdict(
                            self.spec_base(),
                            self.spec_my_team(),
                            #[trigger] vs[i],
                        ))
                    &&& r == count_true(vs)
                },
    {
        let mut x: u32 = 0;
        let mut t: u32 = 0;
        let ghost mut vs: Seq<bool> = Seq::empty();
        while t < times
            invariant
                self.wf(),
                t <= times,
                x <= t,
                vs.len() == t,
                forall|i: int|
                    0 <= i < vs.len() ==> trial_verdict(
                        self.spec_base(),
                        self.spec_my_team(),
                        #[trigger] vs[i],
                    ),
                x == count_true(vs),
            decreases times - t,
        {
            let q = self.run();
            if q {
                x = x + 1;
            }
            t = t + 1;
            proof {
                let prev_vs = vs;
                vs = vs.push(q);
                assert(vs.drop_last() =~= prev_vs);
                assert(vs.last() == q);
            }
        }
        x
    }
}

/// Counts how many of `times` trials see the team qualify, from today's (or
/// yesterday's) standings; the caller turns the count into a frequency.
/// The count tallies the qualifications among `times` trial outcomes over
/// the conference base those standings yield.  Zero trials are refused: a
/// frequency over them would be undefined.
pub fn odds_for_team(api: &Api, team: Team, past: bool, times: u32) -> (r: Result<u32, Error>)
    ensures
        ({
            let records = if past {
                api.past_standings@
            } else {
                api.standings@
            };
            match r {
                Ok(x) => times > 0 && x <= times && spec_base_ok(
                    api.teams@,
                    records,
                    team.conference_id,
                ) && (exists|vs: Seq<bool>|
                    #![trigger count_true(vs)]
                    {
                        &&& vs.len() == times
                        &&& (forall|i: int|
                            0 <= i < vs.len() ==> trial_verdict(
                                spec_base_entries(api.teams@, records, team.conference_id),
                                team,
                                #[trigger] vs[i],
                            ))
                        &&& x == count_true(vs)
                    }),
                Err(e) => if times == 0 {
                    e == Error::ZeroTrials
                } else {
                    !spec_base_ok(api.teams@, records, team.conference_id) && (e is TeamNotFound
                        || e is InvalidRecord || e is NoGamesPlayed)
                },
            }
        }),
{
    if times == 0 {
        return Err(Error::ZeroTrials);
    }
    let records = if !past {
        &api.standings
    } else {
        &api.past_standings
    };
    let sim = match Simulation::new(api, team, records) {
        Ok(sim) => sim,
        Err(e) => {
            return Err(e);
        },
    };
    Ok(sim.run_for(times))
}

/// The participant whose loss serves the target best, given how often the
/// target qualified with the home team winning and with the away team
/// winning: the stronger count keeps its fixed loser.
pub fn choose_loser(home_win_count: u32, away_win_count: u32, home_id: u32, away_id: u32) -> (r:
    u32)
    ensures
        r == if home_win_count > away_win_count {
            away_id
        } else {
            home_id
        },
{
    if home_win_count > away_win_count {
        away_id
    } else {
        home_id
    }
}

/// Decides which participant of the game should lose for the target team's
/// sake: two pre-seeded simulations fix the game's outcome each way, the
/// trials compare the target's chances, and the weaker outcome's winner is
/// the ideal loser.  The answer is always one of the two participants.
pub fn pick_ideal_loser(
    api: &Api,
    my_team: Team,
    records: &Vec<TeamRecord>,
    game: &Game,
    times: u32,
) -> (r: Result<u32, Error>)
    ensures
        match r {
            Ok(id) => {
                &&& spec_base_ok(api.teams@, records@, my_team.conference_id)
                &&& (id == game.teams.home.team_id || id == game.teams.away.team_id)
            },
            Err(e) => !spec_base_ok(api.teams@, records@, my_team.conference_id) && (
            e is TeamNotFound || e is InvalidRecord || e is NoGamesPlayed),
        },
{
    let mut home_win_sim = match Simulation::new(api, my_team, records) {
        Ok(sim) => sim,
        Err(e) => {
            return Err(e);
        },
    };
    home_win_sim.give_team_win(game.home_team());
    home_win_sim.give_team_loss(game.away_team());
    let home_win_x = home_win_sim.run_for(times);

    let mut away_win_sim = match Simulation::new(api, my_team, records) {
        Ok(sim) => sim,
        Err(e) => {
            return Err(e);
        },
    };
    away_win_sim.give_team_win(game.away_team());
    away_win_sim.give_team_loss(game.home_team());
    let away_win_x = away_win_sim.run_for(times);

    Ok(choose_loser(home_win_x, away_win_x, game.home_team(), game.away_team()))
}

/// The qualification rule is a pure function: any two decisions taken from
/// the same ranked snapshot for the same team and division agree.
pub proof fn lemma_qualification_deterministic(
    s: Seq<Entry>,
    team_id: u32,
    my_div: u32,
    r1: bool,
    r2: bool,
)
    requires
        r1 == spec_qualifies(s, team_id, my_div),
        r2 == spec_qualifies(s, team_id, my_div),
    ensures
        r1 == r2,
{
}

} // verus!
