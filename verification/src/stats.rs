//! The derived-metrics engine: survival, kill/death and duration
//! statistics over raid sets, time-in-state accumulation over transition
//! histories, and the first-raid delay across sessions.
//!
//! Rates and averages are exact ratios of integers rather than floating
//! point: `num` over `den`, never reduced, with `den` at least 1.

use vstd::prelude::*;
use crate::models::{
    GameMode, Kill, Raid, RaidStateTransition, StreamSession, MAX_TICK, is_survived_state,
    opt_tick_in_range, survived_state, tick_in_range,
};
use crate::order::SortKey;
use crate::store::{Store, kills_of, lemma_kills_of_push, raids_of, trans_of};

verus! {

/// An exact quotient: `num` over `den`, with `den` at least 1.
#[derive(Clone, Copy, Debug, PartialEq, Eq, Structural)]
pub struct Ratio {
    pub num: i128,
    pub den: i128,
}

/// Accumulated time a raid spent in one named state.
#[derive(Debug)]
pub struct StateTime {
    pub state: String,
    pub duration: i64,
}

impl Clone for StateTime {
    fn clone(&self) -> (r: Self)
        ensures
            r == *self,
    {
        StateTime { state: self.state.clone(), duration: self.duration }
    }
}

/// Survival, kill/death and duration statistics over a set of raids.
#[derive(Clone, Copy, Debug, PartialEq, Eq, Structural)]
pub struct SessionStats {
    pub total_raids: usize,
    pub survived_raids: usize,
    pub survival_rate: Ratio,
    pub total_kills: usize,
    pub kd_ratio: Ratio,
    pub avg_raid_duration: Ratio,
}

/// One session's statistics next to the all-time statistics.
#[derive(Clone, Copy, Debug, PartialEq, Eq, Structural)]
pub struct SessionComparison {
    pub current: SessionStats,
    pub all_time: SessionStats,
}

/// One session's statistics split by game mode.
#[derive(Clone, Copy, Debug, PartialEq, Eq, Structural)]
pub struct ModeStats {
    pub pve: SessionStats,
    pub pvp: SessionStats,
}

/// Average gap between session start and first raid start, with the number
/// of sessions averaged over and the gap of the latest-started of them.
#[derive(Clone, Copy, Debug, PartialEq, Eq, Structural)]
pub struct FirstRaidDelay {
    pub duration: Ratio,
    pub sessions: usize,
    pub last_session: i64,
}

/// Whether the raid counts as survived: its current state is the one
/// surviving state name. Any other state — ended otherwise or still in
/// progress — counts as not survived.
pub open spec fn is_survived(r: Raid) -> bool {
    r.current_state@ == survived_state()
}

/// How many raids of the set are survived.
pub open spec fn count_survived(rs: Seq<Raid>) -> int
    decreases rs.len(),
{
    if rs.len() == 0 {
        0
    } else {
        count_survived(rs.drop_last()) + if is_survived(rs.last()) {
            1int
        } else {
            0int
        }
    }
}

/// How many raids of the set have ended.
pub open spec fn count_ended(rs: Seq<Raid>) -> int
    decreases rs.len(),
{
    if rs.len() == 0 {
        0
    } else {
        count_ended(rs.drop_last()) + if rs.last().ended_at is Some {
            1int
        } else {
            0int
        }
    }
}

/// Total duration of the ended raids of the set; raids still open
/// contribute nothing.
pub open spec fn sum_ended_durations(rs: Seq<Raid>) -> int
    decreases rs.len(),
{
    if rs.len() == 0 {
        0
    } else {
        sum_ended_durations(rs.drop_last()) + match rs.last().ended_at {
            Some(e) => e - rs.last().started_at,
            None => 0int,
        }
    }
}

/// Total number of recorded kills across the raids of the set.
pub open spec fn sum_kill_counts(ks: Seq<Kill>, rs: Seq<Raid>) -> int
    decreases rs.len(),
{
    if rs.len() == 0 {
        0
    } else {
        sum_kill_counts(ks, rs.drop_last()) + kills_of(ks, rs.last().raid_id).len()
    }
}

/// No two raids of the set share an id: the set is a set.
pub open spec fn distinct_raid_ids(rs: Seq<Raid>) -> bool {
    forall|i: int, j: int| 0 <= i < j < rs.len() ==> rs[i].raid_id != rs[j].raid_id
}

/// Raid ids appear in strictly increasing order.
pub open spec fn ids_increasing(rs: Seq<Raid>) -> bool {
    forall|i: int, j: int| 0 <= i < j < rs.len() ==> rs[i].raid_id < rs[j].raid_id
}

/// Every raid of the set has its timestamps within the tick bound.
pub open spec fn raid_ticks_ok(r: Raid) -> bool {
    &&& tick_in_range(r.started_at as int)
    &&& opt_tick_in_range(r.ended_at)
}

pub open spec fn raids_ticks_ok(rs: Seq<Raid>) -> bool {
    forall|i: int| 0 <= i < rs.len() ==> raid_ticks_ok(#[trigger] rs[i])
}

/// The raids of the set played in the given mode, in order.
pub open spec fn filter_mode(rs: Seq<Raid>, mode: GameMode) -> Seq<Raid>
    decreases rs.len(),
{
    if rs.len() == 0 {
        Seq::empty()
    } else {
        let prefix = filter_mode(rs.drop_last(), mode);
        if rs.last().game_mode == mode {
            prefix.push(rs.last())
        } else {
            prefix
        }
    }
}

/// The statistics the engine owes for a raid set, field by field:
/// survived counts the raids in the surviving state; the survival rate is
/// survived over total (0/1 on an empty set); kills sum over the set; the
/// kill/death ratio is kills over deaths, or kills over 1 when nothing
/// died; the average duration is the total over the ended raids only
/// (0/1 when none ended).
pub open spec fn stats_match(ks: Seq<Kill>, rs: Seq<Raid>, st: SessionStats) -> bool {
    &&& st.total_raids == rs.len()
    &&& st.survived_raids == count_survived(rs)
    &&& st.total_kills == sum_kill_counts(ks, rs)
    &&& (rs.len() > 0 ==> st.survival_rate.num == count_survived(rs) && st.survival_rate.den
        == rs.len())
    &&& (rs.len() == 0 ==> st.survival_rate.num == 0 && st.survival_rate.den == 1)
    &&& (count_survived(rs) < rs.len() ==> st.kd_ratio.num == sum_kill_counts(ks, rs)
        && st.kd_ratio.den == rs.len() - count_survived(rs))
    &&& (count_survived(rs) == rs.len() ==> st.kd_ratio.num == sum_kill_counts(ks, rs)
        && st.kd_ratio.den == 1)
    &&& (count_ended(rs) > 0 ==> st.avg_raid_duration.num == sum_ended_durations(rs)
        && st.avg_raid_duration.den == count_ended(rs))
    &&& (count_ended(rs) == 0 ==> st.avg_raid_duration.num == 0 && st.avg_raid_duration.den == 1)
}

proof fn lemma_count_survived_bounds(rs: Seq<Raid>)
    ensures
        0 <= count_survived(rs) <= rs.len(),
    decreases rs.len(),
{
    if rs.len() > 0 {
        lemma_count_survived_bounds(rs.drop_last());
    }
}

proof fn lemma_count_ended_bounds(rs: Seq<Raid>)
    ensures
        0 <= count_ended(rs) <= rs.len(),
    decreases rs.len(),
{
    if rs.len() > 0 {
        lemma_count_ended_bounds(rs.drop_last());
    }
}

proof fn lemma_sum_ended_durations_bound(rs: Seq<Raid>)
    requires
        raids_ticks_ok(rs),
    ensures
        -(rs.len() * 2 * MAX_TICK) <= sum_ended_durations(rs) <= rs.len() * 2 * MAX_TICK,
    decreases rs.len(),
{
    if rs.len() > 0 {
        assert(raids_ticks_ok(rs.drop_last()));
        lemma_sum_ended_durations_bound(rs.drop_last());
        assert(raid_ticks_ok(rs.last()));
    }
}

/// With no kills recorded, every raid's kill count is zero.
proof fn lemma_sum_kill_counts_empty(rs: Seq<Raid>)
    ensures
        sum_kill_counts(Seq::<Kill>::empty(), rs) == 0,
    decreases rs.len(),
{
    if rs.len() > 0 {
        lemma_sum_kill_counts_empty(rs.drop_last());
    }
}

proof fn lemma_sum_kill_counts_nonneg(ks: Seq<Kill>, rs: Seq<Raid>)
    ensures
        sum_kill_counts(ks, rs) >= 0,
    decreases rs.len(),
{
    if rs.len() > 0 {
        lemma_sum_kill_counts_nonneg(ks, rs.drop_last());
    }
}

/// One more recorded kill raises the set's total by at most one, and by
/// nothing when no raid of the set is its raid: the raids' kill counts
/// partition the log.
proof fn lemma_sum_kill_counts_push(ks: Seq<Kill>, k: Kill, rs: Seq<Raid>)
    requires
        distinct_raid_ids(rs),
    ensures
        sum_kill_counts(ks.push(k), rs) <= sum_kill_counts(ks, rs) + 1,
        (forall|i: int| 0 <= i < rs.len() ==> #[trigger] rs[i].raid_id != k.raid_id)
            ==> sum_kill_counts(ks.push(k), rs) == sum_kill_counts(ks, rs),
    decreases rs.len(),
{
    if rs.len() > 0 {
        assert(distinct_raid_ids(rs.drop_last()));
        lemma_sum_kill_counts_push(ks, k, rs.drop_last());
        lemma_kills_of_push(ks, k, rs.last().raid_id);
        if rs.last().raid_id == k.raid_id {
            assert(forall|i: int| 0 <= i < rs.drop_last().len()
                ==> #[trigger] rs.drop_last()[i].raid_id != k.raid_id);
        }
        assert(rs.last() == rs[rs.len() - 1]);
    }
}

/// Over raids with distinct ids, the kill totals cannot exceed the number
/// of recorded kills.
proof fn lemma_sum_kill_counts_bound(ks: Seq<Kill>, rs: Seq<Raid>)
    requires
        distinct_raid_ids(rs),
    ensures
        0 <= sum_kill_counts(ks, rs) <= ks.len(),
    decreases ks.len(),
{
    lemma_sum_kill_counts_nonneg(ks, rs);
    if ks.len() == 0 {
        assert(ks =~= Seq::<Kill>::empty());
        lemma_sum_kill_counts_empty(rs);
    } else {
        lemma_sum_kill_counts_bound(ks.drop_last(), rs);
        lemma_sum_kill_counts_push(ks.drop_last(), ks.last(), rs);
        assert(ks.drop_last().push(ks.last()) =~= ks);
    }
}

/// Filtering by session keeps raid ids strictly increasing.
proof fn lemma_raids_of_increasing(rs: Seq<Raid>, sid: i64)
    requires
        ids_increasing(rs),
    ensures
        ids_increasing(raids_of(rs, sid)),
        raids_of(rs, sid).len() > 0 ==> rs.len() > 0 && raids_of(rs, sid).last().raid_id
            <= rs.last().raid_id,
    decreases rs.len(),
{
    if rs.len() > 0 {
        assert(ids_increasing(rs.drop_last()));
        lemma_raids_of_increasing(rs.drop_last(), sid);
        let p = raids_of(rs.drop_last(), sid);
        if rs.last().session_id == sid {
            assert forall|i: int, j: int| 0 <= i < j < p.push(rs.last()).len()
                implies p.push(rs.last())[i].raid_id < p.push(rs.last())[j].raid_id by {
                if j == p.len() {
                    if p.len() > 0 {
                        assert(p[i].raid_id <= p.last().raid_id);
                        if rs.drop_last().len() > 0 {
                            assert(rs.drop_last().last() == rs[rs.len() - 2]);
                        }
                    }
                }
            }
        }
        if rs.drop_last().len() > 0 {
            assert(rs.drop_last().last() == rs[rs.len() - 2]);
        }
    }
}

/// Filtering by game mode keeps raid ids strictly increasing.
proof fn lemma_filter_mode_increasing(rs: Seq<Raid>, mode: GameMode)
    requires
        ids_increasing(rs),
    ensures
        ids_increasing(filter_mode(rs, mode)),
        filter_mode(rs, mode).len() > 0 ==> rs.len() > 0 && filter_mode(rs, mode).last().raid_id
            <= rs.last().raid_id,
    decreases rs.len(),
{
    if rs.len() > 0 {
        assert(ids_increasing(rs.drop_last()));
        lemma_filter_mode_increasing(rs.drop_last(), mode);
        let p = filter_mode(rs.drop_last(), mode);
        if rs.last().game_mode == mode {
            assert forall|i: int, j: int| 0 <= i < j < p.push(rs.last()).len()
                implies p.push(rs.last())[i].raid_id < p.push(rs.last())[j].raid_id by {
                if j == p.len() {
                    if p.len() > 0 {
                        assert(p[i].raid_id <= p.last().raid_id);
                        if rs.drop_last().len() > 0 {
                            assert(rs.drop_last().last() == rs[rs.len() - 2]);
                        }
                    }
                }
            }
        }
        if rs.drop_last().len() > 0 {
            assert(rs.drop_last().last() == rs[rs.len() - 2]);
        }
    }
}

/// A property of every raid of the set holds of every raid the session
/// filter keeps.
proof fn lemma_raids_of_all(rs: Seq<Raid>, sid: i64, p: spec_fn(Raid) -> bool)
    requires
        forall|i: int| 0 <= i < rs.len() ==> p(#[trigger] rs[i]),
    ensures
        forall|i: int| 0 <= i < raids_of(rs, sid).len() ==> p(#[trigger] raids_of(rs, sid)[i]),
    decreases rs.len(),
{
    if rs.len() > 0 {
        assert(forall|i: int| 0 <= i < rs.drop_last().len() ==> p(#[trigger] rs.drop_last()[i]));
        lemma_raids_of_all(rs.drop_last(), sid, p);
        assert(p(rs[rs.len() - 1]));
        let f = raids_of(rs, sid);
        let pf = raids_of(rs.drop_last(), sid);
        assert forall|i: int| 0 <= i < f.len() implies p(f[i]) by {
            if rs.last().session_id == sid {
                if i < pf.len() {
                    assert(f[i] == pf[i]);
                } else {
                    assert(f[i] == rs.last());
                }
            }
        }
    }
}

/// The same, for the mode filter.
proof fn lemma_filter_mode_all(rs: Seq<Raid>, mode: GameMode, p: spec_fn(Raid) -> bool)
    requires
        forall|i: int| 0 <= i < rs.len() ==> p(#[trigger] rs[i]),
    ensures
        forall|i: int| 0 <= i < filter_mode(rs, mode).len()
            ==> p(#[trigger] filter_mode(rs, mode)[i]),
    decreases rs.len(),
{
    if rs.len() > 0 {
        assert(forall|i: int| 0 <= i < rs.drop_last().len() ==> p(#[trigger] rs.drop_last()[i]));
        lemma_filter_mode_all(rs.drop_last(), mode, p);
        assert(p(rs[rs.len() - 1]));
        let f = filter_mode(rs, mode);
        let pf = filter_mode(rs.drop_last(), mode);
        assert forall|i: int| 0 <= i < f.len() implies p(f[i]) by {
            if rs.last().game_mode == mode {
                if i < pf.len() {
                    assert(f[i] == pf[i]);
                } else {
                    assert(f[i] == rs.last());
                }
            }
        }
    }
}

/// In a well-formed store the raid list has strictly increasing ids and
/// in-range timestamps.
proof fn lemma_store_raids_ok(store: Store)
    requires
        store.wf(),
    ensures
        ids_increasing(store.raids@),
        raids_ticks_ok(store.raids@),
    {
    assert forall|i: int, j: int| 0 <= i < j < store.raids@.len()
        implies store.raids@[i].raid_id < store.raids@[j].raid_id by {
        assert(store.raid_ok(i));
        assert(store.raid_ok(j));
    }
    assert forall|i: int| 0 <= i < store.raids@.len()
        implies raid_ticks_ok(#[trigger] store.raids@[i]) by {
        assert(store.raid_ok(i));
    }
}

/// Statistics over an explicit raid set: the core computation the session,
/// global and per-mode entry points share.
pub fn calculate_stats_from_raids(store: &Store, raids: &Vec<Raid>) -> (st: SessionStats)
    requires
        store.wf(),
        distinct_raid_ids(raids@),
        raids_ticks_ok(raids@),
    ensures
        stats_match(store.kills@, raids@, st),
{
    let rs = raids;
    let n = rs.len();
    let mut survived: usize = 0;
    let mut ended: usize = 0;
    let mut total_kills: usize = 0;
    let mut total_duration: i128 = 0;
    assert(rs@.take(0) =~= Seq::<Raid>::empty());
    for i in 0..n
        invariant
            store.wf(),
            distinct_raid_ids(rs@),
            raids_ticks_ok(rs@),
            n == rs@.len(),
            survived == count_survived(rs@.take(i as int)),
            ended == count_ended(rs@.take(i as int)),
            total_kills == sum_kill_counts(store.kills@, rs@.take(i as int)),
            total_duration == sum_ended_durations(rs@.take(i as int)),
    {
        proof {
            assert(rs@.take(i + 1).drop_last() =~= rs@.take(i as int));
            assert(rs@.take(i + 1).last() == rs@[i as int]);
            lemma_count_survived_bounds(rs@.take(i + 1));
            lemma_count_ended_bounds(rs@.take(i + 1));
            assert(distinct_raid_ids(rs@.take(i + 1)));
            lemma_sum_kill_counts_bound(store.kills@, rs@.take(i + 1));
            assert(raids_ticks_ok(rs@.take(i + 1)));
            lemma_sum_ended_durations_bound(rs@.take(i + 1));
            lemma_sum_ended_durations_bound(rs@.take(i as int));
        }
        let raid = &rs[i];
        if is_survived_state(&raid.current_state) {
            survived = survived + 1;
        }
        match raid.ended_at {
            Some(e) => {
                total_duration = total_duration + ((e as i128) - (raid.started_at as i128));
                ended = ended + 1;
            },
            None => {},
        }
        let kills = store.get_kills_for_raid(raid.raid_id);
        let cap = store.kills.len();
        proof {
            crate::order::lemma_sort_by_key_all(
                kills_of(store.kills@, rs@[i as int].raid_id),
                |k: Kill| true,
            );
            assert(kills@.len() == kills_of(store.kills@, rs@[i as int].raid_id).len());
            assert(total_kills + kills@.len() == sum_kill_counts(store.kills@, rs@.take(i + 1)));
            assert(total_kills + kills@.len() <= cap);
        }
        total_kills = total_kills + kills.len();
    }
    proof {
        assert(rs@.take(n as int) =~= rs@);
        lemma_count_survived_bounds(rs@);
        lemma_sum_kill_counts_bound(store.kills@, rs@);
        lemma_count_ended_bounds(rs@);
    }
    let survival_rate = if n > 0 {
        Ratio { num: survived as i128, den: n as i128 }
    } else {
        Ratio { num: 0, den: 1 }
    };
    let deaths = n - survived;
    let kd_ratio = if deaths > 0 {
        Ratio { num: total_kills as i128, den: deaths as i128 }
    } else {
        Ratio { num: total_kills as i128, den: 1 }
    };
    let avg_raid_duration = if ended > 0 {
        Ratio { num: total_duration, den: ended as i128 }
    } else {
        Ratio { num: 0, den: 1 }
    };
    SessionStats {
        total_raids: n,
        survived_raids: survived,
        survival_rate,
        total_kills,
        kd_ratio,
        avg_raid_duration,
    }
}

/// Statistics over the raids of one session.
pub fn calculate_session_stats(store: &Store, session_id: i64) -> (st: SessionStats)
    requires
        store.wf(),
    ensures
        stats_match(store.kills@, raids_of(store.raids@, session_id), st),
{
    let raids = store.get_raids_for_session(session_id);
    proof {
        lemma_store_raids_ok(*store);
        lemma_raids_of_increasing(store.raids@, session_id);
        lemma_raids_of_all(store.raids@, session_id, |r: Raid| raid_ticks_ok(r));
        assert(raids_ticks_ok(raids@));
    }
    calculate_stats_from_raids(store, &raids)
}

/// Statistics over every raid in the store, optionally restricted to one
/// game mode.
pub fn calculate_global_stats(store: &Store, game_mode_filter: Option<GameMode>) -> (st: SessionStats)
    requires
        store.wf(),
    ensures
        stats_match(
            store.kills@,
            match game_mode_filter {
                Some(mode) => filter_mode(store.raids@, mode),
                None => store.raids@,
            },
            st,
        ),
{
    let all_raids = store.get_all_raids();
    proof {
        lemma_store_raids_ok(*store);
    }
    match game_mode_filter {
        Some(mode) => {
            let filtered = filter_raids_by_mode(&all_raids, mode);
            proof {
                lemma_filter_mode_increasing(store.raids@, mode);
                lemma_filter_mode_all(store.raids@, mode, |r: Raid| raid_ticks_ok(r));
                assert(raids_ticks_ok(filtered@));
            }
            calculate_stats_from_raids(store, &filtered)
        },
        None => calculate_stats_from_raids(store, &all_raids),
    }
}

/// The raids of the given mode, in order.
fn filter_raids_by_mode(raids: &Vec<Raid>, mode: GameMode) -> (r: Vec<Raid>)
    ensures
        r@ == filter_mode(raids@, mode),
{
    let mut tmp: Vec<Raid> = Vec::new();
    let n = raids.len();
    assert(raids@.take(0) =~= Seq::<Raid>::empty());
    for i in 0..n
        invariant
            n == raids@.len(),
            tmp@ == filter_mode(raids@.take(i as int), mode),
    {
        if raids[i].game_mode == mode {
            tmp.push(raids[i].clone());
        }
        proof {
            assert(raids@.take(i + 1).drop_last() =~= raids@.take(i as int));
            assert(raids@.take(i + 1).last() == raids@[i as int]);
        }
    }
    proof {
        assert(raids@.take(n as int) =~= raids@);
    }
    tmp
}

/// One session's statistics split into its PVE and PVP raids.
pub fn get_mode_stats_for_session(store: &Store, session_id: i64) -> (r: ModeStats)
    requires
        store.wf(),
    ensures
        stats_match(store.kills@, filter_mode(raids_of(store.raids@, session_id), GameMode::PVE), r.pve),
        stats_match(store.kills@, filter_mode(raids_of(store.raids@, session_id), GameMode::PVP), r.pvp),
{
    let raids = store.get_raids_for_session(session_id);
    proof {
        lemma_store_raids_ok(*store);
        lemma_raids_of_increasing(store.raids@, session_id);
        lemma_raids_of_all(store.raids@, session_id, |r: Raid| raid_ticks_ok(r));
        lemma_filter_mode_increasing(raids_of(store.raids@, session_id), GameMode::PVE);
        lemma_filter_mode_increasing(raids_of(store.raids@, session_id), GameMode::PVP);
        lemma_filter_mode_all(raids_of(store.raids@, session_id), GameMode::PVE, |r: Raid| raid_ticks_ok(r));
        lemma_filter_mode_all(raids_of(store.raids@, session_id), GameMode::PVP, |r: Raid| raid_ticks_ok(r));
    }
    let pve_raids = filter_raids_by_mode(&raids, GameMode::PVE);
    let pvp_raids = filter_raids_by_mode(&raids, GameMode::PVP);
    let pve = calculate_stats_from_raids(store, &pve_raids);
    let pvp = calculate_stats_from_raids(store, &pvp_raids);
    ModeStats { pve, pvp }
}

/// One session's statistics paired with the all-time statistics, the
/// latter optionally restricted to one game mode.
pub fn compare_session_to_mode_global(
    store: &Store,
    session_id: i64,
    game_mode_filter: Option<GameMode>,
) -> (r: SessionComparison)
    requires
        store.wf(),
    ensures
        stats_match(store.kills@, raids_of(store.raids@, session_id), r.current),
        stats_match(
            store.kills@,
            match game_mode_filter {
                Some(mode) => filter_mode(store.raids@, mode),
                None => store.raids@,
            },
            r.all_time,
        ),
{
    let current = calculate_session_stats(store, session_id);
    let all_time = calculate_global_stats(store, game_mode_filter);
    SessionComparison { current, all_time }
}


/// Total time the history spends in the given state: for each adjacent
/// pair of transitions, the gap between their times is attributed to the
/// state the earlier one entered. The last transition's state accrues
/// nothing — there is no closing boundary.
pub open spec fn state_total(ts: Seq<RaidStateTransition>, state: Seq<char>) -> int
    decreases ts.len(),
{
    if ts.len() < 2 {
        0
    } else {
        state_total(ts.drop_last(), state) + if ts[ts.len() - 2].to_state@ == state {
            ts.last().transitioned_at - ts[ts.len() - 2].transitioned_at
        } else {
            0int
        }
    }
}

/// The states the history occupies — the `to_state` of every transition
/// but the last — in order of first occupancy, without repeats.
pub open spec fn states_in_order(ts: Seq<RaidStateTransition>) -> Seq<Seq<char>>
    decreases ts.len(),
{
    if ts.len() < 2 {
        Seq::empty()
    } else {
        let p = states_in_order(ts.drop_last());
        if p.contains(ts[ts.len() - 2].to_state@) {
            p
        } else {
            p.push(ts[ts.len() - 2].to_state@)
        }
    }
}

/// The sum of the accumulated durations.
pub open spec fn sum_state_times(s: Seq<StateTime>) -> int
    decreases s.len(),
{
    if s.len() == 0 {
        0
    } else {
        sum_state_times(s.drop_last()) + s.last().duration
    }
}

/// Every transition's timestamp is within the tick bound.
pub open spec fn trans_ticks_ok(ts: Seq<RaidStateTransition>) -> bool {
    forall|i: int| 0 <= i < ts.len() ==> tick_in_range(#[trigger] ts[i].transitioned_at as int)
}

/// The occupied states carry no repeats.
proof fn lemma_states_in_order_nodup(ts: Seq<RaidStateTransition>)
    ensures
        forall|i: int, j: int| 0 <= i < j < states_in_order(ts).len()
            ==> states_in_order(ts)[i] != states_in_order(ts)[j],
    decreases ts.len(),
{
    if ts.len() >= 2 {
        lemma_states_in_order_nodup(ts.drop_last());
        let p = states_in_order(ts.drop_last());
        let st = ts[ts.len() - 2].to_state@;
        if !p.contains(st) {
            assert forall|i: int, j: int| 0 <= i < j < p.push(st).len()
                implies p.push(st)[i] != p.push(st)[j] by {
                if j == p.len() {
                    assert(p.push(st)[i] == p[i]);
                    assert(!p.contains(st));
                }
            }
        }
    }
}

/// A state the history never occupies accumulates nothing.
proof fn lemma_state_total_absent(ts: Seq<RaidStateTransition>, st: Seq<char>)
    requires
        !states_in_order(ts).contains(st),
    ensures
        state_total(ts, st) == 0,
    decreases ts.len(),
{
    if ts.len() >= 2 {
        let p = states_in_order(ts.drop_last());
        let occ = ts[ts.len() - 2].to_state@;
        if p.contains(occ) {
            lemma_state_total_absent(ts.drop_last(), st);
        } else {
            assert(states_in_order(ts) == p.push(occ));
            assert forall|k: int| 0 <= k < p.len() implies p.push(occ)[k] == p[k] by {}
            if p.contains(st) {
                let w = choose|k: int| 0 <= k < p.len() && p[k] == st;
                assert(p.push(occ)[w] == st);
                assert(false);
            }
            lemma_state_total_absent(ts.drop_last(), st);
            if occ == st {
                assert(p.push(occ)[p.len() as int] == st);
                assert(false);
            }
        }
    }
}

/// Replacing one entry changes the sum by the difference of durations.
proof fn lemma_sum_state_times_update(s: Seq<StateTime>, k: int, e: StateTime)
    requires
        0 <= k < s.len(),
    ensures
        sum_state_times(s.update(k, e)) == sum_state_times(s) - s[k].duration + e.duration,
    decreases s.len(),
{
    let s2 = s.update(k, e);
    if k == s.len() - 1 {
        assert(s2.drop_last() =~= s.drop_last());
        assert(s2.last() == e);
    } else {
        assert(s2.drop_last() =~= s.drop_last().update(k, e));
        lemma_sum_state_times_update(s.drop_last(), k, e);
        assert(s2.last() == s.last());
        assert(s.drop_last()[k] == s[k]);
    }
}

/// With every duration non-negative, so is the sum.
proof fn lemma_sum_state_times_nonneg(s: Seq<StateTime>)
    requires
        forall|i: int| 0 <= i < s.len() ==> #[trigger] s[i].duration >= 0,
    ensures
        sum_state_times(s) >= 0,
    decreases s.len(),
{
    if s.len() > 0 {
        assert(forall|i: int| 0 <= i < s.drop_last().len()
            ==> #[trigger] s.drop_last()[i].duration >= 0);
        lemma_sum_state_times_nonneg(s.drop_last());
        assert(s.last() == s[s.len() - 1]);
    }
}

/// With every duration non-negative, each entry is at most the sum.
proof fn lemma_sum_state_times_element(s: Seq<StateTime>, k: int)
    requires
        0 <= k < s.len(),
        forall|i: int| 0 <= i < s.len() ==> #[trigger] s[i].duration >= 0,
    ensures
        s[k].duration <= sum_state_times(s),
        sum_state_times(s) >= 0,
    decreases s.len(),
{
    lemma_sum_state_times_nonneg(s);
    assert(forall|i: int| 0 <= i < s.drop_last().len()
        ==> #[trigger] s.drop_last()[i].duration >= 0);
    if k == s.len() - 1 {
        lemma_sum_state_times_nonneg(s.drop_last());
        assert(s.last() == s[k]);
    } else {
        lemma_sum_state_times_element(s.drop_last(), k);
        assert(s.drop_last()[k] == s[k]);
        assert(s.last() == s[s.len() - 1]);
    }
}

/// Searches the accumulator for an entry of the given state.
fn find_state(out: &Vec<StateTime>, s: &String) -> (idx: Option<usize>)
    ensures
        match idx {
            Some(k) => k < out@.len() && out@[k as int].state@ == s@,
            None => forall|j: int| 0 <= j < out@.len() ==> #[trigger] out@[j].state@ != s@,
        },
{
    let n = out.len();
    for k in 0..n
        invariant
            n == out@.len(),
            forall|j: int| 0 <= j < k ==> #[trigger] out@[j].state@ != s@,
    {
        if out[k].state == *s {
            return Some(k);
        }
    }
    None
}

/// Time-in-state accumulation over an ordered transition history: one
/// entry per occupied state, in order of first occupancy, each carrying
/// the total time across all its visits. The durations sum to exactly the
/// gap between the first and the last transition; a history of fewer than
/// two transitions yields nothing. Equal adjacent timestamps contribute
/// zero-length intervals without error.
pub fn time_in_state_from_transitions(ts: &Vec<RaidStateTransition>) -> (r: Vec<StateTime>)
    requires
        crate::order::sorted_by_key(ts@),
        trans_ticks_ok(ts@),
    ensures
        r@.len() == states_in_order(ts@).len(),
        forall|k: int| 0 <= k < r@.len() ==> (#[trigger] r@[k].state@) == states_in_order(ts@)[k]
            && r@[k].duration == state_total(ts@, r@[k].state@) && r@[k].duration >= 0,
        ts@.len() >= 2 ==> sum_state_times(r@) == ts@.last().transitioned_at
            - ts@[0].transitioned_at,
        ts@.len() < 2 ==> r@.len() == 0,
{
    let mut out: Vec<StateTime> = Vec::new();
    let n = ts.len();
    if n < 2 {
        return out;
    }
    assert(states_in_order(ts@.take(1)) =~= Seq::<Seq<char>>::empty());
    for i in 0..(n - 1)
        invariant
            crate::order::sorted_by_key(ts@),
            trans_ticks_ok(ts@),
            n == ts@.len(),
            2 <= n,
            i < n,
            out@.len() == states_in_order(ts@.take(i + 1)).len(),
            forall|k: int| 0 <= k < out@.len()
                ==> (#[trigger] out@[k].state@) == states_in_order(ts@.take(i + 1))[k]
                && out@[k].duration == state_total(ts@.take(i + 1), out@[k].state@)
                && out@[k].duration >= 0,
            sum_state_times(out@) == ts@[i as int].transitioned_at - ts@[0].transitioned_at,
    {
        proof {
            assert(ts@.take(i + 2).drop_last() =~= ts@.take(i + 1));
            assert(ts@.take(i + 2)[i as int] == ts@[i as int]);
            assert(ts@.take(i + 2).last() == ts@[i + 1]);
            assert(ts@[i as int].key() <= ts@[i + 1].key());
            lemma_states_in_order_nodup(ts@.take(i + 1));
        }
        let d = ts[i + 1].transitioned_at - ts[i].transitioned_at;
        let ghost prev = states_in_order(ts@.take(i + 1));
        let ghost stv = ts@[i as int].to_state@;
        let ghost out_prev = out@;
        match find_state(&out, &ts[i].to_state) {
            Some(k) => {
                proof {
                    assert(prev[k as int] == stv);
                    assert(prev.contains(stv));
                    assert(states_in_order(ts@.take(i + 2)) == prev);
                    assert forall|j: int| 0 <= j < out@.len()
                        implies #[trigger] out@[j].duration >= 0 by {
                        assert(out@[j].state@ == prev[j]);
                    }
                    lemma_sum_state_times_element(out@, k as int);
                }
                let old_d = out[k].duration;
                out[k].duration = old_d + d;
                proof {
                    let e = out@[k as int];
                    assert(out@ =~= out_prev.update(k as int, e));
                    lemma_sum_state_times_update(out_prev, k as int, e);
                }
            },
            None => {
                proof {
                    if prev.contains(stv) {
                        let w = choose|j: int| 0 <= j < prev.len() && prev[j] == stv;
                        assert(out@[w].state@ == stv);
                        assert(false);
                    }
                    assert(states_in_order(ts@.take(i + 2)) == prev.push(stv));
                    lemma_state_total_absent(ts@.take(i + 1), stv);
                }
                out.push(StateTime { state: ts[i].to_state.clone(), duration: d });
                proof {
                    assert(out@.drop_last() =~= out_prev);
                }
            },
        }
        proof {
            let now = states_in_order(ts@.take(i + 2));
            assert forall|k: int| 0 <= k < out@.len()
                implies (#[trigger] out@[k].state@) == now[k]
                && out@[k].duration == state_total(ts@.take(i + 2), out@[k].state@)
                && out@[k].duration >= 0 by {
                if out@[k].state@ != stv {
                    assert(state_total(ts@.take(i + 2), out@[k].state@)
                        == state_total(ts@.take(i + 1), out@[k].state@));
                }
            }
        }
    }
    proof {
        assert(ts@.take(n as int) =~= ts@);
        assert(ts@[n - 1] == ts@.last());
    }
    out
}


/// A property of every row of the log holds of every row of one raid's
/// history.
proof fn lemma_trans_of_all(log: Seq<RaidStateTransition>, rid: i64, p: spec_fn(RaidStateTransition) -> bool)
    requires
        forall|i: int| 0 <= i < log.len() ==> p(#[trigger] log[i]),
    ensures
        forall|i: int| 0 <= i < trans_of(log, rid).len() ==> p(#[trigger] trans_of(log, rid)[i]),
    decreases log.len(),
{
    if log.len() > 0 {
        assert(forall|i: int| 0 <= i < log.drop_last().len() ==> p(#[trigger] log.drop_last()[i]));
        lemma_trans_of_all(log.drop_last(), rid, p);
        assert(p(log[log.len() - 1]));
        let f = trans_of(log, rid);
        let pf = trans_of(log.drop_last(), rid);
        assert forall|i: int| 0 <= i < f.len() implies p(f[i]) by {
            if log.last().raid_id == rid {
                if i < pf.len() {
                    assert(f[i] == pf[i]);
                } else {
                    assert(f[i] == log.last());
                }
            }
        }
    }
}

/// Time-in-state accumulation for one raid of the store, computed over its
/// transition history ordered by time.
pub fn calculate_time_in_state(store: &Store, raid_id: i64) -> (r: Vec<StateTime>)
    requires
        store.wf(),
    ensures
        ({
            let ts = crate::order::sort_by_key(trans_of(store.transitions@, raid_id));
            &&& r@.len() == states_in_order(ts).len()
            &&& (forall|k: int| 0 <= k < r@.len() ==> (#[trigger] r@[k].state@)
                == states_in_order(ts)[k] && r@[k].duration == state_total(ts, r@[k].state@)
                && r@[k].duration >= 0)
            &&& (ts.len() >= 2 ==> sum_state_times(r@) == ts.last().transitioned_at
                - ts[0].transitioned_at)
            &&& (ts.len() < 2 ==> r@.len() == 0)
        }),
{
    let transitions = store.get_raid_transitions(raid_id);
    proof {
        let filtered = trans_of(store.transitions@, raid_id);
        crate::order::lemma_sort_by_key_sorted(filtered);
        assert forall|i: int| 0 <= i < store.transitions@.len()
            implies tick_in_range((#[trigger] store.transitions@[i]).transitioned_at as int) by {
            assert(store.transition_ok(i));
        }
        lemma_trans_of_all(
            store.transitions@,
            raid_id,
            |t: RaidStateTransition| tick_in_range(t.transitioned_at as int),
        );
        crate::order::lemma_sort_by_key_all(
            filtered,
            |t: RaidStateTransition| tick_in_range(t.transitioned_at as int),
        );
        assert(trans_ticks_ok(transitions@));
    }
    time_in_state_from_transitions(&transitions)
}

/// Whether the session has at least one raid: only then does it enter the
/// first-raid-delay average.
pub open spec fn session_qualifies(raids: Seq<Raid>, s: StreamSession) -> bool {
    crate::store::first_raid_of(raids, s.session_id) is Some
}

/// The gap between the session's start and its first raid's start.
pub open spec fn session_delay(raids: Seq<Raid>, s: StreamSession) -> int {
    crate::store::first_raid_of(raids, s.session_id)->0.started_at - s.started_at
}

/// How many sessions have at least one raid.
pub open spec fn count_qualifying(raids: Seq<Raid>, ss: Seq<StreamSession>) -> int
    decreases ss.len(),
{
    if ss.len() == 0 {
        0
    } else {
        count_qualifying(raids, ss.drop_last()) + if session_qualifies(raids, ss.last()) {
            1int
        } else {
            0int
        }
    }
}

/// Total first-raid delay over the sessions that have raids; the others
/// contribute nothing.
pub open spec fn sum_delays(raids: Seq<Raid>, ss: Seq<StreamSession>) -> int
    decreases ss.len(),
{
    if ss.len() == 0 {
        0
    } else {
        sum_delays(raids, ss.drop_last()) + if session_qualifies(raids, ss.last()) {
            session_delay(raids, ss.last())
        } else {
            0int
        }
    }
}

/// The latest-started session with at least one raid; on equal start times
/// the earliest-created one. Its delay is reported as the most recent one.
pub open spec fn latest_qualifying(raids: Seq<Raid>, ss: Seq<StreamSession>) -> Option<StreamSession>
    decreases ss.len(),
{
    if ss.len() == 0 {
        None
    } else {
        let p = latest_qualifying(raids, ss.drop_last());
        let s = ss.last();
        if session_qualifies(raids, s) {
            match p {
                None => Some(s),
                Some(b) => if s.started_at > b.started_at {
                    Some(s)
                } else {
                    Some(b)
                },
            }
        } else {
            p
        }
    }
}

proof fn lemma_count_qualifying_bounds(raids: Seq<Raid>, ss: Seq<StreamSession>)
    ensures
        0 <= count_qualifying(raids, ss) <= ss.len(),
    decreases ss.len(),
{
    if ss.len() > 0 {
        lemma_count_qualifying_bounds(raids, ss.drop_last());
    }
}

/// A property of every raid of the sequence holds of its earliest raid.
proof fn lemma_earliest_raid_all(rs: Seq<Raid>, p: spec_fn(Raid) -> bool)
    requires
        forall|i: int| 0 <= i < rs.len() ==> p(#[trigger] rs[i]),
    ensures
        match crate::store::earliest_raid(rs) {
            Some(r) => p(r),
            None => true,
        },
    decreases rs.len(),
{
    if rs.len() > 0 {
        assert(forall|i: int| 0 <= i < rs.drop_last().len() ==> p(#[trigger] rs.drop_last()[i]));
        lemma_earliest_raid_all(rs.drop_last(), p);
        assert(p(rs[rs.len() - 1]));
    }
}

/// In a well-formed store, a session's first raid starts within the tick
/// bound.
proof fn lemma_first_raid_ticks(store: Store, sid: i64)
    requires
        store.wf(),
    ensures
        match crate::store::first_raid_of(store.raids@, sid) {
            Some(r) => tick_in_range(r.started_at as int),
            None => true,
        },
{
    lemma_store_raids_ok(store);
    lemma_raids_of_all(store.raids@, sid, |r: Raid| raid_ticks_ok(r));
    lemma_earliest_raid_all(raids_of(store.raids@, sid), |r: Raid| raid_ticks_ok(r));
}

/// A qualifying session's start and its first raid's start are both within
/// the tick bound.
pub open spec fn session_delay_ok(raids: Seq<Raid>, s: StreamSession) -> bool {
    session_qualifies(raids, s) ==> tick_in_range(s.started_at as int) && tick_in_range(
        crate::store::first_raid_of(raids, s.session_id)->0.started_at as int,
    )
}

proof fn lemma_sum_delays_bound(raids: Seq<Raid>, ss: Seq<StreamSession>)
    requires
        forall|i: int| 0 <= i < ss.len() ==> session_delay_ok(raids, #[trigger] ss[i]),
    ensures
        -(ss.len() * 2 * MAX_TICK) <= sum_delays(raids, ss) <= ss.len() * 2 * MAX_TICK,
    decreases ss.len(),
{
    if ss.len() > 0 {
        assert(forall|i: int| 0 <= i < ss.drop_last().len()
            ==> session_delay_ok(raids, #[trigger] ss.drop_last()[i]));
        lemma_sum_delays_bound(raids, ss.drop_last());
        assert(session_delay_ok(raids, ss[ss.len() - 1]));
    }
}

/// First-raid delay across all sessions: for every session with at least
/// one raid, the gap between session start and first raid start; sessions
/// with no raids are skipped entirely. The average is over the qualifying
/// sessions alone (0/1 if none qualify), and `last_session` is the
/// latest-started qualifying session's delay.
pub fn calculate_time_before_first_raid(store: &Store) -> (r: FirstRaidDelay)
    requires
        store.wf(),
    ensures
        r.sessions == count_qualifying(store.raids@, store.sessions@),
        count_qualifying(store.raids@, store.sessions@) > 0 ==> r.duration.num
            == sum_delays(store.raids@, store.sessions@) && r.duration.den
            == count_qualifying(store.raids@, store.sessions@),
        count_qualifying(store.raids@, store.sessions@) == 0 ==> r.duration.num == 0
            && r.duration.den == 1,
        match latest_qualifying(store.raids@, store.sessions@) {
            Some(s) => r.last_session == session_delay(store.raids@, s),
            None => r.last_session == 0,
        },
{
    let mut count: usize = 0;
    let mut total: i128 = 0;
    let mut has_best = false;
    let mut best_at: i64 = 0;
    let mut best_delay: i64 = 0;
    let n = store.sessions.len();
    assert(store.sessions@.take(0) =~= Seq::<StreamSession>::empty());
    for i in 0..n
        invariant
            store.wf(),
            n == store.sessions@.len(),
            count == count_qualifying(store.raids@, store.sessions@.take(i as int)),
            total == sum_delays(store.raids@, store.sessions@.take(i as int)),
            match latest_qualifying(store.raids@, store.sessions@.take(i as int)) {
                Some(b) => has_best && best_at == b.started_at && best_delay == session_delay(
                    store.raids@,
                    b,
                ),
                None => !has_best,
            },
    {
        let ss = &store.sessions;
        proof {
            assert(ss@.take(i + 1).drop_last() =~= ss@.take(i as int));
            assert(ss@.take(i + 1).last() == ss@[i as int]);
            lemma_count_qualifying_bounds(store.raids@, ss@.take(i as int));
            assert forall|j: int| 0 <= j < ss@.len()
                implies session_delay_ok(store.raids@, #[trigger] ss@[j]) by {
                assert(store.session_ok(j));
                lemma_first_raid_ticks(*store, ss@[j].session_id);
            }
            assert(forall|j: int| 0 <= j < ss@.take(i as int).len()
                ==> session_delay_ok(store.raids@, #[trigger] ss@.take(i as int)[j]));
            lemma_sum_delays_bound(store.raids@, ss@.take(i as int));
        }
        let s = &store.sessions[i];
        let first = store.get_first_raid_for_session(s.session_id);
        match first {
            Some(f) => {
                proof {
                    assert(store.session_ok(i as int));
                    lemma_first_raid_ticks(*store, s.session_id);
                }
                let delay = f.started_at - s.started_at;
                total = total + (delay as i128);
                count = count + 1;
                if !has_best || s.started_at > best_at {
                    has_best = true;
                    best_at = s.started_at;
                    best_delay = delay;
                }
            },
            None => {},
        }
    }
    proof {
        assert(store.sessions@.take(n as int) =~= store.sessions@);
    }
    let duration = if count > 0 {
        Ratio { num: total, den: count as i128 }
    } else {
        Ratio { num: 0, den: 1 }
    };
    let last_session = if has_best {
        best_delay
    } else {
        0
    };
    FirstRaidDelay { duration, sessions: count, last_session }
}

} // verus!
