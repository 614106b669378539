//! The record store: sessions, raids, the append-only transition log and
//! kills, with the write protocol that keeps a raid's denormalized
//! `current_state` equal to the `to_state` of its most recently logged
//! transition.

use vstd::prelude::*;
use crate::clock::now_ticks;
use crate::error::AppError;
use crate::models::{
    CharacterType, GameMode, Kill, Raid, RaidStateTransition, SessionType, StreamSession,
    initial_state, initial_state_string, opt_tick_in_range, tick_in_range,
};
use crate::order::{SortKey, sort_by_key, sort_vec_by_key};

verus! {

/// The transitions of one raid, in append order.
pub open spec fn trans_of(log: Seq<RaidStateTransition>, raid_id: i64) -> Seq<RaidStateTransition>
    decreases log.len(),
{
    if log.len() == 0 {
        Seq::empty()
    } else {
        let prefix = trans_of(log.drop_last(), raid_id);
        if log.last().raid_id == raid_id {
            prefix.push(log.last())
        } else {
            prefix
        }
    }
}

/// The raids of one session, in creation order.
pub open spec fn raids_of(rs: Seq<Raid>, session_id: i64) -> Seq<Raid>
    decreases rs.len(),
{
    if rs.len() == 0 {
        Seq::empty()
    } else {
        let prefix = raids_of(rs.drop_last(), session_id);
        if rs.last().session_id == session_id {
            prefix.push(rs.last())
        } else {
            prefix
        }
    }
}

/// The kills of one raid, in append order.
pub open spec fn kills_of(ks: Seq<Kill>, raid_id: i64) -> Seq<Kill>
    decreases ks.len(),
{
    if ks.len() == 0 {
        Seq::empty()
    } else {
        let prefix = kills_of(ks.drop_last(), raid_id);
        if ks.last().raid_id == raid_id {
            prefix.push(ks.last())
        } else {
            prefix
        }
    }
}

/// The state a raid with this transition history is in: the `to_state` of
/// the most recently logged transition, or the initial state if none.
pub open spec fn current_state_of(ts: Seq<RaidStateTransition>) -> Seq<char> {
    if ts.len() == 0 {
        initial_state()
    } else {
        ts.last().to_state@
    }
}

/// Whether a transition's recorded `from_state` is the given state name.
pub open spec fn from_state_is(t: RaidStateTransition, prev: Seq<char>) -> bool {
    match t.from_state {
        Some(s) => s@ == prev,
        None => false,
    }
}

/// A raid's transition history chains: the first row leaves the initial
/// state, and every later row leaves the state the previous row entered.
pub open spec fn chained(ts: Seq<RaidStateTransition>) -> bool {
    &&& (ts.len() > 0 ==> from_state_is(ts[0], initial_state()))
    &&& (forall|i: int| 1 <= i < ts.len() ==> from_state_is(#[trigger] ts[i], ts[i - 1].to_state@))
}

/// The record store. All entities are append-only except for the `end`
/// updates on sessions and raids and the `current_state` pointer on raids.
pub struct Store {
    pub sessions: Vec<StreamSession>,
    pub raids: Vec<Raid>,
    pub transitions: Vec<RaidStateTransition>,
    pub kills: Vec<Kill>,
}

impl Store {
    /// Well-formedness of one session row.
    pub open spec fn session_ok(self, i: int) -> bool {
        let s = self.sessions@[i];
        &&& s.session_id == i + 1
        &&& tick_in_range(s.started_at as int)
        &&& opt_tick_in_range(s.ended_at)
    }

    /// Well-formedness of one raid row, including the materialized-view
    /// law: `current_state` equals the `to_state` of the raid's most
    /// recently logged transition.
    pub open spec fn raid_ok(self, i: int) -> bool {
        let r = self.raids@[i];
        &&& r.raid_id == i + 1
        &&& 1 <= r.session_id <= self.sessions@.len()
        &&& tick_in_range(r.started_at as int)
        &&& opt_tick_in_range(r.ended_at)
        &&& r.current_state@ == current_state_of(trans_of(self.transitions@, r.raid_id))
    }

    /// Well-formedness of one transition row.
    pub open spec fn transition_ok(self, i: int) -> bool {
        let t = self.transitions@[i];
        &&& t.transition_id == i + 1
        &&& 1 <= t.raid_id <= self.raids@.len()
        &&& tick_in_range(t.transitioned_at as int)
    }

    /// Well-formedness of one kill row.
    pub open spec fn kill_ok(self, i: int) -> bool {
        let k = self.kills@[i];
        &&& k.kill_id == i + 1
        &&& 1 <= k.raid_id <= self.raids@.len()
        &&& tick_in_range(k.killed_at as int)
    }

    /// The store invariant: ids are dense and ordered, timestamps are in
    /// range, ownership references resolve, every raid's transition
    /// history chains, and every raid's `current_state` mirrors it.
    pub open spec fn wf(self) -> bool {
        &&& (forall|i: int| 0 <= i < self.sessions@.len() ==> self.session_ok(i))
        &&& (forall|i: int| 0 <= i < self.raids@.len() ==> self.raid_ok(i))
        &&& (forall|i: int| 0 <= i < self.transitions@.len() ==> self.transition_ok(i))
        &&& (forall|i: int| 0 <= i < self.kills@.len() ==> self.kill_ok(i))
        &&& (forall|rid: i64| chained(#[trigger] trans_of(self.transitions@, rid)))
    }
}

/// Appending a row to the log extends exactly the one raid's history.
pub proof fn lemma_trans_of_push(log: Seq<RaidStateTransition>, t: RaidStateTransition, rid: i64)
    ensures
        trans_of(log.push(t), rid) == if t.raid_id == rid {
            trans_of(log, rid).push(t)
        } else {
            trans_of(log, rid)
        },
{
    assert(log.push(t).drop_last() =~= log);
    assert(log.push(t).last() == t);
}

/// The same, for raids of a session.
pub proof fn lemma_raids_of_push(rs: Seq<Raid>, r: Raid, sid: i64)
    ensures
        raids_of(rs.push(r), sid) == if r.session_id == sid {
            raids_of(rs, sid).push(r)
        } else {
            raids_of(rs, sid)
        },
{
    assert(rs.push(r).drop_last() =~= rs);
    assert(rs.push(r).last() == r);
}

/// The same, for kills of a raid.
pub proof fn lemma_kills_of_push(ks: Seq<Kill>, k: Kill, rid: i64)
    ensures
        kills_of(ks.push(k), rid) == if k.raid_id == rid {
            kills_of(ks, rid).push(k)
        } else {
            kills_of(ks, rid)
        },
{
    assert(ks.push(k).drop_last() =~= ks);
    assert(ks.push(k).last() == k);
}

/// A raid that no row of the log names has an empty history.
pub proof fn lemma_trans_of_absent(log: Seq<RaidStateTransition>, rid: i64)
    requires
        forall|i: int| 0 <= i < log.len() ==> #[trigger] log[i].raid_id != rid,
    ensures
        trans_of(log, rid) == Seq::<RaidStateTransition>::empty(),
    decreases log.len(),
{
    if log.len() > 0 {
        assert(log.last() == log[log.len() - 1]);
        assert(forall|i: int| 0 <= i < log.drop_last().len() ==> #[trigger] log.drop_last()[i].raid_id != rid);
        lemma_trans_of_absent(log.drop_last(), rid);
    }
}

/// Appending a transition that leaves the history's current state keeps
/// the history chained.
pub proof fn lemma_chained_push(ts: Seq<RaidStateTransition>, t: RaidStateTransition)
    requires
        chained(ts),
        from_state_is(t, current_state_of(ts)),
    ensures
        chained(ts.push(t)),
{
    let r = ts.push(t);
    assert(forall|i: int| 0 <= i < ts.len() ==> r[i] == ts[i]);
    assert(r[r.len() - 1] == t);
    if ts.len() > 0 {
        assert(r[r.len() - 2] == ts[ts.len() - 1]);
    }
}

impl Store {
    /// An empty store.
    pub fn new() -> (s: Store)
        ensures
            s.wf(),
            s.sessions@.len() == 0,
            s.raids@.len() == 0,
            s.transitions@.len() == 0,
            s.kills@.len() == 0,
    {
        let s = Store {
            sessions: Vec::new(),
            raids: Vec::new(),
            transitions: Vec::new(),
            kills: Vec::new(),
        };
        proof {
            assert forall|rid: i64| chained(#[trigger] trans_of(s.transitions@, rid)) by {
                lemma_trans_of_absent(s.transitions@, rid);
            }
        }
        s
    }

    /// Creates a session and returns its id. `started_at` defaults to the
    /// current wall clock.
    pub fn create_session(
        &mut self,
        session_type: SessionType,
        notes: Option<String>,
        started_at: Option<i64>,
    ) -> (id: i64)
        requires
            old(self).wf(),
            opt_tick_in_range(started_at),
            old(self).sessions@.len() + 1 <= i64::MAX,
        ensures
            final(self).wf(),
            id == old(self).sessions@.len() + 1,
            final(self).sessions@.len() == old(self).sessions@.len() + 1,
            final(self).sessions@.drop_last() == old(self).sessions@,
            final(self).raids@ == old(self).raids@,
            final(self).transitions@ == old(self).transitions@,
            final(self).kills@ == old(self).kills@,
            ({
                let s = final(self).sessions@.last();
                &&& s.session_id == id
                &&& s.ended_at is None
                &&& s.session_type == Some(session_type)
                &&& s.notes == notes
                &&& match started_at {
                    Some(t) => s.started_at == t,
                    None => tick_in_range(s.started_at as int),
                }
            }),
    {
        let at: i64 = match started_at {
            Some(t) => t,
            None => now_ticks(),
        };
        let id: i64 = self.sessions.len() as i64 + 1;
        let s = StreamSession {
            session_id: id,
            started_at: at,
            ended_at: None,
            session_type: Some(session_type),
            notes,
        };
        self.sessions.push(s);
        proof {
            assert(self.sessions@.drop_last() =~= old(self).sessions@);
            assert forall|i: int| 0 <= i < self.sessions@.len() implies self.session_ok(i) by {
                if i < old(self).sessions@.len() {
                    assert(old(self).session_ok(i));
                    assert(self.sessions@[i] == old(self).sessions@[i]);
                }
            }
            assert forall|i: int| 0 <= i < self.raids@.len() implies self.raid_ok(i) by {
                assert(old(self).raid_ok(i));
            }
            assert forall|i: int| 0 <= i < self.transitions@.len() implies self.transition_ok(i) by {
                assert(old(self).transition_ok(i));
            }
            assert forall|i: int| 0 <= i < self.kills@.len() implies self.kill_ok(i) by {
                assert(old(self).kill_ok(i));
            }
        }
        id
    }

    /// Marks the session as ended now. A session id that resolves to no
    /// session leaves the store unchanged, as an update matching no row.
    pub fn end_session(&mut self, session_id: i64)
        requires
            old(self).wf(),
        ensures
            final(self).wf(),
            final(self).raids@ == old(self).raids@,
            final(self).transitions@ == old(self).transitions@,
            final(self).kills@ == old(self).kills@,
            1 <= session_id <= old(self).sessions@.len() ==> ({
                let i = session_id - 1;
                let s_old = old(self).sessions@[i];
                let s_new = final(self).sessions@[i];
                &&& final(self).sessions@ == old(self).sessions@.update(i, s_new)
                &&& s_new.session_id == s_old.session_id
                &&& s_new.started_at == s_old.started_at
                &&& s_new.session_type == s_old.session_type
                &&& s_new.notes == s_old.notes
                &&& s_new.ended_at is Some
                &&& opt_tick_in_range(s_new.ended_at)
            }),
            !(1 <= session_id <= old(self).sessions@.len()) ==> final(self).sessions@ == old(self).sessions@,
    {
        if session_id >= 1 && (session_id as u64) <= (self.sessions.len() as u64) {
            let at = now_ticks();
            let i = (session_id - 1) as usize;
            self.sessions[i].ended_at = Some(at);
            proof {
                assert forall|j: int| 0 <= j < self.sessions@.len() implies self.session_ok(j) by {
                    assert(old(self).session_ok(j));
                }
                assert forall|j: int| 0 <= j < self.raids@.len() implies self.raid_ok(j) by {
                    assert(old(self).raid_ok(j));
                }
                assert forall|j: int| 0 <= j < self.transitions@.len() implies self.transition_ok(j) by {
                    assert(old(self).transition_ok(j));
                }
                assert forall|j: int| 0 <= j < self.kills@.len() implies self.kill_ok(j) by {
                    assert(old(self).kill_ok(j));
                }
            }
        } else {
            proof {
                assert(self.sessions@ =~= old(self).sessions@);
            }
        }
    }
}

/// The active session the store reports: among sessions without an end
/// time, the latest-started one; on equal start times the earlier-created
/// one.
pub open spec fn latest_active_session(ss: Seq<StreamSession>) -> Option<StreamSession>
    decreases ss.len(),
{
    if ss.len() == 0 {
        None
    } else {
        let p = latest_active_session(ss.drop_last());
        let s = ss.last();
        if s.ended_at is None {
            match p {
                None => Some(s),
                Some(b) => if s.started_at > b.started_at {
                    Some(s)
                } else {
                    Some(b)
                },
            }
        } else {
            p
        }
    }
}

/// The active raid the store reports, chosen like the active session.
pub open spec fn latest_active_raid(rs: Seq<Raid>) -> Option<Raid>
    decreases rs.len(),
{
    if rs.len() == 0 {
        None
    } else {
        let p = latest_active_raid(rs.drop_last());
        let r = rs.last();
        if r.ended_at is None {
            match p {
                None => Some(r),
                Some(b) => if r.started_at > b.started_at {
                    Some(r)
                } else {
                    Some(b)
                },
            }
        } else {
            p
        }
    }
}

impl Store {
    /// The session with no end time that started last, if any.
    pub fn get_active_session(&self) -> (r: Option<StreamSession>)
        ensures
            r == latest_active_session(self.sessions@),
    {
        let mut best: Option<StreamSession> = None;
        let n = self.sessions.len();
        assert(self.sessions@.take(0) =~= Seq::<StreamSession>::empty());
        for i in 0..n
            invariant
                n == self.sessions@.len(),
                best == latest_active_session(self.sessions@.take(i as int)),
        {
            let s = &self.sessions[i];
            if s.ended_at.is_none() {
                let replace = match &best {
                    None => true,
                    Some(b) => s.started_at > b.started_at,
                };
                if replace {
                    best = Some(s.clone());
                }
            }
            proof {
                assert(self.sessions@.take(i + 1).drop_last() =~= self.sessions@.take(i as int));
                assert(self.sessions@.take(i + 1).last() == self.sessions@[i as int]);
            }
        }
        proof {
            assert(self.sessions@.take(n as int) =~= self.sessions@);
        }
        best
    }

    /// The raid with no end time that started last, if any.
    pub fn get_active_raid(&self) -> (r: Option<Raid>)
        ensures
            r == latest_active_raid(self.raids@),
    {
        let mut best: Option<Raid> = None;
        let n = self.raids.len();
        assert(self.raids@.take(0) =~= Seq::<Raid>::empty());
        for i in 0..n
            invariant
                n == self.raids@.len(),
                best == latest_active_raid(self.raids@.take(i as int)),
        {
            let r = &self.raids[i];
            if r.ended_at.is_none() {
                let replace = match &best {
                    None => true,
                    Some(b) => r.started_at > b.started_at,
                };
                if replace {
                    best = Some(r.clone());
                }
            }
            proof {
                assert(self.raids@.take(i + 1).drop_last() =~= self.raids@.take(i as int));
                assert(self.raids@.take(i + 1).last() == self.raids@[i as int]);
            }
        }
        proof {
            assert(self.raids@.take(n as int) =~= self.raids@);
        }
        best
    }

    /// Creates a raid in the given session, in the initial state, and
    /// returns its id. Fails with a not-found error when the session does
    /// not exist. `started_at` defaults to the current wall clock.
    pub fn create_raid(
        &mut self,
        session_id: i64,
        map_name: &str,
        character_type: CharacterType,
        game_mode: GameMode,
        started_at: Option<i64>,
    ) -> (res: Result<i64, AppError>)
        requires
            old(self).wf(),
            opt_tick_in_range(started_at),
            old(self).raids@.len() + 1 <= i64::MAX,
        ensures
            final(self).wf(),
            final(self).sessions@ == old(self).sessions@,
            final(self).transitions@ == old(self).transitions@,
            final(self).kills@ == old(self).kills@,
            (res is Ok) <==> (1 <= session_id <= old(self).sessions@.len()),
            res is Err ==> final(self).raids@ == old(self).raids@ && res->Err_0 is NotFound,
            res is Ok ==> ({
                let r = final(self).raids@.last();
                &&& res->Ok_0 == old(self).raids@.len() + 1
                &&& final(self).raids@.len() == old(self).raids@.len() + 1
                &&& final(self).raids@.drop_last() == old(self).raids@
                &&& r.raid_id == res->Ok_0
                &&& r.session_id == session_id
                &&& r.ended_at is None
                &&& r.map_name@ == map_name@
                &&& r.character_type == character_type
                &&& r.game_mode == game_mode
                &&& r.current_state@ == initial_state()
                &&& r.extract_location is None
                &&& match started_at {
                    Some(t) => r.started_at == t,
                    None => tick_in_range(r.started_at as int),
                }
            }),
    {
        if !(session_id >= 1 && (session_id as u64) <= (self.sessions.len() as u64)) {
            return Err(AppError::NotFound("session not found".to_owned()));
        }
        let at: i64 = match started_at {
            Some(t) => t,
            None => now_ticks(),
        };
        let id: i64 = self.raids.len() as i64 + 1;
        let r = Raid {
            raid_id: id,
            session_id,
            started_at: at,
            ended_at: None,
            map_name: map_name.to_owned(),
            character_type,
            game_mode,
            current_state: initial_state_string(),
            extract_location: None,
        };
        self.raids.push(r);
        proof {
            assert(self.raids@.drop_last() =~= old(self).raids@);
            assert forall|i: int| 0 <= i < self.sessions@.len() implies self.session_ok(i) by {
                assert(old(self).session_ok(i));
            }
            assert forall|i: int| 0 <= i < self.raids@.len() implies self.raid_ok(i) by {
                if i < old(self).raids@.len() {
                    assert(old(self).raid_ok(i));
                    assert(self.raids@[i] == old(self).raids@[i]);
                } else {
                    assert forall|j: int| 0 <= j < self.transitions@.len()
                        implies #[trigger] self.transitions@[j].raid_id != id by {
                        assert(old(self).transition_ok(j));
                    }
                    lemma_trans_of_absent(self.transitions@, id);
                }
            }
            assert forall|i: int| 0 <= i < self.transitions@.len() implies self.transition_ok(i) by {
                assert(old(self).transition_ok(i));
            }
            assert forall|i: int| 0 <= i < self.kills@.len() implies self.kill_ok(i) by {
                assert(old(self).kill_ok(i));
            }
        }
        Ok(id)
    }

    /// Marks the raid as ended and records the extract location. The end
    /// time defaults to the current wall clock. A raid id that resolves to
    /// no raid leaves the store unchanged, as an update matching no row.
    pub fn end_raid(
        &mut self,
        raid_id: i64,
        end_time: Option<i64>,
        extract_location: Option<String>,
    )
        requires
            old(self).wf(),
            opt_tick_in_range(end_time),
        ensures
            final(self).wf(),
            final(self).sessions@ == old(self).sessions@,
            final(self).transitions@ == old(self).transitions@,
            final(self).kills@ == old(self).kills@,
            1 <= raid_id <= old(self).raids@.len() ==> ({
                let i = raid_id - 1;
                let r_old = old(self).raids@[i];
                let r_new = final(self).raids@[i];
                &&& final(self).raids@ == old(self).raids@.update(i, r_new)
                &&& r_new.raid_id == r_old.raid_id
                &&& r_new.session_id == r_old.session_id
                &&& r_new.started_at == r_old.started_at
                &&& r_new.map_name == r_old.map_name
                &&& r_new.character_type == r_old.character_type
                &&& r_new.game_mode == r_old.game_mode
                &&& r_new.current_state == r_old.current_state
                &&& r_new.extract_location == extract_location
                &&& r_new.ended_at is Some
                &&& opt_tick_in_range(r_new.ended_at)
                &&& match end_time {
                    Some(t) => r_new.ended_at == Some(t),
                    None => true,
                }
            }),
            !(1 <= raid_id <= old(self).raids@.len()) ==> final(self).raids@ == old(self).raids@,
    {
        if raid_id >= 1 && (raid_id as u64) <= (self.raids.len() as u64) {
            let at: i64 = match end_time {
                Some(t) => t,
                None => now_ticks(),
            };
            let i = (raid_id - 1) as usize;
            self.raids[i].ended_at = Some(at);
            self.raids[i].extract_location = extract_location;
            proof {
                assert(self.raids@ =~= old(self).raids@.update(raid_id - 1, self.raids@[raid_id - 1]));
                assert forall|j: int| 0 <= j < self.sessions@.len() implies self.session_ok(j) by {
                    assert(old(self).session_ok(j));
                }
                assert forall|j: int| 0 <= j < self.raids@.len() implies self.raid_ok(j) by {
                    assert(old(self).raid_ok(j));
                }
                assert forall|j: int| 0 <= j < self.transitions@.len() implies self.transition_ok(j) by {
                    assert(old(self).transition_ok(j));
                }
                assert forall|j: int| 0 <= j < self.kills@.len() implies self.kill_ok(j) by {
                    assert(old(self).kill_ok(j));
                }
            }
        } else {
            proof {
                assert(self.raids@ =~= old(self).raids@);
            }
        }
    }

    /// Records a kill in the given raid and returns its id. Fails with a
    /// not-found error when the raid does not exist. `killed_at` defaults
    /// to the current wall clock.
    pub fn add_kill(
        &mut self,
        raid_id: i64,
        enemy_type: &str,
        weapon_used: Option<String>,
        headshot: Option<bool>,
        killed_at: Option<i64>,
    ) -> (res: Result<i64, AppError>)
        requires
            old(self).wf(),
            opt_tick_in_range(killed_at),
            old(self).kills@.len() + 1 <= i64::MAX,
        ensures
            final(self).wf(),
            final(self).sessions@ == old(self).sessions@,
            final(self).raids@ == old(self).raids@,
            final(self).transitions@ == old(self).transitions@,
            (res is Ok) <==> (1 <= raid_id <= old(self).raids@.len()),
            res is Err ==> final(self).kills@ == old(self).kills@ && res->Err_0 is NotFound,
            res is Ok ==> ({
                let k = final(self).kills@.last();
                &&& res->Ok_0 == old(self).kills@.len() + 1
                &&& final(self).kills@.len() == old(self).kills@.len() + 1
                &&& final(self).kills@.drop_last() == old(self).kills@
                &&& k.kill_id == res->Ok_0
                &&& k.raid_id == raid_id
                &&& k.enemy_type@ == enemy_type@
                &&& k.weapon_used == weapon_used
                &&& k.headshot == headshot
                &&& match killed_at {
                    Some(t) => k.killed_at == t,
                    None => tick_in_range(k.killed_at as int),
                }
            }),
    {
        if !(raid_id >= 1 && (raid_id as u64) <= (self.raids.len() as u64)) {
            return Err(AppError::NotFound("raid not found".to_owned()));
        }
        let at: i64 = match killed_at {
            Some(t) => t,
            None => now_ticks(),
        };
        let id: i64 = self.kills.len() as i64 + 1;
        let k = Kill {
            kill_id: id,
            raid_id,
            killed_at: at,
            enemy_type: enemy_type.to_owned(),
            weapon_used,
            headshot,
        };
        self.kills.push(k);
        proof {
            assert(self.kills@.drop_last() =~= old(self).kills@);
            assert forall|i: int| 0 <= i < self.sessions@.len() implies self.session_ok(i) by {
                assert(old(self).session_ok(i));
            }
            assert forall|i: int| 0 <= i < self.raids@.len() implies self.raid_ok(i) by {
                assert(old(self).raid_ok(i));
            }
            assert forall|i: int| 0 <= i < self.transitions@.len() implies self.transition_ok(i) by {
                assert(old(self).transition_ok(i));
            }
            assert forall|i: int| 0 <= i < self.kills@.len() implies self.kill_ok(i) by {
                if i < old(self).kills@.len() {
                    assert(old(self).kill_ok(i));
                    assert(self.kills@[i] == old(self).kills@[i]);
                }
            }
        }
        Ok(id)
    }

    /// The transition-log write protocol: reads the raid's current state,
    /// appends one transition row leaving it for `to_state`, and updates
    /// the raid's `current_state` to `to_state` — one atomic step on the
    /// store. Fails with a not-found error when the raid does not exist,
    /// leaving the store unchanged. `at` defaults to the current wall
    /// clock. The target state is not validated: duplicate, backward and
    /// self-transitions are all recorded as given.
    pub fn log_state_transition(
        &mut self,
        raid_id: i64,
        to_state: &str,
        at: Option<i64>,
    ) -> (res: Result<(), AppError>)
        requires
            old(self).wf(),
            opt_tick_in_range(at),
            old(self).transitions@.len() + 1 <= i64::MAX,
        ensures
            final(self).wf(),
            final(self).sessions@ == old(self).sessions@,
            final(self).kills@ == old(self).kills@,
            (res is Ok) <==> (1 <= raid_id <= old(self).raids@.len()),
            res is Err ==> final(self).raids@ == old(self).raids@
                && final(self).transitions@ == old(self).transitions@
                && res->Err_0 is NotFound,
            res is Ok ==> ({
                let t = final(self).transitions@.last();
                let r_old = old(self).raids@[raid_id - 1];
                let r_new = final(self).raids@[raid_id - 1];
                &&& final(self).transitions@.len() == old(self).transitions@.len() + 1
                &&& final(self).transitions@.drop_last() == old(self).transitions@
                &&& t.transition_id == old(self).transitions@.len() + 1
                &&& t.raid_id == raid_id
                &&& t.from_state == Some(r_old.current_state)
                &&& t.to_state@ == to_state@
                &&& match at {
                    Some(v) => t.transitioned_at == v,
                    None => tick_in_range(t.transitioned_at as int),
                }
                &&& final(self).raids@ == old(self).raids@.update(raid_id - 1, r_new)
                &&& r_new.raid_id == r_old.raid_id
                &&& r_new.session_id == r_old.session_id
                &&& r_new.started_at == r_old.started_at
                &&& r_new.ended_at == r_old.ended_at
                &&& r_new.map_name == r_old.map_name
                &&& r_new.character_type == r_old.character_type
                &&& r_new.game_mode == r_old.game_mode
                &&& r_new.extract_location == r_old.extract_location
                &&& r_new.current_state@ == to_state@
            }),
    {
        if !(raid_id >= 1 && (raid_id as u64) <= (self.raids.len() as u64)) {
            return Err(AppError::NotFound("raid not found".to_owned()));
        }
        let at_tick: i64 = match at {
            Some(v) => v,
            None => now_ticks(),
        };
        let i = (raid_id - 1) as usize;
        let from_state = self.raids[i].current_state.clone();
        let t = RaidStateTransition {
            transition_id: self.transitions.len() as i64 + 1,
            raid_id,
            from_state: Some(from_state),
            to_state: to_state.to_owned(),
            transitioned_at: at_tick,
        };
        proof {
            assert(old(self).raid_ok(raid_id - 1));
        }
        self.transitions.push(t);
        self.raids[i].current_state = to_state.to_owned();
        proof {
            let log_old = old(self).transitions@;
            let log_new = self.transitions@;
            let t_pushed = log_new.last();
            assert(log_new.drop_last() =~= log_old);
            assert(log_new =~= log_old.push(t_pushed));
            assert(self.raids@ =~= old(self).raids@.update(raid_id - 1, self.raids@[raid_id - 1]));
            assert forall|j: int| 0 <= j < self.sessions@.len() implies self.session_ok(j) by {
                assert(old(self).session_ok(j));
            }
            assert forall|j: int| 0 <= j < self.transitions@.len() implies self.transition_ok(j) by {
                if j < log_old.len() {
                    assert(old(self).transition_ok(j));
                    assert(self.transitions@[j] == log_old[j]);
                }
            }
            assert forall|j: int| 0 <= j < self.kills@.len() implies self.kill_ok(j) by {
                assert(old(self).kill_ok(j));
            }
            assert forall|j: int| 0 <= j < self.raids@.len() implies self.raid_ok(j) by {
                assert(old(self).raid_ok(j));
                lemma_trans_of_push(log_old, t_pushed, self.raids@[j].raid_id);
                if j != raid_id - 1 {
                    assert(self.raids@[j] == old(self).raids@[j]);
                    assert(old(self).raids@[j].raid_id == j + 1);
                }
            }
            assert forall|rid: i64| chained(#[trigger] trans_of(log_new, rid)) by {
                lemma_trans_of_push(log_old, t_pushed, rid);
                assert(chained(trans_of(log_old, rid)));
                if rid == raid_id {
                    assert(from_state_is(t_pushed, current_state_of(trans_of(log_old, rid))));
                    lemma_chained_push(trans_of(log_old, rid), t_pushed);
                }
            }
        }
        Ok(())
    }
}


impl SortKey for RaidStateTransition {
    open spec fn key(&self) -> int {
        self.transitioned_at as int
    }

    fn key_le(&self, other: &Self) -> (b: bool)
        ensures
            b == (self.key() <= other.key()),
    {
        self.transitioned_at <= other.transitioned_at
    }

    fn duplicate(&self) -> (r: Self)
        ensures
            r == *self,
    {
        self.clone()
    }
}

impl SortKey for Kill {
    open spec fn key(&self) -> int {
        self.killed_at as int
    }

    fn key_le(&self, other: &Self) -> (b: bool)
        ensures
            b == (self.key() <= other.key()),
    {
        self.killed_at <= other.killed_at
    }

    fn duplicate(&self) -> (r: Self)
        ensures
            r == *self,
    {
        self.clone()
    }
}

/// Sessions sort by descending start time, so their key is the negated
/// start tick.
impl SortKey for StreamSession {
    open spec fn key(&self) -> int {
        -(self.started_at as int)
    }

    fn key_le(&self, other: &Self) -> (b: bool)
        ensures
            b == (self.key() <= other.key()),
    {
        other.started_at <= self.started_at
    }

    fn duplicate(&self) -> (r: Self)
        ensures
            r == *self,
    {
        self.clone()
    }
}

/// The earliest-started raid of a sequence; on equal start times the
/// earliest-created one.
pub open spec fn earliest_raid(rs: Seq<Raid>) -> Option<Raid>
    decreases rs.len(),
{
    if rs.len() == 0 {
        None
    } else {
        let p = earliest_raid(rs.drop_last());
        let r = rs.last();
        match p {
            None => Some(r),
            Some(b) => if r.started_at < b.started_at {
                Some(r)
            } else {
                Some(b)
            },
        }
    }
}

/// The chronologically first raid of a session.
pub open spec fn first_raid_of(rs: Seq<Raid>, session_id: i64) -> Option<Raid> {
    earliest_raid(raids_of(rs, session_id))
}

impl Store {
    /// All transitions of the raid, ordered by transition time ascending;
    /// rows with equal times keep append order. A raid with no history —
    /// or an unknown raid id — yields an empty sequence, not an error.
    pub fn get_raid_transitions(&self, raid_id: i64) -> (r: Vec<RaidStateTransition>)
        ensures
            r@ == sort_by_key(trans_of(self.transitions@, raid_id)),
    {
        let mut tmp: Vec<RaidStateTransition> = Vec::new();
        let n = self.transitions.len();
        assert(self.transitions@.take(0) =~= Seq::<RaidStateTransition>::empty());
        for i in 0..n
            invariant
                n == self.transitions@.len(),
                tmp@ == trans_of(self.transitions@.take(i as int), raid_id),
        {
            let t = &self.transitions[i];
            if t.raid_id == raid_id {
                tmp.push(t.clone());
            }
            proof {
                assert(self.transitions@.take(i + 1).drop_last() =~= self.transitions@.take(i as int));
                assert(self.transitions@.take(i + 1).last() == self.transitions@[i as int]);
            }
        }
        proof {
            assert(self.transitions@.take(n as int) =~= self.transitions@);
        }
        sort_vec_by_key(&tmp)
    }

    /// All kills of the raid, ordered by kill time ascending; rows with
    /// equal times keep append order.
    pub fn get_kills_for_raid(&self, raid_id: i64) -> (r: Vec<Kill>)
        ensures
            r@ == sort_by_key(kills_of(self.kills@, raid_id)),
    {
        let mut tmp: Vec<Kill> = Vec::new();
        let n = self.kills.len();
        assert(self.kills@.take(0) =~= Seq::<Kill>::empty());
        for i in 0..n
            invariant
                n == self.kills@.len(),
                tmp@ == kills_of(self.kills@.take(i as int), raid_id),
        {
            let k = &self.kills[i];
            if k.raid_id == raid_id {
                tmp.push(k.clone());
            }
            proof {
                assert(self.kills@.take(i + 1).drop_last() =~= self.kills@.take(i as int));
                assert(self.kills@.take(i + 1).last() == self.kills@[i as int]);
            }
        }
        proof {
            assert(self.kills@.take(n as int) =~= self.kills@);
        }
        sort_vec_by_key(&tmp)
    }

    /// All raids of the session, in creation order, whether ended or not.
    pub fn get_raids_for_session(&self, session_id: i64) -> (r: Vec<Raid>)
        ensures
            r@ == raids_of(self.raids@, session_id),
    {
        let mut tmp: Vec<Raid> = Vec::new();
        let n = self.raids.len();
        assert(self.raids@.take(0) =~= Seq::<Raid>::empty());
        for i in 0..n
            invariant
                n == self.raids@.len(),
                tmp@ == raids_of(self.raids@.take(i as int), session_id),
        {
            let r = &self.raids[i];
            if r.session_id == session_id {
                tmp.push(r.clone());
            }
            proof {
                assert(self.raids@.take(i + 1).drop_last() =~= self.raids@.take(i as int));
                assert(self.raids@.take(i + 1).last() == self.raids@[i as int]);
            }
        }
        proof {
            assert(self.raids@.take(n as int) =~= self.raids@);
        }
        tmp
    }

    /// All raids in creation order.
    pub fn get_all_raids(&self) -> (r: Vec<Raid>)
        ensures
            r@ == self.raids@,
    {
        let mut tmp: Vec<Raid> = Vec::new();
        let n = self.raids.len();
        for i in 0..n
            invariant
                n == self.raids@.len(),
                tmp@ == self.raids@.take(i as int),
        {
            tmp.push(self.raids[i].clone());
            proof {
                assert(self.raids@.take(i + 1) =~= self.raids@.take(i as int).push(self.raids@[i as int]));
            }
        }
        proof {
            assert(self.raids@.take(n as int) =~= self.raids@);
        }
        tmp
    }

    /// All sessions, ordered by start time descending; sessions with equal
    /// start times keep creation order.
    pub fn get_all_sessions(&self) -> (r: Vec<StreamSession>)
        ensures
            r@ == sort_by_key(self.sessions@),
    {
        sort_vec_by_key(&self.sessions)
    }

    /// The chronologically first raid of the session, if it has any; on
    /// equal start times the earliest-created one.
    pub fn get_first_raid_for_session(&self, session_id: i64) -> (r: Option<Raid>)
        ensures
            r == first_raid_of(self.raids@, session_id),
    {
        let mut best: Option<Raid> = None;
        let n = self.raids.len();
        assert(self.raids@.take(0) =~= Seq::<Raid>::empty());
        assert(raids_of(self.raids@.take(0), session_id) =~= Seq::<Raid>::empty());
        for i in 0..n
            invariant
                n == self.raids@.len(),
                best == earliest_raid(raids_of(self.raids@.take(i as int), session_id)),
        {
            let r = &self.raids[i];
            proof {
                assert(self.raids@.take(i + 1).drop_last() =~= self.raids@.take(i as int));
                assert(self.raids@.take(i + 1).last() == self.raids@[i as int]);
                lemma_raids_of_push(self.raids@.take(i as int), self.raids@[i as int], session_id);
                assert(self.raids@.take(i + 1) =~= self.raids@.take(i as int).push(self.raids@[i as int]));
            }
            if r.session_id == session_id {
                let replace = match &best {
                    None => true,
                    Some(b) => r.started_at < b.started_at,
                };
                if replace {
                    best = Some(r.clone());
                }
                proof {
                    let filtered = raids_of(self.raids@.take(i as int), session_id);
                    assert(raids_of(self.raids@.take(i + 1), session_id) == filtered.push(self.raids@[i as int]));
                    assert(filtered.push(self.raids@[i as int]).drop_last() =~= filtered);
                }
            }
        }
        proof {
            assert(self.raids@.take(n as int) =~= self.raids@);
        }
        best
    }
}


/// The active session the scan reports is one of the store's sessions.
pub proof fn lemma_latest_active_session_in(ss: Seq<StreamSession>)
    ensures
        match latest_active_session(ss) {
            Some(s) => exists|i: int| 0 <= i < ss.len() && ss[i] == s,
            None => true,
        },
    decreases ss.len(),
{
    if ss.len() > 0 {
        lemma_latest_active_session_in(ss.drop_last());
        match latest_active_session(ss) {
            Some(s) => {
                if s == ss.last() {
                    assert(ss[ss.len() - 1] == s);
                } else {
                    let j = choose|i: int|
                        0 <= i < ss.drop_last().len() && ss.drop_last()[i] == s;
                    assert(ss[j] == s);
                }
            },
            None => {},
        }
    }
}

/// Law: in a well-formed store, every raid's recorded history chains — the
/// first transition leaves the initial state and each later one leaves the
/// state the previous one entered — and the raid's denormalized
/// `current_state` equals the `to_state` of the most recently logged
/// transition, or the initial state when none is logged yet.
pub proof fn lemma_transition_log_chained(store: Store, i: int)
    requires
        store.wf(),
        0 <= i < store.raids@.len(),
    ensures
        chained(trans_of(store.transitions@, store.raids@[i].raid_id)),
        store.raids@[i].current_state@ == current_state_of(
            trans_of(store.transitions@, store.raids@[i].raid_id),
        ),
{
    assert(store.raid_ok(i));
}

/// Law: reading a raid's history back ordered by time returns exactly the
/// rows in append (call) order whenever the logged timestamps were
/// nondecreasing — the stable sort leaves such a history untouched.
pub proof fn lemma_history_read_in_call_order(store: Store, raid_id: i64)
    requires
        crate::order::sorted_by_key(trans_of(store.transitions@, raid_id)),
    ensures
        sort_by_key(trans_of(store.transitions@, raid_id)) == trans_of(
            store.transitions@,
            raid_id,
        ),
{
    crate::order::lemma_sort_by_key_identity(trans_of(store.transitions@, raid_id));
}

} // verus!
