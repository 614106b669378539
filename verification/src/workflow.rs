//! Decision cores of the request workflows around the store: the
//! check-then-act sequences the service layer runs per request.

use vstd::prelude::*;
use crate::error::AppError;
use crate::models::{CharacterType, GameMode, SessionType, StreamSession, tick_in_range};
use crate::store::{
    Store, latest_active_raid, latest_active_session, lemma_latest_active_session_in,
};

verus! {

/// The raid-creation workflow: refuses with a not-found error when no
/// session is active, with a conflict when a raid is already in progress,
/// and otherwise creates a raid in the active session and returns its id.
/// The conflict check is check-then-act: it holds only as long as no other
/// writer runs between the check and the creation.
pub fn create_raid(
    store: &mut Store,
    map_name: &str,
    character_type: CharacterType,
    game_mode: GameMode,
) -> (res: Result<i64, AppError>)
    requires
        old(store).wf(),
        old(store).raids@.len() + 1 <= i64::MAX,
    ensures
        final(store).wf(),
        final(store).sessions@ == old(store).sessions@,
        final(store).transitions@ == old(store).transitions@,
        final(store).kills@ == old(store).kills@,
        latest_active_session(old(store).sessions@) is None ==> res is Err
            && res->Err_0 is NotFound && final(store).raids@ == old(store).raids@,
        latest_active_session(old(store).sessions@) is Some && latest_active_raid(
            old(store).raids@,
        ) is Some ==> res is Err && res->Err_0 is Conflict && final(store).raids@ == old(
            store,
        ).raids@,
        latest_active_session(old(store).sessions@) is Some && latest_active_raid(
            old(store).raids@,
        ) is None ==> res is Ok && ({
            let r = final(store).raids@.last();
            &&& res->Ok_0 == old(store).raids@.len() + 1
            &&& final(store).raids@.len() == old(store).raids@.len() + 1
            &&& final(store).raids@.drop_last() == old(store).raids@
            &&& r.raid_id == res->Ok_0
            &&& r.session_id == latest_active_session(old(store).sessions@)->0.session_id
            &&& r.ended_at is None
            &&& r.map_name@ == map_name@
            &&& r.character_type == character_type
            &&& r.game_mode == game_mode
            &&& r.current_state@ == crate::models::initial_state()
            &&& r.extract_location is None
            &&& tick_in_range(r.started_at as int)
        }),
{
    let session = match store.get_active_session() {
        Some(s) => s,
        None => {
            return Err(AppError::NotFound("No active session found. Cannot start a raid.".to_owned()));
        },
    };
    if store.get_active_raid().is_some() {
        return Err(AppError::Conflict("Raid already in progress".to_owned()));
    }
    proof {
        lemma_latest_active_session_in(store.sessions@);
        let j = choose|i: int|
            0 <= i < store.sessions@.len() && store.sessions@[i] == session;
        assert(store.session_ok(j));
    }
    store.create_raid(session.session_id, map_name, character_type, game_mode, None)
}

/// The current-session read: the active session, or a not-found error when
/// none is active.
pub fn get_current_session(store: &Store) -> (res: Result<StreamSession, AppError>)
    ensures
        match latest_active_session(store.sessions@) {
            Some(s) => res is Ok && res->Ok_0 == s,
            None => res is Err && res->Err_0 is NotFound,
        },
{
    match store.get_active_session() {
        Some(s) => Ok(s),
        None => Err(AppError::NotFound("No active session".to_owned())),
    }
}

/// The end-session workflow: ends the active session and returns its id,
/// or fails with a not-found error when none is active.
pub fn end_current_session(store: &mut Store) -> (res: Result<i64, AppError>)
    requires
        old(store).wf(),
    ensures
        final(store).wf(),
        final(store).raids@ == old(store).raids@,
        final(store).transitions@ == old(store).transitions@,
        final(store).kills@ == old(store).kills@,
        match latest_active_session(old(store).sessions@) {
            Some(s) => ({
                let i = s.session_id - 1;
                &&& res is Ok
                &&& res->Ok_0 == s.session_id
                &&& final(store).sessions@ == old(store).sessions@.update(
                    i,
                    final(store).sessions@[i],
                )
                &&& final(store).sessions@[i].session_id == s.session_id
                &&& final(store).sessions@[i].started_at == old(store).sessions@[i].started_at
                &&& final(store).sessions@[i].session_type == old(store).sessions@[i].session_type
                &&& final(store).sessions@[i].notes == old(store).sessions@[i].notes
                &&& final(store).sessions@[i].ended_at is Some
            }),
            None => res is Err && res->Err_0 is NotFound && final(store).sessions@ == old(
                store,
            ).sessions@,
        },
{
    let session = match store.get_active_session() {
        Some(s) => s,
        None => {
            return Err(AppError::NotFound("No Active session to end".to_owned()));
        },
    };
    proof {
        lemma_latest_active_session_in(store.sessions@);
        let j = choose|i: int|
            0 <= i < store.sessions@.len() && store.sessions@[i] == session;
        assert(store.session_ok(j));
    }
    store.end_session(session.session_id);
    Ok(session.session_id)
}

} // verus!
