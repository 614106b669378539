use raid_tracker::error::AppError;
use raid_tracker::models::{CharacterType, GameMode, SessionType};
use raid_tracker::store::Store;
use raid_tracker::workflow::{create_raid, end_current_session, get_current_session};

#[test]
fn test_create_raid_success() {
    let mut store = Store::new();
    store.create_session(SessionType::Stream, None, None);

    let raid_id = create_raid(&mut store, "Customs", CharacterType::PMC, GameMode::PVE)
        .expect("raid creation should succeed with an active session");
    assert_eq!(raid_id, 1);
}

#[test]
fn test_create_raid_no_active_session() {
    let mut store = Store::new();

    let err = create_raid(&mut store, "Customs", CharacterType::PMC, GameMode::PVE).unwrap_err();
    assert!(matches!(err, AppError::NotFound(_)));
    assert_eq!(err.status_code(), 404);
}

#[test]
fn test_create_raid_conflict_active_raid() {
    let mut store = Store::new();
    let session_id = store.create_session(SessionType::Stream, None, None);
    store
        .create_raid(session_id, "Woods", CharacterType::PMC, GameMode::PVP, None)
        .expect("raid");

    let err = create_raid(&mut store, "Customs", CharacterType::PMC, GameMode::PVE).unwrap_err();
    assert!(matches!(err, AppError::Conflict(_)));
    assert_eq!(err.status_code(), 409);
}

#[test]
fn test_create_session_returns_create() {
    let mut store = Store::new();
    let session_id = store.create_session(SessionType::Stream, None, None);
    assert_eq!(session_id, 1);
}

#[test]
fn test_get_current_session_returns_404_when_none() {
    let store = Store::new();
    let err = get_current_session(&store).unwrap_err();
    assert!(matches!(err, AppError::NotFound(_)));
    assert_eq!(err.status_code(), 404);
}

#[test]
fn test_get_current_session_returns_session() {
    let mut store = Store::new();
    let session_id = store.create_session(
        SessionType::Stream,
        Some("Test Session".to_string()),
        None,
    );

    let session = get_current_session(&store).expect("current session");
    assert_eq!(session.session_id, session_id);
    assert_eq!(session.session_type, Some(SessionType::Stream));
}

#[test]
fn test_end_session_returns_ok() {
    let mut store = Store::new();
    let session_id = store.create_session(
        SessionType::Stream,
        Some("Test Session to end".to_string()),
        None,
    );

    let ended = end_current_session(&mut store).expect("should end the active session");
    assert_eq!(ended, session_id);
    assert!(store.get_active_session().is_none());
}

#[test]
fn test_end_session_returns_404_when_nond() {
    let mut store = Store::new();
    let err = end_current_session(&mut store).unwrap_err();
    assert!(matches!(err, AppError::NotFound(_)));
    assert_eq!(err.status_code(), 404);
}
