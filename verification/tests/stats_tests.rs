use raid_tracker::models::{CharacterType, GameMode, SessionType};
use raid_tracker::stats::{
    calculate_global_stats, calculate_session_stats, calculate_time_before_first_raid,
    calculate_time_in_state, compare_session_to_mode_global, get_mode_stats_for_session, Ratio,
    StateTime,
};
use raid_tracker::store::Store;

fn minutes(m: i64) -> i64 {
    m * 60
}

fn as_f64(r: Ratio) -> f64 {
    r.num as f64 / r.den as f64
}

fn find_state(states: &[StateTime], name: &str) -> Option<i64> {
    states.iter().find(|s| s.state == name).map(|s| s.duration)
}

#[test]
fn test_calculate_time_before_first_raid() {
    let mut store = Store::new();

    let zero_session = calculate_time_before_first_raid(&store);
    assert_eq!(zero_session.duration.num, 0);
    assert_eq!(zero_session.sessions, 0);

    let base_time: i64 = 1_700_000_000;

    // Session 1: first raid is 10 min in.
    let session1_start = base_time;
    let session1 = store.create_session(
        SessionType::Stream,
        Some("Session 1".to_string()),
        Some(session1_start),
    );
    let raid1_start = session1_start + minutes(10);
    store
        .create_raid(session1, "customs", CharacterType::PMC, GameMode::PVE, Some(raid1_start))
        .unwrap();

    // Session 2: started one day later, first raid 30 min after.
    let session2_start = base_time + minutes(60 * 24);
    let session2 = store.create_session(
        SessionType::Stream,
        Some("Session 2".to_string()),
        Some(session2_start),
    );
    let raid2_start = session2_start + minutes(30);
    store
        .create_raid(
            session2,
            "Streets of Tarkov:",
            CharacterType::PMC,
            GameMode::PVE,
            Some(raid2_start),
        )
        .unwrap();

    // Session 3: started two days later, first raid 5 min after.
    let session3_start = session2_start + minutes(60 * 48);
    let session3 = store.create_session(
        SessionType::Stream,
        Some("Session 3".to_string()),
        Some(session3_start),
    );
    let raid3_start = session3_start + minutes(5);
    store
        .create_raid(session3, "Shoreline", CharacterType::PMC, GameMode::PVE, Some(raid3_start))
        .unwrap();

    let result = calculate_time_before_first_raid(&store);

    assert_eq!(result.sessions, 3, "should have analyzed 3 sessions");
    assert_eq!(as_f64(result.duration), minutes(15) as f64, "Average should be 15 minutes");
    // The latest-started qualifying session is session 3, 5 minutes of delay.
    assert_eq!(result.last_session, minutes(5));
}

#[test]
fn test_session_with_no_raids_contributes_nothing() {
    let mut store = Store::new();
    let s1 = store.create_session(SessionType::Stream, None, Some(1000));
    store
        .create_raid(s1, "Customs", CharacterType::PMC, GameMode::PVE, Some(1000 + minutes(10)))
        .unwrap();
    // A later session with zero raids is skipped entirely.
    store.create_session(SessionType::Casual, None, Some(5000));

    let result = calculate_time_before_first_raid(&store);
    assert_eq!(result.sessions, 1);
    assert_eq!(as_f64(result.duration), minutes(10) as f64);
    assert_eq!(result.last_session, minutes(10));
}

#[test]
fn test_calculate_time_single_state_visit() {
    let mut store = Store::new();
    let base_time: i64 = 1_700_000_000;

    let session_start = base_time;
    let session_id = store.create_session(
        SessionType::Stream,
        Some("Test Stream".to_string()),
        Some(session_start),
    );

    let raid_start = session_start + minutes(20);
    let raid_id = store
        .create_raid(session_id, "Shoreline", CharacterType::PMC, GameMode::PVE, Some(raid_start))
        .unwrap();

    let mut time = raid_start;

    store.log_state_transition(raid_id, "pre_raid_setup", Some(time)).unwrap();
    time += minutes(3);

    store.log_state_transition(raid_id, "queuing", Some(time)).unwrap();
    time += minutes(5);

    store.log_state_transition(raid_id, "deploying_committed", Some(time)).unwrap();
    time += minutes(2);

    store.log_state_transition(raid_id, "raid_active", Some(time)).unwrap();

    store
        .add_kill(raid_id, "scav", Some("AK-74M".to_string()), Some(false), Some(time + minutes(5)))
        .unwrap();
    store
        .add_kill(raid_id, "scav", Some("Mosin".to_string()), Some(true), Some(time + minutes(10)))
        .unwrap();
    store
        .add_kill(raid_id, "scav", Some("SKS".to_string()), Some(false), Some(time + minutes(15)))
        .unwrap();

    time += minutes(17);

    store.log_state_transition(raid_id, "raid_ending", Some(time)).unwrap();
    time += minutes(1);

    store.log_state_transition(raid_id, "post_raid_review", Some(time)).unwrap();
    time += minutes(2);

    store.log_state_transition(raid_id, "survived", Some(time)).unwrap();
    time += 30;

    store.end_raid(raid_id, Some(time), Some("Tunnel".to_string()));

    let states = calculate_time_in_state(&store, raid_id);

    assert_eq!(
        find_state(&states, "pre_raid_setup").expect("Should have pre_raid_setup state"),
        minutes(3)
    );
    assert_eq!(find_state(&states, "queuing").expect("Should have queuing state"), minutes(5));
    assert_eq!(
        find_state(&states, "deploying_committed").expect("Should have deploying_committed state"),
        minutes(2)
    );
    assert_eq!(
        find_state(&states, "raid_active").expect("Should have raid_active state"),
        minutes(17)
    );
    assert_eq!(
        find_state(&states, "raid_ending").expect("Should have raid_ending state"),
        minutes(1)
    );
    assert_eq!(
        find_state(&states, "post_raid_review").expect("Should have post_raid_review state"),
        minutes(2)
    );
    assert!(
        find_state(&states, "survived").is_none(),
        "Terminal states should not have durations"
    );
}

#[test]
fn test_calculate_session_stats() {
    let mut store = Store::new();
    let base_time: i64 = 1_700_000_000;

    let session_id = store.create_session(
        SessionType::Stream,
        Some("Stats Test".to_string()),
        Some(base_time),
    );

    // Raid 1: survived, 30 min, 2 kills.
    let start1 = base_time + minutes(10);
    let raid1 = store
        .create_raid(session_id, "Customs", CharacterType::PMC, GameMode::PVP, Some(start1))
        .unwrap();
    store.add_kill(raid1, "scav", None, None, Some(start1 + minutes(5))).unwrap();
    store.add_kill(raid1, "pmc", None, None, Some(start1 + minutes(10))).unwrap();
    store.log_state_transition(raid1, "survived", Some(start1 + minutes(30))).unwrap();
    store.end_raid(raid1, Some(start1 + minutes(30)), Some("Crossroads".to_string()));

    // Raid 2: died, 15 min, 1 kill.
    let start2 = base_time + minutes(60);
    let raid2 = store
        .create_raid(session_id, "Factory", CharacterType::PMC, GameMode::PVP, Some(start2))
        .unwrap();
    store.add_kill(raid2, "scav", None, None, Some(start2 + minutes(5))).unwrap();
    store.log_state_transition(raid2, "kia", Some(start2 + minutes(15))).unwrap();
    store.end_raid(raid2, Some(start2 + minutes(15)), None);

    let stats = calculate_session_stats(&store, session_id);

    assert_eq!(stats.total_raids, 2, "Should have 2 raids");
    assert_eq!(stats.survived_raids, 1, "Should have 1 survival");
    assert_eq!(as_f64(stats.survival_rate), 0.5, "50% survival rate");
    assert_eq!(stats.total_kills, 3, "Total kills should be 3");
    assert_eq!(as_f64(stats.kd_ratio), 3.0, "3 kills / 1 death = 3.0 K/D");

    // Average duration: (30 + 15) / 2 = 22.5 minutes.
    assert_eq!(as_f64(stats.avg_raid_duration), minutes(22) as f64 + 30.0);

    let global = calculate_global_stats(&store, None);
    assert_eq!(global.total_raids, 2);
    assert_eq!(as_f64(global.kd_ratio), 3.0);
}

#[test]
fn test_game_mode_filtering() {
    let mut store = Store::new();
    let base_time: i64 = 1_700_000_000;
    let session = store.create_session(SessionType::Stream, None, Some(base_time));

    // PVE raid with 2 kills, survived.
    let pve_raid = store
        .create_raid(session, "Customs", CharacterType::PMC, GameMode::PVE, Some(base_time))
        .unwrap();
    store.add_kill(pve_raid, "scav", None, None, Some(base_time + minutes(5))).unwrap();
    store.add_kill(pve_raid, "scav", None, None, Some(base_time + minutes(10))).unwrap();
    store.log_state_transition(pve_raid, "survived", Some(base_time + minutes(20))).unwrap();
    store.end_raid(pve_raid, Some(base_time + minutes(20)), None);

    // PVP raid with 1 kill, died.
    let pvp_raid = store
        .create_raid(
            session,
            "Factory",
            CharacterType::PMC,
            GameMode::PVP,
            Some(base_time + minutes(30)),
        )
        .unwrap();
    store.add_kill(pvp_raid, "pmc", None, None, Some(base_time + minutes(35))).unwrap();
    store.log_state_transition(pvp_raid, "died", Some(base_time + minutes(40))).unwrap();
    store.end_raid(pvp_raid, Some(base_time + minutes(40)), None);

    let pve_stats = calculate_global_stats(&store, Some(GameMode::PVE));
    assert_eq!(pve_stats.total_raids, 1);
    assert_eq!(pve_stats.total_kills, 2);
    assert_eq!(as_f64(pve_stats.survival_rate), 1.0, "100% survival in PVE");

    let pvp_stats = calculate_global_stats(&store, Some(GameMode::PVP));
    assert_eq!(pvp_stats.total_raids, 1);
    assert_eq!(pvp_stats.total_kills, 1);
    assert_eq!(as_f64(pvp_stats.survival_rate), 0.0, "0% survival in PVP");
}

#[test]
fn test_perfect_survival_kd() {
    let mut store = Store::new();
    let base_time: i64 = 1_700_000_000;
    let session = store.create_session(SessionType::Stream, None, Some(base_time));

    // Raid 1: survived with 3 kills.
    let raid1 = store
        .create_raid(session, "Customs", CharacterType::PMC, GameMode::PVE, Some(base_time))
        .unwrap();
    store.add_kill(raid1, "scav", None, None, Some(base_time + minutes(5))).unwrap();
    store.add_kill(raid1, "scav", None, None, Some(base_time + minutes(10))).unwrap();
    store.add_kill(raid1, "scav", None, None, Some(base_time + minutes(15))).unwrap();
    store.log_state_transition(raid1, "survived", Some(base_time + minutes(20))).unwrap();
    store.end_raid(raid1, Some(base_time + minutes(20)), None);

    // Raid 2: survived with 2 kills.
    let raid2 = store
        .create_raid(session, "Woods", CharacterType::PMC, GameMode::PVE, Some(base_time + minutes(30)))
        .unwrap();
    store.add_kill(raid2, "scav", None, None, Some(base_time + minutes(35))).unwrap();
    store.add_kill(raid2, "scav", None, None, Some(base_time + minutes(40))).unwrap();
    store.log_state_transition(raid2, "survived", Some(base_time + minutes(45))).unwrap();
    store.end_raid(raid2, Some(base_time + minutes(45)), None);

    let stats = calculate_session_stats(&store, session);

    assert_eq!(stats.total_raids, 2);
    assert_eq!(stats.survived_raids, 2);
    assert_eq!(as_f64(stats.survival_rate), 1.0, "100% survival");
    assert_eq!(stats.total_kills, 5);
    assert_eq!(
        as_f64(stats.kd_ratio),
        5.0,
        "Perfect survival: K/D should equal total kills"
    );
    assert_eq!(stats.kd_ratio.den, 1);
}

#[test]
fn test_session_comparison() {
    let mut store = Store::new();
    let base_time: i64 = 1_700_000_000;

    // Session 1: all-time baseline (1 raid, 1 kill, survived).
    let s1 = store.create_session(SessionType::Stream, None, Some(base_time));
    let r1 = store
        .create_raid(s1, "Customs", CharacterType::PMC, GameMode::PVP, Some(base_time))
        .unwrap();
    store.add_kill(r1, "scav", None, None, Some(base_time)).unwrap();
    store.log_state_transition(r1, "survived", Some(base_time + minutes(10))).unwrap();
    store.end_raid(r1, Some(base_time + minutes(10)), None);

    // Session 2: current session (1 raid, 5 kills, died).
    let s2 = store.create_session(SessionType::Stream, None, Some(base_time + minutes(60)));
    let r2 = store
        .create_raid(s2, "Factory", CharacterType::PMC, GameMode::PVP, Some(base_time + minutes(60)))
        .unwrap();
    for _ in 0..5 {
        store.add_kill(r2, "pmc", None, None, Some(base_time + minutes(60))).unwrap();
    }
    store
        .log_state_transition(r2, "died", Some(base_time + minutes(65)))
        .unwrap();
    store.end_raid(r2, Some(base_time + minutes(65)), None);

    let comparison = compare_session_to_mode_global(&store, s2, None);

    assert_eq!(comparison.current.total_kills, 5);
    assert_eq!(as_f64(comparison.current.survival_rate), 0.0);

    assert_eq!(comparison.all_time.total_raids, 2);
    assert_eq!(comparison.all_time.total_kills, 6);
    assert_eq!(as_f64(comparison.all_time.survival_rate), 0.5);

    let modes = get_mode_stats_for_session(&store, s2);
    assert_eq!(modes.pvp.total_kills, 5);
    assert_eq!(modes.pve.total_raids, 0);
}

#[test]
fn test_backwards_transition_queue_cancel() {
    let mut store = Store::new();
    let base_time: i64 = 1_700_000_000;

    let session_id = store.create_session(SessionType::Stream, None, Some(base_time));
    let raid_id = store
        .create_raid(session_id, "Customs", CharacterType::PMC, GameMode::PVP, Some(base_time))
        .unwrap();

    let mut time = base_time;

    store.log_state_transition(raid_id, "pre_raid_setup", Some(time)).unwrap();
    time += minutes(2);

    store.log_state_transition(raid_id, "queuing", Some(time)).unwrap();
    time += minutes(3);

    // Backwards: cancel the queue, return to stash management.
    store.log_state_transition(raid_id, "stash_management", Some(time)).unwrap();
    time += minutes(1);

    store.log_state_transition(raid_id, "pre_raid_setup", Some(time)).unwrap();
    time += minutes(1);

    store.log_state_transition(raid_id, "queuing", Some(time)).unwrap();
    time += minutes(2);

    store.log_state_transition(raid_id, "deploying_committed", Some(time)).unwrap();
    time += minutes(1);

    store.log_state_transition(raid_id, "raid_active", Some(time)).unwrap();
    time += minutes(20);

    store.log_state_transition(raid_id, "survived", Some(time)).unwrap();
    store.end_raid(raid_id, Some(time), None);

    let transitions = store.get_raid_transitions(raid_id);
    assert_eq!(transitions.len(), 8, "Should have 8 transitions including backwards one");

    let queue_to_stash = transitions
        .iter()
        .find(|t| t.from_state.as_deref() == Some("queuing") && t.to_state == "stash_management");
    assert!(queue_to_stash.is_some(), "Should have backwards transition from queuing to stash");

    let state_times = calculate_time_in_state(&store, raid_id);

    // pre_raid_setup visited twice: 2 min + 1 min.
    assert_eq!(
        find_state(&state_times, "pre_raid_setup").expect("Should have pre_raid_setup"),
        minutes(3),
        "Should accumulate time from both visits to pre_raid_setup"
    );

    // queuing visited twice: 3 min + 2 min.
    assert_eq!(
        find_state(&state_times, "queuing").expect("Should have queuing"),
        minutes(5),
        "Should accumulate time from both visits to queuing"
    );

    // stash_management visited once via the backwards transition: 1 min.
    assert_eq!(
        find_state(&state_times, "stash_management").expect("Should have stash_management"),
        minutes(1),
        "Should track time in stash after queue cancel"
    );
}

#[test]
fn test_reconnect_during_raid() {
    let mut store = Store::new();
    let base_time: i64 = 1_700_000_000;

    let session_id = store.create_session(SessionType::Stream, None, Some(base_time));
    let raid_id = store
        .create_raid(session_id, "Woods", CharacterType::PMC, GameMode::PVE, Some(base_time))
        .unwrap();

    let mut time = base_time;

    store.log_state_transition(raid_id, "pre_raid_setup", Some(time)).unwrap();
    time += minutes(2);

    store.log_state_transition(raid_id, "queuing", Some(time)).unwrap();
    time += minutes(4);

    store.log_state_transition(raid_id, "deploying_committed", Some(time)).unwrap();
    time += minutes(2);

    store.log_state_transition(raid_id, "raid_active", Some(time)).unwrap();
    time += minutes(10);

    store.add_kill(raid_id, "scav", Some("AK-74".to_string()), Some(false), Some(time)).unwrap();
    time += minutes(3);
    store.add_kill(raid_id, "pmc", Some("M4A1".to_string()), Some(true), Some(time)).unwrap();
    time += minutes(2);

    // Disconnect, reconnect five minutes later.
    store.log_state_transition(raid_id, "disconnected", Some(time)).unwrap();
    time += minutes(5);

    store.log_state_transition(raid_id, "raid_active", Some(time)).unwrap();
    time += minutes(8);

    store.add_kill(raid_id, "scav", Some("SKS".to_string()), Some(false), Some(time)).unwrap();
    time += minutes(2);

    store.log_state_transition(raid_id, "raid_ending", Some(time)).unwrap();
    time += minutes(1);

    store.log_state_transition(raid_id, "survived", Some(time)).unwrap();
    store.end_raid(raid_id, Some(time), Some("Bridge".to_string()));

    let transitions = store.get_raid_transitions(raid_id);
    assert_eq!(transitions.len(), 8, "Should have 8 transitions including disconnect/reconnect");

    let disconnect = transitions.iter().find(|t| t.to_state == "disconnected");
    assert!(disconnect.is_some(), "Should have disconnected state");

    let raid_active_count = transitions.iter().filter(|t| t.to_state == "raid_active").count();
    assert_eq!(raid_active_count, 2, "Should have 2 transitions to raid_active (initial + reconnect)");

    let state_times = calculate_time_in_state(&store, raid_id);

    // raid_active visited twice: 15 min before the disconnect + 10 min after.
    assert_eq!(
        find_state(&state_times, "raid_active").expect("Should have raid_active"),
        minutes(25),
        "Should accumulate time in raid_active from both sessions"
    );

    assert_eq!(
        find_state(&state_times, "disconnected").expect("Should have disconnected state"),
        minutes(5),
        "Should track disconnection time"
    );

    let kills = store.get_kills_for_raid(raid_id);
    assert_eq!(kills.len(), 3, "Should have 3 kills across disconnect");
}

#[test]
fn test_zero_raids_stats() {
    let store = Store::new();
    let stats = calculate_session_stats(&store, 1);
    assert_eq!(stats.total_raids, 0);
    assert_eq!(stats.survived_raids, 0);
    assert_eq!(as_f64(stats.survival_rate), 0.0);
    assert_eq!(stats.survival_rate.den, 1);
    assert_eq!(stats.total_kills, 0);
    assert_eq!(as_f64(stats.kd_ratio), 0.0);
    assert_eq!(as_f64(stats.avg_raid_duration), 0.0);
    assert_eq!(stats.avg_raid_duration.den, 1);

    let global = calculate_global_stats(&store, None);
    assert_eq!(global.total_raids, 0);
    assert_eq!(as_f64(global.survival_rate), 0.0);
}

#[test]
fn test_open_raids_excluded_from_average_duration() {
    let mut store = Store::new();
    let base_time: i64 = 1_700_000_000;
    let session = store.create_session(SessionType::Stream, None, Some(base_time));

    // One ended raid of 10 minutes, one still open.
    let r1 = store
        .create_raid(session, "Customs", CharacterType::PMC, GameMode::PVE, Some(base_time))
        .unwrap();
    store.log_state_transition(r1, "survived", Some(base_time + minutes(10))).unwrap();
    store.end_raid(r1, Some(base_time + minutes(10)), None);
    store
        .create_raid(session, "Woods", CharacterType::PMC, GameMode::PVE, Some(base_time + minutes(20)))
        .unwrap();

    let stats = calculate_session_stats(&store, session);
    assert_eq!(stats.total_raids, 2);
    assert_eq!(as_f64(stats.avg_raid_duration), minutes(10) as f64);
    assert_eq!(stats.avg_raid_duration.den, 1);
}

#[test]
fn test_time_in_state_short_histories() {
    let mut store = Store::new();
    let session = store.create_session(SessionType::Stream, None, Some(1000));
    let raid = store
        .create_raid(session, "Customs", CharacterType::PMC, GameMode::PVE, Some(1000))
        .unwrap();

    // No transitions at all: empty mapping.
    assert!(calculate_time_in_state(&store, raid).is_empty());

    // A single transition: still empty.
    store.log_state_transition(raid, "queuing", Some(1100)).unwrap();
    assert!(calculate_time_in_state(&store, raid).is_empty());
}

#[test]
fn test_time_in_state_equal_timestamps() {
    let mut store = Store::new();
    let session = store.create_session(SessionType::Stream, None, Some(1000));
    let raid = store
        .create_raid(session, "Factory", CharacterType::Scav, GameMode::PVP, Some(1000))
        .unwrap();

    store.log_state_transition(raid, "queuing", Some(2000)).unwrap();
    store.log_state_transition(raid, "raid_active", Some(2000)).unwrap();
    store.log_state_transition(raid, "survived", Some(2500)).unwrap();

    let states = calculate_time_in_state(&store, raid);
    assert_eq!(find_state(&states, "queuing"), Some(0));
    assert_eq!(find_state(&states, "raid_active"), Some(500));
    assert!(find_state(&states, "survived").is_none());
}

#[test]
fn test_time_in_state_durations_sum_to_span() {
    let mut store = Store::new();
    let session = store.create_session(SessionType::Stream, None, Some(0));
    let raid = store
        .create_raid(session, "Shoreline", CharacterType::PMC, GameMode::PVE, Some(0))
        .unwrap();

    store.log_state_transition(raid, "queuing", Some(100)).unwrap();
    store.log_state_transition(raid, "raid_active", Some(350)).unwrap();
    store.log_state_transition(raid, "queuing", Some(400)).unwrap();
    store.log_state_transition(raid, "survived", Some(1000)).unwrap();

    let states = calculate_time_in_state(&store, raid);
    let total: i64 = states.iter().map(|s| s.duration).sum();
    assert_eq!(total, 900, "durations sum to last minus first timestamp");
    assert_eq!(find_state(&states, "queuing"), Some(250 + 600));
}
