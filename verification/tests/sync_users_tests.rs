use tollgrid::sync::{get_path, merge, set_data};
use tollgrid::{Status, SyncData, User};

fn rec(local: u64, server: u64, status: Status, dirty: bool) -> SyncData {
    SyncData { local_update_time: local, server_update_time: server, status, dirty }
}

#[test]
fn sync_data_default_is_clean_and_new() {
    let d = SyncData::default();
    assert_eq!(d, rec(0, 0, Status::New, false));
}

#[test]
fn sync_data_copy_keeps_dirty_flag() {
    let mut a = rec(1, 2, Status::New, true);
    let b = rec(10, 20, Status::Finished, false);
    a.copy(&b);
    assert_eq!(a, rec(10, 20, Status::Finished, true));
}

#[test]
fn sync_data_update_time_stamps_both_times() {
    let mut a = rec(1, 2, Status::Later, true);
    a.update_time(99);
    assert_eq!(a, rec(99, 99, Status::Later, true));
}

#[test]
fn merge_dirty_record_on_unchanged_server_is_restamped() {
    let existing = vec![("id".to_string(), rec(5, 7, Status::New, false))];
    let mut incoming = vec![("id".to_string(), rec(6, 7, Status::Later, true))];
    merge(&existing, &mut incoming, 100);
    assert_eq!(incoming[0].1, rec(100, 100, Status::Later, false));
}

#[test]
fn merge_dirty_record_against_higher_server_status_takes_server() {
    let existing = vec![("id".to_string(), rec(50, 60, Status::Finished, false))];
    let mut incoming = vec![("id".to_string(), rec(6, 7, Status::Later, true))];
    merge(&existing, &mut incoming, 100);
    assert_eq!(incoming[0].1, rec(50, 60, Status::Finished, false));
}

#[test]
fn merge_dirty_record_with_higher_status_wins_over_server() {
    let existing = vec![("id".to_string(), rec(50, 60, Status::Later, false))];
    let mut incoming = vec![("id".to_string(), rec(6, 7, Status::Treated, true))];
    merge(&existing, &mut incoming, 100);
    assert_eq!(incoming[0].1, rec(100, 100, Status::Treated, false));
}

#[test]
fn merge_clean_record_follows_changed_server() {
    let existing = vec![("id".to_string(), rec(50, 60, Status::Ignored, false))];
    let mut incoming = vec![("id".to_string(), rec(6, 7, Status::New, false))];
    merge(&existing, &mut incoming, 100);
    assert_eq!(incoming[0].1, rec(50, 60, Status::Ignored, false));
}

#[test]
fn merge_clean_record_on_unchanged_server_is_kept() {
    let existing = vec![("id".to_string(), rec(50, 7, Status::New, false))];
    let mut incoming = vec![("id".to_string(), rec(6, 7, Status::Later, false))];
    merge(&existing, &mut incoming, 100);
    assert_eq!(incoming[0].1, rec(6, 7, Status::Later, false));
}

#[test]
fn merge_clears_dirty_on_unmatched_records() {
    let existing: Vec<(String, SyncData)> = Vec::new();
    let mut incoming = vec![("lone".to_string(), rec(6, 7, Status::New, true))];
    merge(&existing, &mut incoming, 100);
    assert_eq!(incoming[0].1, rec(6, 7, Status::New, false));
}

#[test]
fn set_data_returns_merged_list() {
    let existing = vec![("id".to_string(), rec(50, 60, Status::Finished, false))];
    let incoming = vec![
        ("id".to_string(), rec(6, 7, Status::Later, true)),
        ("other".to_string(), rec(1, 2, Status::New, true)),
    ];
    let merged = set_data(&existing, incoming, 100);
    assert_eq!(merged.len(), 2);
    assert_eq!(merged[0].0, "id");
    assert_eq!(merged[0].1, rec(50, 60, Status::Finished, false));
    assert_eq!(merged[1].0, "other");
    assert_eq!(merged[1].1, rec(1, 2, Status::New, false));
}

#[test]
fn get_path_formats_team_and_service() {
    assert_eq!(get_path("blue", "roadwork"), "data/blue/roadwork.json");
}

#[test]
fn user_is_valid_checks_bcrypt_hash() {
    let hash = bcrypt::hash("right horse battery", 4).unwrap();
    let user = User {
        username: "u".to_string(),
        password_hash: hash,
        teams: vec!["team".to_string()],
        admin: false,
    };
    assert!(user.is_valid("right horse battery"));
    assert!(!user.is_valid("wrong horse battery"));
}

#[test]
fn user_with_malformed_hash_rejects_everything() {
    let user = User {
        username: "u".to_string(),
        password_hash: "not a bcrypt hash".to_string(),
        teams: Vec::new(),
        admin: false,
    };
    assert!(!user.is_valid("anything"));
}
