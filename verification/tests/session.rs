use reel::session::{
    cleanup_rule, is_stale, is_valid_session_name, owner_changed, session_file_name,
    start_time_from_stat, CleanupRule,
};

#[test]
fn session_name_validation() {
    assert!(is_valid_session_name("work"));
    assert!(is_valid_session_name("ci-run_42.x"));
    assert!(!is_valid_session_name(""));
    assert!(!is_valid_session_name("has space"));
    assert!(!is_valid_session_name("../escape"));
    assert!(!is_valid_session_name(&"x".repeat(65)));
}

#[test]
fn session_name_limits() {
    assert!(is_valid_session_name(&"x".repeat(64)));
    assert!(!is_valid_session_name("naïve"));
}

#[test]
fn session_file_names() {
    assert_eq!(session_file_name(Some("deploy"), 42), "named-deploy.json");
    assert_eq!(session_file_name(None, 4242), "4242.json");
}

#[test]
fn owner_stamp_mismatch_starts_fresh() {
    assert!(owner_changed(Some(1), Some(2)));
    assert!(!owner_changed(Some(1), Some(1)));
    assert!(!owner_changed(None, Some(2)));
    assert!(!owner_changed(Some(1), None));
}

#[test]
fn start_time_read_after_last_parenthesis() {
    let stat = "1234 (we ird) name) S 1 2 3 4 5 6 7 8 9 10 11 12 13 14 15 16 17 18 987654 20 21";
    assert_eq!(start_time_from_stat(stat), Some(987654));
    assert_eq!(start_time_from_stat("1234 (x) S 1 2"), None);
    assert_eq!(start_time_from_stat("no parenthesis"), None);
}

#[test]
fn cleanup_rules() {
    assert_eq!(cleanup_rule(Some("json"), Some("1234")), CleanupRule::CheckProcess(1234));
    assert_eq!(cleanup_rule(Some("json"), Some("0")), CleanupRule::CheckAge);
    assert_eq!(cleanup_rule(Some("json"), Some("named-ci")), CleanupRule::CheckAge);
    assert_eq!(cleanup_rule(Some("tmp"), Some("1234.55")), CleanupRule::CheckAge);
    assert_eq!(cleanup_rule(Some("txt"), Some("notes")), CleanupRule::Keep);
    assert_eq!(cleanup_rule(None, Some("README")), CleanupRule::Keep);
}

#[test]
fn live_process_keeps_its_session_whatever_its_age() {
    let rule = CleanupRule::CheckProcess(77);
    assert!(!is_stale(rule, Some(true), true));
    assert!(is_stale(rule, Some(false), false));
    assert!(is_stale(rule, None, true));
    assert!(!is_stale(CleanupRule::Keep, Some(false), true));
    assert!(is_stale(CleanupRule::CheckAge, None, true));
}
