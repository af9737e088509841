use hyveos::stack::{LogFilter, ReportRoundTrip, ScriptManagementConfig, SubscriptionIds};

#[test]
fn defaults() {
    assert_eq!(LogFilter::default(), LogFilter::Info);
    assert_eq!(ScriptManagementConfig::default(), ScriptManagementConfig::Deny);
}

#[test]
fn round_trip_report_keeps_its_nonce() {
    let r = ReportRoundTrip::new(77);
    assert_eq!(r.get_nonce(), 77);
    assert_eq!(r.clone(), ReportRoundTrip::new(77));
    assert_ne!(r, ReportRoundTrip::new(78));
}

#[test]
fn subscription_ids_count_up() {
    let mut ids = SubscriptionIds::new();
    let a = ids.allocate();
    let b = ids.allocate();
    assert_eq!(SubscriptionIds::number(&a), 0);
    assert_eq!(SubscriptionIds::number(&b), 1);
    assert_ne!(a, b);
}

use hyveos::stack::{cleanup_action, count_removed, CleanupAction, EntryKind};

#[test]
fn clean_start_removes_files_and_ulid_directories() {
    assert_eq!(cleanup_action(EntryKind::File, "anything"), CleanupAction::RemoveFile);
    assert_eq!(cleanup_action(EntryKind::Directory, "01ARZ3NDEKTSV4RRFFQ69G5FAV"), CleanupAction::RemoveDirectory);
    assert_eq!(cleanup_action(EntryKind::Directory, "keep-me"), CleanupAction::Keep);
    assert_eq!(cleanup_action(EntryKind::Other, "01ARZ3NDEKTSV4RRFFQ69G5FAV"), CleanupAction::Keep);
    let actions = vec![CleanupAction::RemoveFile, CleanupAction::Keep, CleanupAction::RemoveDirectory];
    assert_eq!(count_removed(&actions), 2);
}

#[test]
fn only_allow_lets_scripts_manage_scripts() {
    assert!(hyveos::stack::ScriptManagementConfig::Allow.allows_management());
    assert!(!hyveos::stack::ScriptManagementConfig::Deny.allows_management());
    assert!(!hyveos::stack::ScriptManagementConfig::default().allows_management());
}
