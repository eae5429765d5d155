use intercom_sync::backup::{backup_file_name, backups_to_remove, is_backup_name};
use intercom_sync::intercom::Intercom;
use intercom_sync::render::render_pjsip_conf;
use intercom_sync::sync::{should_apply, sync_finished, sync_step, sync_succeeded, StepResult, SyncPhase};
use StepResult::{Failed, NoChange, Succeeded};

#[test]
fn backup_names() {
    assert_eq!(backup_file_name(1700000000), "pjsip.conf.1700000000.bak");
    assert!(is_backup_name(&backup_file_name(5)));
    assert!(is_backup_name("pjsip.conf.last-good"));
    assert!(!is_backup_name("pjsip.conf"));
    assert!(!is_backup_name("other.conf.1.bak"));
}

#[test]
fn retention_removes_oldest_beyond_keep() {
    let mut names: Vec<String> = (0..22u64).rev().map(|i| backup_file_name(1000 + i)).collect();
    names.push("unrelated.txt".to_string());
    let removed = backups_to_remove(&names, 20);
    assert_eq!(removed, vec![backup_file_name(1000), backup_file_name(1001)]);
}

#[test]
fn retention_keeps_all_when_few() {
    let names = vec![backup_file_name(3), backup_file_name(1), "x".to_string()];
    assert!(backups_to_remove(&names, 20).is_empty());
    assert_eq!(backups_to_remove(&names, 0), vec![backup_file_name(1), backup_file_name(3)]);
}

#[test]
fn retention_orders_by_name() {
    let names = vec![backup_file_name(1000), backup_file_name(900), backup_file_name(99999)];
    assert_eq!(backups_to_remove(&names, 1), vec![backup_file_name(1000), backup_file_name(900)]);
}

#[test]
fn retention_removes_oldest_ten_digit_backups() {
    let names = vec![
        backup_file_name(1700000300),
        backup_file_name(1700000100),
        backup_file_name(1700000200),
    ];
    assert_eq!(backups_to_remove(&names, 2), vec![backup_file_name(1700000100)]);
}

#[test]
fn retention_keeps_names_that_sort_last() {
    let names = vec![backup_file_name(1), "pjsip.conf.old".to_string()];
    assert_eq!(backups_to_remove(&names, 1), vec![backup_file_name(1)]);
    let names = vec![
        "pjsip.conf.last-good".to_string(),
        backup_file_name(1700000000),
        backup_file_name(1700000001),
    ];
    assert_eq!(backups_to_remove(&names, 2), vec![backup_file_name(1700000000)]);
}

#[test]
fn should_apply_decisions() {
    assert!(should_apply(None, "anything"));
    assert!(!should_apply(Some("same content"), "same content"));
    assert!(should_apply(Some("old content"), "new content"));
}

#[test]
fn should_apply_ignores_generation_stamp() {
    let list = vec![Intercom::new("1".to_string(), "001122334455".to_string())];
    let first = render_pjsip_conf(&list, 100);
    let second = render_pjsip_conf(&list, 200);
    assert_ne!(first, second);
    assert!(!should_apply(Some(&first), &second));
    let other = render_pjsip_conf(&Vec::new(), 200);
    assert!(should_apply(Some(&first), &other));
    assert!(should_apply(Some("; Generated by intercom-sync-agent at unix=1\nA"), "; Generated by intercom-sync-agent at unix=1\nB"));
    assert!(!should_apply(Some("; Generated by intercom-sync-agent at unix=1\nA"), "; Generated by intercom-sync-agent at unix=2\nA"));
}

fn run(results: &[StepResult]) -> SyncPhase {
    let mut phase = SyncPhase::Fetching;
    for r in results {
        assert!(!sync_finished(phase));
        phase = sync_step(phase, *r);
    }
    phase
}

#[test]
fn sync_run_paths() {
    assert_eq!(run(&[Failed]), SyncPhase::Failed);
    assert_eq!(run(&[Succeeded, NoChange]), SyncPhase::Unchanged);
    assert_eq!(run(&[Succeeded, Failed]), SyncPhase::Failed);
    assert_eq!(run(&[Succeeded, Succeeded, Failed]), SyncPhase::Failed);
    assert_eq!(run(&[Succeeded, Succeeded, Succeeded, Succeeded]), SyncPhase::Applied);
    assert_eq!(run(&[Succeeded, Succeeded, Succeeded, Failed]), SyncPhase::ReloadingModule);
    assert_eq!(run(&[Succeeded, Succeeded, Succeeded, Failed, Succeeded]), SyncPhase::Applied);
    assert_eq!(run(&[Succeeded, Succeeded, Succeeded, Failed, Failed, Succeeded, Succeeded]), SyncPhase::Applied);
    assert_eq!(run(&[Succeeded, Succeeded, Succeeded, Failed, Failed, Failed]), SyncPhase::Failed);
    assert_eq!(run(&[Succeeded, Succeeded, Succeeded, Failed, Failed, Succeeded, Failed]), SyncPhase::Failed);
    assert!(sync_succeeded(SyncPhase::Applied));
    assert!(sync_succeeded(SyncPhase::Unchanged));
    assert!(!sync_succeeded(SyncPhase::Failed));
    assert_eq!(sync_step(SyncPhase::Applied, Failed), SyncPhase::Applied);
}
