use medguard::alerts::AlertLog;
use medguard::config::default_chunk_size;
use medguard::config::Config;
use medguard::defense::choose_defense_action;
use medguard::defense::DefenseAction;
use medguard::defense::DefenseEngine;
use medguard::defense::IncrementalBackupEngine;
use medguard::defense::IsolatedWriteManager;
use medguard::defense::IsolationError;
use medguard::detector::FileEventType;
use medguard::detector::ThreatAlert;
use medguard::manifest::latest_manifest;
use medguard::monitor::event_passes_filter;
use medguard::monitor::FileSystemMonitor;
use medguard::monitor::RateWindow;
use medguard::strutil::extension;
use medguard::strutil::parse_u64;
use medguard::strutil::parse_version;
use medguard::strutil::u64_to_string;

#[test]
fn config_defaults_match_the_documented_values() {
    let cfg = Config::default();
    assert_eq!(cfg.monitoring.watch_paths, vec![String::from("./test_medical_data")]);
    assert_eq!(cfg.monitoring.file_extensions.len(), 5);
    assert_eq!(cfg.monitoring.event_buffer_size, 10000);
    assert_eq!(cfg.detection.entropy_threshold_millibits, 7500);
    assert_eq!(cfg.detection.rapid_change_threshold, 50);
    assert_eq!(
        cfg.detection.suspicious_extensions,
        vec![
            String::from(".locked"),
            String::from(".encrypted"),
            String::from(".crypto"),
            String::from(".crypt"),
            String::from(".enc"),
        ]
    );
    assert_eq!(cfg.detection.time_window_seconds, 60);
    assert_eq!(cfg.backup.retention_versions, 100);
    assert_eq!(cfg.backup.retention_batch, 10);
    assert_eq!(cfg.backup.block_size, 4096);
    assert!(cfg.backup.compression_enabled);
    assert_eq!(cfg.backup.storage_path, "./backups");
    assert_eq!(cfg.encryption.algorithm, "AES-256-GCM");
    assert_eq!(cfg.encryption.key_derivation, "Argon2id");
    assert!(cfg.alerts.webhook_url.is_none());
    assert_eq!(default_chunk_size(), 1_048_576);
    let _ = FileEventType::Created;
}

#[test]
fn decimal_rendering_and_parsing() {
    assert_eq!(u64_to_string(0), "0");
    assert_eq!(u64_to_string(7), "7");
    assert_eq!(u64_to_string(1234567890), "1234567890");
    assert_eq!(u64_to_string(u64::MAX), "18446744073709551615");

    assert_eq!(parse_u64("0"), Some(0));
    assert_eq!(parse_u64("1234567890"), Some(1234567890));
    assert_eq!(parse_u64("18446744073709551615"), Some(u64::MAX));
    assert_eq!(parse_u64("18446744073709551616"), None);
    assert_eq!(parse_u64(""), None);
    assert_eq!(parse_u64("12a"), None);
    assert_eq!(parse_u64("-3"), None);
}

#[test]
fn parse_version_reads_the_flag_value() {
    let args: Vec<String> = ["prog", "restore", "file.dcm", "--version", "5"]
        .iter()
        .map(|s| String::from(*s))
        .collect();
    assert_eq!(parse_version(&args), Some(5));

    let dangling: Vec<String> =
        ["prog", "--version"].iter().map(|s| String::from(*s)).collect();
    assert_eq!(parse_version(&dangling), None);

    let garbage: Vec<String> =
        ["prog", "--version", "five"].iter().map(|s| String::from(*s)).collect();
    assert_eq!(parse_version(&garbage), None);

    let absent: Vec<String> = ["prog", "restore"].iter().map(|s| String::from(*s)).collect();
    assert_eq!(parse_version(&absent), None);
}

#[test]
fn extension_follows_file_name_rules() {
    assert_eq!(extension("a/b/c.txt"), Some(String::from("txt")));
    assert_eq!(extension("archive.tar.gz"), Some(String::from("gz")));
    assert_eq!(extension("noext"), None);
    assert_eq!(extension("dir.d/noext"), None);
    assert_eq!(extension(".hidden"), None);
    assert_eq!(extension("trailing."), Some(String::from("")));
}

#[test]
fn event_filter_honours_the_allow_list() {
    let exts = vec![String::from(".dcm"), String::from(".hl7")];
    assert!(event_passes_filter(&String::from("ward/a.dcm"), &exts));
    assert!(!event_passes_filter(&String::from("ward/a.txt"), &exts));
    assert!(!event_passes_filter(&String::from("ward/noext"), &exts));
    // An empty list lets everything with an extension through.
    assert!(event_passes_filter(&String::from("ward/a.txt"), &Vec::new()));
    assert!(!event_passes_filter(&String::from("ward/noext"), &Vec::new()));
}

#[test]
fn observe_file_reports_created_then_modified_then_nothing() {
    let mut monitor = FileSystemMonitor::new(vec![String::from("ward")]);
    let path = String::from("ward/a.dcm");
    let h1 = String::from("digest-one");
    let h2 = String::from("digest-two");

    let created = monitor.observe_file(&path, 10, 100, &h1, 10).unwrap();
    assert_eq!(created.event_type, "created");
    assert_eq!(created.path, path);
    assert_eq!(created.file_size, 100);
    assert_eq!(created.file_hash, Some(h1.clone()));

    let unchanged = monitor.observe_file(&path, 11, 100, &h1, 11);
    assert!(unchanged.is_none());

    let modified = monitor.observe_file(&path, 12, 120, &h2, 12).unwrap();
    assert_eq!(modified.event_type, "modified");
    assert_eq!(monitor.files_tracked(), 1);
}

#[test]
fn rate_window_prunes_old_instants() {
    let mut w = RateWindow::new();
    w.push(1000);
    w.push(1500);
    w.push(2600);
    w.prune(2600);
    // 1000 + 1000 < 2600 evicts the first; 1500 + 1000 < 2600 evicts the
    // second; 2600 stays.
    assert_eq!(w.len(), 1);
}

#[test]
fn redirect_write_requires_isolation_and_builds_the_clean_log_path() {
    let mut m = IsolatedWriteManager::new(String::from("/protected"), String::from("/clean"));
    let path = String::from("/protected/sub/file.txt");
    let refused = m.redirect_write(&path, 9, 1700);
    assert!(matches!(refused, Err(IsolationError::NotActive)));

    m.activate_isolation();
    assert!(m.is_active());
    let op = m.redirect_write(&path, 9, 1700).unwrap();
    assert_eq!(op.original_path, path);
    assert_eq!(op.redirected_path, "/clean/1700_sub/file.txt");
    assert_eq!(op.data_size, 9);
    assert_eq!(op.timestamp, 1700);
    assert_eq!(m.get_write_log().len(), 1);

    // A path outside the protected directory keeps its full name.
    let outside = String::from("/elsewhere/x");
    let op2 = m.redirect_write(&outside, 1, 1701).unwrap();
    assert_eq!(op2.redirected_path, "/clean/1701_/elsewhere/x");

    m.deactivate_isolation();
    assert!(!m.is_active());
    assert_eq!(m.get_write_log().len(), 2);
}

#[test]
fn mirror_engine_selects_modified_files() {
    let mut engine =
        IncrementalBackupEngine::new(String::from("/src"), String::from("/backups"));
    let listing = vec![
        (String::from("/src/a"), 100u64),
        (String::from("/src/b"), 200u64),
        (String::from("/src/c"), 300u64),
    ];
    // Before any run, everything qualifies.
    let all = engine.select_files(&listing);
    assert_eq!(all.len(), 3);

    engine.mark_backup_complete(200);
    let changed = engine.select_files(&listing);
    assert_eq!(changed, vec![String::from("/src/c")]);

    assert_eq!(engine.backup_dir_name(1700, false), "/backups/backup_1700");
    assert_eq!(engine.backup_dir_name(1700, true), "/backups/emergency_backup_1700");
}

#[test]
fn defense_actions_follow_the_score_thresholds() {
    assert_eq!(choose_defense_action(701), DefenseAction::EmergencyBackupAndIsolation);
    assert_eq!(choose_defense_action(1000), DefenseAction::EmergencyBackupAndIsolation);
    assert_eq!(choose_defense_action(700), DefenseAction::IncrementalBackup);
    assert_eq!(choose_defense_action(401), DefenseAction::IncrementalBackup);
    assert_eq!(choose_defense_action(400), DefenseAction::Monitoring);
    assert_eq!(choose_defense_action(0), DefenseAction::Monitoring);
}

#[test]
fn defense_engine_replays_the_write_log_on_recovery() {
    let mut engine = DefenseEngine::new(
        vec![String::from("/src")],
        String::from("/src"),
        String::from("/backups"),
        String::from("/clean"),
    );
    engine.write_manager.activate_isolation();
    engine
        .write_manager
        .redirect_write(&String::from("/src/report.txt"), 4, 99)
        .unwrap();
    let log = engine.restore_normal_operations();
    assert!(!engine.write_manager.is_active());
    assert_eq!(log.len(), 1);
    assert_eq!(log[0].original_path, "/src/report.txt");
    assert_eq!(log[0].redirected_path, "/clean/99_report.txt");
}

#[test]
fn alert_log_trims_the_oldest_batch_past_the_cap() {
    let mut log = AlertLog::new(3, 2);
    for i in 0..4u32 {
        log.push(ThreatAlert {
            timestamp: i as u64,
            score: 70 + i,
            description: format!("alert {}", i),
            file_path: format!("f{}", i),
            threat_type: String::from("Ransomware"),
        });
    }
    // The fourth push exceeded the cap of 3, so the two oldest left.
    assert_eq!(log.len(), 2);
    let recent = log.recent(10);
    assert_eq!(recent.len(), 2);
    assert_eq!(recent[0].timestamp, 3);
    assert_eq!(recent[1].timestamp, 2);
    let one = log.recent(1);
    assert_eq!(one.len(), 1);
    assert_eq!(one[0].timestamp, 3);
}

#[test]
fn latest_manifest_picks_the_newest_name() {
    let names = vec![
        String::from("20240101T000000.json"),
        String::from("20240301T120000.json"),
        String::from("20240102T000000.json"),
    ];
    assert_eq!(latest_manifest(&names), Some(String::from("20240301T120000.json")));
    assert_eq!(latest_manifest(&Vec::new()), None);
}
