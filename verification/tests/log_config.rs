use arena_next::log_config::{
    arena_next_backup_timestamp, enable_file_logging, latest_arena_next_backup, new_backup_name,
    preview_file_logging, restore_from_backup, status_from_source, temporary_name, unified_diff,
    with_required_sections, DirectoryEntry, RestoreError, RestoreFiles, LOG_FILE_SIZE_KB,
};

fn entry(name: &str) -> DirectoryEntry {
    DirectoryEntry { name: name.to_owned(), regular: true }
}

#[test]
fn missing_sections_are_reported_and_enabled() {
    let path = "log.config";
    let source = "[Power]\nLogLevel=1\nFilePrinting=true\nVerbose=1\n";
    let before = status_from_source(path, true, source);
    assert!(before.change_required);
    assert!(!before.configuration_changed);
    assert!(!before.hearthstone_restart_required);

    let after = enable_file_logging(path, true, source);
    let written = after.updated.expect("the configuration changes");
    assert!(!after.status.change_required);
    assert!(after.status.configuration_changed);
    assert!(after.status.hearthstone_restart_required);
    assert!(after.status.components.iter().all(|component| component.enabled));

    let unchanged = enable_file_logging(path, true, &written);
    assert!(unchanged.updated.is_none());
    assert!(!unchanged.status.configuration_changed);
    assert!(!unchanged.status.hearthstone_restart_required);
    let backup = new_backup_name(path, 7, 100);
    assert_eq!(
        latest_arena_next_backup(path, &vec![entry(path), entry(&backup)]),
        Some(1)
    );
}

#[test]
fn repairs_values_in_place_without_duplicate_sections() {
    let source = "[Arena]\r\n  LogLevel = 0 ; keep this comment\r\nFilePrinting=false # and this one\r\n[Custom]\r\nKeep=true\r\n";
    let updated = with_required_sections(source);
    assert_eq!(updated.matches("[Arena]").count(), 1);
    assert!(updated.contains(
        "[Arena]\r\n  LogLevel=1 ; keep this comment\r\nFilePrinting=true # and this one"
    ));
    assert!(updated.contains("[Custom]\r\nKeep=true"));
    assert!(status_from_source("fixture.config", true, &updated)
        .components
        .iter()
        .all(|status| status.enabled));
}

#[test]
fn preview_is_read_only_and_shows_the_proposed_patch() {
    let original = "[Power]\nLogLevel=0\nFilePrinting=false\nVerbose=0\n";

    let preview = preview_file_logging("log.config", true, original);

    assert!(preview.would_change);
    assert!(preview.current.change_required);
    assert!(!preview.proposed.change_required);
    assert!(preview.unified_diff.contains("-LogLevel=0"));
    assert!(preview.unified_diff.contains("+LogLevel=1"));
    assert!(latest_arena_next_backup("log.config", &vec![entry("log.config")]).is_none());
}

#[test]
fn latest_restore_only_uses_matching_app_backups_and_preserves_current_config() {
    let filename = "log.config";
    let current = "[Custom]\nCurrent=true\n";
    let restored_contents = "[Power]\nLogLevel=1\nFilePrinting=true\nVerbose=1\n";

    let older = format!("{filename}.arena-next-backup-7-100");
    let newest = format!("{filename}.arena-next-backup-7-200");
    let unrelated = "other.config.arena-next-backup-7-999".to_owned();
    let malformed = format!("{filename}.arena-next-backup-nope-999");
    let entries = vec![
        entry(filename),
        entry(&older),
        entry(&newest),
        entry(&unrelated),
        entry(&malformed),
    ];

    assert_eq!(latest_arena_next_backup(filename, &entries), Some(2));
    let files = |backup: &str| RestoreFiles {
        config_name: Some(filename.to_owned()),
        backup_name: Some(backup.to_owned()),
        config_is_regular: true,
        backup_is_regular: true,
        same_directory: true,
    };
    let restore = |backup: &str| {
        restore_from_backup(
            filename,
            backup,
            &files(backup),
            current,
            restored_contents,
            new_backup_name(filename, 7, 300),
        )
    };
    assert!(restore(&malformed).is_err());
    assert!(restore(&unrelated).is_err());

    let outcome = match restore(&newest) {
        Ok(outcome) => outcome,
        Err(error) => panic!("{}", error.message(filename, &newest)),
    };
    assert!(outcome.configuration_changed);
    assert!(outcome.hearthstone_restart_required);
    assert_eq!(outcome.restored_from, newest);
    assert_eq!(
        outcome.preserved_current_backup,
        Some("log.config.arena-next-backup-7-300".to_owned())
    );
}

#[test]
fn required_sections_raise_the_file_size_cap() {
    let updated = with_required_sections("");
    let status = status_from_source("fixture.config", true, &updated);
    for component in &status.components {
        assert_eq!(
            component.file_size_kb,
            Some(LOG_FILE_SIZE_KB),
            "{}",
            component.component
        );
        assert!(component.enabled, "{}", component.component);
    }
}

#[test]
fn backups_are_told_from_other_files() {
    assert_eq!(
        arena_next_backup_timestamp("log.config", "log.config.arena-next-backup-12-345"),
        Some(345)
    );
    assert_eq!(
        arena_next_backup_timestamp("log.config", "log.config.arena-next-backup-12-"),
        None
    );
    assert_eq!(arena_next_backup_timestamp("log.config", "log.config"), None);
    assert!(temporary_name("log.config", 3, 9).contains("log.config"));
    let mut folder = entry("log.config.arena-next-backup-7-900");
    folder.regular = false;
    assert_eq!(
        latest_arena_next_backup(
            "log.config",
            &vec![folder, entry("log.config.arena-next-backup-7-100")]
        ),
        Some(1)
    );
}

#[test]
fn a_restore_is_refused_for_each_reason() {
    let good = || RestoreFiles {
        config_name: Some("log.config".to_owned()),
        backup_name: Some("log.config.arena-next-backup-7-100".to_owned()),
        config_is_regular: true,
        backup_is_regular: true,
        same_directory: true,
    };
    let attempt = |files: &RestoreFiles, current: &str| {
        restore_from_backup("c", "b", files, current, "same", "kept".to_owned())
    };
    let mut no_config = good();
    no_config.config_is_regular = false;
    assert!(matches!(attempt(&no_config, "x"), Err(RestoreError::ConfigIsNotAFile)));
    let mut no_backup = good();
    no_backup.backup_is_regular = false;
    assert!(matches!(attempt(&no_backup, "x"), Err(RestoreError::BackupIsNotAFile)));
    let mut elsewhere = good();
    elsewhere.same_directory = false;
    assert!(matches!(attempt(&elsewhere, "x"), Err(RestoreError::BackupIsElsewhere)));
    let mut other = good();
    other.backup_name = Some("notes.txt".to_owned());
    assert!(matches!(attempt(&other, "x"), Err(RestoreError::NotABackup)));
    let same = match attempt(&good(), "same") {
        Ok(outcome) => outcome,
        Err(error) => panic!("{}", error.message("c", "b")),
    };
    assert!(!same.configuration_changed);
    assert!(same.preserved_current_backup.is_none());
}

#[test]
fn differences_show_both_texts() {
    let diff = unified_diff("log.config", "a\nb\nc\n", "a\nB\nc\n");
    assert!(diff.contains("\n a\n-b\n+B\n c"), "{}", diff);
    let nothing = preview_file_logging("log.config", true, &with_required_sections(""));
    assert!(!nothing.would_change);
    assert_eq!(nothing.unified_diff, "");
}

#[test]
fn sections_in_another_letter_case_are_enabled_in_place() {
    let source = "[arena]\nLogLevel=0\n[POWER]\n";
    let updated = with_required_sections(source);
    assert_eq!(updated.matches("[arena]").count(), 1);
    assert_eq!(updated.matches("[Arena]").count(), 0);
    assert_eq!(updated.matches("[Power]").count(), 0);
    let status = status_from_source("log.config", true, &updated);
    assert!(!status.change_required);
    for component in &status.components {
        assert!(component.section_present, "{}", component.component);
        assert!(component.enabled, "{}", component.component);
        assert_eq!(component.file_size_kb, Some(LOG_FILE_SIZE_KB), "{}", component.component);
    }
    assert_eq!(status.components[1].verbose, Some(true));
    assert!(status_from_source("log.config", true, source).change_required);
}

#[test]
fn enabling_twice_keeps_either_line_ending() {
    for source in ["", "[Custom]\nKeep=1\n", "[Custom]\r\nKeep=1\r\n[arena]\r\nLogLevel=0 ; why\r\n"] {
        let once = with_required_sections(source);
        assert_eq!(with_required_sections(&once), once);
        assert_eq!(once.contains("\r\n"), source.contains("\r\n"));
    }
}
