use solstone_tmux::health::{reports_connection, HealthState};
use solstone_tmux::journal_version::{
    read_journal_version, sanitize_for_terminal, JournalVersionRecord, JournalVersionStatus, PairedJournal,
    RunIdentity, VersionRefreshState, SCHEMA_VERSION,
};

fn journal(instance_id: &str, ca_fp_prefix: &[u8]) -> Option<PairedJournal> {
    Some(PairedJournal {
        instance_id: instance_id.to_owned(),
        ca_fp_prefix: ca_fp_prefix.to_vec(),
    })
}

fn run(run_id: &str, lock_inode: u64) -> RunIdentity {
    RunIdentity {
        run_id: run_id.to_owned(),
        lock_inode,
    }
}

#[test]
fn terminal_sanitizer_removes_controls_and_doubles_hash() {
    assert_eq!(sanitize_for_terminal("2026.8.0"), "2026.8.0");
    assert_eq!(sanitize_for_terminal("2026.8.0-rc.1"), "2026.8.0-rc.1");
    assert_eq!(
        sanitize_for_terminal("\x1b[31m2026.8.0\x1b[0m\x00\x07\x7f"),
        "[31m2026.8.0[0m"
    );
    assert_eq!(
        sanitize_for_terminal("version#1.0#tag"),
        "version##1.0##tag"
    );
}

#[test]
fn journal_version_status_render_exact_strings() {
    assert_eq!(JournalVersionStatus::Unknown.render(), "unknown");
    assert_eq!(
        JournalVersionStatus::LastKnown("2026.8.0".to_owned()).render(),
        "2026.8.0 (last known)"
    );
    assert_eq!(
        JournalVersionStatus::LastKnown("v#1\x1b[0m".to_owned()).render(),
        "v##1[0m (last known)"
    );
    assert_eq!(
        JournalVersionStatus::Current("2026.8.0".to_owned()).render(),
        "2026.8.0"
    );
    assert_eq!(
        JournalVersionStatus::Current("v#1\x00".to_owned()).render(),
        "v##1"
    );
}

#[test]
fn generation_guard_race_discards_stale_completion() {
    let paired = journal("instance-1", &[0xaa, 0xbb]);
    let live = Some(run("run", 7));
    let mut state = VersionRefreshState::new("instance-1".to_owned(), &[0xaa, 0xbb], run("run", 7));
    assert_eq!(state.begin_refresh(), 1);
    assert_eq!(state.begin_refresh(), 2);

    let record = state
        .validate(2, &live, &paired, None, Some("2026.9.0".to_owned()))
        .expect("record written by gen 2");
    assert_eq!(record.version, "2026.9.0");
    assert!(record.confirmed);

    let late = state.validate(
        1,
        &live,
        &paired,
        Some(record.clone()),
        Some("2026.8.0".to_owned()),
    );
    assert!(late.is_none());
    assert!(!state.is_current(1));
    assert!(state.is_current(2));
}

#[test]
fn replaced_session_obsolete_completion_cannot_clobber_newer_write() {
    let paired = journal("instance-1", &[0xaa, 0xbb]);
    let live = Some(run("live", 1));
    let mut live_state =
        VersionRefreshState::new("instance-1".to_owned(), &[0xaa, 0xbb], run("live", 1));
    let generation = live_state.begin_refresh();
    let record = live_state
        .validate(generation, &live, &paired, None, Some("2026.10.0".to_owned()))
        .expect("record");

    let mut old_state = VersionRefreshState::new(
        "instance-1".to_owned(),
        &[0xaa, 0xbb],
        run("00000000000000000000000000000000", 99999),
    );
    let generation = old_state.begin_refresh();
    assert!(
        old_state
            .validate(
                generation,
                &live,
                &paired,
                Some(record.clone()),
                Some("2026.9.0".to_owned())
            )
            .is_none(),
        "obsolete session with same journal identity must be refused"
    );

    let mut other_state =
        VersionRefreshState::new("instance-other".to_owned(), &[0x11, 0x22], run("live", 1));
    let generation = other_state.begin_refresh();
    assert!(
        other_state
            .validate(
                generation,
                &live,
                &paired,
                Some(record),
                Some("2026.8.0".to_owned())
            )
            .is_none(),
        "mismatched credential must be refused"
    );
}

#[test]
fn failed_fetch_flips_confirmed_to_false_and_recovers() {
    let paired = journal("inst-1", &[0xaa, 0xbb]);
    let live = Some(run("run", 3));
    let mut state = VersionRefreshState::new("inst-1".to_owned(), &[0xaa, 0xbb], run("run", 3));

    let generation = state.begin_refresh();
    let stored = state
        .validate(generation, &live, &paired, None, Some("2026.8.0".to_owned()))
        .expect("stored");
    assert_eq!(
        read_journal_version(Some(stored.clone()), &paired, &live, Some(HealthState::Connected)),
        JournalVersionStatus::Current("2026.8.0".to_owned())
    );

    let generation = state.begin_refresh();
    let stored = state
        .validate(generation, &live, &paired, Some(stored), None)
        .expect("stored");
    assert_eq!(
        read_journal_version(Some(stored.clone()), &paired, &live, Some(HealthState::Connected)),
        JournalVersionStatus::LastKnown("2026.8.0".to_owned())
    );

    let generation = state.begin_refresh();
    let stored = state
        .validate(
            generation,
            &live,
            &paired,
            Some(stored),
            Some("2026.8.1".to_owned()),
        )
        .expect("stored");
    assert_eq!(
        read_journal_version(Some(stored), &paired, &live, Some(HealthState::Connected)),
        JournalVersionStatus::Current("2026.8.1".to_owned())
    );
    let generation = state.begin_refresh();
    assert!(state
        .validate(generation, &live, &paired, None, None)
        .is_none());
}

#[test]
fn read_journal_version_states_and_mismatch() {
    let paired = journal("inst-42", &[0x12, 0x34]);
    let live = Some(run("run", 5));
    assert_eq!(
        read_journal_version(None, &paired, &live, Some(HealthState::Connected)),
        JournalVersionStatus::Unknown
    );
    let record = JournalVersionRecord {
        schema_version: SCHEMA_VERSION,
        instance_id: "inst-42".to_owned(),
        ca_fp_prefix_hex: "1234".to_owned(),
        version: "2026.8.0".to_owned(),
        confirmed: true,
        run_id: "run".to_owned(),
        lock_inode: 5,
    };
    assert_eq!(
        read_journal_version(Some(record.clone()), &paired, &live, Some(HealthState::Connected)),
        JournalVersionStatus::Current("2026.8.0".to_owned())
    );
    let mut unconfirmed = record.clone();
    unconfirmed.confirmed = false;
    assert_eq!(
        read_journal_version(Some(unconfirmed), &paired, &live, Some(HealthState::Connected)),
        JournalVersionStatus::LastKnown("2026.8.0".to_owned())
    );
    assert_eq!(
        read_journal_version(Some(record.clone()), &paired, &None, Some(HealthState::Connected)),
        JournalVersionStatus::LastKnown("2026.8.0".to_owned())
    );
    assert_eq!(
        read_journal_version(Some(record.clone()), &journal("inst-other", &[0x12, 0x34]), &live, Some(HealthState::Connected)),
        JournalVersionStatus::Unknown
    );
    assert_eq!(
        read_journal_version(Some(record), &None, &live, Some(HealthState::Connected)),
        JournalVersionStatus::Unknown
    );
}

#[test]
fn read_journal_version_requires_both_confirmed_and_live_health() {
    let paired = journal("inst-1", &[0xaa, 0xbb]);
    let live = Some(run("run", 5));
    let record = JournalVersionRecord {
        schema_version: SCHEMA_VERSION,
        instance_id: "inst-1".to_owned(),
        ca_fp_prefix_hex: "aabb".to_owned(),
        version: "2026.8.0".to_owned(),
        confirmed: true,
        run_id: "run".to_owned(),
        lock_inode: 5,
    };
    assert_eq!(
        read_journal_version(Some(record.clone()), &paired, &live, Some(HealthState::Offline)),
        JournalVersionStatus::LastKnown("2026.8.0".to_owned())
    );
    let mut unconfirmed = record.clone();
    unconfirmed.confirmed = false;
    assert_eq!(
        read_journal_version(Some(unconfirmed), &paired, &live, Some(HealthState::Connected)),
        JournalVersionStatus::LastKnown("2026.8.0".to_owned())
    );
    assert_eq!(
        read_journal_version(Some(record.clone()), &paired, &live, Some(HealthState::Connected)),
        JournalVersionStatus::Current("2026.8.0".to_owned())
    );
    assert_eq!(
        read_journal_version(Some(record.clone()), &paired, &live, Some(HealthState::Syncing)),
        JournalVersionStatus::Current("2026.8.0".to_owned())
    );
    assert_eq!(
        read_journal_version(Some(record), &paired, &live, None),
        JournalVersionStatus::LastKnown("2026.8.0".to_owned())
    );
}

#[test]
fn a_run_that_syncs_is_connected() {
    assert!(reports_connection(HealthState::Connected));
    assert!(reports_connection(HealthState::Syncing));
    assert!(!reports_connection(HealthState::Offline));
}
