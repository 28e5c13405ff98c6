use solstone_tmux::health::{DiagnosticCode, SyncFacts};
use solstone_tmux::journal::{
    classify_error_response, AcknowledgedFile, JournalError, LocalFile, ParsedDescriptor, UploadResult, UploadStatus,
};
use solstone_tmux::name::derive_component;
use solstone_tmux::sync::backoff::{Backoff, SyncInstrumentation};
use solstone_tmux::sync::candidates::CandidateMap;
use solstone_tmux::sync::failure::{
    diagnostic_for_failure, map_bridge_error, map_journal_error, SyncFailureClass, SyncOperationError,
};
use solstone_tmux::sync::ledger::{
    ack_path, build_ack_record, check_ack_record, check_interval, next_attempt, prune_ledger_dirs, record_answer,
    record_unwritten, removed_files, state_path, tidy_state_record, AckVerdict, JournalIdentity, StateRecord,
    StateUpkeep,
};
use solstone_tmux::sync::removal::{
    check_empty_segment, conclude_empty_removal, conflict_name, removal_confirmed, removal_done, restore_choice,
    FenceAnswer, FileFacts, FileIdentity, Occupancy, Presence, Removal, RemovalEvent, RemovalResult, RemovalStep,
    RestoreChoice, RestoreTally, RetentionFence, SegmentRemovalStage,
};
use solstone_tmux::sync::schedule::{
    advance_schedule, cached_inventory, expected_identities, finish_choice, first_step, inspect_segment,
    update_facts, CachedInventory, FinishChoice, Reach, ScheduleEvent, ScheduleStep, SyncWake,
};
use solstone_tmux::sync::segments::{
    candidate_is_valid, newest_first, parse_day, resolve_segment_files, scan_candidates, segment_directory,
    valid_capture_filename, valid_segment_name, CalendarDay, DayListing, DirectoryState, ListedEntry, Listing,
    ResolvedSegmentFiles, SegmentCandidate, SegmentWay,
};
use solstone_tmux::sync::sweep::{Inspection, Sweep, SweepEvent, SweepStep, SyncCore, SyncSweepSummary};
use solstone_tmux::sync::task::{
    journal_identity, open_task, CredentialLoad, TaskEvent, TaskOpening, TaskState, TaskStep,
};

const SHA: &str = "aaaaaaaaaaaaaaaaaaaaaaaaaaaaaaaaaaaaaaaaaaaaaaaaaaaaaaaaaaaaaaaa";

fn candidate(segment: &str) -> SegmentCandidate {
    SegmentCandidate::new("20260907", "box.tmux", segment)
}

fn file(name: &str) -> LocalFile {
    LocalFile {
        name: name.to_owned(),
        size: 3,
        sha256: SHA.to_owned(),
    }
}

fn plain(name: &str) -> ListedEntry {
    ListedEntry {
        name: Some(name.to_owned()),
        plain: true,
    }
}

const WAY: SegmentWay = SegmentWay {
    root: DirectoryState::Plain,
    day: DirectoryState::Plain,
    stream: DirectoryState::Plain,
    segment: DirectoryState::Plain,
};

#[test]
fn days_are_calendar_days() {
    assert_eq!(
        parse_day("20240229"),
        Some(CalendarDay {
            year: 2024,
            month: 2,
            day: 29
        })
    );
    for name in ["20230229", "20261301", "20260631", "20260900", "2026090", "2026090x", "19000229", "202609011"] {
        assert_eq!(parse_day(name), None, "{name}");
    }
    assert!(parse_day("20000229").is_some());
    assert!(parse_day("00000101").is_some());
}

#[test]
fn segments_are_named_by_time_and_length() {
    for name in ["120000_300", "000000_001", "235959_86400"] {
        assert!(valid_segment_name(name), "{name}");
    }
    for name in ["240000_300", "126000_300", "120060_300", "120000_30", "12000_300", "120000-300", "120000_30x", "120000_300_1", ""] {
        assert!(!valid_segment_name(name), "{name}");
    }
    assert!(valid_capture_filename("tmux_main_screen.jsonl"));
    for name in ["tmux_screen.jsonl", "tmux_Main_screen.jsonl", "tmux__screen.jsonl", "main_screen.jsonl", "tmux_main_screen.json"] {
        assert!(!valid_capture_filename(name), "{name}");
    }
}

#[test]
fn the_newest_segments_come_first() {
    let sorted = newest_first(vec![
        candidate("120000_300"),
        SegmentCandidate::new("20260908", "box.tmux", "000000_300"),
        candidate("130000_300"),
    ]);
    let names: Vec<(&str, &str)> = sorted.iter().map(|c| (c.day(), c.segment())).collect();
    assert_eq!(
        names,
        vec![
            ("20260908", "000000_300"),
            ("20260907", "130000_300"),
            ("20260907", "120000_300"),
        ]
    );
    assert_eq!(sorted[0].stream(), "box.tmux");
}

#[test]
fn captures_are_scanned() {
    let stream = derive_component("box.tmux").expect("stream");
    let day = |entry: ListedEntry, stream: DirectoryState, segments: Listing| DayListing {
        entry,
        stream,
        segments,
    };
    let scan = |days: Vec<DayListing>| {
        scan_candidates(DirectoryState::Plain, &Some(days), &stream)
            .map(|found| found.iter().map(|c| c.segment().to_owned()).collect::<Vec<_>>())
    };
    let good = || Listing::Entries(vec![plain("120000_300"), plain("junk"), plain("130000_300")]);
    assert_eq!(
        scan(vec![
            day(plain("20260907"), DirectoryState::Plain, good()),
            day(plain("notes"), DirectoryState::NotPlain, Listing::Unreadable),
            day(plain("20260908"), DirectoryState::NotFound, Listing::NotFound),
        ]),
        Some(vec!["130000_300".to_owned(), "120000_300".to_owned()])
    );
    let link = || ListedEntry {
        name: Some("20260907".to_owned()),
        plain: false,
    };
    assert_eq!(scan(vec![day(link(), DirectoryState::Plain, good())]), None);
    assert_eq!(scan(vec![day(plain("20260907"), DirectoryState::NotPlain, good())]), None);
    assert_eq!(scan(vec![day(plain("20260907"), DirectoryState::Plain, Listing::NotFound)]), None);
    let nameless = || ListedEntry {
        name: None,
        plain: true,
    };
    assert_eq!(scan(vec![day(nameless(), DirectoryState::Plain, good())]), None);
    assert_eq!(
        scan(vec![day(plain("20260907"), DirectoryState::Plain, Listing::Entries(vec![nameless()]))]),
        None
    );
    assert!(scan_candidates(DirectoryState::NotFound, &None, &stream).expect("none").is_empty());
    assert!(scan_candidates(DirectoryState::Unreadable, &None, &stream).is_none());
    assert!(scan_candidates(DirectoryState::Plain, &None, &stream).is_none());
}

#[test]
fn the_files_of_a_segment_are_resolved() {
    let c = candidate("120000_300");
    let resolve = |way: SegmentWay, listing: Listing| match resolve_segment_files(&c, way, &listing) {
        ResolvedSegmentFiles::Found(names) => names.join(","),
        ResolvedSegmentFiles::Empty => "empty".to_owned(),
        ResolvedSegmentFiles::Missing => "missing".to_owned(),
        ResolvedSegmentFiles::Invalid => "invalid".to_owned(),
    };
    let two = || Listing::Entries(vec![plain("tmux_b_screen.jsonl"), plain("tmux_a_screen.jsonl")]);
    assert_eq!(resolve(WAY, two()), "tmux_a_screen.jsonl,tmux_b_screen.jsonl");
    assert_eq!(resolve(WAY, Listing::Entries(Vec::new())), "empty");
    assert_eq!(resolve(WAY, Listing::NotFound), "missing");
    assert_eq!(resolve(WAY, Listing::Unreadable), "invalid");
    assert_eq!(resolve(WAY, Listing::Entries(vec![plain("x")])), "invalid");
    assert_eq!(
        resolve(SegmentWay { root: DirectoryState::Unreadable, ..WAY }, two()),
        "missing"
    );
    assert_eq!(resolve(SegmentWay { root: DirectoryState::NotPlain, ..WAY }, two()), "invalid");
    assert_eq!(resolve(SegmentWay { stream: DirectoryState::NotFound, ..WAY }, two()), "missing");
    assert_eq!(
        resolve(
            SegmentWay {
                day: DirectoryState::Unreadable,
                stream: DirectoryState::NotFound,
                ..WAY
            },
            two()
        ),
        "invalid"
    );
    assert!(candidate_is_valid(&c));
    assert!(!candidate_is_valid(&SegmentCandidate::new("20260907", "../x", "120000_300")));
    assert_eq!(
        segment_directory(b"/d/captures", &c),
        b"/d/captures/20260907/box.tmux/120000_300"
    );
}

fn identity() -> JournalIdentity {
    journal_identity("inst", &[0xab, 0x01], "cert")
}

#[test]
fn the_identity_of_a_journal_is_in_hexadecimal() {
    let id = identity();
    assert_eq!(id.instance_id, "inst");
    assert_eq!(id.ca_fp_prefix_hex, "ab01");
    assert_eq!(id.pairing_generation_hex.len(), 64);
    assert_eq!(
        journal_identity("inst", &[], "abc").pairing_generation_hex,
        "ba7816bf8f01cfea414140de5dae2223b00361a396177a9cb410ff61f20015ad"
    );
}

#[test]
fn acknowledgements_are_read_back() {
    let c = candidate("120000_300");
    let id = identity();
    let locals = vec![file("a"), file("b")];
    let files = removed_files(&locals);
    let ack = build_ack_record(b"/d/sync-ledger", &c, &id, "key", files).expect("ack");
    assert_eq!(ack.location, "/d/sync-ledger/20260907/box.tmux/120000_300/ack.json");
    assert_eq!(ack.proof, "upload");
    assert_eq!(ack.stored_key, "key");
    assert_eq!(ack.files[0].disposition, "written");
    assert_eq!(
        ack.digests(),
        vec![("a".to_owned(), locals[0].sha256.clone()), ("b".to_owned(), locals[1].sha256.clone())]
    );
    assert_eq!(
        check_ack_record(&ack, b"/d/sync-ledger", &c, &id, &locals),
        AckVerdict::Accepted
    );
    assert_eq!(
        check_ack_record(&ack, b"/elsewhere", &c, &id, &locals),
        AckVerdict::Ignored
    );
    assert_eq!(
        check_ack_record(&ack, b"/d/sync-ledger", &candidate("130000_300"), &id, &locals),
        AckVerdict::Ignored
    );
    assert_eq!(
        check_ack_record(&ack, b"/d/sync-ledger", &c, &journal_identity("other", &[0xab, 0x01], "cert"), &locals),
        AckVerdict::Ignored
    );
    let mut changed = locals.clone();
    changed[1].size = 4;
    assert_eq!(
        check_ack_record(&ack, b"/d/sync-ledger", &c, &id, &changed),
        AckVerdict::Discarded
    );
    let mut twice = ack;
    twice.files.push(AcknowledgedFile {
        submitted: "a".to_owned(),
        written: "a".to_owned(),
        size: 3,
        sha256: SHA.to_owned(),
        disposition: "written".to_owned(),
    });
    assert_eq!(
        check_ack_record(&twice, b"/d/sync-ledger", &c, &id, &locals),
        AckVerdict::Discarded
    );
    assert!(build_ack_record(b"/\xff", &c, &id, "key", Vec::new()).is_none());
    assert_eq!(ack_path(b"/l", &c), b"/l/20260907/box.tmux/120000_300/ack.json");
    assert_eq!(state_path(b"/l", &c), b"/l/20260907/box.tmux/120000_300/state.json");
}

#[test]
fn answers_put_a_segment_off() {
    let mut state = StateRecord::default();
    assert_eq!(next_attempt(&state, None, 1000), 0);
    assert_eq!(next_attempt(&state, Some(2000), 1000), 2000);
    for (count, interval) in [(1, 3600), (2, 3600), (3, 86400), (4, 86400)] {
        record_answer(&mut state, "x".to_owned(), 1000);
        assert_eq!(state.answer_count, count);
        assert_eq!(state.next_attempt_interval_seconds, Some(interval));
        assert_eq!(state.next_attempt_unix, Some(1000 + interval as i64));
    }
    assert_eq!(next_attempt(&state, None, 1000), 87400);
    assert_eq!(next_attempt(&state, None, -500_000), -500_000 + 86400);
    assert_eq!(next_attempt(&state, Some(90000), 1000), 90000);
    record_answer(&mut state, "y".to_owned(), 5000);
    assert_eq!(state.answer_count, 1);
    assert_eq!(state.next_attempt_unix, Some(8600));
    record_unwritten(&mut state, "z".to_owned(), 5000);
    assert_eq!(state.next_attempt_unix, Some(91400));
    assert_eq!(state.answer_count, 1);
    state.next_attempt_interval_seconds = Some(i64::MAX as u64);
    assert!(!check_interval(&state, 1));
    assert!(check_interval(&state, 0));
}

#[test]
fn old_ledger_fields_are_dropped() {
    let (fresh, upkeep) = tidy_state_record(None);
    assert_eq!(fresh, StateRecord::default());
    assert_eq!(upkeep, StateUpkeep::Keep);
    let mut old = StateRecord::default();
    old.retention_recheck_unix = Some(3);
    let (tidied, upkeep) = tidy_state_record(Some(old));
    assert_eq!(tidied, StateRecord::default());
    assert_eq!(upkeep, StateUpkeep::Remove);
    let mut old = StateRecord::default();
    old.terminal_keep = Some(identity());
    old.answer = Some("a".to_owned());
    let (tidied, upkeep) = tidy_state_record(Some(old));
    assert_eq!(tidied.terminal_keep, None);
    assert_eq!(tidied.answer, Some("a".to_owned()));
    assert_eq!(upkeep, StateUpkeep::Rewrite);
    let stale = prune_ledger_dirs(
        &vec![candidate("120000_300"), candidate("130000_300")],
        &vec![candidate("130000_300")],
    );
    assert_eq!(stale, vec![candidate("120000_300")]);
}

fn known(name: &str) -> FileIdentity {
    FileIdentity {
        name: name.to_owned(),
        device: 1,
        inode: 2,
        size: 3,
        mtime: 4,
        mtime_nsec: 5,
        ctime: 6,
        ctime_nsec: 7,
    }
}

fn removal(names: &[&str]) -> Removal {
    let listed: Vec<String> = names.iter().map(|n| (*n).to_owned()).collect();
    let identities: Vec<FileIdentity> = names.iter().map(|n| known(n)).collect();
    Removal::begin(
        &ResolvedSegmentFiles::Found(listed.clone()),
        &Some(identities.clone()),
        &listed,
        identities,
        names.iter().map(|n| ((*n).to_owned(), SHA.to_owned())).collect(),
    )
}

const FACTS: FileFacts = FileFacts {
    device: 1,
    inode: 2,
    size: 3,
};

fn probe(sha: &str) -> RemovalEvent {
    RemovalEvent::Probed {
        facts: Some(FACTS),
        digest: Some(sha.to_owned()),
    }
}

#[test]
fn a_proved_segment_is_removed() {
    let mut run = removal(&["a", "b"]);
    assert_eq!(run.advance(RemovalEvent::DirectoriesOpened(true)), None);
    run.advance(RemovalEvent::FileOpened(Some(FACTS)));
    run.advance(RemovalEvent::FileOpened(Some(FACTS)));
    assert_eq!(run.step, RemovalStep::Probing(0));
    run.advance(probe(SHA));
    assert_eq!(run.step, RemovalStep::Unlinking(0));
    run.advance(RemovalEvent::Unlinked(true));
    run.advance(probe(SHA));
    assert_eq!(
        run.advance(RemovalEvent::Unlinked(true)),
        Some(SegmentRemovalStage::FilesUnlinked)
    );
    assert_eq!(
        run.advance(RemovalEvent::DirectoryRemoved(true)),
        Some(SegmentRemovalStage::DirectoryUnlinked)
    );
    assert_eq!(run.step, RemovalStep::Done(RemovalResult::Removed));
    assert!(removal_confirmed(RemovalResult::Removed) && removal_confirmed(RemovalResult::Absent));
    assert!(removal_done(RemovalResult::Removed) && !removal_done(RemovalResult::Absent));
}

#[test]
fn a_changed_file_is_not_removed() {
    let mut run = removal(&["a", "b"]);
    run.advance(RemovalEvent::DirectoriesOpened(true));
    run.advance(RemovalEvent::FileOpened(Some(FileFacts { inode: 9, ..FACTS })));
    assert_eq!(run.step, RemovalStep::Done(RemovalResult::Refused));
    let mut run = removal(&["a", "b"]);
    run.advance(RemovalEvent::DirectoriesOpened(true));
    run.advance(RemovalEvent::FileOpened(Some(FACTS)));
    run.advance(RemovalEvent::FileOpened(Some(FACTS)));
    run.advance(probe(SHA));
    run.advance(RemovalEvent::Unlinked(true));
    run.advance(probe(&SHA.replace('a', "b")));
    assert_eq!(run.step, RemovalStep::Restoring);
    run.advance(RemovalEvent::Restored);
    assert_eq!(run.step, RemovalStep::Done(RemovalResult::Failed));
    let mut run = removal(&["a"]);
    run.advance(RemovalEvent::DirectoriesOpened(false));
    assert_eq!(run.step, RemovalStep::Done(RemovalResult::Refused));
}

#[test]
fn only_the_expected_files_are_removed() {
    let start = |resolved: ResolvedSegmentFiles, now: Option<Vec<FileIdentity>>| {
        Removal::begin(&resolved, &now, &vec!["a".to_owned()], vec![known("a")], Vec::new()).step
    };
    let found = |names: &[&str]| ResolvedSegmentFiles::Found(names.iter().map(|n| (*n).to_owned()).collect());
    assert_eq!(start(found(&["a"]), Some(vec![known("a")])), RemovalStep::OpeningDirectories);
    let refused = RemovalStep::Done(RemovalResult::Refused);
    assert_eq!(start(found(&["a", "b"]), Some(vec![known("a")])), refused);
    let mut touched = known("a");
    touched.mtime = 99;
    assert_eq!(start(found(&["a"]), Some(vec![touched])), refused);
    assert_eq!(start(found(&["a"]), None), refused);
    assert_eq!(start(ResolvedSegmentFiles::Empty, None), refused);
    assert_eq!(start(ResolvedSegmentFiles::Missing, None), RemovalStep::Done(RemovalResult::Absent));
}

#[test]
fn empty_segments_go_and_files_come_back() {
    let c = candidate("120000_300");
    assert_eq!(check_empty_segment(&c, WAY, Occupancy::Empty), None);
    assert_eq!(check_empty_segment(&c, WAY, Occupancy::Occupied), Some(RemovalResult::Refused));
    assert_eq!(check_empty_segment(&c, WAY, Occupancy::NotFound), Some(RemovalResult::Absent));
    assert_eq!(
        check_empty_segment(&c, SegmentWay { root: DirectoryState::NotFound, ..WAY }, Occupancy::Empty),
        Some(RemovalResult::Absent)
    );
    assert_eq!(
        check_empty_segment(&c, SegmentWay { day: DirectoryState::NotPlain, ..WAY }, Occupancy::Empty),
        Some(RemovalResult::Refused)
    );
    assert_eq!(conclude_empty_removal(true, true), RemovalResult::Removed);
    assert_eq!(conclude_empty_removal(true, false), RemovalResult::Failed);
    assert_eq!(conclude_empty_removal(false, true), RemovalResult::Refused);
    assert_eq!(restore_choice(true, Presence::Present), RestoreChoice::Keep);
    assert_eq!(restore_choice(false, Presence::Present), RestoreChoice::MoveAside);
    assert_eq!(restore_choice(false, Presence::Absent), RestoreChoice::Rewrite);
    assert_eq!(restore_choice(false, Presence::Unknown), RestoreChoice::GiveUp);
    assert_eq!(conflict_name(12), ".retention-conflict-12");
    let mut tally = RestoreTally::new();
    tally.record(RestoreChoice::MoveAside, true, true, true);
    assert!(tally.restored);
    tally.record(RestoreChoice::MoveAside, false, true, true);
    tally.record(RestoreChoice::Keep, true, true, true);
    assert!(!tally.restored);
}

#[test]
fn a_closed_fence_lets_nothing_begin() {
    let mut fence = RetentionFence::new();
    assert_eq!(fence.begin_irreversible(), FenceAnswer::Granted);
    assert_eq!(fence.begin_irreversible(), FenceAnswer::Wait);
    assert!(!fence.close_and_drain());
    fence.finish_irreversible();
    assert!(fence.close_and_drain());
    assert_eq!(fence.begin_irreversible(), FenceAnswer::Closed);
}

#[test]
fn failed_exchanges_are_mapped() {
    let retained = |error: JournalError| match map_journal_error(error) {
        SyncOperationError::RetainCandidate { diagnostic, answer } => (diagnostic, answer),
        other => panic!("{other:?}"),
    };
    assert_eq!(
        retained(JournalError::local(DiagnosticCode::RequestTooLarge)),
        (DiagnosticCode::RequestTooLarge, "local:request_too_large".to_owned())
    );
    assert_eq!(
        retained(JournalError::local(DiagnosticCode::LocalSegmentInvalid)).1,
        "local:local_segment_invalid"
    );
    assert_eq!(
        retained(classify_error_response(409, Some("content_conflict"))),
        (DiagnosticCode::JournalRejected, "409:content_conflict".to_owned())
    );
    for code in ["ingest_contract_invalid", "ingest_no_files", "ingest_sidecar_conflict"] {
        assert_eq!(
            retained(classify_error_response(422, Some(code))),
            (DiagnosticCode::LocalSegmentInvalid, format!("422:{code}"))
        );
    }
    let ended = |class: SyncFailureClass, code: DiagnosticCode| SyncOperationError::EndSweepDiagnostic(class, code);
    let rejected = |code: &str| map_journal_error(classify_error_response(403, Some(code)));
    assert_eq!(rejected("segment_removed"), SyncOperationError::SegmentRemoved);
    for code in ["auth_key_invalid", "auth_required", "pl_revoked"] {
        assert_eq!(rejected(code), ended(SyncFailureClass::Auth, DiagnosticCode::JournalRevoked));
    }
    for code in ["linked_device_required", "protocol_version_legacy", "protocol_version_future", "invalid_day", "other"] {
        assert_eq!(rejected(code), ended(SyncFailureClass::Contract, DiagnosticCode::JournalRejected));
    }
    assert_eq!(
        rejected("ingest_storage_failed"),
        ended(SyncFailureClass::Direct, DiagnosticCode::JournalRejected)
    );
    let local = |code: DiagnosticCode| map_journal_error(JournalError::local(code));
    assert_eq!(
        local(DiagnosticCode::JournalTimeout),
        ended(SyncFailureClass::Timeout, DiagnosticCode::JournalTimeout)
    );
    assert_eq!(
        local(DiagnosticCode::PrivateStateInvalid),
        ended(SyncFailureClass::Contract, DiagnosticCode::PrivateStateInvalid)
    );
    assert_eq!(
        local(DiagnosticCode::JournalUnavailable),
        ended(SyncFailureClass::Direct, DiagnosticCode::JournalUnavailable)
    );
    let down = JournalError::local(DiagnosticCode::JournalUnavailable);
    assert_eq!(
        map_bridge_error(down, true),
        ended(SyncFailureClass::Auth, DiagnosticCode::JournalRevoked)
    );
    assert_eq!(
        map_bridge_error(down, false),
        ended(SyncFailureClass::Direct, DiagnosticCode::JournalUnavailable)
    );
    assert_eq!(diagnostic_for_failure(SyncFailureClass::Relay), DiagnosticCode::JournalUnavailable);
    assert_eq!(diagnostic_for_failure(SyncFailureClass::Auth), DiagnosticCode::JournalRevoked);
}

#[test]
fn pauses_grow_and_start_over() {
    let mut backoff = Backoff::new();
    assert_eq!(backoff.deadline(), None);
    for delay in [5, 30, 120, 300, 300] {
        backoff.failed_operation();
        assert_eq!(backoff.deadline(), Some(delay));
    }
    backoff.deadline_reached();
    assert_eq!(backoff.deadline(), None);
    backoff.failed_operation();
    assert_eq!(backoff.deadline(), Some(300));
    backoff.successful_operation();
    backoff.failed_operation();
    assert_eq!(backoff.deadline(), Some(5));
    let mut counters = SyncInstrumentation::default();
    counters.candidate_scan();
    counters.health_write();
    counters.hashed_file(7);
    counters.hashed_file(5);
    let snapshot = counters.snapshot();
    assert_eq!(snapshot.hashed_files, 2);
    assert_eq!(snapshot.hashed_bytes, 12);
    assert_eq!(snapshot.candidate_scans, 1);
    assert_eq!(snapshot.batches, 0);
}

fn receipt(name: &str) -> UploadResult {
    UploadResult {
        status: UploadStatus::Okay,
        authoritative_key: Some("key".to_owned()),
        descriptors: Some(Ok(vec![ParsedDescriptor {
            submitted: name.to_owned(),
            written: name.to_owned(),
            size: 3,
            sha256: SHA.to_owned(),
            disposition: "written".to_owned(),
        }])),
    }
}

fn due() -> SweepEvent {
    SweepEvent::Inspected(Inspection::Unacknowledged {
        files: vec![file("a")],
        state: StateRecord::default(),
    })
}

/// A sweep with the counters that it counts on.
struct Counting {
    sweep: Sweep,
    counters: SyncInstrumentation,
}

impl std::ops::Deref for Counting {
    type Target = Sweep;

    fn deref(&self) -> &Sweep {
        &self.sweep
    }
}

impl Counting {
    fn begin(candidates: Option<Vec<SegmentCandidate>>) -> Self {
        let mut counters = SyncInstrumentation::default();
        let sweep = Sweep::begin(SyncCore::new(), 1000, candidates, &mut counters);
        Counting { sweep, counters }
    }

    fn advance(&mut self, event: SweepEvent) {
        self.sweep.advance(event, &mut self.counters);
    }
}

fn sweep(count: usize) -> Counting {
    let candidates = (0..count).map(|i| candidate(&format!("12{i:04}_300"))).collect();
    let mut sweep = Counting::begin(Some(candidates));
    for _ in 0..count {
        sweep.advance(due());
    }
    sweep
}

#[test]
fn a_sweep_releases_what_the_journal_holds() {
    let mut run = sweep(1);
    assert_eq!(run.step, SweepStep::Publishing);
    assert!(run.core.facts.sync_in_progress);
    assert_eq!(run.core.facts.pending_segments, 1);
    run.advance(SweepEvent::Proceed);
    assert_eq!(run.step, SweepStep::Starting(0));
    run.advance(SweepEvent::Proceed);
    assert_eq!(run.step, SweepStep::Uploading(0));
    run.advance(SweepEvent::Uploaded(Ok(receipt("a"))));
    assert_eq!(run.step, SweepStep::SavingAck(0));
    let pending = run.pending_ack.as_ref().expect("ack");
    assert_eq!(pending.stored_key, "key");
    assert_eq!(pending.digests(), vec![("a".to_owned(), SHA.to_owned())]);
    run.advance(SweepEvent::AckSaved(true));
    assert_eq!(run.step, SweepStep::ClearingState(0));
    run.advance(SweepEvent::Proceed);
    assert_eq!(run.step, SweepStep::Deleting(0));
    run.advance(SweepEvent::Proceed);
    assert_eq!(run.step, SweepStep::EndingBatch(1));
    run.advance(SweepEvent::Proceed);
    assert_eq!(run.step, SweepStep::Done);
    assert_eq!(
        run.summary,
        SyncSweepSummary {
            attempted: 1,
            contacted: true,
            custodied: 1,
            cancelled: false,
            failure: None,
            diagnostic: None,
        }
    );
    assert_eq!(run.core.facts.pending_segments, 0);
}

#[test]
fn nothing_is_released_without_a_written_acknowledgement() {
    let mut run = sweep(3);
    run.advance(SweepEvent::Proceed);
    for i in 0..3 {
        run.advance(SweepEvent::Proceed);
        run.advance(SweepEvent::Uploaded(Ok(receipt("a"))));
        assert_eq!(run.step, SweepStep::SavingAck(i));
        run.advance(SweepEvent::AckSaved(false));
        assert!(run.pending_ack.is_none());
        assert_eq!(
            run.summary.diagnostic,
            if i == 2 { Some(DiagnosticCode::PrivateStateIo) } else { None }
        );
    }
    assert_eq!(run.step, SweepStep::EndingBatch(3));
    assert_eq!(run.summary.custodied, 0);
    assert_eq!(run.core.facts.pending_segments, 3);
}

#[test]
fn a_receipt_without_proof_puts_the_segment_off() {
    let mut run = sweep(2);
    run.advance(SweepEvent::Proceed);
    run.advance(SweepEvent::Proceed);
    run.advance(SweepEvent::Uploaded(Ok(receipt("other"))));
    assert_eq!(run.step, SweepStep::SavingState(0));
    assert_eq!(run.due[0].state.answer, Some("invalid:extra_descriptor".to_owned()));
    run.advance(SweepEvent::StateSaved(false));
    assert_eq!(run.core.floors.get(&candidate("120000_300")), Some(&4600));
    run.advance(SweepEvent::Proceed);
    let mut absent = receipt("a");
    absent.descriptors = None;
    run.advance(SweepEvent::Uploaded(Ok(absent)));
    assert_eq!(run.due[1].state.answer, Some("absent:descriptors_absent".to_owned()));
    run.advance(SweepEvent::StateSaved(true));
    assert_eq!(run.core.floors.len(), 1);
    let mut unwritten = receipt("a");
    if let Some(Ok(descriptors)) = &mut unwritten.descriptors {
        descriptors[0].disposition = "received_not_written".to_owned();
    }
    let mut run = sweep(1);
    run.advance(SweepEvent::Proceed);
    run.advance(SweepEvent::Proceed);
    run.advance(SweepEvent::Uploaded(Ok(unwritten)));
    assert_eq!(run.due[0].state.next_attempt_unix, Some(87400));
}

#[test]
fn refusals_steer_the_sweep() {
    let mut run = sweep(2);
    run.advance(SweepEvent::Proceed);
    run.advance(SweepEvent::Proceed);
    run.advance(SweepEvent::Uploaded(Err(SyncOperationError::SegmentRemoved)));
    assert_eq!(run.step, SweepStep::SavingAck(0));
    let pending = run.pending_ack.as_ref().expect("ack");
    assert!(!pending.from_receipt);
    assert_eq!(pending.stored_key, "120000_300");
    run.advance(SweepEvent::AckSaved(true));
    run.advance(SweepEvent::Proceed);
    run.advance(SweepEvent::Proceed);
    assert_eq!(run.summary.custodied, 0);
    assert_eq!(run.core.facts.pending_segments, 1);
    run.advance(SweepEvent::Proceed);
    run.advance(SweepEvent::Uploaded(Err(SyncOperationError::RetainCandidate {
        diagnostic: DiagnosticCode::JournalRejected,
        answer: "409:content_conflict".to_owned(),
    })));
    assert_eq!(run.step, SweepStep::SavingState(1));
    assert_eq!(run.summary.diagnostic, Some(DiagnosticCode::JournalRejected));
    let mut run = sweep(2);
    run.advance(SweepEvent::Proceed);
    run.advance(SweepEvent::Proceed);
    run.advance(SweepEvent::Uploaded(Err(SyncOperationError::EndSweep(SyncFailureClass::Direct))));
    assert_eq!(run.step, SweepStep::Done);
    assert_eq!(run.summary.failure, Some(SyncFailureClass::Direct));
    assert_eq!(run.core.backoff.deadline(), Some(5));
    assert!(!run.summary.contacted);
}

#[test]
fn sweeps_work_in_batches() {
    let mut run = sweep(9);
    run.advance(SweepEvent::Proceed);
    for _ in 0..8 {
        run.advance(SweepEvent::Proceed);
        run.advance(SweepEvent::Uploaded(Ok(receipt("a"))));
        run.advance(SweepEvent::AckSaved(true));
        run.advance(SweepEvent::Proceed);
        run.advance(SweepEvent::Proceed);
    }
    assert_eq!(run.step, SweepStep::EndingBatch(8));
    run.advance(SweepEvent::Proceed);
    assert_eq!(run.step, SweepStep::Yielding(8));
    run.advance(SweepEvent::Proceed);
    assert_eq!(run.step, SweepStep::Starting(8));
    assert_eq!(run.counters.snapshot().candidate_scans, 1);
    assert_eq!(run.counters.snapshot().batches, 2);
    assert_eq!(run.counters.snapshot().batch_yields, 1);
    run.advance(SweepEvent::Shutdown);
    assert_eq!(run.step, SweepStep::Done);
    assert!(run.summary.cancelled);
    assert!(!run.core.facts.sync_in_progress);
}

#[test]
fn a_sweep_with_nothing_due_asks_for_the_status() {
    let mut run = Counting::begin(Some(vec![
        candidate("120000_300"),
        candidate("130000_300"),
        candidate("140000_300"),
    ]));
    run.advance(SweepEvent::Inspected(Inspection::Acknowledged));
    run.advance(SweepEvent::Inspected(Inspection::Invalid));
    let mut state = StateRecord::default();
    record_answer(&mut state, "x".to_owned(), 900);
    run.advance(SweepEvent::Inspected(Inspection::Unacknowledged {
        files: vec![file("a")],
        state,
    }));
    assert_eq!(run.step, SweepStep::Asking);
    assert_eq!(run.core.facts.pending_segments, 2);
    assert_eq!(run.summary.diagnostic, Some(DiagnosticCode::LocalSegmentInvalid));
    run.advance(SweepEvent::StatusAnswered(Ok(())));
    assert_eq!(run.step, SweepStep::Done);
    assert!(run.summary.contacted);
    let mut down = Counting::begin(Some(Vec::new()));
    down.advance(SweepEvent::StatusAnswered(Err(SyncOperationError::EndSweepDiagnostic(
        SyncFailureClass::Timeout,
        DiagnosticCode::JournalTimeout,
    ))));
    assert_eq!(down.summary.failure, Some(SyncFailureClass::Timeout));
    assert_eq!(down.summary.diagnostic, Some(DiagnosticCode::JournalTimeout));
    let unlisted = Counting::begin(None);
    assert_eq!(unlisted.step, SweepStep::Done);
    assert_eq!(unlisted.summary.failure, Some(SyncFailureClass::Contract));
    assert_eq!(unlisted.summary.diagnostic, Some(DiagnosticCode::LocalSegmentInvalid));
}

#[test]
fn segments_are_finished_between_sweeps() {
    let found = || ResolvedSegmentFiles::Found(vec!["a".to_owned()]);
    assert_eq!(finish_choice(&ResolvedSegmentFiles::Empty, None), FinishChoice::RemoveEmpty);
    assert_eq!(finish_choice(&found(), Some(AckVerdict::Accepted)), FinishChoice::RemoveConfirmed);
    assert_eq!(finish_choice(&found(), Some(AckVerdict::Discarded)), FinishChoice::Leave);
    assert_eq!(finish_choice(&found(), None), FinishChoice::Leave);
    assert_eq!(finish_choice(&ResolvedSegmentFiles::Invalid, None), FinishChoice::Leave);
    assert!(matches!(
        inspect_segment(&found(), Some(vec![file("a")]), None, StateRecord::default()),
        Inspection::Unacknowledged { .. }
    ));
    assert!(matches!(
        inspect_segment(&found(), Some(vec![file("a")]), Some(AckVerdict::Accepted), StateRecord::default()),
        Inspection::Acknowledged
    ));
    assert!(matches!(
        inspect_segment(&found(), None, None, StateRecord::default()),
        Inspection::Invalid
    ));
    assert!(matches!(
        inspect_segment(&ResolvedSegmentFiles::Missing, None, None, StateRecord::default()),
        Inspection::Missing
    ));
}

#[test]
fn inventories_are_kept_while_files_stay_the_same() {
    let c = candidate("120000_300");
    let mut inventories: CandidateMap<CachedInventory> = CandidateMap::new();
    let names = vec!["a".to_owned()];
    assert!(cached_inventory(&inventories, &c, &names, &vec![known("a")]).is_none());
    inventories.insert(
        c.clone(),
        CachedInventory {
            names: names.clone(),
            identities: vec![known("a")],
            inventory: vec![file("a")],
        },
    );
    assert_eq!(
        cached_inventory(&inventories, &c, &names, &vec![known("a")]),
        Some(vec![file("a")])
    );
    let mut touched = known("a");
    touched.ctime_nsec = 8;
    assert!(cached_inventory(&inventories, &c, &names, &vec![touched]).is_none());
    assert_eq!(expected_identities(&inventories, &c), vec![known("a")]);
    assert!(expected_identities(&inventories, &candidate("130000_300")).is_empty());
    inventories.retain(&vec![candidate("130000_300")]);
    assert_eq!(inventories.len(), 0);
}

#[test]
fn what_is_kept_of_segments_is_a_map() {
    let mut map: CandidateMap<i64> = CandidateMap::new();
    map.insert(candidate("a"), 1);
    map.insert(candidate("b"), 2);
    map.insert(candidate("a"), 3);
    assert_eq!(map.len(), 2);
    assert_eq!(map.get(&candidate("a")), Some(&3));
    map.remove(&candidate("a"));
    assert_eq!(map.get(&candidate("a")), None);
    map.remove(&candidate("a"));
    assert_eq!(map.len(), 1);
    map.insert(candidate("c"), 4);
    map.retain(&vec![candidate("c"), candidate("d")]);
    assert_eq!(map.get(&candidate("b")), None);
    assert_eq!(map.get(&candidate("c")), Some(&4));
}

#[test]
fn sweeps_are_scheduled() {
    let mut backoff = Backoff::new();
    assert_eq!(first_step(&backoff), ScheduleStep::Sweeping);
    let swept = |cancelled: bool, failed: bool, woken: bool| ScheduleEvent::Swept {
        cancelled,
        failed,
        woken,
    };
    assert_eq!(
        advance_schedule(ScheduleStep::Sweeping, &mut backoff, swept(false, false, false)),
        (ScheduleStep::Resting, true)
    );
    assert_eq!(
        advance_schedule(ScheduleStep::Resting, &mut backoff, ScheduleEvent::Wake),
        (ScheduleStep::Sweeping, false)
    );
    assert_eq!(
        advance_schedule(ScheduleStep::Sweeping, &mut backoff, swept(false, false, true)),
        (ScheduleStep::Sweeping, true)
    );
    assert_eq!(
        advance_schedule(ScheduleStep::Sweeping, &mut backoff, swept(true, false, true)),
        (ScheduleStep::Stopped, false)
    );
    backoff.failed_operation();
    assert_eq!(
        advance_schedule(ScheduleStep::Sweeping, &mut backoff, swept(false, true, false)),
        (ScheduleStep::Finishing, true)
    );
    assert_eq!(
        advance_schedule(
            ScheduleStep::Finishing,
            &mut backoff,
            ScheduleEvent::Finished { pause_over: false }
        ),
        (ScheduleStep::Pausing, false)
    );
    assert_eq!(
        advance_schedule(ScheduleStep::Pausing, &mut backoff, ScheduleEvent::Wake),
        (ScheduleStep::Finishing, false)
    );
    assert_eq!(
        advance_schedule(ScheduleStep::Pausing, &mut backoff, ScheduleEvent::Tick),
        (ScheduleStep::Finishing, true)
    );
    assert_eq!(
        advance_schedule(ScheduleStep::Pausing, &mut backoff, ScheduleEvent::PauseOver),
        (ScheduleStep::Sweeping, false)
    );
    assert_eq!(backoff.deadline(), None);
    let mut wake = SyncWake::default();
    wake.segment_closed(false);
    assert!(!wake.take_pending());
    wake.segment_closed(true);
    assert!(wake.take_pending());
    assert!(!wake.take_pending());
}

#[test]
fn a_sweep_is_reported() {
    let mut facts = SyncFacts {
        paired: true,
        pending_segments: 2,
        sync_in_progress: true,
    };
    let summary = SyncSweepSummary {
        attempted: 1,
        contacted: true,
        custodied: 0,
        cancelled: false,
        failure: Some(SyncFailureClass::Timeout),
        diagnostic: None,
    };
    let report = update_facts(&mut facts, &summary);
    assert!(!facts.sync_in_progress);
    assert_eq!(report.reach, Reach::Contacted);
    assert_eq!(report.failure, Some(DiagnosticCode::JournalTimeout));
    let report = update_facts(
        &mut facts,
        &SyncSweepSummary {
            custodied: 1,
            diagnostic: Some(DiagnosticCode::PrivateStateIo),
            ..summary
        },
    );
    assert_eq!(report.reach, Reach::Synced);
    assert_eq!(report.failure, Some(DiagnosticCode::PrivateStateIo));
}

#[test]
fn the_task_connects_for_its_own_stream() {
    let own = derive_component("box.tmux").expect("stream");
    let other = derive_component("other").expect("stream");
    assert_eq!(open_task(CredentialLoad::Present, &own, "Box"), Ok(TaskOpening::Connect));
    assert_eq!(
        open_task(CredentialLoad::Present, &other, "box"),
        Ok(TaskOpening::Wait(Some(DiagnosticCode::ConfiguredStreamMismatch)))
    );
    assert_eq!(
        open_task(CredentialLoad::Present, &own, ""),
        Err(DiagnosticCode::ConfiguredStreamMismatch)
    );
    assert_eq!(open_task(CredentialLoad::Absent, &own, ""), Ok(TaskOpening::Wait(None)));
    assert_eq!(
        open_task(CredentialLoad::Failed(DiagnosticCode::PrivateStateInvalid), &own, ""),
        Ok(TaskOpening::Wait(Some(DiagnosticCode::PrivateStateInvalid)))
    );
    assert_eq!(open_task(CredentialLoad::Lost, &own, ""), Err(DiagnosticCode::PrivateStateIo));
}

#[test]
fn the_task_tries_again_until_a_shutdown() {
    let mut task = TaskState::new();
    assert_eq!(
        task.advance(TaskEvent::StartFailed(DiagnosticCode::BridgeUnavailable)),
        Some(DiagnosticCode::BridgeUnavailable)
    );
    assert_eq!(task.step, TaskStep::Waiting);
    assert_eq!(task.reconnect.deadline(), Some(5));
    task.advance(TaskEvent::RetryDue);
    assert_eq!(task.step, TaskStep::Connecting);
    task.advance(TaskEvent::Started);
    task.advance(TaskEvent::Ended);
    assert_eq!(task.step, TaskStep::Closing);
    assert_eq!(
        task.advance(TaskEvent::Closed(Some(DiagnosticCode::PrivateStateIo))),
        Some(DiagnosticCode::PrivateStateIo)
    );
    assert_eq!(task.step, TaskStep::Failed(DiagnosticCode::PrivateStateIo));
    let mut stopped = TaskState::new();
    stopped.advance(TaskEvent::Shutdown);
    assert_eq!(stopped.step, TaskStep::Stopped);
}
