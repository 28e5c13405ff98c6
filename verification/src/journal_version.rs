//! The journal's version, kept for display, and whether it is still to be believed.

use vstd::prelude::*;
use vstd::string::*;

use crate::health::{reports_connection, HealthState};
use crate::text::{
    char_is_control, chars_of, concat, copy, has_control, hex_string, hex_text, is_control,
    opt_text, same_text,
};

verus! {

pub const JOURNAL_VERSION_FILENAME: &'static str = "journal-version.json";

pub const JOURNAL_VERSION_LOCK_FILENAME: &'static str = "journal-version.lock";

pub const SCHEMA_VERSION: u32 = 1;

/// A run of the observer, by its number and the lock that it holds.
#[derive(Debug, PartialEq, Eq)]
pub struct RunIdentity {
    pub run_id: String,
    pub lock_inode: u64,
}

pub ghost struct RunView {
    pub run_id: Seq<char>,
    pub lock_inode: u64,
}

impl View for RunIdentity {
    type V = RunView;

    open spec fn view(&self) -> RunView {
        RunView { run_id: self.run_id@, lock_inode: self.lock_inode }
    }
}

impl Clone for RunIdentity {
    fn clone(&self) -> (r: Self)
        ensures
            r == *self,
    {
        RunIdentity { run_id: self.run_id.clone(), lock_inode: self.lock_inode }
    }
}

/// The journal that a credential is for.
#[derive(Debug)]
pub struct PairedJournal {
    pub instance_id: String,
    pub ca_fp_prefix: Vec<u8>,
}

/// The version that was last fetched.
#[derive(Debug, PartialEq, Eq)]
pub struct JournalVersionRecord {
    pub schema_version: u32,
    pub instance_id: String,
    pub ca_fp_prefix_hex: String,
    pub version: String,
    pub confirmed: bool,
    pub run_id: String,
    pub lock_inode: u64,
}

pub ghost struct RecordView {
    pub schema_version: u32,
    pub instance_id: Seq<char>,
    pub ca_fp_prefix_hex: Seq<char>,
    pub version: Seq<char>,
    pub confirmed: bool,
    pub run: RunView,
}

impl View for JournalVersionRecord {
    type V = RecordView;

    open spec fn view(&self) -> RecordView {
        RecordView {
            schema_version: self.schema_version,
            instance_id: self.instance_id@,
            ca_fp_prefix_hex: self.ca_fp_prefix_hex@,
            version: self.version@,
            confirmed: self.confirmed,
            run: RunView { run_id: self.run_id@, lock_inode: self.lock_inode },
        }
    }
}

impl Clone for JournalVersionRecord {
    fn clone(&self) -> (r: Self)
        ensures
            r == *self,
    {
        JournalVersionRecord {
            schema_version: self.schema_version,
            instance_id: self.instance_id.clone(),
            ca_fp_prefix_hex: self.ca_fp_prefix_hex.clone(),
            version: self.version.clone(),
            confirmed: self.confirmed,
            run_id: self.run_id.clone(),
            lock_inode: self.lock_inode,
        }
    }
}

pub open spec fn record_view(record: Option<JournalVersionRecord>) -> Option<RecordView> {
    match record {
        Some(record) => Some(record@),
        None => None,
    }
}

// ---------------------------------------------------------------------------
// Display
// ---------------------------------------------------------------------------

/// `s` without control characters and with every number sign doubled, as tmux wants
/// it.
pub open spec fn terminal_text(s: Seq<char>) -> Seq<char>
    decreases s.len(),
{
    if s.len() == 0 {
        Seq::empty()
    } else {
        let before = terminal_text(s.drop_last());
        let c = s.last();
        if is_control(c) {
            before
        } else if c == '#' {
            before.push('#').push('#')
        } else {
            before.push(c)
        }
    }
}

pub fn sanitize_for_terminal(value: &str) -> (r: String)
    ensures
        r@ == terminal_text(value@),
{
    let chars = chars_of(value);
    let mut out: String = String::new();
    let mut i: usize = 0;
    proof {
        assert(value@.take(0) =~= Seq::<char>::empty());
        assert(out@ =~= Seq::<char>::empty());
    }
    while i < chars.len()
        invariant
            i <= chars@.len(),
            chars@ == value@,
            out@ == terminal_text(value@.take(i as int)),
        decreases chars@.len() - i,
    {
        let c = chars[i];
        proof {
            assert(value@.take(i + 1).drop_last() =~= value@.take(i as int));
            assert(value@.take(i + 1).last() == c);
        }
        if !char_is_control(c) {
            if c == '#' {
                out.push('#');
            }
            out.push(c);
        }
        i = i + 1;
    }
    proof {
        assert(value@.take(value@.len() as int) =~= value@);
    }
    out
}

/// What is shown holds no control character.
pub proof fn lemma_terminal_text_is_clean(s: Seq<char>)
    ensures
        !has_control(terminal_text(s)),
    decreases s.len(),
{
    if s.len() > 0 {
        lemma_terminal_text_is_clean(s.drop_last());
        let before = terminal_text(s.drop_last());
        let after = terminal_text(s);
        assert forall|i: int| 0 <= i < after.len() implies !is_control(#[trigger] after[i]) by {
            if i < before.len() {
                assert(after[i] == before[i]);
            }
        }
    }
}

/// What is known of the journal's version.
#[derive(Clone, Debug, PartialEq, Eq)]
pub enum JournalVersionStatus {
    Unknown,
    LastKnown(String),
    Current(String),
}

pub ghost enum StatusView {
    Unknown,
    LastKnown(Seq<char>),
    Current(Seq<char>),
}

impl View for JournalVersionStatus {
    type V = StatusView;

    open spec fn view(&self) -> StatusView {
        match *self {
            JournalVersionStatus::Unknown => StatusView::Unknown,
            JournalVersionStatus::LastKnown(version) => StatusView::LastKnown(version@),
            JournalVersionStatus::Current(version) => StatusView::Current(version@),
        }
    }
}

impl JournalVersionStatus {
    pub fn render(&self) -> (r: String)
        ensures
            r@ == match self@ {
                StatusView::Unknown => "unknown"@,
                StatusView::LastKnown(version) => terminal_text(version) + " (last known)"@,
                StatusView::Current(version) => terminal_text(version),
            },
    {
        match self {
            JournalVersionStatus::Unknown => copy("unknown"),
            JournalVersionStatus::LastKnown(version) => concat(
                sanitize_for_terminal(version.as_str()).as_str(),
                " (last known)",
            ),
            JournalVersionStatus::Current(version) => sanitize_for_terminal(version.as_str()),
        }
    }
}

// ---------------------------------------------------------------------------
// What is known
// ---------------------------------------------------------------------------

/// The record is of the journal that the credential is for.
pub open spec fn is_of_journal(record: RecordView, journal: PairedJournal) -> bool {
    record.instance_id == journal.instance_id@ && record.ca_fp_prefix_hex == hex_text(
        journal.ca_fp_prefix@,
    )
}

/// A live run reports a connection.
pub open spec fn is_connected(health: Option<HealthState>) -> bool {
    health is Some && (health->0 is Connected || health->0 is Syncing)
}

/// What is known of the version: nothing without a record of the paired journal. It
/// is current only where this very run confirmed it and is connected.
pub open spec fn version_status(
    record: Option<RecordView>,
    journal: Option<PairedJournal>,
    running: Option<RunView>,
    health: Option<HealthState>,
) -> StatusView {
    if record is None || journal is None || !is_of_journal(record->0, journal->0) {
        StatusView::Unknown
    } else if running == Some(record->0.run) && record->0.confirmed && is_connected(
        health,
    ) {
        StatusView::Current(record->0.version)
    } else {
        StatusView::LastKnown(record->0.version)
    }
}

pub open spec fn run_view(run: Option<RunIdentity>) -> Option<RunView> {
    match run {
        Some(run) => Some(run@),
        None => None,
    }
}

fn is_run(running: &Option<RunIdentity>, run_id: &str, lock_inode: u64) -> (r: bool)
    ensures
        r == (run_view(*running) == Some(RunView { run_id: run_id@, lock_inode })),
{
    match running {
        Some(run) => same_text(run.run_id.as_str(), run_id) && run.lock_inode == lock_inode,
        None => false,
    }
}

/// What is known of the journal's version. `journal` is the paired one, `running` the
/// run that holds the lock, and `health` what it reports, where that is live.
pub fn read_journal_version(
    record: Option<JournalVersionRecord>,
    journal: &Option<PairedJournal>,
    running: &Option<RunIdentity>,
    health: Option<HealthState>,
) -> (r: JournalVersionStatus)
    ensures
        r@ == version_status(record_view(record), *journal, run_view(*running), health),
{
    let record = match record {
        Some(record) => record,
        None => return JournalVersionStatus::Unknown,
    };
    let journal = match journal {
        Some(journal) => journal,
        None => return JournalVersionStatus::Unknown,
    };
    let prefix = hex_string(journal.ca_fp_prefix.as_slice());
    if !same_text(record.instance_id.as_str(), journal.instance_id.as_str()) || !same_text(
        record.ca_fp_prefix_hex.as_str(),
        prefix.as_str(),
    ) {
        return JournalVersionStatus::Unknown;
    }
    let connected = match health {
        Some(health) => reports_connection(health),
        None => false,
    };
    if is_run(running, record.run_id.as_str(), record.lock_inode) && record.confirmed && connected {
        JournalVersionStatus::Current(record.version)
    } else {
        JournalVersionStatus::LastKnown(record.version)
    }
}

/// The version is called current only where it was confirmed for this journal by the
/// run that is on, and that run is connected.
pub proof fn lemma_current_needs_all_signals(
    record: Option<RecordView>,
    journal: Option<PairedJournal>,
    running: Option<RunView>,
    health: Option<HealthState>,
)
    requires
        version_status(record, journal, running, health) is Current,
    ensures
        is_connected(health),
        record is Some && record->0.confirmed,
        running == Some(record->0.run),
        journal is Some && is_of_journal(record->0, journal->0),
{
}

// ---------------------------------------------------------------------------
// Refreshing
// ---------------------------------------------------------------------------

/// The record after a fetch: confirmed where a version came, else what was known,
/// unconfirmed, where it is of this journal.
pub open spec fn refreshed_record(
    existing: Option<RecordView>,
    instance_id: Seq<char>,
    ca_fp_prefix_hex: Seq<char>,
    run: RunView,
    fetched: Option<Seq<char>>,
) -> Option<RecordView> {
    match fetched {
        Some(version) => Some(
            RecordView {
                schema_version: SCHEMA_VERSION,
                instance_id,
                ca_fp_prefix_hex,
                version,
                confirmed: true,
                run,
            },
        ),
        None => match existing {
            Some(record) => if record.instance_id == instance_id && record.ca_fp_prefix_hex
                == ca_fp_prefix_hex {
                Some(RecordView { confirmed: false, run, ..record })
            } else {
                None
            },
            None => None,
        },
    }
}

/// The record after a fetch.
pub fn record_for_attempt(
    existing: Option<JournalVersionRecord>,
    instance_id: &str,
    ca_fp_prefix_hex: &str,
    run_identity: &RunIdentity,
    fetched: Option<String>,
) -> (r: Option<JournalVersionRecord>)
    ensures
        record_view(r) == refreshed_record(
            record_view(existing),
            instance_id@,
            ca_fp_prefix_hex@,
            run_identity@,
            opt_text(fetched),
        ),
{
    match fetched {
        Some(version) => Some(
            JournalVersionRecord {
                schema_version: SCHEMA_VERSION,
                instance_id: copy(instance_id),
                ca_fp_prefix_hex: copy(ca_fp_prefix_hex),
                version,
                confirmed: true,
                run_id: run_identity.run_id.clone(),
                lock_inode: run_identity.lock_inode,
            },
        ),
        None => match existing {
            Some(record) => {
                if !same_text(record.instance_id.as_str(), instance_id) || !same_text(
                    record.ca_fp_prefix_hex.as_str(),
                    ca_fp_prefix_hex,
                ) {
                    return None;
                }
                Some(
                    JournalVersionRecord {
                        schema_version: record.schema_version,
                        instance_id: record.instance_id,
                        ca_fp_prefix_hex: record.ca_fp_prefix_hex,
                        version: record.version,
                        confirmed: false,
                        run_id: run_identity.run_id.clone(),
                        lock_inode: run_identity.lock_inode,
                    },
                )
            },
            None => None,
        },
    }
}

/// Who fetches the version, and how often that was begun.
#[derive(Debug)]
pub struct VersionRefreshState {
    pub instance_id: String,
    pub ca_fp_prefix_hex: String,
    pub run_identity: RunIdentity,
    pub generation: u64,
}

/// The lock is held by this run and the credential is for this journal.
pub open spec fn is_live(
    state: VersionRefreshState,
    running: Option<RunView>,
    journal: Option<PairedJournal>,
) -> bool {
    &&& running == Some(state.run_identity@)
    &&& journal is Some
    &&& journal->0.instance_id@ == state.instance_id@
    &&& hex_text(journal->0.ca_fp_prefix@) == state.ca_fp_prefix_hex@
}

/// The record to store after a fetch; nothing where the fetch was overtaken, or run or
/// journal have changed.
pub open spec fn record_to_store(
    state: VersionRefreshState,
    generation: u64,
    running: Option<RunView>,
    journal: Option<PairedJournal>,
    existing: Option<RecordView>,
    fetched: Option<Seq<char>>,
) -> Option<RecordView> {
    if state.generation != generation || !is_live(state, running, journal) {
        None
    } else {
        refreshed_record(
            existing,
            state.instance_id@,
            state.ca_fp_prefix_hex@,
            state.run_identity@,
            fetched,
        )
    }
}

/// The number of the fetch after that one, around the limit.
pub open spec fn next_generation(generation: u64) -> u64 {
    if generation == u64::MAX {
        0
    } else {
        (generation + 1) as u64
    }
}

impl VersionRefreshState {
    pub fn new(instance_id: String, ca_fp_prefix: &[u8], run_identity: RunIdentity) -> (r: Self)
        ensures
            r.instance_id == instance_id,
            r.ca_fp_prefix_hex@ == hex_text(ca_fp_prefix@),
            r.run_identity == run_identity,
            r.generation == 0,
    {
        VersionRefreshState {
            instance_id,
            ca_fp_prefix_hex: hex_string(ca_fp_prefix),
            run_identity,
            generation: 0,
        }
    }

    /// Begins a fetch. Every earlier one is overtaken.
    pub fn begin_refresh(&mut self) -> (r: u64)
        ensures
            r == final(self).generation,
            final(self).generation == next_generation(old(self).generation),
            final(self).instance_id == old(self).instance_id,
            final(self).ca_fp_prefix_hex == old(self).ca_fp_prefix_hex,
            final(self).run_identity == old(self).run_identity,
    {
        self.generation = self.generation.wrapping_add(1);
        self.generation
    }

    /// Whether no later fetch has begun.
    pub fn is_current(&self, generation: u64) -> (r: bool)
        ensures
            r == (self.generation == generation),
    {
        self.generation == generation
    }

    pub fn identity_and_credential_live(
        &self,
        running: &Option<RunIdentity>,
        journal: &Option<PairedJournal>,
    ) -> (r: bool)
        ensures
            r == is_live(*self, run_view(*running), *journal),
    {
        let running_this = is_run(
            running,
            self.run_identity.run_id.as_str(),
            self.run_identity.lock_inode,
        );
        match journal {
            Some(journal) => running_this && same_text(
                journal.instance_id.as_str(),
                self.instance_id.as_str(),
            ) && same_text(
                hex_string(journal.ca_fp_prefix.as_slice()).as_str(),
                self.ca_fp_prefix_hex.as_str(),
            ),
            None => false,
        }
    }

    /// The record to store after the fetch of that generation, which brought `fetched`
    /// or nothing.
    pub fn validate(
        &self,
        generation: u64,
        running: &Option<RunIdentity>,
        journal: &Option<PairedJournal>,
        existing: Option<JournalVersionRecord>,
        fetched: Option<String>,
    ) -> (r: Option<JournalVersionRecord>)
        ensures
            record_view(r) == record_to_store(
                *self,
                generation,
                run_view(*running),
                *journal,
                record_view(existing),
                opt_text(fetched),
            ),
    {
        if self.generation != generation {
            return None;
        }
        if !self.identity_and_credential_live(running, journal) {
            return None;
        }
        record_for_attempt(
            existing,
            self.instance_id.as_str(),
            self.ca_fp_prefix_hex.as_str(),
            &self.run_identity,
            fetched,
        )
    }
}

/// A fetch that a later one has overtaken stores nothing.
pub proof fn lemma_overtaken_fetch_stores_nothing(
    state: VersionRefreshState,
    generation: u64,
    running: Option<RunView>,
    journal: Option<PairedJournal>,
    existing: Option<RecordView>,
    fetched: Option<Seq<char>>,
)
    requires
        state.generation != generation,
    ensures
        record_to_store(state, generation, running, journal, existing, fetched) is None,
{
}

/// A fetch that failed keeps the version that was known and takes its confirmation
/// away; one that works confirms its own.
pub proof fn lemma_failed_fetch_keeps_version(
    state: VersionRefreshState,
    running: Option<RunView>,
    journal: Option<PairedJournal>,
    existing: RecordView,
    version: Seq<char>,
    health: Option<HealthState>,
)
    requires
        is_live(state, running, journal),
        is_connected(health),
        existing.instance_id == state.instance_id@,
        existing.ca_fp_prefix_hex == state.ca_fp_prefix_hex@,
    ensures
        ({
            let kept = record_to_store(
                state,
                state.generation,
                running,
                journal,
                Some(existing),
                None,
            );
            let renewed = record_to_store(
                state,
                state.generation,
                running,
                journal,
                kept,
                Some(version),
            );
            &&& kept is Some && kept->0.version == existing.version && !kept->0.confirmed
            &&& version_status(kept, journal, running, health) == StatusView::LastKnown(
                existing.version,
            )
            &&& version_status(renewed, journal, running, health) == StatusView::Current(version)
        }),
{
}

/// Another run, or a run for another journal, stores nothing.
pub proof fn lemma_other_run_stores_nothing(
    state: VersionRefreshState,
    generation: u64,
    running: Option<RunView>,
    journal: Option<PairedJournal>,
    existing: Option<RecordView>,
    fetched: Option<Seq<char>>,
)
    requires
        running != Some(state.run_identity@) || journal is None || journal->0.instance_id@
            != state.instance_id@,
    ensures
        record_to_store(state, generation, running, journal, existing, fetched) is None,
{
}

/// What is shown of a text is shown character by character: a control character not at
/// all, a number sign twice, and every other one as it is.
pub proof fn lemma_terminal_text_by_character(before: Seq<char>, c: char, after: Seq<char>)
    ensures
        terminal_text(before + after) == terminal_text(before) + terminal_text(after),
        is_control(c) ==> terminal_text(before + seq![c] + after) == terminal_text(before + after),
        c == '#' ==> terminal_text(before + seq![c] + after) == terminal_text(before) + seq![
            '#',
            '#',
        ] + terminal_text(after),
        !is_control(c) && c != '#' ==> terminal_text(before + seq![c] + after) == terminal_text(
            before,
        ) + seq![c] + terminal_text(after),
        terminal_text(Seq::<char>::empty()) == Seq::<char>::empty(),
    decreases after.len(),
{
    lemma_terminal_text_joined(before, after);
    lemma_terminal_text_joined(before + seq![c], after);
    lemma_terminal_text_joined(before, seq![c]);
    let one = seq![c];
    assert(one.drop_last() =~= Seq::<char>::empty());
    assert(one.last() == c);
    assert(terminal_text(one.drop_last()) =~= Seq::<char>::empty());
    if is_control(c) {
        assert(terminal_text(before) + terminal_text(one) =~= terminal_text(before));
    } else if c == '#' {
        assert(terminal_text(one) =~= seq!['#', '#']);
    } else {
        assert(terminal_text(one) =~= seq![c]);
    }
}

proof fn lemma_terminal_text_joined(a: Seq<char>, b: Seq<char>)
    ensures
        terminal_text(a + b) == terminal_text(a) + terminal_text(b),
    decreases b.len(),
{
    if b.len() == 0 {
        assert(a + b =~= a);
        assert(terminal_text(b) =~= Seq::<char>::empty());
        assert(terminal_text(a) + terminal_text(b) =~= terminal_text(a));
    } else {
        assert((a + b).drop_last() =~= a + b.drop_last());
        assert((a + b).last() == b.last());
        lemma_terminal_text_joined(a, b.drop_last());
        let front = terminal_text(b.drop_last());
        let c = b.last();
        if !is_control(c) {
            if c == '#' {
                assert((terminal_text(a) + front).push('#').push('#') =~= terminal_text(a)
                    + front.push('#').push('#'));
            } else {
                assert((terminal_text(a) + front).push(c) =~= terminal_text(a) + front.push(c));
            }
        }
    }
}

/// A record of the paired journal is always shown: as current where this very run
/// confirmed it and is connected or syncing, as last known else. A record of another
/// journal, or without a pairing, is not shown.
pub proof fn lemma_what_is_shown(
    record: RecordView,
    journal: PairedJournal,
    running: Option<RunView>,
    health: Option<HealthState>,
)
    ensures
        ({
            let own = record.instance_id == journal.instance_id@ && record.ca_fp_prefix_hex
                == hex_text(journal.ca_fp_prefix@);
            let live = running is Some && running->0.run_id == record.run.run_id
                && running->0.lock_inode == record.run.lock_inode && record.confirmed && health
                is Some && (health->0 is Connected || health->0 is Syncing);
            version_status(Some(record), Some(journal), running, health) == if !own {
                StatusView::Unknown
            } else if live {
                StatusView::Current(record.version)
            } else {
                StatusView::LastKnown(record.version)
            }
        }),
        version_status(None, Some(journal), running, health) is Unknown,
        version_status(Some(record), None, running, health) is Unknown,
{
}

/// A fetch that was not overtaken, by the run that holds the lock and for the journal that
/// is paired, stores what it brought for that journal and that run; without a version,
/// only what was known of that journal is stored again.
pub proof fn lemma_what_a_fetch_stores(
    state: VersionRefreshState,
    running: RunView,
    journal: PairedJournal,
    existing: Option<RecordView>,
    fetched: Option<Seq<char>>,
)
    requires
        running.run_id == state.run_identity@.run_id,
        running.lock_inode == state.run_identity@.lock_inode,
        journal.instance_id@ == state.instance_id@,
        hex_text(journal.ca_fp_prefix@) == state.ca_fp_prefix_hex@,
    ensures
        ({
            let stored = record_to_store(
                state,
                state.generation,
                Some(running),
                Some(journal),
                existing,
                fetched,
            );
            let known = existing is Some && existing->0.instance_id == state.instance_id@
                && existing->0.ca_fp_prefix_hex == state.ca_fp_prefix_hex@;
            &&& stored is Some <==> fetched is Some || known
            &&& stored is Some ==> {
                &&& stored->0.instance_id == state.instance_id@
                &&& stored->0.ca_fp_prefix_hex == state.ca_fp_prefix_hex@
                &&& stored->0.run == running
                &&& stored->0.confirmed == (fetched is Some)
                &&& fetched is Some ==> stored->0.version == fetched->0
                    && stored->0.schema_version == 1
                &&& fetched is None ==> stored->0.version == existing->0.version
                    && stored->0.schema_version == existing->0.schema_version
            }
        }),
{
}

/// Where the certificate of the paired journal is another one, nothing is stored.
pub proof fn lemma_other_certificate_stores_nothing(
    state: VersionRefreshState,
    generation: u64,
    running: Option<RunView>,
    journal: PairedJournal,
    existing: Option<RecordView>,
    fetched: Option<Seq<char>>,
)
    requires
        hex_text(journal.ca_fp_prefix@) != state.ca_fp_prefix_hex@,
    ensures
        record_to_store(state, generation, running, Some(journal), existing, fetched) is None,
{
}

/// What is rendered says how far the version is to be believed.
pub proof fn lemma_rendered_status(version: String, unknown: String, last: String, current: String)
    requires
        call_ensures(JournalVersionStatus::render, (&JournalVersionStatus::Unknown,), unknown),
        call_ensures(
            JournalVersionStatus::render,
            (&JournalVersionStatus::LastKnown(version),),
            last,
        ),
        call_ensures(
            JournalVersionStatus::render,
            (&JournalVersionStatus::Current(version),),
            current,
        ),
    ensures
        unknown@ == "unknown"@,
        last@ == current@ + " (last known)"@,
        !has_control(current@),
{
    lemma_terminal_text_is_clean(version@);
}

/// A fetch that is begun overtakes every earlier one: its number is another.
pub proof fn lemma_new_fetch_overtakes(state: VersionRefreshState, earlier: bool, r: bool)
    requires
        call_ensures(VersionRefreshState::is_current, (&state, state.generation), r),
        call_ensures(
            VersionRefreshState::is_current,
            (&VersionRefreshState { generation: next_generation(state.generation), ..state }, state.generation),
            earlier,
        ),
    ensures
        r,
        !earlier,
        state.generation < u64::MAX ==> next_generation(state.generation) == state.generation + 1,
{
}

} // verus!
