//! The ledger beside the captures: what the journal has acknowledged, and when a
//! segment is tried again.

use vstd::prelude::*;
use vstd::string::*;
use vstd::utf8::*;

use crate::journal::{
    acknowledged_views, assessment, descriptor_list, has_duplicate, is_custody, item_descriptors,
    lemma_listed_descriptors_are_clean, lemma_valid_receipt_covers, local_views, upload_view,
    AcknowledgedFile, FileView, LocalFile, LocalView, ReceiptFault, UploadResponse,
};
use crate::json::text_reading;
use crate::paths::{join_path, joined_path};
use crate::text::{copy, copy_option, decode_text, opt_text, same_text};

use crate::sync::removal::{digest_for, digest_pairs, digests_of, lemma_digest_found};
use crate::sync::segments::{
    candidate_views, segment_directory, segment_path, CandidateView, SegmentCandidate,
};

verus! {

/// Seconds until a segment is tried again after an answer.
pub const RETRY_SECONDS: u64 = 3600;

/// Seconds until a segment is tried again after the same answer three times, or
/// after one that says that the journal could not write it.
pub const LONG_RETRY_SECONDS: u64 = 86400;

/// The journal that this device is paired with.
#[derive(Debug, PartialEq, Eq)]
pub struct JournalIdentity {
    pub instance_id: String,
    pub ca_fp_prefix_hex: String,
    pub pairing_generation_hex: String,
}

pub ghost struct IdentityView {
    pub instance_id: Seq<char>,
    pub ca_fp_prefix_hex: Seq<char>,
    pub pairing_generation_hex: Seq<char>,
}

impl View for JournalIdentity {
    type V = IdentityView;

    open spec fn view(&self) -> IdentityView {
        IdentityView {
            instance_id: self.instance_id@,
            ca_fp_prefix_hex: self.ca_fp_prefix_hex@,
            pairing_generation_hex: self.pairing_generation_hex@,
        }
    }
}

impl Clone for JournalIdentity {
    fn clone(&self) -> (r: Self)
        ensures
            r == *self,
    {
        JournalIdentity {
            instance_id: self.instance_id.clone(),
            ca_fp_prefix_hex: self.ca_fp_prefix_hex.clone(),
            pairing_generation_hex: self.pairing_generation_hex.clone(),
        }
    }
}

// ---------------------------------------------------------------------------
// Acknowledgements
// ---------------------------------------------------------------------------

/// The record of an acknowledged segment.
#[derive(Clone, Debug, PartialEq, Eq)]
pub struct AckRecord {
    pub location: String,
    pub day: String,
    pub stream: String,
    pub segment: String,
    pub stored_key: String,
    pub instance_id: String,
    pub ca_fp_prefix_hex: String,
    pub pairing_generation_hex: String,
    pub proof: String,
    pub files: Vec<AcknowledgedFile>,
}

pub ghost struct AckView {
    pub location: Seq<char>,
    pub candidate: CandidateView,
    pub stored_key: Seq<char>,
    pub identity: IdentityView,
    pub evidence: Seq<char>,
    pub files: Seq<FileView>,
}

impl View for AckRecord {
    type V = AckView;

    open spec fn view(&self) -> AckView {
        AckView {
            location: self.location@,
            candidate: CandidateView {
                day: self.day@,
                stream: self.stream@,
                segment: self.segment@,
            },
            stored_key: self.stored_key@,
            identity: IdentityView {
                instance_id: self.instance_id@,
                ca_fp_prefix_hex: self.ca_fp_prefix_hex@,
                pairing_generation_hex: self.pairing_generation_hex@,
            },
            evidence: self.proof@,
            files: acknowledged_views(self.files@),
        }
    }
}

impl AckRecord {
    /// The digest that each file must have to be removed.
    pub fn digests(&self) -> (r: Vec<(String, String)>)
        ensures
            r@.map_values(|p: (String, String)| (p.0@, p.1@)) == digest_pairs(self@.files),
    {
        digests_of(&self.files)
    }
}

/// The file of a segment's ledger entry.
pub open spec fn ledger_file(root: Seq<u8>, c: CandidateView, name: Seq<char>) -> Seq<u8> {
    join_path(segment_path(root, c), encode_utf8(name))
}

/// The path of a segment's acknowledgement.
pub fn ack_path(ledger_root: &[u8], candidate: &SegmentCandidate) -> (r: Vec<u8>)
    ensures
        r@ == ledger_file(ledger_root@, candidate@, "ack.json"@),
{
    let directory = segment_directory(ledger_root, candidate);
    let name = "ack.json";
    joined_path(directory.as_slice(), name.as_bytes())
}

/// The path of a segment's retry state.
pub fn state_path(ledger_root: &[u8], candidate: &SegmentCandidate) -> (r: Vec<u8>)
    ensures
        r@ == ledger_file(ledger_root@, candidate@, "state.json"@),
{
    let directory = segment_directory(ledger_root, candidate);
    let name = "state.json";
    joined_path(directory.as_slice(), name.as_bytes())
}

/// The acknowledgement of a segment, where its path is text.
pub open spec fn ack_view(
    root: Seq<u8>,
    c: CandidateView,
    identity: IdentityView,
    stored_key: Seq<char>,
    files: Seq<FileView>,
) -> Option<AckView> {
    let path = ledger_file(root, c, "ack.json"@);
    if valid_utf8(path) {
        Some(
            AckView {
                location: decode_utf8(path),
                candidate: c,
                stored_key,
                identity,
                evidence: "upload"@,
                files,
            },
        )
    } else {
        None
    }
}

/// The record to write for an acknowledged segment; nothing where its path is no
/// text.
pub fn build_ack_record(
    ledger_root: &[u8],
    candidate: &SegmentCandidate,
    identity: &JournalIdentity,
    stored_key: &str,
    files: Vec<AcknowledgedFile>,
) -> (r: Option<AckRecord>)
    ensures
        match r {
            Some(record) => ack_view(
                ledger_root@,
                candidate@,
                identity@,
                stored_key@,
                acknowledged_views(files@),
            ) == Some(record@) && record.files == files,
            None => ack_view(
                ledger_root@,
                candidate@,
                identity@,
                stored_key@,
                acknowledged_views(files@),
            ) is None,
        },
{
    let path = ack_path(ledger_root, candidate);
    match decode_text(path.as_slice()) {
        Ok(location) => Some(
            AckRecord {
                location,
                day: copy(candidate.day()),
                stream: copy(candidate.stream()),
                segment: copy(candidate.segment()),
                stored_key: copy(stored_key),
                instance_id: identity.instance_id.clone(),
                ca_fp_prefix_hex: identity.ca_fp_prefix_hex.clone(),
                pairing_generation_hex: identity.pairing_generation_hex.clone(),
                proof: copy("upload"),
                files,
            },
        ),
        Err(_) => None,
    }
}

/// What becomes of an acknowledgement that was read.
#[derive(Clone, Copy, Debug, PartialEq, Eq, Structural)]
pub enum AckVerdict {
    /// It proves custody of the local files.
    Accepted,
    /// It is not for this segment and this journal.
    Ignored,
    /// It is, and does not prove custody: it is removed.
    Discarded,
}

/// The record is for this segment, in its place, from this journal.
pub open spec fn ack_belongs(
    ack: AckView,
    root: Seq<u8>,
    c: CandidateView,
    identity: IdentityView,
) -> bool {
    let path = ledger_file(root, c, "ack.json"@);
    &&& valid_utf8(path)
    &&& ack.location == decode_utf8(path)
    &&& ack.evidence == "upload"@
    &&& ack.candidate == c
    &&& ack.identity == identity
}

/// Two files of the record have one name.
pub open spec fn repeats(files: Seq<FileView>) -> bool {
    exists|i: int, j: int|
        0 <= i < j < files.len() && (#[trigger] files[i]).submitted == (#[trigger] files[j]).submitted
}

/// The record says that the journal holds the local file.
pub open spec fn proves(files: Seq<FileView>, local: LocalView) -> bool {
    exists|i: int| 0 <= i < files.len() && is_held(#[trigger] files[i], local)
}

/// The file is the local one, and the journal wrote it or had it.
pub open spec fn is_held(file: FileView, local: LocalView) -> bool {
    &&& file.submitted == local.name
    &&& file.size == local.size
    &&& file.sha256 == local.sha256
    &&& (file.disposition == "written"@ || file.disposition == "already_held"@)
}

pub open spec fn proves_all(files: Seq<FileView>, locals: Seq<LocalView>) -> bool {
    forall|i: int| 0 <= i < locals.len() ==> proves(files, #[trigger] locals[i])
}

pub open spec fn ack_verdict(
    ack: AckView,
    root: Seq<u8>,
    c: CandidateView,
    identity: IdentityView,
    locals: Seq<LocalView>,
) -> AckVerdict {
    if !ack_belongs(ack, root, c, identity) {
        AckVerdict::Ignored
    } else if repeats(ack.files) || !proves_all(ack.files, locals) {
        AckVerdict::Discarded
    } else {
        AckVerdict::Accepted
    }
}

fn any_repeated(files: &Vec<AcknowledgedFile>) -> (r: bool)
    ensures
        r == repeats(acknowledged_views(files@)),
{
    let ghost all = acknowledged_views(files@);
    let mut j: usize = 0;
    while j < files.len()
        invariant
            j <= files@.len(),
            all == acknowledged_views(files@),
            forall|a: int, b: int|
                0 <= a < b < j ==> (#[trigger] all[a]).submitted != (#[trigger] all[b]).submitted,
        decreases files@.len() - j,
    {
        let mut i: usize = 0;
        while i < j
            invariant
                i <= j < files@.len(),
                all == acknowledged_views(files@),
                forall|a: int| 0 <= a < i ==> (#[trigger] all[a]).submitted != all[j as int].submitted,
            decreases j - i,
        {
            if same_text(files[i].submitted.as_str(), files[j].submitted.as_str()) {
                proof {
                    assert(all[i as int].submitted == all[j as int].submitted);
                }
                return true;
            }
            i = i + 1;
        }
        j = j + 1;
    }
    false
}

fn local_is_proved(files: &Vec<AcknowledgedFile>, local: &LocalFile) -> (r: bool)
    ensures
        r == proves(acknowledged_views(files@), local@),
{
    let ghost all = acknowledged_views(files@);
    let mut i: usize = 0;
    while i < files.len()
        invariant
            i <= files@.len(),
            all == acknowledged_views(files@),
            forall|a: int| 0 <= a < i ==> !is_held(#[trigger] all[a], local@),
        decreases files@.len() - i,
    {
        let file = &files[i];
        if same_text(file.submitted.as_str(), local.name.as_str()) && (same_text(
            file.disposition.as_str(),
            "written",
        ) || same_text(file.disposition.as_str(), "already_held")) && file.size == local.size
            && same_text(file.sha256.as_str(), local.sha256.as_str()) {
            proof {
                assert(is_held(all[i as int], local@));
            }
            return true;
        }
        i = i + 1;
    }
    false
}

/// Whether a record that was read proves that the journal holds the local files.
pub fn check_ack_record(
    ack: &AckRecord,
    ledger_root: &[u8],
    candidate: &SegmentCandidate,
    identity: &JournalIdentity,
    local_files: &Vec<LocalFile>,
) -> (r: AckVerdict)
    ensures
        r == ack_verdict(
            ack@,
            ledger_root@,
            candidate@,
            identity@,
            local_views(local_files@),
        ),
{
    let path = ack_path(ledger_root, candidate);
    let location = match decode_text(path.as_slice()) {
        Ok(location) => location,
        Err(_) => return AckVerdict::Ignored,
    };
    if !same_text(ack.location.as_str(), location.as_str()) || !same_text(
        ack.proof.as_str(),
        "upload",
    ) || !same_text(ack.day.as_str(), candidate.day()) || !same_text(
        ack.stream.as_str(),
        candidate.stream(),
    ) || !same_text(ack.segment.as_str(), candidate.segment()) || !same_text(
        ack.instance_id.as_str(),
        identity.instance_id.as_str(),
    ) || !same_text(ack.ca_fp_prefix_hex.as_str(), identity.ca_fp_prefix_hex.as_str())
        || !same_text(
        ack.pairing_generation_hex.as_str(),
        identity.pairing_generation_hex.as_str(),
    ) {
        return AckVerdict::Ignored;
    }
    if any_repeated(&ack.files) {
        return AckVerdict::Discarded;
    }
    let ghost locals = local_views(local_files@);
    let mut i: usize = 0;
    while i < local_files.len()
        invariant
            i <= local_files@.len(),
            locals == local_views(local_files@),
            ack_belongs(ack@, ledger_root@, candidate@, identity@),
            !repeats(ack@.files),
            forall|j: int| 0 <= j < i ==> proves(ack@.files, #[trigger] locals[j]),
        decreases local_files@.len() - i,
    {
        if !local_is_proved(&ack.files, &local_files[i]) {
            proof {
                assert(!proves(ack@.files, locals[i as int]));
            }
            return AckVerdict::Discarded;
        }
        i = i + 1;
    }
    AckVerdict::Accepted
}

/// What a valid receipt makes the library write is accepted when it is read back for
/// the same segment, journal and files.
pub proof fn lemma_written_ack_is_accepted(
    root: Seq<u8>,
    c: CandidateView,
    identity: IdentityView,
    stored_key: Seq<char>,
    files: Seq<FileView>,
    locals: Seq<LocalView>,
)
    requires
        ack_view(root, c, identity, stored_key, files) is Some,
        !repeats(files),
        proves_all(files, locals),
    ensures
        ack_verdict(
            ack_view(root, c, identity, stored_key, files)->0,
            root,
            c,
            identity,
            locals,
        ) == AckVerdict::Accepted,
{
}

/// From an answer to custody: where the answer to an upload is a valid receipt for the
/// local files, the acknowledgement that is written for it is accepted when it is read
/// back.
pub proof fn lemma_receipt_leads_to_accepted_ack(
    response: Option<UploadResponse>,
    root: Seq<u8>,
    c: CandidateView,
    identity: IdentityView,
    stored_key: Seq<char>,
    locals: Seq<LocalView>,
)
    requires
        upload_view(response) is Ok,
        assessment(upload_view(response)->Ok_0, locals) is Valid,
        ack_view(
            root,
            c,
            identity,
            stored_key,
            assessment(upload_view(response)->Ok_0, locals)->Valid_0,
        ) is Some,
    ensures
        ({
            let files = assessment(upload_view(response)->Ok_0, locals)->Valid_0;
            ack_verdict(
                ack_view(root, c, identity, stored_key, files)->0,
                root,
                c,
                identity,
                locals,
            ) == AckVerdict::Accepted
        }),
{
    let result = upload_view(response)->Ok_0;
    let files = assessment(result, locals)->Valid_0;
    lemma_valid_receipt_covers(result, locals);
    let text = opt_text(response->0.file_descriptors)->0;
    assert(descriptor_list(text) == Ok::<Seq<FileView>, ReceiptFault>(files));
    let items = text_reading(text)->0->Array_0;
    assert(item_descriptors(items) == Ok::<Seq<FileView>, ReceiptFault>(files));
    assert forall|i: int| 0 <= i < locals.len() implies proves(files, #[trigger] locals[i]) by {
        let j = choose|j: int|
            0 <= j < files.len() && is_custody(#[trigger] files[j], locals[i]);
        lemma_listed_descriptors_are_clean(items, j);
        assert(is_held(files[j], locals[i]));
    }
    assert(!repeats(files)) by {
        assert(!has_duplicate(files));
        if repeats(files) {
            let (i, j) = choose|i: int, j: int|
                0 <= i < j < files.len() && (#[trigger] files[i]).submitted == (
                #[trigger] files[j]).submitted;
            assert(files[i].submitted == files[j].submitted);
        }
    }
    lemma_written_ack_is_accepted(root, c, identity, stored_key, files, locals);
}

/// An acknowledgement is accepted only for the segment, the journal and the place
/// that it names, and only where it covers every local file.
pub proof fn lemma_accepted_ack_proves_custody(
    ack: AckView,
    root: Seq<u8>,
    c: CandidateView,
    identity: IdentityView,
    locals: Seq<LocalView>,
)
    requires
        ack_verdict(ack, root, c, identity, locals) == AckVerdict::Accepted,
    ensures
        ack.candidate == c,
        ack.identity == identity,
        proves_all(ack.files, locals),
{
}

/// What a removal holds the files against, where an acknowledgement was accepted, are
/// their own digests: for each local file the one that it was found with.
pub proof fn lemma_accepted_ack_gives_local_digests(
    ack: AckView,
    root: Seq<u8>,
    c: CandidateView,
    identity: IdentityView,
    locals: Seq<LocalView>,
    digests: Seq<(String, String)>,
    i: int,
)
    requires
        ack_verdict(ack, root, c, identity, locals) == AckVerdict::Accepted,
        digests.map_values(|p: (String, String)| (p.0@, p.1@)) == digest_pairs(ack.files),
        0 <= i < locals.len(),
    ensures
        digest_for(digests, locals[i].name) == Some(locals[i].sha256),
{
    let pairs = digests.map_values(|p: (String, String)| (p.0@, p.1@));
    let files = ack.files;
    assert(pairs.len() == files.len());
    assert(proves(files, locals[i]));
    let j = choose|j: int| 0 <= j < files.len() && is_held(#[trigger] files[j], locals[i]);
    assert(pairs[j] == (files[j].submitted, files[j].sha256));
    assert(digests[j].0@ == locals[i].name);
    assert forall|k: int| 0 <= k < digests.len() && (#[trigger] digests[k]).0@ == locals[i].name implies digests[k].1@
        == locals[i].sha256 by {
        assert(pairs[k] == (files[k].submitted, files[k].sha256));
        assert(pairs[k] == (digests[k].0@, digests[k].1@));
        if k < j {
            assert(files[k].submitted == files[j].submitted);
        } else if j < k {
            assert(files[j].submitted == files[k].submitted);
        }
    }
    lemma_digest_found(digests, locals[i].name, locals[i].sha256);
}

/// The acknowledgement for a segment that the journal says was removed there: each
/// local file as it is.
pub open spec fn removed_views(locals: Seq<LocalView>) -> Seq<FileView> {
    locals.map_values(
        |local: LocalView|
            FileView {
                submitted: local.name,
                written: local.name,
                size: local.size,
                sha256: local.sha256,
                disposition: "written"@,
            },
    )
}

pub fn removed_files(local_files: &Vec<LocalFile>) -> (r: Vec<AcknowledgedFile>)
    ensures
        acknowledged_views(r@) == removed_views(local_views(local_files@)),
{
    let ghost expected = removed_views(local_views(local_files@));
    let mut out: Vec<AcknowledgedFile> = Vec::new();
    let mut i: usize = 0;
    while i < local_files.len()
        invariant
            i <= local_files@.len(),
            expected == removed_views(local_views(local_files@)),
            acknowledged_views(out@) =~= expected.take(i as int),
        decreases local_files@.len() - i,
    {
        let local = &local_files[i];
        let ghost before = acknowledged_views(out@);
        let file = AcknowledgedFile {
            submitted: local.name.clone(),
            written: local.name.clone(),
            size: local.size,
            sha256: local.sha256.clone(),
            disposition: copy("written"),
        };
        out.push(file);
        proof {
            assert(local_views(local_files@)[i as int] == local@);
            assert(acknowledged_views(out@) =~= before.push(file@));
            assert(expected.take(i + 1) =~= expected.take(i as int).push(expected[i as int]));
        }
        i = i + 1;
    }
    proof {
        assert(expected.take(local_files@.len() as int) =~= expected);
    }
    out
}

/// The acknowledgement of a removed segment proves every local file.
pub proof fn lemma_removed_files_prove_all(locals: Seq<LocalView>)
    ensures
        proves_all(removed_views(locals), locals),
{
    assert forall|i: int| 0 <= i < locals.len() implies proves(
        removed_views(locals),
        #[trigger] locals[i],
    ) by {
        assert(is_held(removed_views(locals)[i], locals[i]));
    }
}

// ---------------------------------------------------------------------------
// Retry state
// ---------------------------------------------------------------------------

/// When a segment is tried again, and the answer it got. The last three fields are
/// read from old ledgers and never written.
#[derive(Debug, PartialEq, Eq)]
pub struct StateRecord {
    pub next_attempt_unix: Option<i64>,
    pub next_attempt_interval_seconds: Option<u64>,
    pub answer: Option<String>,
    pub answer_count: u32,
    pub terminal_keep: Option<JournalIdentity>,
    pub retention_recheck_unix: Option<i64>,
    pub retention_recheck_interval_seconds: Option<u64>,
}

pub ghost struct StateView {
    pub next_attempt_unix: Option<i64>,
    pub next_attempt_interval_seconds: Option<u64>,
    pub answer: Option<Seq<char>>,
    pub answer_count: u32,
    pub terminal_keep: Option<IdentityView>,
    pub retention_recheck_unix: Option<i64>,
    pub retention_recheck_interval_seconds: Option<u64>,
}

impl StateView {
    /// A field of an old ledger is there.
    pub open spec fn is_outdated(self) -> bool {
        self.terminal_keep is Some || self.retention_recheck_unix is Some
            || self.retention_recheck_interval_seconds is Some
    }
}

impl View for StateRecord {
    type V = StateView;

    open spec fn view(&self) -> StateView {
        StateView {
            next_attempt_unix: self.next_attempt_unix,
            next_attempt_interval_seconds: self.next_attempt_interval_seconds,
            answer: opt_text(self.answer),
            answer_count: self.answer_count,
            terminal_keep: match self.terminal_keep {
                Some(identity) => Some(identity@),
                None => None,
            },
            retention_recheck_unix: self.retention_recheck_unix,
            retention_recheck_interval_seconds: self.retention_recheck_interval_seconds,
        }
    }
}

/// Nothing is known of the segment.
pub open spec fn fresh_state() -> StateView {
    StateView {
        next_attempt_unix: None,
        next_attempt_interval_seconds: None,
        answer: None,
        answer_count: 0,
        terminal_keep: None,
        retention_recheck_unix: None,
        retention_recheck_interval_seconds: None,
    }
}

impl Default for StateRecord {
    fn default() -> (r: Self)
        ensures
            r@ == fresh_state(),
    {
        StateRecord {
            next_attempt_unix: None,
            next_attempt_interval_seconds: None,
            answer: None,
            answer_count: 0,
            terminal_keep: None,
            retention_recheck_unix: None,
            retention_recheck_interval_seconds: None,
        }
    }
}

impl Clone for StateRecord {
    fn clone(&self) -> (r: Self)
        ensures
            r == *self,
    {
        StateRecord {
            next_attempt_unix: self.next_attempt_unix,
            next_attempt_interval_seconds: self.next_attempt_interval_seconds,
            answer: copy_option(&self.answer),
            answer_count: self.answer_count,
            terminal_keep: match &self.terminal_keep {
                Some(identity) => Some(identity.clone()),
                None => None,
            },
            retention_recheck_unix: self.retention_recheck_unix,
            retention_recheck_interval_seconds: self.retention_recheck_interval_seconds,
        }
    }
}

/// What is done with the file that a state was read from.
#[derive(Clone, Copy, Debug, PartialEq, Eq, Structural)]
pub enum StateUpkeep {
    Keep,
    Remove,
    Rewrite,
}

/// The state without the fields of an old ledger.
pub open spec fn current_state(state: StateView) -> StateView {
    StateView {
        terminal_keep: None,
        retention_recheck_unix: None,
        retention_recheck_interval_seconds: None,
        ..state
    }
}

/// The state to go on with, and what is done with the file it was read from. A
/// record that could not be read is nothing.
pub fn tidy_state_record(record: Option<StateRecord>) -> (r: (StateRecord, StateUpkeep))
    ensures
        match record {
            None => r.0@ == fresh_state() && r.1 == StateUpkeep::Keep,
            Some(record) => r.0@ == current_state(record@) && r.1 == if !record@.is_outdated() {
                StateUpkeep::Keep
            } else if current_state(record@) == fresh_state() {
                StateUpkeep::Remove
            } else {
                StateUpkeep::Rewrite
            },
        },
{
    let record = match record {
        Some(record) => record,
        None => return (StateRecord::default(), StateUpkeep::Keep),
    };
    if record.terminal_keep.is_none() && record.retention_recheck_unix.is_none()
        && record.retention_recheck_interval_seconds.is_none() {
        return (record, StateUpkeep::Keep);
    }
    let upkeep = if record.next_attempt_unix.is_none()
        && record.next_attempt_interval_seconds.is_none() && record.answer.is_none()
        && record.answer_count == 0 {
        StateUpkeep::Remove
    } else {
        StateUpkeep::Rewrite
    };
    (
        StateRecord {
            next_attempt_unix: record.next_attempt_unix,
            next_attempt_interval_seconds: record.next_attempt_interval_seconds,
            answer: record.answer,
            answer_count: record.answer_count,
            terminal_keep: None,
            retention_recheck_unix: None,
            retention_recheck_interval_seconds: None,
        },
        upkeep,
    )
}

/// The retry interval of a state as a signed number of seconds.
pub open spec fn retry_interval(state: StateView) -> i64 {
    match state.next_attempt_interval_seconds {
        Some(seconds) => seconds as i64,
        None => RETRY_SECONDS as i64,
    }
}

/// The clock can be moved on by the state's retry interval.
pub open spec fn interval_fits(state: StateView, now: i64) -> bool {
    state.next_attempt_unix is Some ==> i64::MIN <= now + retry_interval(state) <= i64::MAX
}

/// Whether the clock can be moved on by the state's retry interval.
pub fn check_interval(state: &StateRecord, now: i64) -> (r: bool)
    ensures
        r == interval_fits(state@, now),
{
    if state.next_attempt_unix.is_none() {
        return true;
    }
    let interval: i64 = match state.next_attempt_interval_seconds {
        Some(seconds) => seconds as i64,
        None => RETRY_SECONDS as i64,
    };
    if interval >= 0 {
        now <= i64::MAX - interval
    } else {
        now >= i64::MIN - interval
    }
}

/// The time before which a segment is not tried: what the ledger says, but never
/// further off than its interval, or what is remembered since a write failed,
/// whichever is later.
pub open spec fn next_attempt_time(state: StateView, floor: Option<i64>, now: i64) -> int {
    let stored = match state.next_attempt_unix {
        Some(at) => Some(
            if at < now + retry_interval(state) {
                at as int
            } else {
                now + retry_interval(state)
            },
        ),
        None => None,
    };
    match (stored, floor) {
        (Some(at), Some(floor)) => if at < floor {
            floor as int
        } else {
            at
        },
        (Some(at), None) => at,
        (None, Some(floor)) => floor as int,
        (None, None) => 0,
    }
}

pub fn next_attempt(state: &StateRecord, floor: Option<i64>, now: i64) -> (r: i64)
    requires
        interval_fits(state@, now),
    ensures
        r == next_attempt_time(state@, floor, now),
{
    let stored = match state.next_attempt_unix {
        Some(at) => {
            let interval: i64 = match state.next_attempt_interval_seconds {
                Some(seconds) => seconds as i64,
                None => RETRY_SECONDS as i64,
            };
            let limit: i64 = now + interval;
            Some(
                if at < limit {
                    at
                } else {
                    limit
                },
            )
        },
        None => None,
    };
    match (stored, floor) {
        (Some(at), Some(floor)) => if at < floor {
            floor
        } else {
            at
        },
        (Some(at), None) => at,
        (None, Some(floor)) => floor,
        (None, None) => 0,
    }
}

/// A segment that nothing is known of may be tried at once.
pub proof fn lemma_fresh_state_is_due(now: i64)
    requires
        now >= 0,
    ensures
        next_attempt_time(fresh_state(), None, now) <= now,
{
}

/// The ledger cannot put a segment off for longer than the interval that it names.
pub proof fn lemma_wait_is_bounded(state: StateView, now: i64)
    requires
        interval_fits(state, now),
        state.next_attempt_unix is Some,
    ensures
        next_attempt_time(state, None, now) <= now + retry_interval(state),
{
}

/// How often the answer has come, this time included.
pub open spec fn answer_count_after(state: StateView, answer: Seq<char>) -> u32 {
    if state.answer == Some(answer) {
        if state.answer_count < u32::MAX {
            (state.answer_count + 1) as u32
        } else {
            u32::MAX
        }
    } else {
        1
    }
}

/// Seconds until the next try after an answer that came so often.
pub open spec fn interval_after(count: u32) -> u64 {
    if count >= 3 {
        LONG_RETRY_SECONDS
    } else {
        RETRY_SECONDS
    }
}

/// The state after an answer that keeps the segment here.
pub open spec fn answered_state(state: StateView, answer: Seq<char>, now: i64) -> StateView {
    let count = answer_count_after(state, answer);
    StateView {
        next_attempt_unix: Some((now + interval_after(count)) as i64),
        next_attempt_interval_seconds: Some(interval_after(count)),
        answer: Some(answer),
        answer_count: count,
        ..state
    }
}

/// The state after the journal said that it could not write what it received.
pub open spec fn unwritten_state(state: StateView, answer: Seq<char>, now: i64) -> StateView {
    StateView {
        next_attempt_unix: Some((now + LONG_RETRY_SECONDS) as i64),
        next_attempt_interval_seconds: Some(LONG_RETRY_SECONDS),
        answer: Some(answer),
        answer_count: 1,
        ..state
    }
}

/// The answer is written into the state, with the time of the next try.
pub fn record_answer(state: &mut StateRecord, answer: String, now: i64)
    requires
        now <= i64::MAX - LONG_RETRY_SECONDS,
    ensures
        final(state)@ == answered_state(old(state)@, answer@, now),
{
    let repeated = match &state.answer {
        Some(before) => same_text(before.as_str(), answer.as_str()),
        None => false,
    };
    if repeated {
        if state.answer_count < u32::MAX {
            state.answer_count = state.answer_count + 1;
        }
    } else {
        state.answer = Some(answer);
        state.answer_count = 1;
    }
    let interval: u64 = if state.answer_count >= 3 {
        LONG_RETRY_SECONDS
    } else {
        RETRY_SECONDS
    };
    state.next_attempt_unix = Some(now + interval as i64);
    state.next_attempt_interval_seconds = Some(interval);
}

/// As `record_answer`, where the journal could not write what it received.
pub fn record_unwritten(state: &mut StateRecord, answer: String, now: i64)
    requires
        now <= i64::MAX - LONG_RETRY_SECONDS,
    ensures
        final(state)@ == unwritten_state(old(state)@, answer@, now),
{
    state.answer = Some(answer);
    state.answer_count = 1;
    state.next_attempt_unix = Some(now + LONG_RETRY_SECONDS as i64);
    state.next_attempt_interval_seconds = Some(LONG_RETRY_SECONDS);
}

/// After an answer the segment is not due before the interval has passed.
pub proof fn lemma_answered_segment_waits(state: StateView, answer: Seq<char>, now: i64, later: i64)
    requires
        now <= i64::MAX - 2 * LONG_RETRY_SECONDS,
        now <= later < now + RETRY_SECONDS,
    ensures
        next_attempt_time(answered_state(state, answer, now), None, later) > later,
        next_attempt_time(unwritten_state(state, answer, now), None, later) > later,
{
}

/// The third time in a row that an answer comes, the wait is the long one.
pub proof fn lemma_third_answer_waits_long(state: StateView, answer: Seq<char>, now: i64)
    requires
        now <= i64::MAX - LONG_RETRY_SECONDS,
        state.answer != Some(answer),
    ensures
        ({
            let first = answered_state(state, answer, now);
            let second = answered_state(first, answer, now);
            let third = answered_state(second, answer, now);
            &&& first.next_attempt_interval_seconds == Some(RETRY_SECONDS)
            &&& second.next_attempt_interval_seconds == Some(RETRY_SECONDS)
            &&& third.next_attempt_interval_seconds == Some(LONG_RETRY_SECONDS)
        }),
{
}

// ---------------------------------------------------------------------------
// Upkeep
// ---------------------------------------------------------------------------

/// The entries that belong to no segment that is still there.
pub open spec fn stale_entries(found: Seq<CandidateView>, active: Seq<CandidateView>) -> Seq<
    CandidateView,
>
    decreases found.len(),
{
    if found.len() == 0 {
        Seq::empty()
    } else {
        let before = stale_entries(found.drop_last(), active);
        if active.contains(found.last()) {
            before
        } else {
            before.push(found.last())
        }
    }
}

/// Whether the candidate is in the list.
pub fn contains_candidate(candidates: &Vec<SegmentCandidate>, candidate: &SegmentCandidate) -> (r:
    bool)
    ensures
        r == candidate_views(candidates@).contains(candidate@),
{
    let mut i: usize = 0;
    while i < candidates.len()
        invariant
            i <= candidates@.len(),
            forall|j: int| 0 <= j < i ==> candidate_views(candidates@)[j] != candidate@,
        decreases candidates@.len() - i,
    {
        if candidates[i].same(candidate) {
            proof {
                assert(candidate_views(candidates@)[i as int] == candidate@);
            }
            return true;
        }
        i = i + 1;
    }
    false
}

/// The ledger entries to remove: those of segments that are gone.
pub fn prune_ledger_dirs(found: &Vec<SegmentCandidate>, active: &Vec<SegmentCandidate>) -> (r: Vec<
    SegmentCandidate,
>)
    ensures
        candidate_views(r@) == stale_entries(candidate_views(found@), candidate_views(active@)),
{
    let ghost all = candidate_views(found@);
    let ghost kept = candidate_views(active@);
    let mut out: Vec<SegmentCandidate> = Vec::new();
    let mut i: usize = 0;
    proof {
        assert(all.take(0) =~= Seq::<CandidateView>::empty());
        assert(candidate_views(out@) =~= Seq::<CandidateView>::empty());
    }
    while i < found.len()
        invariant
            i <= found@.len(),
            all == candidate_views(found@),
            kept == candidate_views(active@),
            candidate_views(out@) == stale_entries(all.take(i as int), kept),
        decreases found@.len() - i,
    {
        proof {
            assert(all.take(i + 1).drop_last() =~= all.take(i as int));
            assert(all.take(i + 1).last() == found@[i as int]@);
        }
        if !contains_candidate(active, &found[i]) {
            let ghost before = candidate_views(out@);
            out.push(found[i].clone());
            proof {
                assert(candidate_views(out@) =~= before.push(found@[i as int]@));
            }
        }
        i = i + 1;
    }
    proof {
        assert(all.take(found@.len() as int) =~= all);
    }
    out
}

/// The ledger entry of a segment that is still there is never removed.
pub proof fn lemma_active_entries_stay(
    found: Seq<CandidateView>,
    active: Seq<CandidateView>,
    c: CandidateView,
)
    requires
        active.contains(c),
    ensures
        !stale_entries(found, active).contains(c),
    decreases found.len(),
{
    if found.len() > 0 {
        lemma_active_entries_stay(found.drop_last(), active, c);
        let before = stale_entries(found.drop_last(), active);
        if !active.contains(found.last()) {
            let after = before.push(found.last());
            assert forall|i: int| 0 <= i < after.len() implies #[trigger] after[i] != c by {
                if i < before.len() {
                    assert(before[i] == after[i]);
                    assert(before.contains(before[i]));
                }
            }
        }
    }
}

/// A segment that an answer put off is due again exactly when its interval has passed:
/// not before, and at every time after.
pub proof fn lemma_answered_segment_comes_due(
    state: StateView,
    answer: Seq<char>,
    now: i64,
    later: i64,
)
    requires
        now <= i64::MAX - 2 * LONG_RETRY_SECONDS,
        now <= later <= i64::MAX - LONG_RETRY_SECONDS,
    ensures
        ({
            let put_off = answered_state(state, answer, now);
            let wait = if put_off.answer_count >= 3 {
                86400int
            } else {
                3600int
            };
            &&& put_off.next_attempt_unix == Some((now + wait) as i64)
            &&& next_attempt_time(put_off, None, later) <= later <==> later >= now + wait
        }),
        ({
            let put_off = unwritten_state(state, answer, now);
            &&& put_off.next_attempt_unix == Some((now + 86400) as i64)
            &&& next_attempt_time(put_off, None, later) <= later <==> later >= now + 86400
        }),
{
}

/// An answer is kept and counted: the same one again counts up, another one starts at
/// one.
pub proof fn lemma_answers_are_counted(state: StateView, answer: Seq<char>, now: i64)
    ensures
        answered_state(state, answer, now).answer == Some(answer),
        state.answer == Some(answer) && state.answer_count < u32::MAX ==> answered_state(
            state,
            answer,
            now,
        ).answer_count == state.answer_count + 1,
        state.answer != Some(answer) ==> answered_state(state, answer, now).answer_count == 1,
        unwritten_state(state, answer, now).answer == Some(answer),
        unwritten_state(state, answer, now).answer_count == 1,
{
}

/// What is remembered since a write failed puts a segment off as well as the ledger does:
/// it is due only once both times have passed.
pub proof fn lemma_both_times_must_pass(state: StateView, floor: i64, now: i64)
    requires
        interval_fits(state, now),
    ensures
        next_attempt_time(state, Some(floor), now) <= now <==> floor <= now && (
        state.next_attempt_unix is None || next_attempt_time(state, None, now) <= now),
        state.next_attempt_unix is Some && state.next_attempt_unix->0 <= now ==> next_attempt_time(
            state,
            None,
            now,
        ) <= now,
        state.next_attempt_unix is Some && state.next_attempt_unix->0 > now && retry_interval(state)
            > 0 ==> next_attempt_time(state, None, now) > now,
{
}

/// A clock that was set back cannot put a segment off for longer than its interval: a
/// time further away counts as the interval from now.
pub proof fn lemma_clock_set_back(state: StateView, now: i64)
    requires
        interval_fits(state, now),
        state.next_attempt_unix is Some,
    ensures
        state.next_attempt_interval_seconds is Some && state.next_attempt_interval_seconds->0
            <= i64::MAX as u64 ==> next_attempt_time(state, None, now) <= now
            + state.next_attempt_interval_seconds->0,
        state.next_attempt_interval_seconds is None ==> next_attempt_time(state, None, now) <= now
            + 3600,
        next_attempt_time(state, None, now) <= state.next_attempt_unix->0,
{
}

/// What an old ledger left is dropped, and everything else of the state is kept.
pub proof fn lemma_tidied_state_is_current(state: StateView)
    ensures
        !current_state(state).is_outdated(),
        !state.is_outdated() ==> current_state(state) == state,
        current_state(state).next_attempt_unix == state.next_attempt_unix,
        current_state(state).next_attempt_interval_seconds == state.next_attempt_interval_seconds,
        current_state(state).answer == state.answer,
        current_state(state).answer_count == state.answer_count,
{
}

/// Every entry of a segment that is gone is pruned, and no other.
pub proof fn lemma_stale_entries_are_pruned(
    found: Seq<CandidateView>,
    active: Seq<CandidateView>,
    c: CandidateView,
)
    ensures
        stale_entries(found, active).contains(c) <==> found.contains(c) && !active.contains(c),
    decreases found.len(),
{
    if found.len() > 0 {
        let before = found.drop_last();
        lemma_stale_entries_are_pruned(before, active, c);
        assert(found =~= before.push(found.last()));
        let kept = stale_entries(before, active);
        if found.contains(c) && !before.contains(c) {
            let i = choose|i: int| 0 <= i < found.len() && found[i] == c;
            if i < before.len() {
                assert(before[i] == c);
            }
        }
        if before.contains(c) {
            let i = choose|i: int| 0 <= i < before.len() && before[i] == c;
            assert(found[i] == c);
        }
        if !active.contains(found.last()) {
            let all = kept.push(found.last());
            assert(all[all.len() - 1] == found.last());
            assert(found[found.len() - 1] == found.last());
            if kept.contains(c) {
                let i = choose|i: int| 0 <= i < kept.len() && kept[i] == c;
                assert(all[i] == c);
            }
            if all.contains(c) && c != found.last() {
                let i = choose|i: int| 0 <= i < all.len() && all[i] == c;
                assert(kept[i] == c);
            }
        } else if c == found.last() {
        }
    }
}

/// An acknowledgement that is not accepted is removed only where it is for this segment
/// and this journal and proves too little; one of another journal or place is left.
pub proof fn lemma_foreign_ack_is_left(
    ack: AckView,
    root: Seq<u8>,
    c: CandidateView,
    identity: IdentityView,
    locals: Seq<LocalView>,
)
    ensures
        ack.candidate != c || ack.identity != identity ==> ack_verdict(
            ack,
            root,
            c,
            identity,
            locals,
        ) == AckVerdict::Ignored,
        ack_verdict(ack, root, c, identity, locals) == AckVerdict::Discarded ==> ack.candidate == c
            && ack.identity == identity,
{
}

/// An acknowledgement that was read as it is written proves each file by its name, size
/// and digest, written or already held; one file without that is enough to discard it.
pub proof fn lemma_unproved_file_discards_ack(
    root: Seq<u8>,
    c: CandidateView,
    identity: IdentityView,
    stored_key: Seq<char>,
    files: Seq<FileView>,
    locals: Seq<LocalView>,
    i: int,
)
    requires
        ack_view(root, c, identity, stored_key, files) is Some,
        0 <= i < locals.len(),
        forall|j: int|
            0 <= j < files.len() ==> (#[trigger] files[j]).submitted != locals[i].name
                || files[j].size != locals[i].size || files[j].sha256 != locals[i].sha256 || (
            files[j].disposition != "written"@ && files[j].disposition != "already_held"@),
    ensures
        ack_verdict(
            ack_view(root, c, identity, stored_key, files)->0,
            root,
            c,
            identity,
            locals,
        ) == AckVerdict::Discarded,
{
    if proves(files, locals[i]) {
        let j = choose|j: int| 0 <= j < files.len() && is_held(#[trigger] files[j], locals[i]);
        assert(files[j].submitted == locals[i].name);
    }
}

/// An acknowledgement that was written for this segment is accepted where no file stands
/// in it twice and each local file stands in some place of it: with its name, size and
/// digest, written or already held. One in which a file stands twice is discarded.
pub proof fn lemma_complete_ack_is_accepted(
    root: Seq<u8>,
    c: CandidateView,
    identity: IdentityView,
    stored_key: Seq<char>,
    files: Seq<FileView>,
    locals: Seq<LocalView>,
    places: Seq<int>,
)
    requires
        ack_view(root, c, identity, stored_key, files) is Some,
        places.len() == locals.len(),
        forall|k: int|
            #![trigger locals[k]]
            0 <= k < locals.len() ==> 0 <= places[k] < files.len() && files[places[k]].submitted
                == locals[k].name && files[places[k]].size == locals[k].size
                && files[places[k]].sha256 == locals[k].sha256 && (files[places[k]].disposition
                == "written"@ || files[places[k]].disposition == "already_held"@),
    ensures
        ({
            let verdict = ack_verdict(
                ack_view(root, c, identity, stored_key, files)->0,
                root,
                c,
                identity,
                locals,
            );
            let twice = exists|i: int, j: int|
                0 <= i < j < files.len() && (#[trigger] files[i]).submitted == (
                #[trigger] files[j]).submitted;
            &&& !twice ==> verdict == AckVerdict::Accepted
            &&& twice ==> verdict == AckVerdict::Discarded
        }),
{
    assert forall|k: int| 0 <= k < locals.len() implies proves(files, #[trigger] locals[k]) by {
        assert(is_held(files[places[k]], locals[k]));
    }
}

/// An acknowledgement that was written in another place, for another segment or for another
/// journal is never this segment's.
pub proof fn lemma_ack_of_another_place(ack: AckView, root: Seq<u8>, c: CandidateView, identity: IdentityView, locals: Seq<LocalView>)
    ensures
        valid_utf8(ledger_file(root, c, "ack.json"@)) && ack.location != decode_utf8(
            ledger_file(root, c, "ack.json"@),
        ) ==> ack_verdict(ack, root, c, identity, locals) == AckVerdict::Ignored,
        ack.evidence != "upload"@ ==> ack_verdict(ack, root, c, identity, locals)
            == AckVerdict::Ignored,
        ack.identity.instance_id != identity.instance_id || ack.identity.ca_fp_prefix_hex
            != identity.ca_fp_prefix_hex || ack.identity.pairing_generation_hex
            != identity.pairing_generation_hex ==> ack_verdict(ack, root, c, identity, locals)
            == AckVerdict::Ignored,
{
}

/// The file of a state is kept where it is current, removed where nothing of it is, and
/// written anew else; the state to go on with is the current part of it, or a fresh one.
pub proof fn lemma_upkeep_of_a_state(record: Option<StateRecord>, r: (StateRecord, StateUpkeep))
    requires
        call_ensures(tidy_state_record, (record,), r),
    ensures
        record is None ==> r.1 == StateUpkeep::Keep && r.0@.next_attempt_unix is None
            && r.0@.answer is None && r.0@.answer_count == 0,
        record is Some ==> {
            let state = record->0@;
            let outdated = state.terminal_keep is Some || state.retention_recheck_unix is Some
                || state.retention_recheck_interval_seconds is Some;
            let current = state.next_attempt_unix is Some || state.next_attempt_interval_seconds
                is Some || state.answer is Some || state.answer_count != 0;
            &&& r.1 == StateUpkeep::Keep <==> !outdated
            &&& r.1 == StateUpkeep::Remove <==> outdated && !current
            &&& r.1 == StateUpkeep::Rewrite <==> outdated && current
            &&& r.0@.next_attempt_unix == state.next_attempt_unix
            &&& r.0@.next_attempt_interval_seconds == state.next_attempt_interval_seconds
            &&& r.0@.answer == state.answer
            &&& r.0@.answer_count == state.answer_count
            &&& r.0@.terminal_keep is None
            &&& r.0@.retention_recheck_unix is None
        },
{
}

/// What the journal removed is acknowledged as if each file had been written, under its
/// own name.
pub proof fn lemma_removed_files_are_those_here(locals: Seq<LocalView>, i: int)
    requires
        0 <= i < locals.len(),
    ensures
        removed_views(locals).len() == locals.len(),
        removed_views(locals)[i].submitted == locals[i].name,
        removed_views(locals)[i].written == locals[i].name,
        removed_views(locals)[i].size == locals[i].size,
        removed_views(locals)[i].sha256 == locals[i].sha256,
        removed_views(locals)[i].disposition == "written"@,
{
}

/// An interval fits exactly where the clock can be moved on by it; without a stored time
/// there is nothing to move on to.
pub proof fn lemma_when_an_interval_fits(state: StateRecord, now: i64, r: bool)
    requires
        call_ensures(check_interval, (&state, now), r),
    ensures
        state.next_attempt_unix is None ==> r,
        state.next_attempt_unix is Some && state.next_attempt_interval_seconds is None ==> (r
            <==> now + 3600 <= i64::MAX),
        state.next_attempt_unix is Some && state.next_attempt_interval_seconds is Some
            && state.next_attempt_interval_seconds->0 <= i64::MAX as u64 ==> (r <==> now
            + state.next_attempt_interval_seconds->0 <= i64::MAX),
{
}

} // verus!
