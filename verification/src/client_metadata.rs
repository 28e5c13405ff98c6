//! What this device tells the journal of itself, and what it learns of the journal.

use vstd::prelude::*;
use vstd::string::*;

use crate::cli::version;
use crate::json::{
    field, field_text, field_texts, json_reading, read_json, text_reading, JsonNode, JsonView,
};
use crate::paths::PlatformKind;
use crate::text::{
    any_control, byte_len, byte_length, chars_of, copy_option, has_control, is_control, is_space,
    lemma_trim_takes_space_away, opt_text, same_option, trim, trimmed,
};

verus! {

pub const METADATA_PROTOCOL_VERSION: u32 = 1;

pub const MAX_NAME_BYTES: usize = 80;

pub const MAX_FIELD_BYTES: usize = 64;

/// What a device reports of itself.
#[derive(Debug, PartialEq, Eq)]
pub struct ClientsSelfReportedSnapshot {
    pub name: Option<String>,
    pub platform: Option<String>,
    pub device_type: Option<String>,
    pub app_id: Option<String>,
    pub app_version: Option<String>,
}

pub ghost struct SnapshotView {
    pub name: Option<Seq<char>>,
    pub platform: Option<Seq<char>>,
    pub device_type: Option<Seq<char>>,
    pub app_id: Option<Seq<char>>,
    pub app_version: Option<Seq<char>>,
}

impl View for ClientsSelfReportedSnapshot {
    type V = SnapshotView;

    open spec fn view(&self) -> SnapshotView {
        SnapshotView {
            name: opt_text(self.name),
            platform: opt_text(self.platform),
            device_type: opt_text(self.device_type),
            app_id: opt_text(self.app_id),
            app_version: opt_text(self.app_version),
        }
    }
}

impl Clone for ClientsSelfReportedSnapshot {
    fn clone(&self) -> (r: Self)
        ensures
            r == *self,
    {
        ClientsSelfReportedSnapshot {
            name: copy_option(&self.name),
            platform: copy_option(&self.platform),
            device_type: copy_option(&self.device_type),
            app_id: copy_option(&self.app_id),
            app_version: copy_option(&self.app_version),
        }
    }
}

impl ClientsSelfReportedSnapshot {
    /// Whether the two say the same.
    pub fn same(&self, other: &Self) -> (r: bool)
        ensures
            r == (self@ == other@),
    {
        same_option(&self.name, &other.name) && same_option(&self.platform, &other.platform)
            && same_option(&self.device_type, &other.device_type) && same_option(
            &self.app_id,
            &other.app_id,
        ) && same_option(&self.app_version, &other.app_version)
    }
}

#[derive(Clone, Debug, PartialEq, Eq)]
pub struct ClientsSelfJournalInfo {
    pub name: String,
    pub version: String,
}

/// What the journal holds of this device.
#[derive(Clone, Debug, PartialEq, Eq)]
pub struct ClientsSelfGetResponse {
    pub protocol_version: u32,
    pub revision: u64,
    pub reported: Option<ClientsSelfReportedSnapshot>,
    pub owner_label: Option<String>,
    pub display_label: Option<String>,
    pub updated_at: Option<String>,
    pub journal: ClientsSelfJournalInfo,
}

/// What this device asks the journal to hold of it.
#[derive(Clone, Debug, PartialEq, Eq)]
pub struct ClientsSelfPutRequest {
    pub protocol_version: u32,
    pub expected_revision: u64,
    pub reported: ClientsSelfReportedSnapshot,
}

// ---------------------------------------------------------------------------
// The snapshot
// ---------------------------------------------------------------------------

/// A field as it is reported: trimmed, and nothing where that leaves nothing, a
/// control character or too many bytes.
pub open spec fn sanitized(value: Seq<char>, max_bytes: usize) -> Option<Seq<char>> {
    let text = trim(value);
    if text.len() == 0 || has_control(text) || byte_len(text) > max_bytes {
        None
    } else {
        Some(text)
    }
}

pub fn sanitize_field(value: &str, max_bytes: usize) -> (r: Option<String>)
    ensures
        opt_text(r) == sanitized(value@, max_bytes),
{
    let text = trimmed(value);
    if chars_of(text.as_str()).len() == 0 {
        return None;
    }
    if any_control(text.as_str()) {
        return None;
    }
    if byte_length(text.as_str()) > max_bytes {
        return None;
    }
    Some(text)
}

/// A reported field is never empty, holds no control character and keeps its bound.
pub proof fn lemma_reported_field_is_clean(value: Seq<char>, max_bytes: usize)
    requires
        sanitized(value, max_bytes) is Some,
    ensures
        sanitized(value, max_bytes)->0.len() > 0,
        !has_control(sanitized(value, max_bytes)->0),
        byte_len(sanitized(value, max_bytes)->0) <= max_bytes,
{
}

/// What a device of that name and platform reports.
pub open spec fn snapshot_of(hostname: Option<Seq<char>>, platform: PlatformKind) -> SnapshotView {
    SnapshotView {
        name: match hostname {
            Some(hostname) => sanitized(hostname, MAX_NAME_BYTES),
            None => None,
        },
        platform: sanitized(platform.pairing_name(), MAX_FIELD_BYTES),
        device_type: sanitized("terminal"@, MAX_FIELD_BYTES),
        app_id: sanitized("solstone-tmux"@, MAX_FIELD_BYTES),
        app_version: sanitized("0.1.0"@, MAX_FIELD_BYTES),
    }
}

/// What a device of that name and platform reports.
pub fn reported_snapshot(hostname: Option<String>, platform: PlatformKind) -> (r:
    ClientsSelfReportedSnapshot)
    ensures
        r@ == snapshot_of(opt_text(hostname), platform),
{
    let name = match hostname {
        Some(hostname) => sanitize_field(hostname.as_str(), MAX_NAME_BYTES),
        None => None,
    };
    ClientsSelfReportedSnapshot {
        name,
        platform: sanitize_field(platform.pairing_platform(), MAX_FIELD_BYTES),
        device_type: sanitize_field("terminal", MAX_FIELD_BYTES),
        app_id: sanitize_field("solstone-tmux", MAX_FIELD_BYTES),
        app_version: sanitize_field(version(), MAX_FIELD_BYTES),
    }
}

/// What this device reports, under the name that `hostname_source` gives it.
pub fn build_reported_snapshot<F: Fn() -> Option<String>>(
    hostname_source: F,
    platform: PlatformKind,
) -> (r: ClientsSelfReportedSnapshot)
    requires
        hostname_source.requires(()),
    ensures
        exists|hostname: Option<String>| #[trigger]
            hostname_source.ensures((), hostname) && r@ == snapshot_of(
                opt_text(hostname),
                platform,
            ),
{
    let hostname = hostname_source();
    reported_snapshot(hostname, platform)
}

// ---------------------------------------------------------------------------
// Answers
// ---------------------------------------------------------------------------

/// The field is there.
pub open spec fn has_field(fields: Seq<(Seq<char>, Seq<char>)>, key: Seq<char>) -> bool {
    field(fields, key) is Some
}

/// A reported snapshot in full, or none at all.
pub open spec fn is_reported_shape(value: Option<JsonView>) -> bool {
    match value {
        Some(JsonView::Null) => true,
        Some(JsonView::Object(fields)) => {
            &&& has_field(fields, "name"@)
            &&& has_field(fields, "platform"@)
            &&& has_field(fields, "device_type"@)
            &&& has_field(fields, "app_id"@)
            &&& has_field(fields, "app_version"@)
        },
        _ => false,
    }
}

pub open spec fn is_journal_shape(value: Option<JsonView>) -> bool {
    match value {
        Some(JsonView::Object(fields)) => has_field(fields, "name"@) && has_field(
            fields,
            "version"@,
        ),
        _ => false,
    }
}

/// Every field of an answer is there, those that hold nothing included.
pub open spec fn is_answer_shape(value: Option<JsonView>) -> bool {
    match value {
        Some(JsonView::Object(fields)) => {
            &&& has_field(fields, "reported"@)
            &&& has_field(fields, "owner_label"@)
            &&& has_field(fields, "display_label"@)
            &&& has_field(fields, "updated_at"@)
            &&& has_field(fields, "journal"@)
            &&& is_reported_shape(text_reading(field(fields, "reported"@)->0))
            &&& is_journal_shape(text_reading(field(fields, "journal"@)->0))
        },
        _ => false,
    }
}

fn field_is_there(fields: &Vec<(String, String)>, key: &str) -> (r: bool)
    ensures
        r == has_field(field_texts(fields@), key@),
{
    field_text(fields, key).is_some()
}

/// Whether a JSON document is a reported snapshot in full, or null.
pub fn check_reported_shape(value: &Option<JsonNode>) -> (r: bool)
    ensures
        r == is_reported_shape(crate::json::node_view(*value)),
{
    match value {
        Some(JsonNode::Null) => true,
        Some(JsonNode::Object(fields)) => {
            field_is_there(fields, "name") && field_is_there(fields, "platform") && field_is_there(
                fields,
                "device_type",
            ) && field_is_there(fields, "app_id") && field_is_there(fields, "app_version")
        },
        _ => false,
    }
}

/// Whether a JSON document is what the journal says of itself.
pub fn check_journal_shape(value: &Option<JsonNode>) -> (r: bool)
    ensures
        r == is_journal_shape(crate::json::node_view(*value)),
{
    match value {
        Some(JsonNode::Object(fields)) => field_is_there(fields, "name") && field_is_there(
            fields,
            "version",
        ),
        _ => false,
    }
}

/// Whether the bytes are an answer with every field in it.
pub fn check_answer_shape(bytes: &[u8]) -> (r: bool)
    ensures
        r == is_answer_shape(json_reading(bytes@)),
{
    let fields = match read_json(bytes) {
        Some(JsonNode::Object(fields)) => fields,
        _ => return false,
    };
    if !(field_is_there(&fields, "owner_label") && field_is_there(&fields, "display_label")
        && field_is_there(&fields, "updated_at")) {
        return false;
    }
    match (field_text(&fields, "reported"), field_text(&fields, "journal")) {
        (Some(reported), Some(journal)) => check_reported_shape(
            &read_json(reported.as_str().as_bytes()),
        ) && check_journal_shape(&read_json(journal.as_str().as_bytes())),
        _ => false,
    }
}

/// An answer counts where every field is in it and it speaks this protocol.
pub open spec fn accepted_answer(
    whole: bool,
    response: Option<ClientsSelfGetResponse>,
) -> Option<ClientsSelfGetResponse> {
    if whole && response is Some && response->0.protocol_version == METADATA_PROTOCOL_VERSION {
        response
    } else {
        None
    }
}

pub fn accept_answer(whole: bool, response: Option<ClientsSelfGetResponse>) -> (r: Option<
    ClientsSelfGetResponse,
>)
    ensures
        r == accepted_answer(whole, response),
{
    if !whole {
        return None;
    }
    match response {
        Some(response) => if response.protocol_version == METADATA_PROTOCOL_VERSION {
            Some(response)
        } else {
            None
        },
        None => None,
    }
}

/// The answer in `bytes`; `response` is what they were read as, or nothing where they
/// could not be.
pub fn decode_get_response(bytes: &[u8], response: Option<ClientsSelfGetResponse>) -> (r: Option<
    ClientsSelfGetResponse,
>)
    ensures
        r == accepted_answer(is_answer_shape(json_reading(bytes@)), response),
{
    accept_answer(check_answer_shape(bytes), response)
}

// ---------------------------------------------------------------------------
// The job
// ---------------------------------------------------------------------------

/// What the journal says of itself, to be kept for display. A journal of an older
/// protocol has no name.
#[derive(Clone, Debug, PartialEq, Eq)]
pub struct JournalInfo {
    pub name: Option<String>,
    pub version: String,
}

pub ghost struct InfoView {
    pub name: Option<Seq<char>>,
    pub version: Seq<char>,
}

impl View for JournalInfo {
    type V = InfoView;

    open spec fn view(&self) -> InfoView {
        InfoView { name: opt_text(self.name), version: self.version@ }
    }
}

pub ghost struct AnswerView {
    pub protocol_version: u32,
    pub revision: u64,
    pub reported: Option<SnapshotView>,
    pub owner_label: Option<Seq<char>>,
    pub display_label: Option<Seq<char>>,
    pub updated_at: Option<Seq<char>>,
    pub name: Seq<char>,
    pub version: Seq<char>,
}

impl View for ClientsSelfGetResponse {
    type V = AnswerView;

    open spec fn view(&self) -> AnswerView {
        AnswerView {
            protocol_version: self.protocol_version,
            revision: self.revision,
            reported: match self.reported {
                Some(snapshot) => Some(snapshot@),
                None => None,
            },
            owner_label: opt_text(self.owner_label),
            display_label: opt_text(self.display_label),
            updated_at: opt_text(self.updated_at),
            name: self.journal.name@,
            version: self.journal.version@,
        }
    }
}

/// What the job does after it has kept what the journal says of itself.
#[derive(Clone, Copy, Debug, PartialEq, Eq, Structural)]
pub enum AfterPublish {
    Sample { retry: bool },
    Finish,
}

/// What the job does next.
#[derive(Clone, Copy, Debug, PartialEq, Eq, Structural)]
pub enum MetadataStep {
    /// Ask what the journal holds of this device.
    Getting,
    /// Ask a journal of an older protocol for its status.
    Probing,
    /// Keep what the journal says of itself.
    Publishing(AfterPublish),
    /// Take a snapshot of this device.
    Sampling { retry: bool },
    /// Send the snapshot.
    Putting { retry: bool },
    /// Ask again, since the journal's revision was not the expected one.
    Rereading,
    Finished { succeeded: bool },
}

/// What came of it. `current` says whether the attempt still counts. An exchange that
/// failed, and a body that is no answer, are nothing.
#[derive(Debug)]
pub enum MetadataEvent {
    Got { answer: Option<(u16, Option<ClientsSelfGetResponse>)>, current: bool },
    Probed(Option<String>),
    Published,
    Sampled { snapshot: ClientsSelfReportedSnapshot, current: bool },
    PutAnswered { answer: Option<(u16, Option<ClientsSelfGetResponse>)>, current: bool },
}

pub ghost enum MetadataEventView {
    Got { answer: Option<(u16, Option<AnswerView>)>, current: bool },
    Probed(Option<Seq<char>>),
    Published,
    Sampled { snapshot: SnapshotView, current: bool },
    PutAnswered { answer: Option<(u16, Option<AnswerView>)>, current: bool },
}

pub open spec fn exchange_view(answer: Option<(u16, Option<ClientsSelfGetResponse>)>) -> Option<
    (u16, Option<AnswerView>),
> {
    match answer {
        Some((status, Some(response))) => Some((status, Some(response@))),
        Some((status, None)) => Some((status, None)),
        None => None,
    }
}

impl View for MetadataEvent {
    type V = MetadataEventView;

    open spec fn view(&self) -> MetadataEventView {
        match *self {
            MetadataEvent::Got { answer, current } => MetadataEventView::Got {
                answer: exchange_view(answer),
                current,
            },
            MetadataEvent::Probed(version) => MetadataEventView::Probed(opt_text(version)),
            MetadataEvent::Published => MetadataEventView::Published,
            MetadataEvent::Sampled { snapshot, current } => MetadataEventView::Sampled {
                snapshot: snapshot@,
                current,
            },
            MetadataEvent::PutAnswered { answer, current } => MetadataEventView::PutAnswered {
                answer: exchange_view(answer),
                current,
            },
        }
    }
}

/// A job under way.
#[derive(Debug)]
pub struct MetadataJob {
    pub step: MetadataStep,
    /// The revision that the journal holds, as far as is known.
    pub revision: u64,
    /// The snapshot that the journal holds.
    pub reported: Option<ClientsSelfReportedSnapshot>,
    /// The snapshot to send.
    pub outgoing: Option<ClientsSelfReportedSnapshot>,
    /// What the journal says of itself, where that is to be kept.
    pub info: Option<JournalInfo>,
}

pub ghost struct JobView {
    pub step: MetadataStep,
    pub revision: u64,
    pub reported: Option<SnapshotView>,
    pub outgoing: Option<SnapshotView>,
    pub info: Option<InfoView>,
}

impl View for MetadataJob {
    type V = JobView;

    open spec fn view(&self) -> JobView {
        JobView {
            step: self.step,
            revision: self.revision,
            reported: match self.reported {
                Some(snapshot) => Some(snapshot@),
                None => None,
            },
            outgoing: match self.outgoing {
                Some(snapshot) => Some(snapshot@),
                None => None,
            },
            info: match self.info {
                Some(info) => Some(info@),
                None => None,
            },
        }
    }
}

pub const STATUS_NOT_FOUND: u16 = 404;

pub const STATUS_CONFLICT: u16 = 409;

/// The job ends.
pub open spec fn ended(j: JobView, succeeded: bool) -> JobView {
    JobView { step: MetadataStep::Finished { succeeded }, ..j }
}

/// What the journal says of itself is kept where it names a version; then the job
/// goes on.
pub open spec fn informed(j: JobView, answer: AnswerView, next: AfterPublish) -> JobView {
    if answer.version.len() > 0 {
        JobView {
            info: Some(InfoView { name: Some(answer.name), version: answer.version }),
            step: MetadataStep::Publishing(next),
            ..j
        }
    } else {
        JobView { step: after_publish(next), ..j }
    }
}

pub open spec fn after_publish(next: AfterPublish) -> MetadataStep {
    match next {
        AfterPublish::Sample { retry } => MetadataStep::Sampling { retry },
        AfterPublish::Finish => MetadataStep::Finished { succeeded: true },
    }
}

/// The journal said what it holds.
pub open spec fn learned(j: JobView, answer: AnswerView, retry: bool) -> JobView {
    informed(
        JobView { revision: answer.revision, reported: answer.reported, ..j },
        answer,
        AfterPublish::Sample { retry },
    )
}

/// The first question was answered.
pub open spec fn first_answer(
    j: JobView,
    answer: Option<(u16, Option<AnswerView>)>,
    current: bool,
) -> JobView {
    match answer {
        None => ended(j, false),
        Some((status, body)) => if !current {
            ended(j, true)
        } else if status == STATUS_NOT_FOUND {
            JobView { step: MetadataStep::Probing, ..j }
        } else if status != crate::journal::STATUS_OK || body is None {
            ended(j, false)
        } else {
            learned(j, body->0, false)
        },
    }
}

/// The second question was answered.
pub open spec fn second_answer(j: JobView, answer: Option<(u16, Option<AnswerView>)>) -> JobView {
    match answer {
        Some((status, Some(body))) => if status == crate::journal::STATUS_OK {
            learned(j, body, true)
        } else {
            ended(j, false)
        },
        _ => ended(j, false),
    }
}

/// What was sent was answered. A conflict is followed by one more try.
pub open spec fn put_answer(
    j: JobView,
    answer: Option<(u16, Option<AnswerView>)>,
    current: bool,
    retry: bool,
) -> JobView {
    match answer {
        None => ended(j, false),
        Some((status, body)) => if status == crate::journal::STATUS_OK {
            if body is None {
                ended(j, false)
            } else if current {
                informed(j, body->0, AfterPublish::Finish)
            } else {
                ended(j, true)
            }
        } else if status == STATUS_CONFLICT && !retry {
            JobView { step: MetadataStep::Rereading, ..j }
        } else {
            ended(j, false)
        },
    }
}

/// The job after an event. One that was not waited for changes nothing.
pub open spec fn job_next(j: JobView, event: MetadataEventView) -> JobView {
    match (j.step, event) {
        (MetadataStep::Getting, MetadataEventView::Got { answer, current }) => first_answer(
            j,
            answer,
            current,
        ),
        (MetadataStep::Rereading, MetadataEventView::Got { answer, .. }) => second_answer(
            j,
            answer,
        ),
        (MetadataStep::Probing, MetadataEventView::Probed(version)) => if version is Some && trim(
            version->0,
        ).len() > 0 {
            JobView {
                info: Some(InfoView { name: None, version: version->0 }),
                step: MetadataStep::Publishing(AfterPublish::Finish),
                ..j
            }
        } else {
            ended(j, true)
        },
        (MetadataStep::Publishing(next), MetadataEventView::Published) => JobView {
            info: None,
            step: after_publish(next),
            ..j
        },
        (
            MetadataStep::Sampling { retry },
            MetadataEventView::Sampled { snapshot, current },
        ) => if j.reported == Some(snapshot) || !current {
            ended(j, true)
        } else {
            JobView { outgoing: Some(snapshot), step: MetadataStep::Putting { retry }, ..j }
        },
        (
            MetadataStep::Putting { retry },
            MetadataEventView::PutAnswered { answer, current },
        ) => put_answer(j, answer, current, retry),
        _ => j,
    }
}

impl MetadataJob {
    pub fn new() -> (r: Self)
        ensures
            r@ == (JobView {
                step: MetadataStep::Getting,
                revision: 0,
                reported: None,
                outgoing: None,
                info: None,
            }),
    {
        MetadataJob {
            step: MetadataStep::Getting,
            revision: 0,
            reported: None,
            outgoing: None,
            info: None,
        }
    }

    fn end(&mut self, succeeded: bool)
        ensures
            final(self)@ == ended(old(self)@, succeeded),
    {
        self.step = MetadataStep::Finished { succeeded };
    }

    fn go_on(&mut self, next: AfterPublish)
        ensures
            final(self)@ == (JobView { step: after_publish(next), ..old(self)@ }),
    {
        self.step = match next {
            AfterPublish::Sample { retry } => MetadataStep::Sampling { retry },
            AfterPublish::Finish => MetadataStep::Finished { succeeded: true },
        };
    }

    fn inform(&mut self, journal: ClientsSelfJournalInfo, next: AfterPublish)
        ensures
            forall|answer: AnswerView|
                answer.name == journal.name@ && answer.version == journal.version@ ==> final(self)@
                    == #[trigger] informed(old(self)@, answer, next),
    {
        if chars_of(journal.version.as_str()).len() > 0 {
            self.info = Some(JournalInfo { name: Some(journal.name), version: journal.version });
            self.step = MetadataStep::Publishing(next);
        } else {
            self.go_on(next);
        }
    }

    fn learn(&mut self, answer: ClientsSelfGetResponse, retry: bool)
        ensures
            final(self)@ == learned(old(self)@, answer@, retry),
    {
        self.revision = answer.revision;
        self.reported = answer.reported;
        self.inform(answer.journal, AfterPublish::Sample { retry });
    }

    fn take_put_answer(
        &mut self,
        answer: Option<(u16, Option<ClientsSelfGetResponse>)>,
        current: bool,
        retry: bool,
    )
        ensures
            final(self)@ == put_answer(old(self)@, exchange_view(answer), current, retry),
    {
        match answer {
            None => self.end(false),
            Some((status, body)) => {
                if status == crate::journal::STATUS_OK {
                    match body {
                        None => self.end(false),
                        Some(response) => {
                            if current {
                                self.inform(response.journal, AfterPublish::Finish);
                            } else {
                                self.end(true);
                            }
                        },
                    }
                } else if status == STATUS_CONFLICT && !retry {
                    self.step = MetadataStep::Rereading;
                } else {
                    self.end(false);
                }
            },
        }
    }

    /// Takes an event in; `step` then says what to do next.
    pub fn advance(&mut self, event: MetadataEvent)
        ensures
            final(self)@ == job_next(old(self)@, event@),
    {
        match (self.step, event) {
            (MetadataStep::Getting, MetadataEvent::Got { answer, current }) => match answer {
                None => self.end(false),
                Some((status, body)) => {
                    if !current {
                        self.end(true);
                    } else if status == STATUS_NOT_FOUND {
                        self.step = MetadataStep::Probing;
                    } else if status != crate::journal::STATUS_OK {
                        self.end(false);
                    } else {
                        match body {
                            None => self.end(false),
                            Some(response) => self.learn(response, false),
                        }
                    }
                },
            },
            (MetadataStep::Rereading, MetadataEvent::Got { answer, current: _ }) => match answer {
                Some((status, Some(response))) => {
                    if status == crate::journal::STATUS_OK {
                        self.learn(response, true);
                    } else {
                        self.end(false);
                    }
                },
                _ => self.end(false),
            },
            (MetadataStep::Probing, MetadataEvent::Probed(version)) => match version {
                Some(version) => {
                    let told = trimmed(version.as_str());
                    if chars_of(told.as_str()).len() > 0 {
                        self.info = Some(JournalInfo { name: None, version });
                        self.step = MetadataStep::Publishing(AfterPublish::Finish);
                    } else {
                        self.end(true);
                    }
                },
                None => self.end(true),
            },
            (MetadataStep::Publishing(next), MetadataEvent::Published) => {
                self.info = None;
                self.go_on(next);
            },
            (MetadataStep::Sampling { retry }, MetadataEvent::Sampled { snapshot, current }) => {
                let unchanged = match &self.reported {
                    Some(reported) => reported.same(&snapshot),
                    None => false,
                };
                if unchanged || !current {
                    self.end(true);
                } else {
                    self.outgoing = Some(snapshot);
                    self.step = MetadataStep::Putting { retry };
                }
            },
            (MetadataStep::Putting { retry }, MetadataEvent::PutAnswered { answer, current }) => {
                self.take_put_answer(answer, current, retry);
            },
            _ => {},
        }
    }

    /// The request that is to be sent.
    pub fn put_request(&self) -> (r: Option<ClientsSelfPutRequest>)
        ensures
            match self.outgoing {
                Some(snapshot) => r is Some && r->0.protocol_version == METADATA_PROTOCOL_VERSION
                    && r->0.expected_revision == self.revision && r->0.reported == snapshot,
                None => r is None,
            },
    {
        match &self.outgoing {
            Some(snapshot) => Some(
                ClientsSelfPutRequest {
                    protocol_version: METADATA_PROTOCOL_VERSION,
                    expected_revision: self.revision,
                    reported: snapshot.clone(),
                },
            ),
            None => None,
        }
    }
}

// ---------------------------------------------------------------------------
// What the job keeps
// ---------------------------------------------------------------------------

/// How far a job has come.
pub open spec fn progress(step: MetadataStep) -> int {
    match step {
        MetadataStep::Getting => 0,
        MetadataStep::Probing => 1,
        MetadataStep::Publishing(AfterPublish::Sample { retry: false }) => 1,
        MetadataStep::Sampling { retry: false } => 2,
        MetadataStep::Putting { retry: false } => 3,
        MetadataStep::Rereading => 4,
        MetadataStep::Publishing(AfterPublish::Sample { retry: true }) => 5,
        MetadataStep::Sampling { retry: true } => 6,
        MetadataStep::Putting { retry: true } => 7,
        MetadataStep::Publishing(AfterPublish::Finish) => 8,
        MetadataStep::Finished { .. } => 9,
    }
}

/// A job only goes forward: it sends at most two snapshots, and it ends.
pub proof fn lemma_job_moves_forward(j: JobView, event: MetadataEventView)
    ensures
        job_next(j, event) == j || progress(job_next(j, event).step) > progress(j.step),
        j.step is Finished ==> job_next(j, event) == j,
{
}

/// A second snapshot is sent only after a conflict, and only after asking again.
pub proof fn lemma_retry_follows_conflict(j: JobView, event: MetadataEventView)
    requires
        job_next(j, event).step == MetadataStep::Rereading,
        j.step != MetadataStep::Rereading,
    ensures
        j.step == (MetadataStep::Putting { retry: false }),
        event matches MetadataEventView::PutAnswered { answer, .. } && answer is Some && (answer->0).0
            == STATUS_CONFLICT,
{
}

/// A snapshot is sent only while the attempt counts, and only where it differs from
/// what the journal holds.
pub proof fn lemma_put_only_while_current(j: JobView, event: MetadataEventView, retry: bool)
    requires
        job_next(j, event).step == (MetadataStep::Putting { retry }),
        j.step != job_next(j, event).step,
    ensures
        event matches MetadataEventView::Sampled { snapshot, current } && current && j.reported
            != Some(snapshot) && job_next(j, event).outgoing == Some(snapshot),
{
}

/// An answer that cannot be read never replaces what was kept of the journal.
pub proof fn lemma_unreadable_answer_keeps_info(j: JobView, current: bool, retry: bool)
    requires
        j.step == (MetadataStep::Putting { retry }),
    ensures
        ({
            let after = job_next(
                j,
                MetadataEventView::PutAnswered {
                    answer: Some((crate::journal::STATUS_OK, None)),
                    current,
                },
            );
            after.step == (MetadataStep::Finished { succeeded: false }) && after.info == j.info
        }),
{
}

/// A name is reported as it stands, whatever space is around it, where it is neither
/// empty nor too long and holds no control character; else it is not reported.
pub proof fn lemma_clean_field_is_reported(
    before: Seq<char>,
    text: Seq<char>,
    after: Seq<char>,
    max_bytes: usize,
)
    requires
        forall|i: int| 0 <= i < before.len() ==> is_space(#[trigger] before[i]),
        forall|i: int| 0 <= i < after.len() ==> is_space(#[trigger] after[i]),
        text.len() > 0,
        !is_space(text[0]),
        !is_space(text.last()),
    ensures
        sanitized(before + text + after, max_bytes) == if byte_len(text) <= max_bytes && !(exists|
            i: int,
        |
            0 <= i < text.len() && is_control(#[trigger] text[i])) {
            Some(text)
        } else {
            None
        },
{
    lemma_trim_takes_space_away(before, text, after);
}

/// An answer counts exactly where every field is in it and it speaks the first version of
/// the protocol, and then it is taken as it is.
pub proof fn lemma_only_whole_answers_count(whole: bool, response: ClientsSelfGetResponse)
    ensures
        whole && response.protocol_version == 1 ==> accepted_answer(whole, Some(response)) == Some(
            response,
        ),
        !whole || response.protocol_version != 1 ==> accepted_answer(whole, Some(response)) is None,
        accepted_answer(whole, None) is None,
{
}

/// The job learns what the journal holds from the first answer, and sends what differs
/// from it: the revision that it expects is the one that was answered.
pub proof fn lemma_job_sends_what_differs(
    j: JobView,
    answer: AnswerView,
    snapshot: SnapshotView,
    retry: bool,
)
    requires
        j.step == (if retry {
            MetadataStep::Rereading
        } else {
            MetadataStep::Getting
        }),
    ensures
        ({
            let got = job_next(
                j,
                MetadataEventView::Got { answer: Some((200u16, Some(answer))), current: true },
            );
            let ready = if answer.version.len() > 0 {
                job_next(got, MetadataEventView::Published)
            } else {
                got
            };
            let sampled = job_next(ready, MetadataEventView::Sampled { snapshot, current: true });
            &&& answer.version.len() > 0 ==> got.step == MetadataStep::Publishing(
                AfterPublish::Sample { retry },
            ) && got.info == Some(InfoView { name: Some(answer.name), version: answer.version })
            &&& ready.step == (MetadataStep::Sampling { retry })
            &&& ready.revision == answer.revision
            &&& ready.reported == answer.reported
            &&& answer.reported != Some(snapshot) ==> sampled.step == (MetadataStep::Putting {
                retry,
            }) && sampled.outgoing == Some(snapshot) && sampled.revision == answer.revision
            &&& answer.reported == Some(snapshot) ==> sampled.step == (MetadataStep::Finished {
                succeeded: true,
            })
        }),
{
}

/// What was sent ends the job: well where the journal took it, after what it says of
/// itself was kept; one conflict is followed by asking again, a second one is not, and
/// any other answer is a failure.
pub proof fn lemma_how_sending_ends(j: JobView, retry: bool, status: u16, answer: AnswerView, current: bool)
    requires
        j.step == (MetadataStep::Putting { retry }),
    ensures
        ({
            let told = job_next(
                j,
                MetadataEventView::PutAnswered { answer: Some((status, Some(answer))), current },
            );
            let done = job_next(told, MetadataEventView::Published);
            &&& status == 200 && current && answer.version.len() > 0 ==> told.step
                == MetadataStep::Publishing(AfterPublish::Finish) && told.info == Some(
                InfoView { name: Some(answer.name), version: answer.version },
            ) && done.step == (MetadataStep::Finished { succeeded: true })
            &&& status == 200 && (!current || answer.version.len() == 0) ==> told.step == (
            MetadataStep::Finished { succeeded: true })
            &&& status == 409 && !retry ==> told.step == MetadataStep::Rereading
            &&& status == 409 && retry ==> told.step == (MetadataStep::Finished {
                succeeded: false,
            })
            &&& status != 200 && status != 409 ==> told.step == (MetadataStep::Finished {
                succeeded: false,
            })
        }),
        job_next(j, MetadataEventView::PutAnswered { answer: None, current }).step == (
        MetadataStep::Finished { succeeded: false }),
{
}

/// A journal that does not know the question is asked for its status, and the version
/// that this names is kept without a name. Another answer than success is a failure, and
/// so is none.
pub proof fn lemma_older_journal_is_asked(j: JobView, status: u16, body: Option<AnswerView>, version: Seq<char>)
    requires
        j.step == MetadataStep::Getting,
    ensures
        ({
            let got = job_next(
                j,
                MetadataEventView::Got { answer: Some((status, body)), current: true },
            );
            let probed = job_next(got, MetadataEventView::Probed(Some(version)));
            &&& status == 404 ==> got.step == MetadataStep::Probing
            &&& status == 404 && trim(version).len() > 0 ==> probed.step
                == MetadataStep::Publishing(AfterPublish::Finish) && probed.info == Some(
                InfoView { name: None, version },
            )
            &&& status == 404 && trim(version).len() == 0 ==> probed.step == (
            MetadataStep::Finished { succeeded: true })
            &&& status == 404 ==> job_next(got, MetadataEventView::Probed(None)).step == (
            MetadataStep::Finished { succeeded: true })
            &&& status != 404 && status != 200 ==> got.step == (MetadataStep::Finished {
                succeeded: false,
            })
            &&& status == 200 && body is None ==> got.step == (MetadataStep::Finished {
                succeeded: false,
            })
        }),
        job_next(j, MetadataEventView::Got { answer: None, current: true }).step == (
        MetadataStep::Finished { succeeded: false }),
        job_next(j, MetadataEventView::Got { answer: None, current: false }).step == (
        MetadataStep::Finished { succeeded: false }),
        job_next(j, MetadataEventView::Got { answer: Some((status, body)), current: false }).step
            == (MetadataStep::Finished { succeeded: true }),
{
}

/// A second question that is not answered in full ends the job as a failure.
pub proof fn lemma_second_question_needs_an_answer(j: JobView, status: u16, body: Option<AnswerView>, current: bool)
    requires
        j.step == MetadataStep::Rereading,
        status != 200 || body is None,
    ensures
        job_next(j, MetadataEventView::Got { answer: Some((status, body)), current }).step == (
        MetadataStep::Finished { succeeded: false }),
        job_next(j, MetadataEventView::Got { answer: None, current }).step == (
        MetadataStep::Finished { succeeded: false }),
{
}

/// The request asks for the snapshot that was taken under the revision that the journal
/// named.
pub proof fn lemma_request_is_what_was_sampled(job: MetadataJob, r: Option<ClientsSelfPutRequest>)
    requires
        call_ensures(MetadataJob::put_request, (&job,), r),
    ensures
        r is Some <==> job.outgoing is Some,
        r is Some ==> r->0.expected_revision == job.revision && r->0.reported == job.outgoing->0
            && r->0.protocol_version == 1,
{
}

/// What a device reports of itself is its host's name, where that is clean, the platform it
/// runs on, and always the same program.
pub proof fn lemma_what_is_reported(hostname: Option<Seq<char>>, platform: PlatformKind)
    ensures
        ({
            let snapshot = snapshot_of(hostname, platform);
            &&& hostname is None ==> snapshot.name is None
            &&& hostname is Some ==> snapshot.name == sanitized(hostname->0, 80)
            &&& snapshot.platform == sanitized(
                if platform == PlatformKind::Linux {
                    "linux"@
                } else {
                    "macos"@
                },
                64,
            )
            &&& snapshot.device_type == sanitized("terminal"@, 64)
            &&& snapshot.app_id == sanitized("solstone-tmux"@, 64)
            &&& snapshot.app_version == sanitized("0.1.0"@, 64)
        }),
{
}

/// An answer is whole exactly where it is an object with every field that the protocol has,
/// the device's part is null or whole itself, and so is the journal's.
pub proof fn lemma_which_answers_are_whole(fields: Seq<(Seq<char>, Seq<char>)>, reported: Seq<char>, journal: Seq<char>)
    requires
        field(fields, "reported"@) == Some(reported),
        field(fields, "journal"@) == Some(journal),
    ensures
        is_answer_shape(Some(JsonView::Object(fields))) <==> {
            &&& field(fields, "owner_label"@) is Some
            &&& field(fields, "display_label"@) is Some
            &&& field(fields, "updated_at"@) is Some
            &&& is_reported_shape(text_reading(reported))
            &&& is_journal_shape(text_reading(journal))
        },
        is_reported_shape(Some(JsonView::Null)),
        is_reported_shape(Some(JsonView::Object(fields))) <==> {
            &&& field(fields, "name"@) is Some
            &&& field(fields, "platform"@) is Some
            &&& field(fields, "device_type"@) is Some
            &&& field(fields, "app_id"@) is Some
            &&& field(fields, "app_version"@) is Some
        },
        is_journal_shape(Some(JsonView::Object(fields))) <==> field(fields, "name"@) is Some
            && field(fields, "version"@) is Some,
        !is_journal_shape(Some(JsonView::Null)),
        !is_answer_shape(None),
        !is_reported_shape(None),
        !is_journal_shape(None),
{
}

} // verus!
