//! The journal's protocol: reason codes, receipts, upload plans and the limits on
//! what goes in and out.

use vstd::prelude::*;
use vstd::string::*;
use vstd::utf8::*;

use crate::digest::{sha256_digest, sha256_hex};
use crate::health::DiagnosticCode;
use crate::json::{
    field, field_text, field_texts, number_of, read_json, read_number, read_string, string_of,
    text_reading, JsonNode, JsonView,
};
use crate::name::{
    is_valid_component, lemma_hex_digits, lemma_valid_component, lemma_valid_component_is_entry,
    valid_component,
};
use crate::paths::{
    append_bytes, entries, file_name, join_path, lemma_join_adds_one_entry, path_file_name,
};
use crate::private_link::MAX_REQUEST_BODY_BYTES;
use crate::text::{
    all_digits, byte_len, byte_length, char_is_digit, char_is_upper, chars_of, concat3, copy,
    decimal, decode_text, digit_char, hex_text, is_digit, is_upper, lemma_decimal_is_read_back,
    only_digits, opt_text, parse_unsigned, same_option, same_text, texts, unsigned_value,
};

verus! {

pub const INGEST_PATH: &'static str = "/app/devices/ingest";

pub const SYSTEM_STATUS_PATH: &'static str = "/api/system/status";

pub const CLIENTS_SELF_PATH: &'static str = "/app/network/api/clients/self";

pub const RELAY_ACCESS_PATH: &'static str = "/app/network/api/relay/access";

/// Seconds that an optional job may take.
pub const OPTIONAL_JOB_TIMEOUT: u64 = 15;

pub const OPTIONAL_RESPONSE_BODY_BYTES: usize = 65536;

/// Seconds that a question for the system status may take.
pub const SYSTEM_STATUS_TIMEOUT: u64 = 5;

/// Seconds that a connection to the loopback bridge may take.
pub const LOOPBACK_CONNECT_TIMEOUT: u64 = 2;

/// Seconds that any other request may take.
pub const REQUEST_TIMEOUT: u64 = 10;

pub const MAX_RESPONSE_BODY_BYTES: usize = 4194304;

pub const MAX_MULTIPART_PART_BYTES: u64 = 67108864;

pub const STATUS_OK: u16 = 200;

pub const STATUS_FOUND: u16 = 302;

#[derive(Clone, Copy, Debug, PartialEq, Eq, Structural)]
pub enum JournalStatusClass {
    Client,
    Server,
    Unexpected,
}

/// The class of an HTTP status.
pub open spec fn status_class_of(status: u16) -> JournalStatusClass {
    if 400 <= status <= 499 {
        JournalStatusClass::Client
    } else if 500 <= status <= 599 {
        JournalStatusClass::Server
    } else {
        JournalStatusClass::Unexpected
    }
}

#[derive(Clone, Copy, Debug, PartialEq, Eq, Structural)]
pub enum JournalReasonCode {
    AuthKeyInvalid,
    AuthRequired,
    ContentConflict,
    FeatureUnavailable,
    IngestContractInvalid,
    IngestNoFiles,
    IngestSidecarConflict,
    IngestStorageFailed,
    InvalidDay,
    InvalidSegmentOrStream,
    LocalRequestOnly,
    MissingRequiredField,
    LinkedDeviceRequired,
    PlRevoked,
    ProtocolVersionFuture,
    ProtocolVersionLegacy,
    SegmentRemoved,
    SettingsOperationFailed,
}

impl JournalReasonCode {
    /// The code as the journal writes it.
    pub open spec fn wire(self) -> Seq<char> {
        match self {
            JournalReasonCode::AuthKeyInvalid => "auth_key_invalid"@,
            JournalReasonCode::AuthRequired => "auth_required"@,
            JournalReasonCode::ContentConflict => "content_conflict"@,
            JournalReasonCode::FeatureUnavailable => "feature_unavailable"@,
            JournalReasonCode::IngestContractInvalid => "ingest_contract_invalid"@,
            JournalReasonCode::IngestNoFiles => "ingest_no_files"@,
            JournalReasonCode::IngestSidecarConflict => "ingest_sidecar_conflict"@,
            JournalReasonCode::IngestStorageFailed => "ingest_storage_failed"@,
            JournalReasonCode::InvalidDay => "invalid_day"@,
            JournalReasonCode::InvalidSegmentOrStream => "invalid_segment_or_stream"@,
            JournalReasonCode::LocalRequestOnly => "local_request_only"@,
            JournalReasonCode::MissingRequiredField => "missing_required_field"@,
            JournalReasonCode::LinkedDeviceRequired => "linked_device_required"@,
            JournalReasonCode::PlRevoked => "pl_revoked"@,
            JournalReasonCode::ProtocolVersionFuture => "protocol_version_future"@,
            JournalReasonCode::ProtocolVersionLegacy => "protocol_version_legacy"@,
            JournalReasonCode::SegmentRemoved => "segment_removed"@,
            JournalReasonCode::SettingsOperationFailed => "settings_operation_failed"@,
        }
    }

    pub fn wire_str(&self) -> (r: &'static str)
        ensures
            r@ == self.wire(),
    {
        match self {
            JournalReasonCode::AuthKeyInvalid => "auth_key_invalid",
            JournalReasonCode::AuthRequired => "auth_required",
            JournalReasonCode::ContentConflict => "content_conflict",
            JournalReasonCode::FeatureUnavailable => "feature_unavailable",
            JournalReasonCode::IngestContractInvalid => "ingest_contract_invalid",
            JournalReasonCode::IngestNoFiles => "ingest_no_files",
            JournalReasonCode::IngestSidecarConflict => "ingest_sidecar_conflict",
            JournalReasonCode::IngestStorageFailed => "ingest_storage_failed",
            JournalReasonCode::InvalidDay => "invalid_day",
            JournalReasonCode::InvalidSegmentOrStream => "invalid_segment_or_stream",
            JournalReasonCode::LocalRequestOnly => "local_request_only",
            JournalReasonCode::MissingRequiredField => "missing_required_field",
            JournalReasonCode::LinkedDeviceRequired => "linked_device_required",
            JournalReasonCode::PlRevoked => "pl_revoked",
            JournalReasonCode::ProtocolVersionFuture => "protocol_version_future",
            JournalReasonCode::ProtocolVersionLegacy => "protocol_version_legacy",
            JournalReasonCode::SegmentRemoved => "segment_removed",
            JournalReasonCode::SettingsOperationFailed => "settings_operation_failed",
        }
    }

    /// The code that is written `value`.
    pub fn parse(value: &str) -> (r: Option<Self>)
        ensures
            r == code_named(value@),
    {
        let found = JournalReasonCode::find(value);
        proof {
            match found {
                Some(code) => lemma_wire_round_trip(code),
                None => {},
            }
        }
        found
    }

    fn find(value: &str) -> (r: Option<Self>)
        ensures
            match r {
                Some(code) => code.wire() == value@,
                None => forall|code: JournalReasonCode| #[trigger] code.wire() != value@,
            },
    {
        if same_text(value, "auth_key_invalid") {
            return Some(JournalReasonCode::AuthKeyInvalid);
        }
        if same_text(value, "auth_required") {
            return Some(JournalReasonCode::AuthRequired);
        }
        if same_text(value, "content_conflict") {
            return Some(JournalReasonCode::ContentConflict);
        }
        if same_text(value, "feature_unavailable") {
            return Some(JournalReasonCode::FeatureUnavailable);
        }
        if same_text(value, "ingest_contract_invalid") {
            return Some(JournalReasonCode::IngestContractInvalid);
        }
        if same_text(value, "ingest_no_files") {
            return Some(JournalReasonCode::IngestNoFiles);
        }
        if same_text(value, "ingest_sidecar_conflict") {
            return Some(JournalReasonCode::IngestSidecarConflict);
        }
        if same_text(value, "ingest_storage_failed") {
            return Some(JournalReasonCode::IngestStorageFailed);
        }
        if same_text(value, "invalid_day") {
            return Some(JournalReasonCode::InvalidDay);
        }
        if same_text(value, "invalid_segment_or_stream") {
            return Some(JournalReasonCode::InvalidSegmentOrStream);
        }
        if same_text(value, "local_request_only") {
            return Some(JournalReasonCode::LocalRequestOnly);
        }
        if same_text(value, "missing_required_field") {
            return Some(JournalReasonCode::MissingRequiredField);
        }
        if same_text(value, "linked_device_required") {
            return Some(JournalReasonCode::LinkedDeviceRequired);
        }
        if same_text(value, "pl_revoked") {
            return Some(JournalReasonCode::PlRevoked);
        }
        if same_text(value, "protocol_version_future") {
            return Some(JournalReasonCode::ProtocolVersionFuture);
        }
        if same_text(value, "protocol_version_legacy") {
            return Some(JournalReasonCode::ProtocolVersionLegacy);
        }
        if same_text(value, "segment_removed") {
            return Some(JournalReasonCode::SegmentRemoved);
        }
        if same_text(value, "settings_operation_failed") {
            return Some(JournalReasonCode::SettingsOperationFailed);
        }
        None
    }
}

/// The code that is written `value`.
pub open spec fn code_named(value: Seq<char>) -> Option<JournalReasonCode> {
    if exists|code: JournalReasonCode| #[trigger] code.wire() == value {
        Some(choose|code: JournalReasonCode| #[trigger] code.wire() == value)
    } else {
        None
    }
}

/// Reading what was written gives the code back.
pub proof fn lemma_wire_round_trip(code: JournalReasonCode)
    ensures
        code_named(code.wire()) == Some(code),
{
    let found = choose|found: JournalReasonCode| #[trigger] found.wire() == code.wire();
    assert(code.wire() == code.wire());
    lemma_wire_injective(found, code);
}

/// No two reason codes are written alike.
pub proof fn lemma_wire_injective(a: JournalReasonCode, b: JournalReasonCode)
    requires
        a.wire() == b.wire(),
    ensures
        a == b,
{
    reveal_strlit("auth_key_invalid");
    reveal_strlit("auth_required");
    reveal_strlit("content_conflict");
    reveal_strlit("feature_unavailable");
    reveal_strlit("ingest_contract_invalid");
    reveal_strlit("ingest_no_files");
    reveal_strlit("ingest_sidecar_conflict");
    reveal_strlit("ingest_storage_failed");
    reveal_strlit("invalid_day");
    reveal_strlit("invalid_segment_or_stream");
    reveal_strlit("local_request_only");
    reveal_strlit("missing_required_field");
    reveal_strlit("linked_device_required");
    reveal_strlit("pl_revoked");
    reveal_strlit("protocol_version_future");
    reveal_strlit("protocol_version_legacy");
    reveal_strlit("segment_removed");
    reveal_strlit("settings_operation_failed");
    let (x, y) = (a.wire(), b.wire());
    assert(x.len() == y.len());
    assert(x[0] == y[0]);
    assert(x[x.len() - 1] == y[x.len() - 1]);
}

/// A failed exchange with the journal.
#[derive(Clone, Copy, Debug, PartialEq, Eq, Structural)]
pub struct JournalError {
    pub diagnostic: DiagnosticCode,
    pub status_class: Option<JournalStatusClass>,
    pub reason_code: Option<JournalReasonCode>,
    pub http_status: Option<u16>,
}

/// A failure on this side, to which the journal gave no answer.
pub open spec fn local_error(diagnostic: DiagnosticCode) -> JournalError {
    JournalError { diagnostic, status_class: None, reason_code: None, http_status: None }
}

impl JournalError {
    pub fn diagnostic(self) -> (r: DiagnosticCode)
        ensures
            r == self.diagnostic,
    {
        self.diagnostic
    }

    pub fn status_class(self) -> (r: Option<JournalStatusClass>)
        ensures
            r == self.status_class,
    {
        self.status_class
    }

    pub fn reason_code(self) -> (r: Option<JournalReasonCode>)
        ensures
            r == self.reason_code,
    {
        self.reason_code
    }

    pub fn http_status(self) -> (r: Option<u16>)
        ensures
            r == self.http_status,
    {
        self.http_status
    }

    pub fn local(diagnostic: DiagnosticCode) -> (r: Self)
        ensures
            r == local_error(diagnostic),
    {
        JournalError { diagnostic, status_class: None, reason_code: None, http_status: None }
    }
}

impl From<DiagnosticCode> for JournalError {
    fn from(diagnostic: DiagnosticCode) -> (r: Self) {
        JournalError::local(diagnostic)
    }
}

impl vstd::std_specs::convert::FromSpecImpl<DiagnosticCode> for JournalError {
    open spec fn obeys_from_spec() -> bool {
        true
    }

    open spec fn from_spec(diagnostic: DiagnosticCode) -> JournalError {
        local_error(diagnostic)
    }
}

/// What became of an upload.
#[derive(Clone, Copy, Debug, PartialEq, Eq, PartialOrd, Ord, Structural)]
pub enum UploadStatus {
    Okay,
    Duplicate,
    Collision,
    Conflict,
    Failed,
}

/// Why a receipt does not prove custody.
#[derive(Clone, Copy, Debug, PartialEq, Eq, Structural)]
pub enum ReceiptFault {
    DescriptorsAbsent,
    MalformedDescriptor,
    DuplicateSubmitted,
    MissingDescriptor,
    ExtraDescriptor,
    Sha256Mismatch,
    Sha256Encoding,
    SizeMismatch,
    UnknownDisposition,
    MissingDisposition,
    ReceivedNotWritten,
    UploadNotAcknowledged,
}

impl ReceiptFault {
    pub open spec fn text(self) -> Seq<char> {
        match self {
            ReceiptFault::DescriptorsAbsent => "descriptors_absent"@,
            ReceiptFault::MalformedDescriptor => "malformed_descriptor"@,
            ReceiptFault::DuplicateSubmitted => "duplicate_submitted"@,
            ReceiptFault::MissingDescriptor => "missing_descriptor"@,
            ReceiptFault::ExtraDescriptor => "extra_descriptor"@,
            ReceiptFault::Sha256Mismatch => "sha256_mismatch"@,
            ReceiptFault::Sha256Encoding => "sha256_encoding"@,
            ReceiptFault::SizeMismatch => "size_mismatch"@,
            ReceiptFault::UnknownDisposition => "unknown_disposition"@,
            ReceiptFault::MissingDisposition => "missing_disposition"@,
            ReceiptFault::ReceivedNotWritten => "received_not_written"@,
            ReceiptFault::UploadNotAcknowledged => "upload_not_acknowledged"@,
        }
    }

    pub fn as_str(&self) -> (r: &'static str)
        ensures
            r@ == self.text(),
    {
        match self {
            ReceiptFault::DescriptorsAbsent => "descriptors_absent",
            ReceiptFault::MalformedDescriptor => "malformed_descriptor",
            ReceiptFault::DuplicateSubmitted => "duplicate_submitted",
            ReceiptFault::MissingDescriptor => "missing_descriptor",
            ReceiptFault::ExtraDescriptor => "extra_descriptor",
            ReceiptFault::Sha256Mismatch => "sha256_mismatch",
            ReceiptFault::Sha256Encoding => "sha256_encoding",
            ReceiptFault::SizeMismatch => "size_mismatch",
            ReceiptFault::UnknownDisposition => "unknown_disposition",
            ReceiptFault::MissingDisposition => "missing_disposition",
            ReceiptFault::ReceivedNotWritten => "received_not_written",
            ReceiptFault::UploadNotAcknowledged => "upload_not_acknowledged",
        }
    }
}

// ---------------------------------------------------------------------------
// Descriptors
// ---------------------------------------------------------------------------

/// What is said of one file of a segment.
pub ghost struct FileView {
    pub submitted: Seq<char>,
    pub written: Seq<char>,
    pub size: u64,
    pub sha256: Seq<char>,
    pub disposition: Seq<char>,
}

/// A file that the journal has acknowledged.
#[derive(Debug, PartialEq, Eq)]
pub struct AcknowledgedFile {
    pub submitted: String,
    pub written: String,
    pub size: u64,
    pub sha256: String,
    pub disposition: String,
}

impl View for AcknowledgedFile {
    type V = FileView;

    open spec fn view(&self) -> FileView {
        FileView {
            submitted: self.submitted@,
            written: self.written@,
            size: self.size,
            sha256: self.sha256@,
            disposition: self.disposition@,
        }
    }
}

impl Clone for AcknowledgedFile {
    fn clone(&self) -> (r: Self)
        ensures
            r == *self,
    {
        AcknowledgedFile {
            submitted: self.submitted.clone(),
            written: self.written.clone(),
            size: self.size,
            sha256: self.sha256.clone(),
            disposition: self.disposition.clone(),
        }
    }
}

/// What a receipt says of the files of an upload.
#[derive(Clone, Debug, PartialEq, Eq)]
pub enum Receipt {
    Absent,
    Invalid(ReceiptFault),
    Valid(Vec<AcknowledgedFile>),
}

/// A descriptor of the journal's answer, well-formed in itself.
#[derive(Debug, PartialEq, Eq)]
pub struct ParsedDescriptor {
    pub submitted: String,
    pub written: String,
    pub size: u64,
    pub sha256: String,
    pub disposition: String,
}

impl View for ParsedDescriptor {
    type V = FileView;

    open spec fn view(&self) -> FileView {
        FileView {
            submitted: self.submitted@,
            written: self.written@,
            size: self.size,
            sha256: self.sha256@,
            disposition: self.disposition@,
        }
    }
}

impl Clone for ParsedDescriptor {
    fn clone(&self) -> (r: Self)
        ensures
            r == *self,
    {
        ParsedDescriptor {
            submitted: self.submitted.clone(),
            written: self.written.clone(),
            size: self.size,
            sha256: self.sha256.clone(),
            disposition: self.disposition.clone(),
        }
    }
}

/// What the fields of a descriptor read as: nothing where a field is missing or of
/// another kind. The disposition tells a missing field from one of another kind.
#[derive(Debug)]
pub struct DescriptorFields {
    pub submitted: Option<String>,
    pub written: Option<String>,
    pub size: Option<u64>,
    pub sha256: Option<String>,
    pub disposition: Option<Option<String>>,
}

pub ghost struct DescriptorView {
    pub submitted: Option<Seq<char>>,
    pub written: Option<Seq<char>>,
    pub size: Option<u64>,
    pub sha256: Option<Seq<char>>,
    pub disposition: Option<Option<Seq<char>>>,
}

impl View for DescriptorFields {
    type V = DescriptorView;

    open spec fn view(&self) -> DescriptorView {
        DescriptorView {
            submitted: opt_text(self.submitted),
            written: opt_text(self.written),
            size: self.size,
            sha256: opt_text(self.sha256),
            disposition: match self.disposition {
                Some(d) => Some(opt_text(d)),
                None => None,
            },
        }
    }
}

pub open spec fn is_hex(c: char) -> bool {
    is_digit(c) || 'a' <= c <= 'f' || 'A' <= c <= 'F'
}

/// A SHA-256 digest in hexadecimal digits of either case.
pub open spec fn is_digest(s: Seq<char>) -> bool {
    byte_len(s) == 64 && forall|i: int| 0 <= i < s.len() ==> is_hex(#[trigger] s[i])
}

pub open spec fn has_upper(s: Seq<char>) -> bool {
    exists|i: int| 0 <= i < s.len() && is_upper(#[trigger] s[i])
}

/// The dispositions that the protocol knows.
pub open spec fn is_disposition(s: Seq<char>) -> bool {
    s == "written"@ || s == "already_held"@ || s == "received_not_written"@
}

/// What is wrong with a descriptor taken alone, first fault first.
pub open spec fn descriptor_fault(d: DescriptorView) -> Option<ReceiptFault> {
    if d.submitted is None || d.written is None || d.size is None || d.sha256 is None || !is_digest(
        d.sha256->0,
    ) {
        Some(ReceiptFault::MalformedDescriptor)
    } else if has_upper(d.sha256->0) {
        Some(ReceiptFault::Sha256Encoding)
    } else {
        match d.disposition {
            None => Some(ReceiptFault::MissingDisposition),
            Some(None) => Some(ReceiptFault::MalformedDescriptor),
            Some(Some(text)) => if is_disposition(text) {
                None
            } else {
                Some(ReceiptFault::UnknownDisposition)
            },
        }
    }
}

/// The descriptor, or its fault.
pub open spec fn descriptor(d: DescriptorView) -> Result<FileView, ReceiptFault> {
    match descriptor_fault(d) {
        Some(fault) => Err(fault),
        None => Ok(
            FileView {
                submitted: d.submitted->0,
                written: d.written->0,
                size: d.size->0,
                sha256: d.sha256->0,
                disposition: d.disposition->0->0,
            },
        ),
    }
}

/// The field `key` as a string.
pub open spec fn string_field(fields: Seq<(Seq<char>, Seq<char>)>, key: Seq<char>) -> Option<
    Seq<char>,
> {
    match field(fields, key) {
        Some(text) => string_of(text),
        None => None,
    }
}

/// What the fields of a JSON object read as.
pub open spec fn fields_reading(fields: Seq<(Seq<char>, Seq<char>)>) -> DescriptorView {
    DescriptorView {
        submitted: string_field(fields, "submitted"@),
        written: string_field(fields, "written"@),
        size: match field(fields, "size"@) {
            Some(text) => number_of(text),
            None => None,
        },
        sha256: string_field(fields, "sha256"@),
        disposition: match field(fields, "disposition"@) {
            Some(text) => Some(string_of(text)),
            None => None,
        },
    }
}

/// A JSON text as a descriptor.
pub open spec fn item_descriptor(item: Seq<char>) -> Result<FileView, ReceiptFault> {
    match text_reading(item) {
        Some(JsonView::Object(fields)) => descriptor(fields_reading(fields)),
        _ => Err(ReceiptFault::MalformedDescriptor),
    }
}

/// All descriptors, or the fault of the first that has one.
pub open spec fn item_descriptors(items: Seq<Seq<char>>) -> Result<Seq<FileView>, ReceiptFault>
    decreases items.len(),
{
    if items.len() == 0 {
        Ok(Seq::empty())
    } else {
        match item_descriptors(items.drop_last()) {
            Err(fault) => Err(fault),
            Ok(before) => match item_descriptor(items.last()) {
                Err(fault) => Err(fault),
                Ok(d) => Ok(before.push(d)),
            },
        }
    }
}

/// A JSON text as a list of descriptors.
pub open spec fn descriptor_list(text: Seq<char>) -> Result<Seq<FileView>, ReceiptFault> {
    match text_reading(text) {
        Some(JsonView::Array(items)) => item_descriptors(items),
        _ => Err(ReceiptFault::MalformedDescriptor),
    }
}

pub open spec fn descriptor_views(ds: Seq<ParsedDescriptor>) -> Seq<FileView> {
    ds.map_values(|d: ParsedDescriptor| d@)
}

proof fn lemma_first_fault_stays(items: Seq<Seq<char>>, k: int)
    requires
        0 <= k <= items.len(),
        item_descriptors(items.take(k)) is Err,
    ensures
        item_descriptors(items) == item_descriptors(items.take(k)),
    decreases items.len() - k,
{
    if k < items.len() {
        assert(items.take(k + 1).drop_last() =~= items.take(k));
        lemma_first_fault_stays(items, k + 1);
    } else {
        assert(items.take(k) =~= items);
    }
}

/// A descriptor that is accepted has a lower-case digest and a known disposition.
pub proof fn lemma_descriptor_is_clean(d: DescriptorView)
    requires
        descriptor(d) is Ok,
    ensures
        is_digest(descriptor(d)->Ok_0.sha256),
        !has_upper(descriptor(d)->Ok_0.sha256),
        is_disposition(descriptor(d)->Ok_0.disposition),
{
}

/// Every descriptor of a list that is accepted is clean.
pub proof fn lemma_listed_descriptors_are_clean(items: Seq<Seq<char>>, i: int)
    requires
        item_descriptors(items) is Ok,
        0 <= i < item_descriptors(items)->Ok_0.len(),
    ensures
        is_digest(item_descriptors(items)->Ok_0[i].sha256),
        !has_upper(item_descriptors(items)->Ok_0[i].sha256),
        is_disposition(item_descriptors(items)->Ok_0[i].disposition),
    decreases items.len(),
{
    if items.len() > 0 {
        let before = item_descriptors(items.drop_last())->Ok_0;
        if i < before.len() {
            lemma_listed_descriptors_are_clean(items.drop_last(), i);
        }
    }
}

fn digest_is_well_formed(s: &str) -> (r: bool)
    ensures
        r == is_digest(s@),
{
    let chars = chars_of(s);
    if byte_length(s) != 64 {
        return false;
    }
    let mut i: usize = 0;
    while i < chars.len()
        invariant
            i <= chars@.len(),
            chars@ == s@,
            forall|j: int| 0 <= j < i ==> is_hex(#[trigger] s@[j]),
        decreases chars@.len() - i,
    {
        let c = chars[i];
        if !(char_is_digit(c) || ('a' <= c && c <= 'f') || ('A' <= c && c <= 'F')) {
            return false;
        }
        i = i + 1;
    }
    true
}

fn any_upper(s: &str) -> (r: bool)
    ensures
        r == has_upper(s@),
{
    let chars = chars_of(s);
    let mut i: usize = 0;
    while i < chars.len()
        invariant
            i <= chars@.len(),
            chars@ == s@,
            forall|j: int| 0 <= j < i ==> !is_upper(#[trigger] s@[j]),
        decreases chars@.len() - i,
    {
        if char_is_upper(chars[i]) {
            return true;
        }
        i = i + 1;
    }
    false
}

/// The descriptor that the fields make, or its fault.
pub fn descriptor_of(fields: DescriptorFields) -> (r: Result<ParsedDescriptor, ReceiptFault>)
    ensures
        match r {
            Ok(d) => descriptor(fields@) == Ok::<FileView, ReceiptFault>(d@),
            Err(fault) => descriptor(fields@) == Err::<FileView, ReceiptFault>(fault),
        },
{
    let submitted = match fields.submitted {
        Some(s) => s,
        None => return Err(ReceiptFault::MalformedDescriptor),
    };
    let written = match fields.written {
        Some(s) => s,
        None => return Err(ReceiptFault::MalformedDescriptor),
    };
    let size: u64 = match fields.size {
        Some(n) => n,
        None => return Err(ReceiptFault::MalformedDescriptor),
    };
    let sha256 = match fields.sha256 {
        Some(s) => s,
        None => return Err(ReceiptFault::MalformedDescriptor),
    };
    if !digest_is_well_formed(sha256.as_str()) {
        return Err(ReceiptFault::MalformedDescriptor);
    }
    if any_upper(sha256.as_str()) {
        return Err(ReceiptFault::Sha256Encoding);
    }
    let disposition = match fields.disposition {
        None => return Err(ReceiptFault::MissingDisposition),
        Some(None) => return Err(ReceiptFault::MalformedDescriptor),
        Some(Some(s)) => s,
    };
    if !same_text(disposition.as_str(), "written") && !same_text(
        disposition.as_str(),
        "already_held",
    ) && !same_text(disposition.as_str(), "received_not_written") {
        return Err(ReceiptFault::UnknownDisposition);
    }
    Ok(ParsedDescriptor { submitted, written, size, sha256, disposition })
}

fn read_string_field(fields: &Vec<(String, String)>, key: &str) -> (r: Option<String>)
    ensures
        opt_text(r) == string_field(field_texts(fields@), key@),
{
    match field_text(fields, key) {
        Some(text) => read_string(text.as_str()),
        None => None,
    }
}

fn read_item(item: &str) -> (r: Result<ParsedDescriptor, ReceiptFault>)
    ensures
        match r {
            Ok(d) => item_descriptor(item@) == Ok::<FileView, ReceiptFault>(d@),
            Err(fault) => item_descriptor(item@) == Err::<FileView, ReceiptFault>(fault),
        },
{
    match read_json(item.as_bytes()) {
        Some(JsonNode::Object(fields)) => {
            let read = DescriptorFields {
                submitted: read_string_field(&fields, "submitted"),
                written: read_string_field(&fields, "written"),
                size: match field_text(&fields, "size") {
                    Some(text) => read_number(text.as_str()),
                    None => None,
                },
                sha256: read_string_field(&fields, "sha256"),
                disposition: match field_text(&fields, "disposition") {
                    Some(text) => Some(read_string(text.as_str())),
                    None => None,
                },
            };
            proof {
                assert(read@ == fields_reading(field_texts(fields@)));
            }
            descriptor_of(read)
        },
        _ => Err(ReceiptFault::MalformedDescriptor),
    }
}

/// The descriptors that a JSON text lists, or the fault of the first that has one.
pub fn parse_descriptor_shape(text: &str) -> (r: Result<Vec<ParsedDescriptor>, ReceiptFault>)
    ensures
        match r {
            Ok(ds) => descriptor_list(text@) == Ok::<Seq<FileView>, ReceiptFault>(
                descriptor_views(ds@),
            ),
            Err(fault) => descriptor_list(text@) == Err::<Seq<FileView>, ReceiptFault>(fault),
        },
{
    let items = match read_json(text.as_bytes()) {
        Some(JsonNode::Array(items)) => items,
        _ => return Err(ReceiptFault::MalformedDescriptor),
    };
    let ghost all = texts(items@);
    let mut out: Vec<ParsedDescriptor> = Vec::new();
    let mut i: usize = 0;
    proof {
        assert(all.take(0) =~= Seq::<Seq<char>>::empty());
        assert(descriptor_views(out@) =~= Seq::<FileView>::empty());
    }
    while i < items.len()
        invariant
            i <= items@.len(),
            all == texts(items@),
            item_descriptors(all.take(i as int)) == Ok::<Seq<FileView>, ReceiptFault>(
                descriptor_views(out@),
            ),
            descriptor_list(text@) == item_descriptors(all),
        decreases items@.len() - i,
    {
        proof {
            assert(all[i as int] == items@[i as int]@);
            assert(all.take(i + 1).drop_last() =~= all.take(i as int));
            assert(all.take(i + 1).last() == items@[i as int]@);
        }
        match read_item(items[i].as_str()) {
            Ok(d) => {
                let ghost before = descriptor_views(out@);
                out.push(d);
                proof {
                    assert(descriptor_views(out@) =~= before.push(d@));
                }
            },
            Err(fault) => {
                proof {
                    lemma_first_fault_stays(all, i + 1);
                }
                return Err(fault);
            },
        }
        i = i + 1;
    }
    proof {
        assert(all.take(items@.len() as int) =~= all);
    }
    Ok(out)
}

// ---------------------------------------------------------------------------
// Receipts
// ---------------------------------------------------------------------------

/// The answer to an upload, as far as custody depends on it.
#[derive(Clone, Debug, PartialEq, Eq)]
pub struct UploadResult {
    pub status: UploadStatus,
    pub authoritative_key: Option<String>,
    pub descriptors: Option<Result<Vec<ParsedDescriptor>, ReceiptFault>>,
}

pub ghost struct UploadView {
    pub status: UploadStatus,
    pub authoritative_key: Option<Seq<char>>,
    pub descriptors: Option<Result<Seq<FileView>, ReceiptFault>>,
}

impl View for UploadResult {
    type V = UploadView;

    open spec fn view(&self) -> UploadView {
        UploadView {
            status: self.status,
            authoritative_key: opt_text(self.authoritative_key),
            descriptors: match self.descriptors {
                None => None,
                Some(Err(fault)) => Some(Err(fault)),
                Some(Ok(ds)) => Some(Ok(descriptor_views(ds@))),
            },
        }
    }
}

/// A file of a local segment.
#[derive(Debug, PartialEq, Eq)]
pub struct LocalFile {
    pub name: String,
    pub size: u64,
    pub sha256: String,
}

pub ghost struct LocalView {
    pub name: Seq<char>,
    pub size: u64,
    pub sha256: Seq<char>,
}

impl View for LocalFile {
    type V = LocalView;

    open spec fn view(&self) -> LocalView {
        LocalView { name: self.name@, size: self.size, sha256: self.sha256@ }
    }
}

impl Clone for LocalFile {
    fn clone(&self) -> (r: Self)
        ensures
            r == *self,
    {
        LocalFile { name: self.name.clone(), size: self.size, sha256: self.sha256.clone() }
    }
}

pub open spec fn local_views(files: Seq<LocalFile>) -> Seq<LocalView> {
    files.map_values(|f: LocalFile| f@)
}

/// Copies of the files.
pub fn copy_local_files(files: &Vec<LocalFile>) -> (r: Vec<LocalFile>)
    ensures
        r@ == files@,
{
    let mut out: Vec<LocalFile> = Vec::new();
    let mut i: usize = 0;
    while i < files.len()
        invariant
            i <= files@.len(),
            out@ =~= files@.take(i as int),
        decreases files@.len() - i,
    {
        out.push(files[i].clone());
        i = i + 1;
    }
    proof {
        assert(files@.take(files@.len() as int) =~= files@);
    }
    out
}

pub open spec fn acknowledged_views(files: Seq<AcknowledgedFile>) -> Seq<FileView> {
    files.map_values(|f: AcknowledgedFile| f@)
}

/// Two descriptors speak of one file.
pub open spec fn has_duplicate(ds: Seq<FileView>) -> bool {
    exists|i: int, j: int|
        0 <= i < j < ds.len() && (#[trigger] ds[i]).submitted == (#[trigger] ds[j]).submitted
}

/// Some descriptor says that the file was received and not written.
pub open spec fn has_unwritten(ds: Seq<FileView>) -> bool {
    exists|i: int|
        0 <= i < ds.len() && (#[trigger] ds[i]).disposition == "received_not_written"@
}

/// The last local file of that name.
pub open spec fn local_named(locals: Seq<LocalView>, name: Seq<char>) -> Option<LocalView>
    decreases locals.len(),
{
    if locals.len() == 0 {
        None
    } else if locals.last().name == name {
        Some(locals.last())
    } else {
        local_named(locals.drop_last(), name)
    }
}

/// Some descriptor speaks of the file `name`.
pub open spec fn describes(ds: Seq<FileView>, name: Seq<char>) -> bool {
    exists|i: int| 0 <= i < ds.len() && (#[trigger] ds[i]).submitted == name
}

/// Some descriptor speaks of no local file.
pub open spec fn has_stranger(ds: Seq<FileView>, locals: Seq<LocalView>) -> bool {
    exists|i: int|
        0 <= i < ds.len() && local_named(locals, (#[trigger] ds[i]).submitted) is None
}

/// Some local file is in no descriptor.
pub open spec fn has_gap(ds: Seq<FileView>, locals: Seq<LocalView>) -> bool {
    exists|i: int| 0 <= i < locals.len() && !describes(ds, (#[trigger] locals[i]).name)
}

/// How a descriptor differs from the local file.
pub open spec fn difference(d: FileView, local: LocalView) -> Option<ReceiptFault> {
    if d.size != local.size {
        Some(ReceiptFault::SizeMismatch)
    } else if d.sha256 != local.sha256 {
        Some(ReceiptFault::Sha256Mismatch)
    } else {
        None
    }
}

/// How the first descriptor that differs from its local file does so.
pub open spec fn first_difference(ds: Seq<FileView>, locals: Seq<LocalView>) -> Option<ReceiptFault>
    decreases ds.len(),
{
    if ds.len() == 0 {
        None
    } else {
        match first_difference(ds.drop_last(), locals) {
            Some(fault) => Some(fault),
            None => difference(ds.last(), local_named(locals, ds.last().submitted)->0),
        }
    }
}

/// The first fault of a list of descriptors for the local files.
pub open spec fn list_fault(ds: Seq<FileView>, locals: Seq<LocalView>) -> Option<ReceiptFault> {
    if has_duplicate(ds) {
        Some(ReceiptFault::DuplicateSubmitted)
    } else if has_unwritten(ds) {
        Some(ReceiptFault::ReceivedNotWritten)
    } else if ds.len() > locals.len() {
        Some(ReceiptFault::ExtraDescriptor)
    } else if ds.len() < locals.len() {
        Some(ReceiptFault::MissingDescriptor)
    } else if has_stranger(ds, locals) {
        Some(ReceiptFault::ExtraDescriptor)
    } else if has_gap(ds, locals) {
        Some(ReceiptFault::MissingDescriptor)
    } else {
        first_difference(ds, locals)
    }
}

/// What a receipt says.
pub ghost enum ReceiptView {
    Absent,
    Invalid(ReceiptFault),
    Valid(Seq<FileView>),
}

impl View for Receipt {
    type V = ReceiptView;

    open spec fn view(&self) -> ReceiptView {
        match *self {
            Receipt::Absent => ReceiptView::Absent,
            Receipt::Invalid(fault) => ReceiptView::Invalid(fault),
            Receipt::Valid(files) => ReceiptView::Valid(acknowledged_views(files@)),
        }
    }
}

/// What the answer to an upload proves of the local files.
pub open spec fn assessment(result: UploadView, locals: Seq<LocalView>) -> ReceiptView {
    if result.status == UploadStatus::Conflict || result.status == UploadStatus::Failed {
        ReceiptView::Invalid(ReceiptFault::UploadNotAcknowledged)
    } else {
        match result.descriptors {
            None => ReceiptView::Absent,
            Some(Err(fault)) => ReceiptView::Invalid(fault),
            Some(Ok(ds)) => match list_fault(ds, locals) {
                Some(fault) => ReceiptView::Invalid(fault),
                None => ReceiptView::Valid(ds),
            },
        }
    }
}

/// The descriptors and the local files are the same files: each local file is
/// described with its size and digest, under a disposition other than unwritten,
/// and nothing else is described.
pub open spec fn covers(ds: Seq<FileView>, locals: Seq<LocalView>) -> bool {
    &&& ds.len() == locals.len()
    &&& forall|i: int|
        0 <= i < locals.len() ==> exists|j: int|
            0 <= j < ds.len() && is_custody(#[trigger] ds[j], #[trigger] locals[i])
    &&& forall|j: int|
        0 <= j < ds.len() ==> exists|i: int|
            0 <= i < locals.len() && is_custody(#[trigger] ds[j], #[trigger] locals[i])
}

/// The descriptor says that the journal holds the local file.
pub open spec fn is_custody(d: FileView, local: LocalView) -> bool {
    &&& d.submitted == local.name
    &&& d.size == local.size
    &&& d.sha256 == local.sha256
    &&& d.disposition != "received_not_written"@
}

proof fn lemma_local_named(locals: Seq<LocalView>, name: Seq<char>)
    ensures
        match local_named(locals, name) {
            Some(local) => exists|i: int|
                0 <= i < locals.len() && #[trigger] locals[i] == local && local.name == name,
            None => forall|i: int| 0 <= i < locals.len() ==> (#[trigger] locals[i]).name != name,
        },
    decreases locals.len(),
{
    if locals.len() > 0 {
        lemma_local_named(locals.drop_last(), name);
        if locals.last().name != name && local_named(locals.drop_last(), name) is Some {
            let i = choose|i: int|
                0 <= i < locals.len() - 1 && #[trigger] locals.drop_last()[i] == local_named(
                    locals,
                    name,
                )->0;
            assert(locals[i] == locals.drop_last()[i]);
        } else if locals.last().name == name {
            assert(locals[locals.len() - 1].name == name);
        } else {
            assert forall|i: int| 0 <= i < locals.len() implies (#[trigger] locals[i]).name
                != name by {
                if i < locals.len() - 1 {
                    assert(locals.drop_last()[i] == locals[i]);
                }
            }
        }
    }
}

proof fn lemma_no_difference(ds: Seq<FileView>, locals: Seq<LocalView>, k: int)
    requires
        0 <= k < ds.len(),
        first_difference(ds, locals) is None,
    ensures
        difference(ds[k], local_named(locals, ds[k].submitted)->0) is None,
    decreases ds.len(),
{
    if k < ds.len() - 1 {
        assert(ds.drop_last()[k] == ds[k]);
        lemma_no_difference(ds.drop_last(), locals, k);
    }
}

proof fn lemma_first_difference_stays(ds: Seq<FileView>, locals: Seq<LocalView>, k: int)
    requires
        0 <= k <= ds.len(),
        first_difference(ds.take(k), locals) is Some,
    ensures
        first_difference(ds, locals) == first_difference(ds.take(k), locals),
    decreases ds.len() - k,
{
    if k < ds.len() {
        assert(ds.take(k + 1).drop_last() =~= ds.take(k));
        lemma_first_difference_stays(ds, locals, k + 1);
    } else {
        assert(ds.take(k) =~= ds);
    }
}

/// A name occurs at most once among the local files where the descriptors name as
/// many different files, each of them local.
proof fn lemma_names_once(ds: Seq<FileView>, locals: Seq<LocalView>)
    requires
        ds.len() == locals.len(),
        !has_duplicate(ds),
        !has_stranger(ds, locals),
    ensures
        forall|i: int, j: int|
            0 <= i < j < locals.len() ==> (#[trigger] locals[i]).name != (#[trigger] locals[j]).name,
{
    let submitted = ds.map_values(|d: FileView| d.submitted);
    let names = locals.map_values(|l: LocalView| l.name);
    assert(submitted.no_duplicates());
    submitted.unique_seq_to_set();
    assert(submitted.to_set().subset_of(names.to_set())) by {
        assert forall|name: Seq<char>| submitted.to_set().contains(name) implies names.to_set().contains(
            name,
        ) by {
            let k = choose|k: int| 0 <= k < submitted.len() && submitted[k] == name;
            assert(ds[k].submitted == name);
            lemma_local_named(locals, name);
            let i = choose|i: int|
                0 <= i < locals.len() && #[trigger] locals[i] == local_named(locals, name)->0;
            assert(names[i] == name);
        }
    }
    vstd::set_lib::lemma_len_subset(submitted.to_set(), names.to_set());
    vstd::seq_lib::seq_to_set_is_finite(names);
    names.lemma_cardinality_of_set();
    names.lemma_no_dup_set_cardinality();
    assert forall|i: int, j: int| 0 <= i < j < locals.len() implies (#[trigger] locals[i]).name != (
    #[trigger] locals[j]).name by {
        assert(names[i] == locals[i].name && names[j] == locals[j].name);
    }
}

/// A valid receipt covers the local files exactly.
pub proof fn lemma_valid_receipt_covers(result: UploadView, locals: Seq<LocalView>)
    requires
        assessment(result, locals) is Valid,
    ensures
        covers(assessment(result, locals)->Valid_0, locals),
        forall|i: int, j: int|
            0 <= i < j < locals.len() ==> (#[trigger] locals[i]).name != (#[trigger] locals[j]).name,
{
    let ds = assessment(result, locals)->Valid_0;
    lemma_names_once(ds, locals);
    assert forall|j: int| 0 <= j < ds.len() implies exists|i: int|
        0 <= i < locals.len() && is_custody(#[trigger] ds[j], #[trigger] locals[i]) by {
        lemma_local_named(locals, ds[j].submitted);
        assert(local_named(locals, ds[j].submitted) is Some);
        let i = choose|i: int|
            0 <= i < locals.len() && #[trigger] locals[i] == local_named(
                locals,
                ds[j].submitted,
            )->0;
        lemma_no_difference(ds, locals, j);
        assert(is_custody(ds[j], locals[i]));
    }
    assert forall|i: int| 0 <= i < locals.len() implies exists|j: int|
        0 <= j < ds.len() && is_custody(#[trigger] ds[j], #[trigger] locals[i]) by {
        assert(describes(ds, locals[i].name));
        let j = choose|j: int| 0 <= j < ds.len() && (#[trigger] ds[j]).submitted == locals[i].name;
        lemma_local_named(locals, ds[j].submitted);
        let k = choose|k: int|
            0 <= k < locals.len() && #[trigger] locals[k] == local_named(
                locals,
                ds[j].submitted,
            )->0;
        assert(locals[k].name == locals[i].name);
        assert(k == i);
        lemma_no_difference(ds, locals, j);
        assert(is_custody(ds[j], locals[i]));
    }
}

fn find_local(locals: &[LocalFile], name: &str) -> (r: Option<usize>)
    ensures
        match r {
            Some(i) => i < locals@.len() && local_named(local_views(locals@), name@) == Some(
                locals@[i as int]@,
            ),
            None => local_named(local_views(locals@), name@) is None,
        },
{
    let mut n: usize = locals.len();
    let ghost all = local_views(locals@);
    proof {
        assert(all.take(n as int) =~= all);
    }
    while n > 0
        invariant
            n <= locals@.len(),
            all == local_views(locals@),
            local_named(all, name@) == local_named(all.take(n as int), name@),
        decreases n,
    {
        proof {
            assert(all.take(n as int).drop_last() =~= all.take(n - 1));
            assert(all.take(n as int).last() == locals@[n - 1]@);
        }
        if same_text(locals[n - 1].name.as_str(), name) {
            return Some(n - 1);
        }
        n = n - 1;
    }
    None
}

fn any_describes(ds: &Vec<ParsedDescriptor>, upto: usize, name: &str) -> (r: bool)
    requires
        upto <= ds@.len(),
    ensures
        r == describes(descriptor_views(ds@).take(upto as int), name@),
{
    let ghost all = descriptor_views(ds@).take(upto as int);
    let mut i: usize = 0;
    while i < upto
        invariant
            i <= upto <= ds@.len(),
            all == descriptor_views(ds@).take(upto as int),
            forall|j: int| 0 <= j < i ==> (#[trigger] all[j]).submitted != name@,
        decreases upto - i,
    {
        if same_text(ds[i].submitted.as_str(), name) {
            proof {
                assert(all[i as int].submitted == name@);
            }
            return true;
        }
        i = i + 1;
    }
    false
}

fn any_duplicate(ds: &Vec<ParsedDescriptor>) -> (r: bool)
    ensures
        r == has_duplicate(descriptor_views(ds@)),
{
    let ghost all = descriptor_views(ds@);
    let mut i: usize = 0;
    while i < ds.len()
        invariant
            i <= ds@.len(),
            all == descriptor_views(ds@),
            forall|a: int, b: int|
                0 <= a < b < i ==> (#[trigger] all[a]).submitted != (#[trigger] all[b]).submitted,
        decreases ds@.len() - i,
    {
        if any_describes(ds, i, ds[i].submitted.as_str()) {
            proof {
                let a = choose|a: int|
                    0 <= a < i && (#[trigger] all.take(i as int)[a]).submitted == all[i as int].submitted;
                assert(all[a].submitted == all[i as int].submitted);
            }
            return true;
        }
        proof {
            assert forall|a: int| 0 <= a < i implies (#[trigger] all[a]).submitted
                != all[i as int].submitted by {
                assert(all.take(i as int)[a] == all[a]);
            }
        }
        i = i + 1;
    }
    false
}

fn any_unwritten(ds: &Vec<ParsedDescriptor>) -> (r: bool)
    ensures
        r == has_unwritten(descriptor_views(ds@)),
{
    let ghost all = descriptor_views(ds@);
    let mut i: usize = 0;
    while i < ds.len()
        invariant
            i <= ds@.len(),
            all == descriptor_views(ds@),
            forall|j: int| 0 <= j < i ==> (#[trigger] all[j]).disposition != "received_not_written"@,
        decreases ds@.len() - i,
    {
        if same_text(ds[i].disposition.as_str(), "received_not_written") {
            proof {
                assert(all[i as int].disposition == "received_not_written"@);
            }
            return true;
        }
        i = i + 1;
    }
    false
}

fn any_stranger(ds: &Vec<ParsedDescriptor>, locals: &[LocalFile]) -> (r: bool)
    ensures
        r == has_stranger(descriptor_views(ds@), local_views(locals@)),
{
    let ghost all = descriptor_views(ds@);
    let mut i: usize = 0;
    while i < ds.len()
        invariant
            i <= ds@.len(),
            all == descriptor_views(ds@),
            forall|j: int|
                0 <= j < i ==> local_named(local_views(locals@), (#[trigger] all[j]).submitted) is Some,
        decreases ds@.len() - i,
    {
        if find_local(locals, ds[i].submitted.as_str()).is_none() {
            proof {
                assert(local_named(local_views(locals@), all[i as int].submitted) is None);
            }
            return true;
        }
        i = i + 1;
    }
    false
}

fn any_gap(ds: &Vec<ParsedDescriptor>, locals: &[LocalFile]) -> (r: bool)
    ensures
        r == has_gap(descriptor_views(ds@), local_views(locals@)),
{
    let ghost all = local_views(locals@);
    let ghost described = descriptor_views(ds@);
    proof {
        assert(described.take(ds@.len() as int) =~= described);
    }
    let mut i: usize = 0;
    while i < locals.len()
        invariant
            i <= locals@.len(),
            all == local_views(locals@),
            described == descriptor_views(ds@),
            described.take(ds@.len() as int) == described,
            forall|j: int| 0 <= j < i ==> describes(described, (#[trigger] all[j]).name),
        decreases locals@.len() - i,
    {
        if !any_describes(ds, ds.len(), locals[i].name.as_str()) {
            proof {
                assert(!describes(described, all[i as int].name));
            }
            return true;
        }
        i = i + 1;
    }
    false
}

/// Whether the answer to an upload proves that the journal holds the local files.
pub fn assess_receipt(result: &UploadResult, local_files: &[LocalFile]) -> (r: Receipt)
    ensures
        r@ == assessment(result@, local_views(local_files@)),
{
    if result.status == UploadStatus::Conflict || result.status == UploadStatus::Failed {
        return Receipt::Invalid(ReceiptFault::UploadNotAcknowledged);
    }
    let ds = match &result.descriptors {
        None => return Receipt::Absent,
        Some(Err(fault)) => return Receipt::Invalid(*fault),
        Some(Ok(ds)) => ds,
    };
    let ghost all = descriptor_views(ds@);
    let ghost locals = local_views(local_files@);
    if any_duplicate(ds) {
        return Receipt::Invalid(ReceiptFault::DuplicateSubmitted);
    }
    if any_unwritten(ds) {
        return Receipt::Invalid(ReceiptFault::ReceivedNotWritten);
    }
    if ds.len() > local_files.len() {
        return Receipt::Invalid(ReceiptFault::ExtraDescriptor);
    }
    if ds.len() < local_files.len() {
        return Receipt::Invalid(ReceiptFault::MissingDescriptor);
    }
    if any_stranger(ds, local_files) {
        return Receipt::Invalid(ReceiptFault::ExtraDescriptor);
    }
    if any_gap(ds, local_files) {
        return Receipt::Invalid(ReceiptFault::MissingDescriptor);
    }
    let mut acknowledged: Vec<AcknowledgedFile> = Vec::new();
    let mut i: usize = 0;
    proof {
        assert(all.take(0) =~= Seq::<FileView>::empty());
    }
    while i < ds.len()
        invariant
            i <= ds@.len(),
            all == descriptor_views(ds@),
            locals == local_views(local_files@),
            !has_stranger(all, locals),
            result@.descriptors == Some(Ok::<Seq<FileView>, ReceiptFault>(all)),
            assessment(result@, locals) == match first_difference(all, locals) {
                Some(fault) => ReceiptView::Invalid(fault),
                None => ReceiptView::Valid(all),
            },
            first_difference(all.take(i as int), locals) is None,
            acknowledged_views(acknowledged@) =~= all.take(i as int),
        decreases ds@.len() - i,
    {
        let d = &ds[i];
        proof {
            assert(all[i as int] == d@);
            assert(all.take(i + 1).drop_last() =~= all.take(i as int));
            assert(all.take(i + 1).last() == d@);
            assert(local_named(locals, all[i as int].submitted) is Some);
        }
        match find_local(local_files, d.submitted.as_str()) {
            Some(k) => {
                if d.size != local_files[k].size {
                    proof {
                        lemma_first_difference_stays(all, locals, i + 1);
                    }
                    return Receipt::Invalid(ReceiptFault::SizeMismatch);
                }
                if !same_text(d.sha256.as_str(), local_files[k].sha256.as_str()) {
                    proof {
                        lemma_first_difference_stays(all, locals, i + 1);
                    }
                    return Receipt::Invalid(ReceiptFault::Sha256Mismatch);
                }
            },
            None => {},
        }
        let ghost before = acknowledged_views(acknowledged@);
        let file = AcknowledgedFile {
            submitted: d.submitted.clone(),
            written: d.written.clone(),
            size: d.size,
            sha256: d.sha256.clone(),
            disposition: d.disposition.clone(),
        };
        acknowledged.push(file);
        proof {
            assert(acknowledged_views(acknowledged@) =~= before.push(d@));
            assert(all.take(i + 1) =~= all.take(i as int).push(d@));
        }
        i = i + 1;
    }
    proof {
        assert(all.take(ds@.len() as int) =~= all);
    }
    Receipt::Valid(acknowledged)
}

/// Why a receipt does not prove custody, in a word.
pub open spec fn receipt_fault_text(receipt: ReceiptView) -> Option<Seq<char>> {
    match receipt {
        ReceiptView::Absent => Some("descriptors_absent"@),
        ReceiptView::Invalid(fault) => Some(fault.text()),
        ReceiptView::Valid(_) => None,
    }
}

/// What is said of a receipt that does not prove custody.
pub fn receipt_warning(receipt: &Receipt) -> (r: Option<String>)
    ensures
        match receipt_fault_text(receipt@) {
            Some(fault) => r is Some && r->0@ == "upload was not acknowledged ("@ + fault + ")"@,
            None => r is None,
        },
{
    match receipt {
        Receipt::Absent => Some(
            concat3("upload was not acknowledged (", "descriptors_absent", ")"),
        ),
        Receipt::Invalid(fault) => Some(
            concat3("upload was not acknowledged (", fault.as_str(), ")"),
        ),
        Receipt::Valid(_) => None,
    }
}

// ---------------------------------------------------------------------------
// Answers
// ---------------------------------------------------------------------------

/// The journal's answer to an upload, read from its body. `file_descriptors` is JSON
/// text.
#[derive(Debug)]
pub struct UploadResponse {
    pub status: UploadStatus,
    pub segment: Option<String>,
    pub existing_segment: Option<String>,
    pub file_descriptors: Option<String>,
}

/// The key under which the journal keeps the segment. `Err` where the answer owes
/// one and has none that may stand in a path.
pub open spec fn answer_key(
    status: UploadStatus,
    segment: Option<Seq<char>>,
    existing_segment: Option<Seq<char>>,
) -> Result<Option<Seq<char>>, JournalError> {
    match status {
        UploadStatus::Okay | UploadStatus::Collision => owed_key(segment),
        UploadStatus::Duplicate => owed_key(existing_segment),
        UploadStatus::Conflict | UploadStatus::Failed => Ok(None),
    }
}

pub open spec fn owed_key(value: Option<Seq<char>>) -> Result<Option<Seq<char>>, JournalError> {
    if value is Some && is_valid_component(value->0) {
        Ok(value)
    } else {
        Err(local_error(DiagnosticCode::JournalContractInvalid))
    }
}

/// The descriptors of an answer: none where the field is missing or null.
pub open spec fn answer_descriptors(text: Option<Seq<char>>) -> Option<
    Result<Seq<FileView>, ReceiptFault>,
> {
    match text {
        None => None,
        Some(text) => if text_reading(text) == Some(JsonView::Null) {
            None
        } else {
            Some(descriptor_list(text))
        },
    }
}

/// What an answer to an upload says, where it keeps to the protocol.
pub open spec fn upload_view(response: Option<UploadResponse>) -> Result<UploadView, JournalError> {
    match response {
        None => Err(local_error(DiagnosticCode::JournalContractInvalid)),
        Some(answer) => match answer_key(
            answer.status,
            opt_text(answer.segment),
            opt_text(answer.existing_segment),
        ) {
            Err(error) => Err(error),
            Ok(authoritative_key) => Ok(
                UploadView {
                    status: answer.status,
                    authoritative_key,
                    descriptors: answer_descriptors(opt_text(answer.file_descriptors)),
                },
            ),
        },
    }
}

fn required_key(value: Option<String>) -> (r: Result<Option<String>, JournalError>)
    ensures
        match r {
            Ok(key) => owed_key(opt_text(value)) == Ok::<Option<Seq<char>>, JournalError>(
                opt_text(key),
            ),
            Err(error) => owed_key(opt_text(value)) == Err::<Option<Seq<char>>, JournalError>(error),
        },
{
    match value {
        Some(value) => if valid_component(value.as_str()) {
            Ok(Some(value))
        } else {
            Err(JournalError::local(DiagnosticCode::JournalContractInvalid))
        },
        None => Err(JournalError::local(DiagnosticCode::JournalContractInvalid)),
    }
}

/// What an answer to an upload says; `response` is nothing where the body could not
/// be read as one.
pub fn decode_upload_response(response: Option<UploadResponse>) -> (r: Result<
    UploadResult,
    JournalError,
>)
    ensures
        match r {
            Ok(result) => upload_view(response) == Ok::<UploadView, JournalError>(result@),
            Err(error) => upload_view(response) == Err::<UploadView, JournalError>(error),
        },
{
    let answer = match response {
        Some(answer) => answer,
        None => return Err(JournalError::local(DiagnosticCode::JournalContractInvalid)),
    };
    let key = match answer.status {
        UploadStatus::Okay | UploadStatus::Collision => required_key(answer.segment),
        UploadStatus::Duplicate => required_key(answer.existing_segment),
        UploadStatus::Conflict | UploadStatus::Failed => Ok(None),
    };
    let authoritative_key = match key {
        Ok(key) => key,
        Err(error) => return Err(error),
    };
    let descriptors = match answer.file_descriptors {
        None => None,
        Some(text) => match read_json(text.as_str().as_bytes()) {
            Some(JsonNode::Null) => None,
            _ => Some(parse_descriptor_shape(text.as_str())),
        },
    };
    Ok(UploadResult { status: answer.status, authoritative_key, descriptors })
}

/// The system status, read from its body.
#[derive(Debug)]
pub struct SystemStatus {
    pub ok: bool,
    pub current: String,
}

/// The journal's version; `response` is nothing where the body could not be read.
pub fn decode_system_status_response(response: Option<SystemStatus>) -> (r: Result<
    String,
    JournalError,
>)
    ensures
        match r {
            Ok(version) => response is Some && response->0.ok && version == response->0.current
                && version@.len() > 0,
            Err(error) => error == local_error(DiagnosticCode::JournalContractInvalid) && (
            response is None || !response->0.ok || response->0.current@.len() == 0),
        },
{
    match response {
        Some(status) => {
            if !status.ok || chars_of(status.current.as_str()).len() == 0 {
                return Err(JournalError::local(DiagnosticCode::JournalContractInvalid));
            }
            Ok(status.current)
        },
        None => Err(JournalError::local(DiagnosticCode::JournalContractInvalid)),
    }
}

/// The error that an answer other than 200 stands for. A server error without a
/// known reason is the journal or the bridge that fails to answer, not the journal
/// refusing this device.
pub open spec fn refusal(status: u16, reason: Option<JournalReasonCode>) -> JournalError {
    JournalError {
        diagnostic: if reason is None && status_class_of(status) == JournalStatusClass::Server {
            DiagnosticCode::JournalUnavailable
        } else {
            DiagnosticCode::JournalRejected
        },
        status_class: Some(status_class_of(status)),
        reason_code: reason,
        http_status: Some(status),
    }
}

/// The code of a reason that was given.
pub open spec fn code_given(reason: Option<&str>) -> Option<JournalReasonCode> {
    match reason {
        Some(text) => code_named(text@),
        None => None,
    }
}

/// The error that an answer other than 200 stands for; `reason` is the reason code of
/// its body, where that could be read.
pub fn classify_error_response(status: u16, reason: Option<&str>) -> (r: JournalError)
    ensures
        r == refusal(status, code_given(reason)),
{
    let status_class = if 400 <= status && status <= 499 {
        JournalStatusClass::Client
    } else if 500 <= status && status <= 599 {
        JournalStatusClass::Server
    } else {
        JournalStatusClass::Unexpected
    };
    let reason_code = match reason {
        Some(text) => JournalReasonCode::parse(text),
        None => None,
    };
    let diagnostic = if reason_code.is_none() && status_class == JournalStatusClass::Server {
        DiagnosticCode::JournalUnavailable
    } else {
        DiagnosticCode::JournalRejected
    };
    JournalError { diagnostic, status_class: Some(status_class), reason_code, http_status: Some(status) }
}

/// The diagnostic of a request that failed before an answer came.
pub fn request_diagnostic(timed_out: bool, fallback: DiagnosticCode) -> (r: DiagnosticCode)
    ensures
        r == if timed_out {
            DiagnosticCode::JournalTimeout
        } else {
            fallback
        },
{
    if timed_out {
        DiagnosticCode::JournalTimeout
    } else {
        fallback
    }
}

/// An answer that must be 200: else the error it stands for.
pub fn require_ok(status: u16, reason: Option<&str>) -> (r: Result<(), JournalError>)
    ensures
        match r {
            Ok(_) => status == STATUS_OK,
            Err(error) => status != STATUS_OK && error == refusal(status, code_given(reason)),
        },
{
    if status != STATUS_OK {
        Err(classify_error_response(status, reason))
    } else {
        Ok(())
    }
}

/// Whether the bridge took the bootstrap request: it answers with a redirect.
pub fn check_bootstrap(status: u16) -> (r: Result<(), DiagnosticCode>)
    ensures
        r == if status == STATUS_FOUND {
            Ok::<(), DiagnosticCode>(())
        } else {
            Err(DiagnosticCode::JournalContractInvalid)
        },
{
    if status != STATUS_FOUND {
        Err(DiagnosticCode::JournalContractInvalid)
    } else {
        Ok(())
    }
}

// ---------------------------------------------------------------------------
// Bodies
// ---------------------------------------------------------------------------

/// The length that an answer declares: the transport's, or else the header's.
pub open spec fn declared(known: Option<u64>, header: Option<Seq<char>>) -> Option<nat> {
    match known {
        Some(n) => Some(n as nat),
        None => match header {
            Some(text) => unsigned_value(text, u64::MAX as nat),
            None => None,
        },
    }
}

/// The body of an answer as it comes in, never longer than its limit.
#[derive(Debug)]
pub struct BodyCollector {
    body: Vec<u8>,
    max_bytes: usize,
}

impl BodyCollector {
    #[verifier::type_invariant]
    spec fn well_formed(self) -> bool {
        self.body@.len() <= self.max_bytes
    }

    /// The bytes so far.
    pub closed spec fn body(self) -> Seq<u8> {
        self.body@
    }

    pub closed spec fn max_bytes(self) -> usize {
        self.max_bytes
    }

    /// An empty body, unless the declared length is over the limit.
    pub fn start(known: Option<u64>, header: Option<&str>, max_bytes: usize) -> (r: Result<
        Self,
        JournalError,
    >)
        ensures
            ({
                let length = declared(
                    known,
                    match header {
                        Some(s) => Some(s@),
                        None => None,
                    },
                );
                match r {
                    Ok(collector) => (length is None || length->0 <= max_bytes) && collector.body()
                        == Seq::<u8>::empty() && collector.max_bytes() == max_bytes,
                    Err(error) => length is Some && length->0 > max_bytes && error == local_error(
                        DiagnosticCode::JournalResponseTooLarge,
                    ),
                }
            }),
    {
        let length = match known {
            Some(n) => Some(n),
            None => match header {
                Some(text) => parse_unsigned(text, u64::MAX),
                None => None,
            },
        };
        if let Some(n) = length {
            if n > max_bytes as u64 {
                return Err(JournalError::local(DiagnosticCode::JournalResponseTooLarge));
            }
        }
        Ok(BodyCollector { body: Vec::new(), max_bytes })
    }

    /// One more chunk, unless it takes the body over the limit.
    pub fn push(&mut self, chunk: &[u8]) -> (r: Result<(), JournalError>)
        ensures
            final(self).max_bytes() == old(self).max_bytes(),
            match r {
                Ok(_) => old(self).body().len() + chunk@.len() <= old(self).max_bytes() && final(self).body() == old(self).body() + chunk@,
                Err(error) => old(self).body().len() + chunk@.len() > old(self).max_bytes() && error
                    == local_error(DiagnosticCode::JournalResponseTooLarge) && final(self).body()
                    == old(self).body(),
            },
    {
        proof {
            use_type_invariant(&*self);
        }
        if chunk.len() > self.max_bytes - self.body.len() {
            return Err(JournalError::local(DiagnosticCode::JournalResponseTooLarge));
        }
        let max_bytes: usize = self.max_bytes;
        let mut taken = BodyCollector { body: Vec::new(), max_bytes };
        std::mem::swap(self, &mut taken);
        let mut body = taken.body;
        append_bytes(&mut body, chunk);
        *self = BodyCollector { body, max_bytes };
        Ok(())
    }

    /// The whole body.
    pub fn finish(self) -> (r: Vec<u8>)
        ensures
            r@ == self.body(),
            r@.len() <= self.max_bytes(),
    {
        proof {
            use_type_invariant(&self);
        }
        self.body
    }
}

/// The length of an upload request: it must be declared exactly once, be a number,
/// stay within the bridge's limit and not be chunked. A header that is no text is
/// nothing in `lengths`.
pub open spec fn request_length(chunked: bool, lengths: Seq<Option<Seq<char>>>) -> Result<
    nat,
    JournalError,
> {
    if chunked || lengths.len() == 0 || lengths[0] is None || unsigned_value(
        lengths[0]->0,
        u64::MAX as nat,
    ) is None || lengths.len() > 1 {
        Err(local_error(DiagnosticCode::JournalContractInvalid))
    } else if unsigned_value(lengths[0]->0, u64::MAX as nat)->0 > MAX_REQUEST_BODY_BYTES {
        Err(local_error(DiagnosticCode::RequestTooLarge))
    } else {
        Ok(unsigned_value(lengths[0]->0, u64::MAX as nat)->0)
    }
}

pub fn validate_multipart_request(chunked: bool, lengths: &Vec<Option<String>>) -> (r: Result<
    u64,
    JournalError,
>)
    ensures
        match r {
            Ok(n) => request_length(
                chunked,
                lengths@.map_values(|s: Option<String>| opt_text(s)),
            ) == Ok::<nat, JournalError>(n as nat),
            Err(error) => request_length(
                chunked,
                lengths@.map_values(|s: Option<String>| opt_text(s)),
            ) == Err::<nat, JournalError>(error),
        },
{
    if chunked || lengths.len() == 0 {
        return Err(JournalError::local(DiagnosticCode::JournalContractInvalid));
    }
    let length: u64 = match &lengths[0] {
        Some(text) => match parse_unsigned(text.as_str(), u64::MAX) {
            Some(n) => n,
            None => return Err(JournalError::local(DiagnosticCode::JournalContractInvalid)),
        },
        None => return Err(JournalError::local(DiagnosticCode::JournalContractInvalid)),
    };
    if lengths.len() > 1 {
        return Err(JournalError::local(DiagnosticCode::JournalContractInvalid));
    }
    if length > MAX_REQUEST_BODY_BYTES as u64 {
        return Err(JournalError::local(DiagnosticCode::RequestTooLarge));
    }
    Ok(length)
}

// ---------------------------------------------------------------------------
// Uploads
// ---------------------------------------------------------------------------

/// Eight digits.
pub open spec fn is_day(day: Seq<char>) -> bool {
    day.len() == 8 && all_digits(day)
}

pub fn valid_day(day: &str) -> (r: bool)
    ensures
        r == is_day(day@),
{
    chars_of(day).len() == 8 && only_digits(day)
}

#[derive(Debug)]
pub struct UploadEnvelopeFile {
    pub submitted: String,
}

/// What goes with the files of an upload.
#[derive(Debug)]
pub struct UploadEnvelope {
    pub day: String,
    pub segment: String,
    pub source: String,
    pub files: Vec<UploadEnvelopeFile>,
}

/// Whether a segment with `file_count` files can be uploaded under this name.
pub fn check_upload(day: &str, segment: &str, file_count: usize) -> (r: Result<(), JournalError>)
    ensures
        r == if is_day(day@) && is_valid_component(segment@) && file_count > 0 {
            Ok::<(), JournalError>(())
        } else {
            Err(local_error(DiagnosticCode::LocalSegmentInvalid))
        },
{
    if !valid_day(day) || !valid_component(segment) || file_count == 0 {
        return Err(JournalError::local(DiagnosticCode::LocalSegmentInvalid));
    }
    Ok(())
}

/// Some file is too large for one part of the request.
pub open spec fn has_oversized(files: Seq<LocalFile>) -> bool {
    exists|i: int| 0 <= i < files.len() && (#[trigger] files[i]).size > MAX_MULTIPART_PART_BYTES
}

/// The envelope of an upload: the files under their own names, in order.
pub fn plan_upload(day: &str, segment: &str, source: &str, files: &Vec<LocalFile>) -> (r: Result<
    UploadEnvelope,
    JournalError,
>)
    ensures
        match r {
            Ok(envelope) => {
                &&& !has_oversized(files@)
                &&& envelope.day@ == day@
                &&& envelope.segment@ == segment@
                &&& envelope.source@ == source@
                &&& envelope.files@.len() == files@.len()
                &&& forall|i: int|
                    0 <= i < files@.len() ==> (#[trigger] envelope.files@[i]).submitted@
                        == files@[i].name@
            },
            Err(error) => has_oversized(files@) && error == local_error(
                DiagnosticCode::RequestTooLarge,
            ),
        },
{
    let mut listed: Vec<UploadEnvelopeFile> = Vec::new();
    let mut i: usize = 0;
    while i < files.len()
        invariant
            i <= files@.len(),
            listed@.len() == i,
            forall|j: int| 0 <= j < i ==> (#[trigger] files@[j]).size <= MAX_MULTIPART_PART_BYTES,
            forall|j: int| 0 <= j < i ==> (#[trigger] listed@[j]).submitted@ == files@[j].name@,
        decreases files@.len() - i,
    {
        if files[i].size > MAX_MULTIPART_PART_BYTES {
            return Err(JournalError::local(DiagnosticCode::RequestTooLarge));
        }
        listed.push(UploadEnvelopeFile { submitted: files[i].name.clone() });
        i = i + 1;
    }
    Ok(
        UploadEnvelope { day: copy(day), segment: copy(segment), source: copy(source), files: listed },
    )
}

/// Whether the envelope, written out, fits into one part of the request.
pub fn check_envelope(length: usize) -> (r: Result<(), JournalError>)
    ensures
        r == if length <= MAX_MULTIPART_PART_BYTES {
            Ok::<(), JournalError>(())
        } else {
            Err(local_error(DiagnosticCode::RequestTooLarge))
        },
{
    if length as u64 > MAX_MULTIPART_PART_BYTES {
        return Err(JournalError::local(DiagnosticCode::RequestTooLarge));
    }
    Ok(())
}

/// What the answer to an upload comes to. Only a 200 is read as a receipt.
pub fn conclude_upload(status: u16, reason: Option<&str>, response: Option<UploadResponse>) -> (r:
    Result<UploadResult, JournalError>)
    ensures
        status == STATUS_OK ==> match r {
            Ok(result) => upload_view(response) == Ok::<UploadView, JournalError>(result@),
            Err(error) => upload_view(response) == Err::<UploadView, JournalError>(error),
        },
        status != STATUS_OK ==> r == Err::<UploadResult, JournalError>(
            refusal(status, code_given(reason)),
        ),
{
    match require_ok(status, reason) {
        Ok(_) => decode_upload_response(response),
        Err(error) => Err(error),
    }
}

/// The name under which the file at `path` is uploaded.
pub open spec fn upload_name(path: Seq<u8>) -> Option<Seq<char>> {
    match file_name(path) {
        Some(name) => if valid_utf8(name) && is_valid_component(decode_utf8(name)) {
            Some(decode_utf8(name))
        } else {
            None
        },
        None => None,
    }
}

/// A file as an upload describes it, from its path, its size and its contents.
pub fn prepare_file(path: &[u8], size: u64, contents: &[u8]) -> (r: Result<LocalFile, JournalError>)
    ensures
        match r {
            Ok(file) => upload_name(path@) == Some(file.name@) && file.size == size && file.sha256@
                == hex_text(sha256_digest(contents@)),
            Err(error) => upload_name(path@) is None && error == local_error(
                DiagnosticCode::LocalSegmentInvalid,
            ),
        },
{
    let bytes = match path_file_name(path) {
        Some(bytes) => bytes,
        None => return Err(JournalError::local(DiagnosticCode::LocalSegmentInvalid)),
    };
    let name = match decode_text(bytes.as_slice()) {
        Ok(name) => name,
        Err(_) => return Err(JournalError::local(DiagnosticCode::LocalSegmentInvalid)),
    };
    if !valid_component(name.as_str()) {
        return Err(JournalError::local(DiagnosticCode::LocalSegmentInvalid));
    }
    Ok(LocalFile { name, size, sha256: sha256_hex(contents) })
}

/// The chunks of files that wait between the disk and the connection.
#[derive(Debug, PartialEq, Eq, Structural)]
pub struct UploadStage {
    pub capacity: usize,
    pub chunks: usize,
    pub bytes: usize,
    pub high_water_bytes: usize,
}

/// There is room for one more chunk.
pub open spec fn has_room(stage: UploadStage) -> bool {
    stage.chunks < stage.capacity
}

/// The stage after room was taken for one more chunk.
pub open spec fn chunk_reserved(stage: UploadStage) -> UploadStage {
    UploadStage { chunks: (stage.chunks + 1) as usize, ..stage }
}

/// The stage after so many bytes came into a reserved chunk.
pub open spec fn bytes_recorded(stage: UploadStage, bytes: usize) -> UploadStage {
    UploadStage {
        bytes: (stage.bytes + bytes) as usize,
        high_water_bytes: if stage.bytes + bytes > stage.high_water_bytes {
            (stage.bytes + bytes) as usize
        } else {
            stage.high_water_bytes
        },
        ..stage
    }
}

/// The stage after a reserved chunk of so many bytes has gone out.
pub open spec fn chunk_released(stage: UploadStage, bytes: usize) -> UploadStage {
    UploadStage {
        chunks: (stage.chunks - 1) as usize,
        bytes: (stage.bytes - bytes) as usize,
        ..stage
    }
}

impl UploadStage {
    /// Never more chunks than there is room for, and the mark is the largest number
    /// of bytes that ever waited.
    pub open spec fn well_formed(self) -> bool {
        self.chunks <= self.capacity && self.bytes <= self.high_water_bytes
    }

    pub fn new(capacity: usize) -> (r: Self)
        ensures
            r == (UploadStage { capacity, chunks: 0, bytes: 0, high_water_bytes: 0 }),
            r.well_formed(),
    {
        UploadStage { capacity, chunks: 0, bytes: 0, high_water_bytes: 0 }
    }

    /// Room for one more chunk; where there is none the producer waits.
    pub fn reserve(&mut self) -> (r: bool)
        requires
            old(self).well_formed(),
        ensures
            final(self).well_formed(),
            r == has_room(*old(self)),
            r ==> *final(self) == chunk_reserved(*old(self)),
            !r ==> *final(self) == *old(self),
    {
        if self.chunks >= self.capacity {
            return false;
        }
        self.chunks = self.chunks + 1;
        true
    }

    /// The bytes that came into a reserved chunk.
    pub fn record_bytes(&mut self, bytes: usize)
        requires
            old(self).well_formed(),
            old(self).bytes + bytes <= usize::MAX,
        ensures
            final(self).well_formed(),
            *final(self) == bytes_recorded(*old(self), bytes),
    {
        self.bytes = self.bytes + bytes;
        if self.bytes > self.high_water_bytes {
            self.high_water_bytes = self.bytes;
        }
    }

    /// A reserved chunk of that many bytes has gone out.
    pub fn release(&mut self, bytes: usize)
        requires
            old(self).well_formed(),
            old(self).chunks > 0,
            old(self).bytes >= bytes,
        ensures
            final(self).well_formed(),
            *final(self) == chunk_released(*old(self), bytes),
    {
        self.chunks = self.chunks - 1;
        self.bytes = self.bytes - bytes;
    }

    pub fn high_water_bytes(&self) -> (r: usize)
        ensures
            r == self.high_water_bytes,
    {
        self.high_water_bytes
    }
}

// ---------------------------------------------------------------------------
// Request paths
// ---------------------------------------------------------------------------

/// The parts of a URL that a request path may not change.
#[derive(Debug)]
pub struct UrlParts {
    pub text: String,
    pub scheme: String,
    pub host: Option<String>,
    pub port: Option<u16>,
    pub has_query: bool,
    pub has_fragment: bool,
}

pub ghost struct UrlView {
    pub text: Seq<char>,
    pub scheme: Seq<char>,
    pub host: Option<Seq<char>>,
    pub port: Option<u16>,
    pub has_query: bool,
    pub has_fragment: bool,
}

impl View for UrlParts {
    type V = UrlView;

    open spec fn view(&self) -> UrlView {
        UrlView {
            text: self.text@,
            scheme: self.scheme@,
            host: opt_text(self.host),
            port: self.port,
            has_query: self.has_query,
            has_fragment: self.has_fragment,
        }
    }
}

pub open spec fn url_view(url: Option<UrlParts>) -> Option<UrlView> {
    match url {
        Some(url) => Some(url@),
        None => None,
    }
}

/// What `reqwest::Url::parse` reads from `text`.
pub uninterp spec fn url_reading(text: Seq<char>) -> Option<UrlView>;

/// What `reqwest::Url::join` makes of the URL `origin` and the reference `path`;
/// nothing too where `origin` is no URL.
pub uninterp spec fn url_joined(origin: Seq<char>, path: Seq<char>) -> Option<UrlView>;

/// `reqwest::Url::parse`, taken apart. The result depends on the text alone.
#[verifier::external_body]
fn read_url(text: &str) -> (r: Option<UrlParts>)
    ensures
        url_view(r) == url_reading(text@),
{
    let url = reqwest::Url::parse(text).ok()?;
    Some(
        UrlParts {
            text: url.as_str().to_owned(),
            scheme: url.scheme().to_owned(),
            host: url.host_str().map(|host| host.to_owned()),
            port: url.port_or_known_default(),
            has_query: url.query().is_some(),
            has_fragment: url.fragment().is_some(),
        },
    )
}

/// `reqwest::Url::join` on the URL that `origin` writes, taken apart. The result
/// depends on the two texts alone.
#[verifier::external_body]
fn join_url(origin: &str, path: &str) -> (r: Option<UrlParts>)
    ensures
        url_view(r) == url_joined(origin@, path@),
{
    let url = reqwest::Url::parse(origin).ok()?.join(path).ok()?;
    Some(
        UrlParts {
            text: url.as_str().to_owned(),
            scheme: url.scheme().to_owned(),
            host: url.host_str().map(|host| host.to_owned()),
            port: url.port_or_known_default(),
            has_query: url.query().is_some(),
            has_fragment: url.fragment().is_some(),
        },
    )
}

/// A path from the root, without a host, a query, a fragment or a line break.
pub open spec fn is_request_path(path: Seq<char>) -> bool {
    &&& path.len() > 0 && path[0] == '/'
    &&& !(path.len() > 1 && path[1] == '/')
    &&& forall|i: int|
        0 <= i < path.len() ==> !is_path_breaker(#[trigger] path[i])
}

pub open spec fn is_path_breaker(c: char) -> bool {
    c == '?' || c == '#' || c == '\\' || c == '\r' || c == '\n'
}

/// The URL is of the origin's site and has neither a query nor a fragment.
pub open spec fn is_confined(origin: UrlView, url: UrlView) -> bool {
    &&& url.scheme == origin.scheme
    &&& url.host == origin.host
    &&& url.port == origin.port
    &&& !url.has_query
    &&& !url.has_fragment
}

fn path_is_plain(path: &str) -> (r: bool)
    ensures
        r == is_request_path(path@),
{
    let chars = chars_of(path);
    if chars.len() == 0 || chars[0] != '/' {
        return false;
    }
    if chars.len() > 1 && chars[1] == '/' {
        return false;
    }
    let mut i: usize = 0;
    while i < chars.len()
        invariant
            i <= chars@.len(),
            chars@ == path@,
            forall|j: int| 0 <= j < i ==> !is_path_breaker(#[trigger] path@[j]),
        decreases chars@.len() - i,
    {
        let c = chars[i];
        if c == '?' || c == '#' || c == '\\' || c == '\r' || c == '\n' {
            proof {
                assert(is_path_breaker(path@[i as int]));
            }
            return false;
        }
        i = i + 1;
    }
    true
}

/// The loopback bridge's origin.
pub fn parse_origin(text: &str) -> (r: Result<UrlParts, DiagnosticCode>)
    ensures
        match r {
            Ok(url) => url_reading(text@) == Some(url@),
            Err(code) => url_reading(text@) is None && code == DiagnosticCode::BridgeUnavailable,
        },
{
    match read_url(text) {
        Some(url) => Ok(url),
        None => Err(DiagnosticCode::BridgeUnavailable),
    }
}

/// The joined URL, unless it leaves the origin.
pub fn confine_url(origin: &UrlParts, joined: Option<UrlParts>) -> (r: Result<
    UrlParts,
    DiagnosticCode,
>)
    ensures
        match r {
            Ok(url) => joined == Some(url) && is_confined(origin@, url@),
            Err(code) => code == DiagnosticCode::JournalContractInvalid && (joined is None
                || !is_confined(origin@, joined->0@)),
        },
{
    match joined {
        Some(url) => {
            if !same_text(url.scheme.as_str(), origin.scheme.as_str()) || !same_option(
                &url.host,
                &origin.host,
            ) || url.port != origin.port || url.has_query || url.has_fragment {
                return Err(DiagnosticCode::JournalContractInvalid);
            }
            Ok(url)
        },
        None => Err(DiagnosticCode::JournalContractInvalid),
    }
}

/// The URL of `path` at the origin. It never leaves the origin.
pub fn confine_path(origin: &UrlParts, path: &str) -> (r: Result<UrlParts, DiagnosticCode>)
    ensures
        match r {
            Ok(url) => is_request_path(path@) && url_joined(origin.text@, path@) == Some(url@)
                && is_confined(origin@, url@),
            Err(code) => code == DiagnosticCode::JournalContractInvalid && (!is_request_path(path@)
                || url_joined(origin.text@, path@) is None || !is_confined(
                origin@,
                url_joined(origin.text@, path@)->0,
            )),
        },
{
    if !path_is_plain(path) {
        return Err(DiagnosticCode::JournalContractInvalid);
    }
    confine_url(origin, join_url(origin.text.as_str(), path))
}

// ---------------------------------------------------------------------------
// When custody is proved, and what refusals mean
// ---------------------------------------------------------------------------

/// A receipt that says that the journal holds every local file is valid, whatever made
/// the journal hold them: an upload that was taken, one that it had already, or one that
/// it keeps under another name. Each local file is described, with its name, size and
/// digest and not as unwritten; no name is described twice, and nothing else is.
pub proof fn lemma_complete_receipt_is_valid(
    result: UploadView,
    ds: Seq<FileView>,
    locals: Seq<LocalView>,
)
    requires
        result.status == UploadStatus::Okay || result.status == UploadStatus::Duplicate
            || result.status == UploadStatus::Collision,
        result.descriptors == Some(Ok::<Seq<FileView>, ReceiptFault>(ds)),
        ds.len() == locals.len(),
        forall|i: int, j: int|
            0 <= i < j < ds.len() ==> (#[trigger] ds[i]).submitted != (#[trigger] ds[j]).submitted,
        forall|j: int|
            0 <= j < ds.len() ==> (#[trigger] ds[j]).disposition != "received_not_written"@,
        forall|j: int|
            0 <= j < ds.len() ==> exists|i: int|
                0 <= i < locals.len() && (#[trigger] locals[i]).name == (
                #[trigger] ds[j]).submitted && locals[i].size == ds[j].size && locals[i].sha256
                    == ds[j].sha256,
    ensures
        assessment(result, locals) == ReceiptView::Valid(ds),
{
    assert(!has_duplicate(ds)) by {
        if has_duplicate(ds) {
            let (i, j) = choose|i: int, j: int|
                0 <= i < j < ds.len() && (#[trigger] ds[i]).submitted == (
                #[trigger] ds[j]).submitted;
            assert(ds[i].submitted != ds[j].submitted);
        }
    }
    assert(!has_stranger(ds, locals)) by {
        assert forall|j: int| 0 <= j < ds.len() implies local_named(
            locals,
            (#[trigger] ds[j]).submitted,
        ) is Some by {
            lemma_local_named(locals, ds[j].submitted);
            let i = choose|i: int|
                0 <= i < locals.len() && (#[trigger] locals[i]).name == ds[j].submitted
                    && locals[i].size == ds[j].size && locals[i].sha256 == ds[j].sha256;
            assert(locals[i].name == ds[j].submitted);
        }
    }
    lemma_names_once(ds, locals);
    assert(!has_gap(ds, locals)) by {
        lemma_every_local_is_described(ds, locals);
    }
    assert forall|k: int| 0 <= k < ds.len() implies difference(
        #[trigger] ds[k],
        local_named(locals, ds[k].submitted)->0,
    ) is None by {
        lemma_local_named(locals, ds[k].submitted);
        let found = local_named(locals, ds[k].submitted)->0;
        let a = choose|a: int| 0 <= a < locals.len() && #[trigger] locals[a] == found;
        let i = choose|i: int|
            0 <= i < locals.len() && (#[trigger] locals[i]).name == ds[k].submitted
                && locals[i].size == ds[k].size && locals[i].sha256 == ds[k].sha256;
        assert(locals[a].name == locals[i].name);
        assert(a == i);
    }
    lemma_alike_lists_have_no_difference(ds, locals);
}

proof fn lemma_alike_lists_have_no_difference(ds: Seq<FileView>, locals: Seq<LocalView>)
    requires
        forall|k: int|
            0 <= k < ds.len() ==> difference(
                #[trigger] ds[k],
                local_named(locals, ds[k].submitted)->0,
            ) is None,
    ensures
        first_difference(ds, locals) is None,
    decreases ds.len(),
{
    if ds.len() > 0 {
        let before = ds.drop_last();
        assert forall|k: int| 0 <= k < before.len() implies difference(
            #[trigger] before[k],
            local_named(locals, before[k].submitted)->0,
        ) is None by {
            assert(before[k] == ds[k]);
        }
        lemma_alike_lists_have_no_difference(before, locals);
        assert(ds.last() == ds[ds.len() - 1]);
    }
}

proof fn lemma_every_local_is_described(ds: Seq<FileView>, locals: Seq<LocalView>)
    requires
        ds.len() == locals.len(),
        !has_duplicate(ds),
        !has_stranger(ds, locals),
    ensures
        !has_gap(ds, locals),
{
    let submitted = ds.map_values(|d: FileView| d.submitted);
    let names = locals.map_values(|l: LocalView| l.name);
    assert(submitted.no_duplicates());
    submitted.unique_seq_to_set();
    vstd::seq_lib::seq_to_set_is_finite(names);
    vstd::seq_lib::seq_to_set_is_finite(submitted);
    names.lemma_cardinality_of_set();
    assert(submitted.to_set().subset_of(names.to_set())) by {
        assert forall|name: Seq<char>| submitted.to_set().contains(name) implies names.to_set().contains(
            name,
        ) by {
            let k = choose|k: int| 0 <= k < submitted.len() && submitted[k] == name;
            assert(ds[k].submitted == name);
            lemma_local_named(locals, name);
            let i = choose|i: int|
                0 <= i < locals.len() && #[trigger] locals[i] == local_named(locals, name)->0;
            assert(names[i] == name);
        }
    }
    vstd::set_lib::lemma_len_subset(submitted.to_set(), names.to_set());
    vstd::set_lib::lemma_subset_equality(submitted.to_set(), names.to_set());
    assert forall|i: int| 0 <= i < locals.len() implies describes(ds, (#[trigger] locals[i]).name) by {
        assert(names[i] == locals[i].name);
        assert(names.to_set().contains(locals[i].name));
        assert(submitted.to_set().contains(locals[i].name));
        let k = choose|k: int| 0 <= k < submitted.len() && submitted[k] == locals[i].name;
        assert(ds[k].submitted == locals[i].name);
    }
}

/// Nothing is proved by an upload that the journal refused, nor without descriptors, nor
/// by descriptors of which one is missing, says that a file was not written, or differs
/// from the file in size or digest.
pub proof fn lemma_receipt_needs_proof_of_each_file(
    result: UploadView,
    locals: Seq<LocalView>,
    i: int,
)
    requires
        assessment(result, locals) is Valid,
        0 <= i < locals.len(),
    ensures
        result.status != UploadStatus::Conflict && result.status != UploadStatus::Failed,
        result.descriptors == Some(
            Ok::<Seq<FileView>, ReceiptFault>(assessment(result, locals)->Valid_0),
        ),
        exists|j: int|
            0 <= j < assessment(result, locals)->Valid_0.len() && ({
                let d = #[trigger] assessment(result, locals)->Valid_0[j];
                &&& d.submitted == locals[i].name
                &&& d.size == locals[i].size
                &&& d.sha256 == locals[i].sha256
                &&& d.disposition != "received_not_written"@
            }),
{
    lemma_valid_receipt_covers(result, locals);
    let ds = assessment(result, locals)->Valid_0;
    let j = choose|j: int| 0 <= j < ds.len() && is_custody(#[trigger] ds[j], locals[i]);
    assert(ds[j].submitted == locals[i].name);
}

/// A journal that received files without writing them says so before anything else that
/// is wrong with them but a name that is described twice.
pub proof fn lemma_unwritten_files_are_told_apart(
    result: UploadView,
    ds: Seq<FileView>,
    locals: Seq<LocalView>,
    k: int,
)
    requires
        result.status == UploadStatus::Okay || result.status == UploadStatus::Duplicate
            || result.status == UploadStatus::Collision,
        result.descriptors == Some(Ok::<Seq<FileView>, ReceiptFault>(ds)),
        0 <= k < ds.len(),
        ds[k].disposition == "received_not_written"@,
        forall|i: int, j: int|
            0 <= i < j < ds.len() ==> (#[trigger] ds[i]).submitted != (#[trigger] ds[j]).submitted,
    ensures
        assessment(result, locals) == ReceiptView::Invalid(ReceiptFault::ReceivedNotWritten),
{
    if has_duplicate(ds) {
        let (i, j) = choose|i: int, j: int|
            0 <= i < j < ds.len() && (#[trigger] ds[i]).submitted == (#[trigger] ds[j]).submitted;
        assert(ds[i].submitted != ds[j].submitted);
    }
    assert(has_unwritten(ds));
}

/// An answer without descriptors proves nothing and is no fault, where the upload was
/// not refused; a refused upload is a fault whatever is described.
pub proof fn lemma_refused_and_bare_answers(result: UploadView, locals: Seq<LocalView>)
    ensures
        assessment(result, locals) is Absent <==> result.descriptors is None && result.status
            != UploadStatus::Conflict && result.status != UploadStatus::Failed,
        result.status == UploadStatus::Conflict || result.status == UploadStatus::Failed
            ==> assessment(result, locals) == ReceiptView::Invalid(
            ReceiptFault::UploadNotAcknowledged,
        ),
        result.status != UploadStatus::Conflict && result.status != UploadStatus::Failed ==> (
        result.descriptors matches Some(Err(fault)) ==> assessment(result, locals)
            == ReceiptView::Invalid(fault)),
{
}

/// The key of an answer that owes one is that of the segment which the journal names, as
/// it names it: the new one for an upload that was taken, the old one for a duplicate. An
/// upload that was refused has none.
pub proof fn lemma_key_is_what_the_journal_names(
    status: UploadStatus,
    segment: Option<Seq<char>>,
    existing: Option<Seq<char>>,
    key: Seq<char>,
)
    ensures
        answer_key(status, segment, existing) == Ok::<Option<Seq<char>>, JournalError>(Some(key))
            <==> is_valid_component(key) && (((status == UploadStatus::Okay || status
            == UploadStatus::Collision) && segment == Some(key)) || (status
            == UploadStatus::Duplicate && existing == Some(key))),
        answer_key(status, segment, existing) == Ok::<Option<Seq<char>>, JournalError>(None)
            <==> status == UploadStatus::Conflict || status == UploadStatus::Failed,
{
}

/// The digest that this library computes of a file is one that the journal can describe
/// the file with.
pub proof fn lemma_own_digest_is_accepted(hash: Seq<u8>, d: DescriptorView)
    requires
        hash.len() == 32,
        d.sha256 == Some(hex_text(hash)),
        d.submitted is Some,
        d.written is Some,
        d.size is Some,
        d.disposition == Some(Some("written"@)) || d.disposition == Some(Some("already_held"@))
            || d.disposition == Some(Some("received_not_written"@)),
    ensures
        descriptor(d) == Ok::<FileView, ReceiptFault>(
            FileView {
                submitted: d.submitted->0,
                written: d.written->0,
                size: d.size->0,
                sha256: hex_text(hash),
                disposition: d.disposition->0->0,
            },
        ),
{
    let s = hex_text(hash);
    lemma_hex_digits(hash);
    assert forall|i: int| 0 <= i < s.len() implies is_hex(#[trigger] s[i]) && !is_upper(s[i])
        && (s[i] as u32) < 128 by {
        lemma_hex_digit_range(hash, i);
    }
    assert(is_ascii_chars(s));
    is_ascii_chars_encode_utf8(s);
}

proof fn lemma_hex_digit_range(bytes: Seq<u8>, i: int)
    requires
        0 <= i < hex_text(bytes).len(),
    ensures
        is_digit(hex_text(bytes)[i]) || 'a' <= hex_text(bytes)[i] <= 'f',
    decreases bytes.len(),
{
    if bytes.len() > 0 {
        let before = hex_text(bytes.drop_last());
        if i < before.len() {
            lemma_hex_digit_range(bytes.drop_last(), i);
            assert(hex_text(bytes)[i] == before[i]);
        } else {
            let n = if i == before.len() {
                (bytes.last() / 16) as nat
            } else {
                (bytes.last() % 16) as nat
            };
            assert(n < 16);
            assert(hex_text(bytes)[i] == digit_char(n));
            if n < 10 {
                assert(digit_char(n) as u32 == n + '0' as u32);
            } else {
                assert(digit_char(n) as u32 == n - 10 + 'a' as u32);
            }
        }
    }
}

/// A refusal keeps the status and the reason. It counts as the journal not being there
/// only for a status from 500 to 599 without a known reason; any other refuses the
/// request.
pub proof fn lemma_refusals_are_told_from_outages(status: u16, reason: Option<JournalReasonCode>)
    ensures
        refusal(status, reason).http_status == Some(status),
        refusal(status, reason).reason_code == reason,
        refusal(status, reason).diagnostic == DiagnosticCode::JournalUnavailable <==> reason is None
            && status / 100 == 5,
        refusal(status, reason).diagnostic != DiagnosticCode::JournalUnavailable ==> refusal(
            status,
            reason,
        ).diagnostic == DiagnosticCode::JournalRejected,
        refusal(status, reason).status_class == Some(JournalStatusClass::Client) <==> status / 100
            == 4,
        refusal(status, reason).status_class == Some(JournalStatusClass::Server) <==> status / 100
            == 5,
{
}

/// A request that declares its length once, and is not chunked, has that length, up to
/// the limit of the bridge; two declarations, even of one length, are refused.
pub proof fn lemma_declared_length_is_read(n: nat, more: Seq<Option<Seq<char>>>)
    requires
        n <= u64::MAX,
    ensures
        n <= 128 * 1024 * 1024 ==> request_length(false, seq![Some(decimal(n))]) == Ok::<
            nat,
            JournalError,
        >(n),
        n > 128 * 1024 * 1024 ==> request_length(false, seq![Some(decimal(n))]) == Err::<
            nat,
            JournalError,
        >(local_error(DiagnosticCode::RequestTooLarge)),
        request_length(true, seq![Some(decimal(n))]) is Err,
        more.len() > 0 ==> request_length(false, seq![Some(decimal(n))] + more) is Err,
{
    lemma_decimal_is_read_back(n, u64::MAX as nat);
    let one = seq![Some(decimal(n))];
    assert(one[0] == Some(decimal(n)));
    assert((one + more)[0] == Some(decimal(n)));
}

/// The length that an answer declares is that of the transport, or else the number in
/// its header.
pub proof fn lemma_declared_body_length(known: u64, n: nat, header: Option<Seq<char>>)
    requires
        n <= u64::MAX,
    ensures
        declared(Some(known), header) == Some(known as nat),
        declared(None, Some(decimal(n))) == Some(n),
        declared(None, None) is None,
{
    lemma_decimal_is_read_back(n, u64::MAX as nat);
}

/// A file is uploaded under the name that it has in its directory, where that may stand
/// in a path as it is.
pub proof fn lemma_file_keeps_its_name(directory: Seq<u8>, name: Seq<char>)
    requires
        is_valid_component(name),
    ensures
        upload_name(join_path(directory, encode_utf8(name))) == Some(name),
{
    lemma_valid_component_is_entry(name);
    lemma_join_adds_one_entry(directory, encode_utf8(name));
    let listed = entries(directory).push(encode_utf8(name));
    assert(listed.last() == encode_utf8(name));
    encode_utf8_valid_utf8(name);
    encode_utf8_decode_utf8(name);
    lemma_valid_component(name);
    let c = name[0];
    assert(crate::text::is_lower(c) || is_digit(c));
    let bytes = encode_utf8(name);
    assert(bytes[0] != 0x2e) by {
        crate::name::lemma_valid_component_bytes(name);
    }
    assert(bytes != seq![0x2eu8]) by {
        assert(seq![0x2eu8][0] == 0x2e);
    }
    assert(bytes != seq![0x2eu8, 0x2eu8]) by {
        assert(seq![0x2eu8, 0x2eu8][0] == 0x2e);
    }
}

/// The reasons are written as the journal's protocol names them.
pub proof fn lemma_reasons_have_their_names()
    ensures
        code_named("auth_key_invalid"@) == Some(JournalReasonCode::AuthKeyInvalid),
        code_named("auth_required"@) == Some(JournalReasonCode::AuthRequired),
        code_named("content_conflict"@) == Some(JournalReasonCode::ContentConflict),
        code_named("feature_unavailable"@) == Some(JournalReasonCode::FeatureUnavailable),
        code_named("ingest_contract_invalid"@) == Some(JournalReasonCode::IngestContractInvalid),
        code_named("ingest_no_files"@) == Some(JournalReasonCode::IngestNoFiles),
        code_named("ingest_sidecar_conflict"@) == Some(JournalReasonCode::IngestSidecarConflict),
        code_named("ingest_storage_failed"@) == Some(JournalReasonCode::IngestStorageFailed),
        code_named("invalid_day"@) == Some(JournalReasonCode::InvalidDay),
        code_named("invalid_segment_or_stream"@) == Some(JournalReasonCode::InvalidSegmentOrStream),
        code_named("local_request_only"@) == Some(JournalReasonCode::LocalRequestOnly),
        code_named("missing_required_field"@) == Some(JournalReasonCode::MissingRequiredField),
        code_named("linked_device_required"@) == Some(JournalReasonCode::LinkedDeviceRequired),
        code_named("pl_revoked"@) == Some(JournalReasonCode::PlRevoked),
        code_named("protocol_version_future"@) == Some(JournalReasonCode::ProtocolVersionFuture),
        code_named("protocol_version_legacy"@) == Some(JournalReasonCode::ProtocolVersionLegacy),
        code_named("segment_removed"@) == Some(JournalReasonCode::SegmentRemoved),
        code_named("settings_operation_failed"@) == Some(JournalReasonCode::SettingsOperationFailed),
{
    lemma_wire_round_trip(JournalReasonCode::AuthKeyInvalid);
    lemma_wire_round_trip(JournalReasonCode::AuthRequired);
    lemma_wire_round_trip(JournalReasonCode::ContentConflict);
    lemma_wire_round_trip(JournalReasonCode::FeatureUnavailable);
    lemma_wire_round_trip(JournalReasonCode::IngestContractInvalid);
    lemma_wire_round_trip(JournalReasonCode::IngestNoFiles);
    lemma_wire_round_trip(JournalReasonCode::IngestSidecarConflict);
    lemma_wire_round_trip(JournalReasonCode::IngestStorageFailed);
    lemma_wire_round_trip(JournalReasonCode::InvalidDay);
    lemma_wire_round_trip(JournalReasonCode::InvalidSegmentOrStream);
    lemma_wire_round_trip(JournalReasonCode::LocalRequestOnly);
    lemma_wire_round_trip(JournalReasonCode::MissingRequiredField);
    lemma_wire_round_trip(JournalReasonCode::LinkedDeviceRequired);
    lemma_wire_round_trip(JournalReasonCode::PlRevoked);
    lemma_wire_round_trip(JournalReasonCode::ProtocolVersionFuture);
    lemma_wire_round_trip(JournalReasonCode::ProtocolVersionLegacy);
    lemma_wire_round_trip(JournalReasonCode::SegmentRemoved);
    lemma_wire_round_trip(JournalReasonCode::SettingsOperationFailed);
}

/// A chunk that was taken in and has gone out again leaves the stage as it was, but for
/// the mark, which is never below the most bytes that waited. There is room exactly while
/// fewer chunks wait than may.
pub proof fn lemma_chunk_passes_through(stage: UploadStage, bytes: usize)
    requires
        stage.well_formed(),
        stage.chunks < stage.capacity,
        stage.bytes + bytes <= usize::MAX,
    ensures
        has_room(stage),
        ({
            let filled = bytes_recorded(chunk_reserved(stage), bytes);
            let after = chunk_released(filled, bytes);
            &&& filled.chunks == stage.chunks + 1
            &&& filled.bytes == stage.bytes + bytes
            &&& filled.high_water_bytes >= stage.bytes + bytes
            &&& filled.high_water_bytes >= stage.high_water_bytes
            &&& filled.high_water_bytes == stage.high_water_bytes || filled.high_water_bytes
                == stage.bytes + bytes
            &&& after.chunks == stage.chunks
            &&& after.bytes == stage.bytes
            &&& after.capacity == stage.capacity
            &&& after.high_water_bytes == filled.high_water_bytes
        }),
        !has_room(UploadStage { chunks: stage.capacity, ..stage }),
{
}

/// A request goes to a path from the root of the journal's own site: it has no host of its
/// own, no query, no fragment, no backslash and no line break.
pub proof fn lemma_which_paths_are_requested(path: Seq<char>)
    ensures
        is_request_path(path) ==> path.len() > 0 && path[0] == '/' && (path.len() == 1 || path[1]
            != '/'),
        is_request_path(path) ==> forall|i: int|
            0 <= i < path.len() ==> #[trigger] path[i] != '?' && path[i] != '#' && path[i] != '\\'
                && path[i] != '\r' && path[i] != '\n',
        path.len() > 0 && path[0] == '/' && (path.len() == 1 || path[1] != '/') && (forall|i: int|
            0 <= i < path.len() ==> #[trigger] path[i] != '?' && path[i] != '#' && path[i] != '\\'
                && path[i] != '\r' && path[i] != '\n') ==> is_request_path(path),
{
    if is_request_path(path) {
        assert forall|i: int| 0 <= i < path.len() implies #[trigger] path[i] != '?' && path[i]
            != '#' && path[i] != '\\' && path[i] != '\r' && path[i] != '\n' by {
            assert(!is_path_breaker(path[i]));
        }
    }
}

/// A URL is used exactly where it has the scheme, the host and the port of the origin and
/// neither a query nor a fragment, and then as it is.
pub proof fn lemma_requests_stay_at_the_origin(
    origin: UrlParts,
    joined: Option<UrlParts>,
    r: Result<UrlParts, DiagnosticCode>,
)
    requires
        call_ensures(confine_url, (&origin, joined), r),
    ensures
        r is Ok <==> joined is Some && joined->0@.scheme == origin@.scheme && joined->0@.host
            == origin@.host && joined->0@.port == origin@.port && !joined->0@.has_query
            && !joined->0@.has_fragment,
        r is Ok ==> r->Ok_0 == joined->0,
        r is Err ==> r->Err_0 == DiagnosticCode::JournalContractInvalid,
{
}

/// What is said of an upload tells exactly of those that prove nothing, and why.
pub proof fn lemma_warning_tells_what_is_missing(receipt: Receipt, r: Option<String>)
    requires
        call_ensures(receipt_warning, (&receipt,), r),
    ensures
        r is None <==> receipt is Valid,
        receipt matches Receipt::Invalid(fault) ==> r->0@ == "upload was not acknowledged ("@
            + fault.text() + ")"@,
        receipt is Absent ==> r->0@ == "upload was not acknowledged ("@ + "descriptors_absent"@
            + ")"@,
{
}

/// A request that timed out is told from one that failed otherwise, and the bridge is set
/// up only where it answers with a redirect.
pub proof fn lemma_requests_that_failed(
    timed_out: bool,
    fallback: DiagnosticCode,
    diagnostic: DiagnosticCode,
    status: u16,
    bootstrap: Result<(), DiagnosticCode>,
)
    requires
        call_ensures(request_diagnostic, (timed_out, fallback), diagnostic),
        call_ensures(check_bootstrap, (status,), bootstrap),
    ensures
        timed_out ==> diagnostic == DiagnosticCode::JournalTimeout,
        !timed_out ==> diagnostic == fallback,
        bootstrap is Ok <==> status == 302,
        bootstrap is Err ==> bootstrap->Err_0 == DiagnosticCode::JournalContractInvalid,
{
}

/// Only an answer of success is read as a receipt; any other is the refusal that it
/// stands for.
pub proof fn lemma_only_success_is_a_receipt(
    status: u16,
    reason: Option<&str>,
    response: Option<UploadResponse>,
    r: Result<UploadResult, JournalError>,
)
    requires
        call_ensures(conclude_upload, (status, reason, response), r),
    ensures
        r is Ok ==> status == 200 && response is Some && r->Ok_0@.status == response->0.status,
        status != 200 ==> r is Err && r->Err_0.http_status == Some(status),
        status == 200 && response is None ==> r is Err && r->Err_0.diagnostic
            == DiagnosticCode::JournalContractInvalid,
{
}

/// The version of the journal is read from a status that is well and names one.
pub proof fn lemma_status_names_the_version(
    response: Option<SystemStatus>,
    r: Result<String, JournalError>,
)
    requires
        call_ensures(decode_system_status_response, (response,), r),
    ensures
        r is Ok <==> response is Some && response->0.ok && response->0.current@.len() > 0,
        r is Ok ==> r->Ok_0 == response->0.current,
        r is Err ==> r->Err_0.diagnostic == DiagnosticCode::JournalContractInvalid,
{
}

/// A segment can be uploaded exactly where its day is eight digits, its name may stand in
/// a path and it has a file.
pub proof fn lemma_what_can_be_uploaded(
    day: &str,
    segment: &str,
    file_count: usize,
    r: Result<(), JournalError>,
)
    requires
        call_ensures(check_upload, (day, segment, file_count), r),
    ensures
        r is Ok <==> day@.len() == 8 && (forall|i: int|
            0 <= i < day@.len() ==> is_digit(#[trigger] day@[i])) && is_valid_component(segment@)
            && file_count >= 1,
        r is Err ==> r->Err_0.diagnostic == DiagnosticCode::LocalSegmentInvalid,
{
}

/// The envelope of an upload names the day, the segment and the source that were given, and
/// every file once, in order; there is one unless some file is too large for a part of the
/// request.
pub proof fn lemma_envelope_names_every_file(
    day: &str,
    segment: &str,
    source: &str,
    files: Vec<LocalFile>,
    r: Result<UploadEnvelope, JournalError>,
)
    requires
        call_ensures(plan_upload, (day, segment, source, &files), r),
    ensures
        r is Ok <==> forall|i: int|
            0 <= i < files@.len() ==> (#[trigger] files@[i]).size <= 67108864,
        r is Ok ==> {
            let envelope = r->Ok_0;
            &&& envelope.day@ == day@
            &&& envelope.segment@ == segment@
            &&& envelope.source@ == source@
            &&& envelope.files@.len() == files@.len()
            &&& forall|i: int|
                0 <= i < files@.len() ==> (#[trigger] envelope.files@[i]).submitted@
                    == files@[i].name@
        },
        r is Err ==> r->Err_0.diagnostic == DiagnosticCode::RequestTooLarge,
{
}

/// An envelope fits into a part of the request as a file does.
pub proof fn lemma_envelope_fits(length: usize, r: Result<(), JournalError>)
    requires
        call_ensures(check_envelope, (length,), r),
    ensures
        r is Ok <==> length <= 67108864,
        r is Err ==> r->Err_0.diagnostic == DiagnosticCode::RequestTooLarge,
{
}

/// What is said of a file is read from the fields that carry it, and the first fault of a
/// descriptor is the one that is told.
pub proof fn lemma_descriptor_is_read_from_its_fields(
    fields: Seq<(Seq<char>, Seq<char>)>,
    item: Seq<char>,
)
    requires
        text_reading(item) == Some(JsonView::Object(fields)),
    ensures
        ({
            let submitted = field(fields, "submitted"@);
            let written = field(fields, "written"@);
            let size = field(fields, "size"@);
            let sha256 = field(fields, "sha256"@);
            let disposition = field(fields, "disposition"@);
            let whole = submitted is Some && string_of(submitted->0) is Some && written is Some
                && string_of(written->0) is Some && size is Some && number_of(size->0) is Some
                && sha256 is Some && string_of(sha256->0) is Some && is_digest(
                string_of(sha256->0)->0,
            );
            &&& item_descriptor(item) is Ok ==> {
                let d = item_descriptor(item)->Ok_0;
                &&& whole && disposition is Some
                &&& Some(d.submitted) == string_of(submitted->0)
                &&& Some(d.written) == string_of(written->0)
                &&& Some(d.size) == number_of(size->0)
                &&& Some(d.sha256) == string_of(sha256->0)
                &&& Some(d.disposition) == string_of(disposition->0)
            }
            &&& !whole ==> item_descriptor(item) == Err::<FileView, ReceiptFault>(
                ReceiptFault::MalformedDescriptor,
            )
            &&& whole && has_upper(string_of(sha256->0)->0) ==> item_descriptor(item) == Err::<
                FileView,
                ReceiptFault,
            >(ReceiptFault::Sha256Encoding)
            &&& whole && !has_upper(string_of(sha256->0)->0) && disposition is None
                ==> item_descriptor(item) == Err::<FileView, ReceiptFault>(
                ReceiptFault::MissingDisposition,
            )
            &&& whole && !has_upper(string_of(sha256->0)->0) && disposition is Some && string_of(
                disposition->0,
            ) is Some ==> {
                let word = string_of(disposition->0)->0;
                let known = word == "written"@ || word == "already_held"@ || word
                    == "received_not_written"@;
                &&& known ==> item_descriptor(item) is Ok
                &&& !known ==> item_descriptor(item) == Err::<FileView, ReceiptFault>(
                    ReceiptFault::UnknownDisposition,
                )
            }
        }),
{
}

/// A list of descriptors is read item by item: it has as many as items, each in its place,
/// exactly where every item is one.
pub proof fn lemma_descriptors_are_read_in_order(items: Seq<Seq<char>>)
    ensures
        item_descriptors(items) is Ok <==> forall|i: int|
            0 <= i < items.len() ==> item_descriptor(#[trigger] items[i]) is Ok,
        item_descriptors(items) is Ok ==> {
            &&& item_descriptors(items)->Ok_0.len() == items.len()
            &&& forall|i: int|
                0 <= i < items.len() ==> item_descriptor(#[trigger] items[i]) == Ok::<
                    FileView,
                    ReceiptFault,
                >(item_descriptors(items)->Ok_0[i])
        },
    decreases items.len(),
{
    if items.len() > 0 {
        let before = items.drop_last();
        lemma_descriptors_are_read_in_order(before);
        assert forall|i: int| 0 <= i < before.len() implies #[trigger] items[i] == before[i] by {}
        assert(items[items.len() - 1] == items.last());
        if item_descriptors(before) is Err {
            let i = choose|i: int|
                0 <= i < before.len() && !(item_descriptor(#[trigger] before[i]) is Ok);
            assert(!(item_descriptor(items[i]) is Ok));
        } else {
            assert forall|i: int| 0 <= i < before.len() implies item_descriptor(
                #[trigger] items[i],
            ) == Ok::<FileView, ReceiptFault>(item_descriptors(before)->Ok_0[i]) by {
                assert(item_descriptor(before[i]) is Ok);
            }
        }
    }
}

/// The answer of the journal keeps to the protocol where its descriptors are missing or
/// null, and else they are read from the list.
pub proof fn lemma_descriptors_of_an_answer(answer: UploadResponse, text: String)
    requires
        upload_view(Some(answer)) is Ok,
    ensures
        upload_view(Some(answer))->Ok_0.status == answer.status,
        answer.file_descriptors is None ==> upload_view(Some(answer))->Ok_0.descriptors is None,
        answer.file_descriptors == Some(text) && text_reading(text@) == Some(JsonView::Null)
            ==> upload_view(Some(answer))->Ok_0.descriptors is None,
        answer.file_descriptors == Some(text) ==> forall|items: Seq<Seq<char>>|
            text_reading(text@) == Some(JsonView::Array(items)) ==> upload_view(
                Some(answer),
            )->Ok_0.descriptors == Some(#[trigger] item_descriptors(items)),
{
}

/// A request without a declared length, with one that is no text or no number, with more
/// than one, or that is chunked, is no upload.
pub proof fn lemma_which_lengths_are_refused(
    chunked: bool,
    first: Option<Seq<char>>,
    more: Seq<Option<Seq<char>>>,
)
    ensures
        request_length(chunked, Seq::<Option<Seq<char>>>::empty()) == Err::<nat, JournalError>(
            local_error(DiagnosticCode::JournalContractInvalid),
        ),
        chunked || first is None || unsigned_value(first->0, u64::MAX as nat) is None || more.len()
            > 0 ==> request_length(chunked, seq![first] + more) == Err::<nat, JournalError>(
            local_error(DiagnosticCode::JournalContractInvalid),
        ),
        !chunked && first is Some && unsigned_value(first->0, u64::MAX as nat) is Some && more.len()
            == 0 && unsigned_value(first->0, u64::MAX as nat)->0 <= 134217728 ==> request_length(
            chunked,
            seq![first] + more,
        ) == Ok::<nat, JournalError>(unsigned_value(first->0, u64::MAX as nat)->0),
{
    let all = seq![first] + more;
    assert(all[0] == first);
}

} // verus!
