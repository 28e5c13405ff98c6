use solstone_tmux::health::DiagnosticCode;
use solstone_tmux::journal::{
    assess_receipt, check_bootstrap, check_envelope, check_upload, classify_error_response, conclude_upload,
    confine_path, confine_url, decode_system_status_response, decode_upload_response, descriptor_of,
    parse_descriptor_shape, parse_origin, plan_upload, prepare_file, receipt_warning, request_diagnostic, valid_day,
    validate_multipart_request, BodyCollector, DescriptorFields, JournalError, JournalReasonCode,
    JournalStatusClass, LocalFile, ParsedDescriptor, Receipt, ReceiptFault, SystemStatus, UploadResponse,
    UploadResult, UploadStage, UploadStatus, UrlParts, MAX_MULTIPART_PART_BYTES,
};

const SHA_A: &str = "aaaaaaaaaaaaaaaaaaaaaaaaaaaaaaaaaaaaaaaaaaaaaaaaaaaaaaaaaaaaaaaa";
const SHA_B: &str = "bbbbbbbbbbbbbbbbbbbbbbbbbbbbbbbbbbbbbbbbbbbbbbbbbbbbbbbbbbbbbbbb";

fn descriptor(submitted: &str, size: u64, sha256: &str, disposition: &str) -> ParsedDescriptor {
    ParsedDescriptor {
        submitted: submitted.to_owned(),
        written: format!("w-{submitted}"),
        size,
        sha256: sha256.to_owned(),
        disposition: disposition.to_owned(),
    }
}

fn local(name: &str, size: u64, sha256: &str) -> LocalFile {
    LocalFile {
        name: name.to_owned(),
        size,
        sha256: sha256.to_owned(),
    }
}

fn result(descriptors: Vec<ParsedDescriptor>) -> UploadResult {
    UploadResult {
        status: UploadStatus::Okay,
        authoritative_key: Some("k".to_owned()),
        descriptors: Some(Ok(descriptors)),
    }
}

#[test]
fn reason_codes_round_trip() {
    for wire in [
        "auth_key_invalid",
        "auth_required",
        "content_conflict",
        "feature_unavailable",
        "ingest_contract_invalid",
        "ingest_no_files",
        "ingest_sidecar_conflict",
        "ingest_storage_failed",
        "invalid_day",
        "invalid_segment_or_stream",
        "local_request_only",
        "missing_required_field",
        "linked_device_required",
        "pl_revoked",
        "protocol_version_future",
        "protocol_version_legacy",
        "segment_removed",
        "settings_operation_failed",
    ] {
        assert_eq!(JournalReasonCode::parse(wire).expect("code").wire_str(), wire);
    }
    assert_eq!(JournalReasonCode::parse("PL_REVOKED"), None);
    assert_eq!(JournalReasonCode::parse(""), None);
}

#[test]
fn refusals_are_classified() {
    let refused = classify_error_response(403, Some("pl_revoked"));
    assert_eq!(refused.diagnostic(), DiagnosticCode::JournalRejected);
    assert_eq!(refused.status_class(), Some(JournalStatusClass::Client));
    assert_eq!(refused.reason_code(), Some(JournalReasonCode::PlRevoked));
    assert_eq!(refused.http_status(), Some(403));
    let down = classify_error_response(502, None);
    assert_eq!(down.diagnostic(), DiagnosticCode::JournalUnavailable);
    assert_eq!(down.status_class(), Some(JournalStatusClass::Server));
    let storage = classify_error_response(500, Some("ingest_storage_failed"));
    assert_eq!(storage.diagnostic(), DiagnosticCode::JournalRejected);
    let odd = classify_error_response(302, Some("nonsense"));
    assert_eq!(odd.status_class(), Some(JournalStatusClass::Unexpected));
    assert_eq!(odd.reason_code(), None);
    assert_eq!(
        JournalError::from(DiagnosticCode::JournalTimeout),
        JournalError::local(DiagnosticCode::JournalTimeout)
    );
    assert_eq!(
        request_diagnostic(true, DiagnosticCode::JournalUnavailable),
        DiagnosticCode::JournalTimeout
    );
    assert_eq!(check_bootstrap(302), Ok(()));
    assert_eq!(check_bootstrap(200), Err(DiagnosticCode::JournalContractInvalid));
}

#[test]
fn a_whole_receipt_is_valid() {
    let locals = [local("a", 1, SHA_A), local("b", 2, SHA_B)];
    let receipt = assess_receipt(
        &result(vec![
            descriptor("b", 2, SHA_B, "already_held"),
            descriptor("a", 1, SHA_A, "written"),
        ]),
        &locals,
    );
    match receipt {
        Receipt::Valid(files) => {
            assert_eq!(files.len(), 2);
            assert_eq!(files[0].submitted, "b");
            assert_eq!(files[0].written, "w-b");
            assert_eq!(files[0].disposition, "already_held");
            assert_eq!(files[1].sha256, SHA_A);
        }
        other => panic!("{other:?}"),
    }
}

#[test]
fn every_fault_of_a_receipt_is_named() {
    let locals = [local("a", 1, SHA_A), local("b", 2, SHA_B)];
    let fault = |descriptors: Vec<ParsedDescriptor>| match assess_receipt(&result(descriptors), &locals) {
        Receipt::Invalid(fault) => fault,
        other => panic!("{other:?}"),
    };
    let a = || descriptor("a", 1, SHA_A, "written");
    let b = || descriptor("b", 2, SHA_B, "written");
    assert_eq!(fault(vec![a(), a()]), ReceiptFault::DuplicateSubmitted);
    assert_eq!(
        fault(vec![a(), descriptor("b", 2, SHA_B, "received_not_written")]),
        ReceiptFault::ReceivedNotWritten
    );
    assert_eq!(
        fault(vec![a(), b(), descriptor("c", 1, SHA_A, "written")]),
        ReceiptFault::ExtraDescriptor
    );
    assert_eq!(fault(vec![a()]), ReceiptFault::MissingDescriptor);
    assert_eq!(
        fault(vec![a(), descriptor("c", 2, SHA_B, "written")]),
        ReceiptFault::ExtraDescriptor
    );
    assert_eq!(
        fault(vec![a(), descriptor("b", 3, SHA_B, "written")]),
        ReceiptFault::SizeMismatch
    );
    assert_eq!(
        fault(vec![a(), descriptor("b", 2, SHA_A, "written")]),
        ReceiptFault::Sha256Mismatch
    );
    let mut refused = result(vec![a(), b()]);
    refused.status = UploadStatus::Conflict;
    assert_eq!(
        assess_receipt(&refused, &locals),
        Receipt::Invalid(ReceiptFault::UploadNotAcknowledged)
    );
    refused.status = UploadStatus::Okay;
    refused.descriptors = None;
    assert_eq!(assess_receipt(&refused, &locals), Receipt::Absent);
    refused.descriptors = Some(Err(ReceiptFault::Sha256Encoding));
    assert_eq!(
        assess_receipt(&refused, &locals),
        Receipt::Invalid(ReceiptFault::Sha256Encoding)
    );
}

#[test]
fn receipt_faults_are_written_out() {
    for (fault, text) in [
        (ReceiptFault::DescriptorsAbsent, "descriptors_absent"),
        (ReceiptFault::MalformedDescriptor, "malformed_descriptor"),
        (ReceiptFault::DuplicateSubmitted, "duplicate_submitted"),
        (ReceiptFault::MissingDescriptor, "missing_descriptor"),
        (ReceiptFault::ExtraDescriptor, "extra_descriptor"),
        (ReceiptFault::Sha256Mismatch, "sha256_mismatch"),
        (ReceiptFault::Sha256Encoding, "sha256_encoding"),
        (ReceiptFault::SizeMismatch, "size_mismatch"),
        (ReceiptFault::UnknownDisposition, "unknown_disposition"),
        (ReceiptFault::MissingDisposition, "missing_disposition"),
        (ReceiptFault::ReceivedNotWritten, "received_not_written"),
        (ReceiptFault::UploadNotAcknowledged, "upload_not_acknowledged"),
    ] {
        assert_eq!(fault.as_str(), text);
    }
}

#[test]
fn descriptors_are_read_from_json() {
    let whole = format!(
        r#"[{{"submitted":"a","written":"b","size":7,"sha256":"{SHA_A}","disposition":"written","more":[1]}}]"#
    );
    let read = parse_descriptor_shape(&whole).expect("descriptors");
    assert_eq!(read.len(), 1);
    assert_eq!(read[0].submitted, "a");
    assert_eq!(read[0].written, "b");
    assert_eq!(read[0].size, 7);
    assert_eq!(read[0].sha256, SHA_A);
    assert_eq!(read[0].disposition, "written");
    let upper = SHA_A.to_uppercase();
    for (from, to, fault) in [
        (r#""submitted":"a","#, "", ReceiptFault::MalformedDescriptor),
        (r#""submitted":"a""#, r#""submitted":1"#, ReceiptFault::MalformedDescriptor),
        (r#""written":"b","#, "", ReceiptFault::MalformedDescriptor),
        (r#""size":7"#, r#""size":-7"#, ReceiptFault::MalformedDescriptor),
        (r#""size":7"#, r#""size":7.0"#, ReceiptFault::MalformedDescriptor),
        ("aaaa", "aaa", ReceiptFault::MalformedDescriptor),
        (SHA_A, upper.as_str(), ReceiptFault::Sha256Encoding),
        (r#""disposition":"written","#, "", ReceiptFault::MissingDisposition),
        (r#""disposition":"written""#, r#""disposition":null"#, ReceiptFault::MalformedDescriptor),
        (r#""disposition":"written""#, r#""disposition":"gone""#, ReceiptFault::UnknownDisposition),
        ("[{", "[3,{", ReceiptFault::MalformedDescriptor),
    ] {
        let broken = whole.replacen(from, to, 1);
        assert_ne!(broken, whole);
        assert_eq!(parse_descriptor_shape(&broken), Err(fault), "{broken}");
    }
    assert_eq!(parse_descriptor_shape("{}"), Err(ReceiptFault::MalformedDescriptor));
    assert_eq!(parse_descriptor_shape("[").map(|_| ()), Err(ReceiptFault::MalformedDescriptor));
    assert_eq!(parse_descriptor_shape("[]"), Ok(Vec::new()));
}

#[test]
fn a_descriptor_is_checked_field_by_field() {
    let fields = |disposition: Option<Option<&str>>| DescriptorFields {
        submitted: Some("a".to_owned()),
        written: Some("a".to_owned()),
        size: Some(1),
        sha256: Some(SHA_A.to_owned()),
        disposition: disposition.map(|d| d.map(str::to_owned)),
    };
    assert!(descriptor_of(fields(Some(Some("received_not_written")))).is_ok());
    assert_eq!(
        descriptor_of(fields(None)),
        Err(ReceiptFault::MissingDisposition)
    );
    assert_eq!(
        descriptor_of(fields(Some(None))),
        Err(ReceiptFault::MalformedDescriptor)
    );
}

fn response(status: UploadStatus, segment: Option<&str>, existing: Option<&str>) -> UploadResponse {
    UploadResponse {
        status,
        segment: segment.map(str::to_owned),
        existing_segment: existing.map(str::to_owned),
        file_descriptors: None,
    }
}

#[test]
fn an_upload_answer_owes_a_key() {
    let key = |r: UploadResponse| decode_upload_response(Some(r)).map(|r| r.authoritative_key);
    let contract = JournalError::local(DiagnosticCode::JournalContractInvalid);
    assert_eq!(key(response(UploadStatus::Okay, Some("k"), None)), Ok(Some("k".to_owned())));
    assert_eq!(key(response(UploadStatus::Collision, Some("k"), Some("x"))), Ok(Some("k".to_owned())));
    assert_eq!(key(response(UploadStatus::Duplicate, None, Some("x"))), Ok(Some("x".to_owned())));
    assert_eq!(key(response(UploadStatus::Conflict, None, None)), Ok(None));
    assert_eq!(key(response(UploadStatus::Failed, Some("k"), None)), Ok(None));
    assert_eq!(key(response(UploadStatus::Okay, None, Some("x"))), Err(contract));
    assert_eq!(key(response(UploadStatus::Okay, Some("../k"), None)), Err(contract));
    assert_eq!(decode_upload_response(None).map(|_| ()), Err(contract));
    let mut null = response(UploadStatus::Okay, Some("k"), None);
    null.file_descriptors = Some("null".to_owned());
    assert_eq!(decode_upload_response(Some(null)).expect("answer").descriptors, None);
    let mut bad = response(UploadStatus::Okay, Some("k"), None);
    bad.file_descriptors = Some("7".to_owned());
    assert_eq!(
        decode_upload_response(Some(bad)).expect("answer").descriptors,
        Some(Err(ReceiptFault::MalformedDescriptor))
    );
    assert!(conclude_upload(200, None, Some(response(UploadStatus::Okay, Some("k"), None))).is_ok());
    assert_eq!(
        conclude_upload(409, Some("segment_removed"), None).expect_err("refused").reason_code(),
        Some(JournalReasonCode::SegmentRemoved)
    );
}

#[test]
fn system_status_names_a_version() {
    let status = |ok: bool, current: &str| {
        decode_system_status_response(Some(SystemStatus {
            ok,
            current: current.to_owned(),
        }))
    };
    assert_eq!(status(true, "2026.9"), Ok("2026.9".to_owned()));
    assert!(status(false, "2026.9").is_err());
    assert!(status(true, "").is_err());
    assert!(decode_system_status_response(None).is_err());
}

#[test]
fn bodies_stay_within_their_limit() {
    assert!(BodyCollector::start(Some(5), None, 4).is_err());
    assert!(BodyCollector::start(None, Some("5"), 4).is_err());
    assert!(BodyCollector::start(Some(4), Some("5"), 4).is_ok());
    let mut body = BodyCollector::start(None, Some("x"), 4).expect("body");
    assert!(body.push(b"abc").is_ok());
    assert_eq!(
        body.push(b"de"),
        Err(JournalError::local(DiagnosticCode::JournalResponseTooLarge))
    );
    assert!(body.push(b"d").is_ok());
    assert_eq!(body.finish(), b"abcd");
}

#[test]
fn an_upload_request_declares_its_length_once() {
    let lengths = |v: &[Option<&str>]| v.iter().map(|s| s.map(str::to_owned)).collect::<Vec<_>>();
    let contract = Err(JournalError::local(DiagnosticCode::JournalContractInvalid));
    assert_eq!(validate_multipart_request(false, &lengths(&[Some("12")])), Ok(12));
    assert_eq!(validate_multipart_request(true, &lengths(&[Some("12")])), contract);
    assert_eq!(validate_multipart_request(false, &lengths(&[])), contract);
    assert_eq!(validate_multipart_request(false, &lengths(&[None])), contract);
    assert_eq!(validate_multipart_request(false, &lengths(&[Some("x")])), contract);
    assert_eq!(validate_multipart_request(false, &lengths(&[Some("1"), Some("1")])), contract);
    assert_eq!(validate_multipart_request(false, &lengths(&[Some("134217728")])), Ok(134217728));
    assert_eq!(
        validate_multipart_request(false, &lengths(&[Some("134217729")])),
        Err(JournalError::local(DiagnosticCode::RequestTooLarge))
    );
}

#[test]
fn uploads_are_planned() {
    assert!(valid_day("20260907"));
    assert!(!valid_day("2026097"));
    assert!(check_upload("20260907", "120000_300", 1).is_ok());
    for (day, segment, count) in [("2026-9-7", "120000_300", 1), ("20260907", "../x", 1), ("20260907", "120000_300", 0)] {
        assert_eq!(
            check_upload(day, segment, count),
            Err(JournalError::local(DiagnosticCode::LocalSegmentInvalid))
        );
    }
    let files = vec![local("a", 1, SHA_A), local("b", MAX_MULTIPART_PART_BYTES, SHA_B)];
    let envelope = plan_upload("20260907", "120000_300", "tmux", &files).expect("envelope");
    assert_eq!(envelope.day, "20260907");
    assert_eq!(envelope.segment, "120000_300");
    assert_eq!(envelope.source, "tmux");
    assert_eq!(envelope.files[1].submitted, "b");
    let large = vec![local("a", MAX_MULTIPART_PART_BYTES + 1, SHA_A)];
    assert_eq!(
        plan_upload("20260907", "120000_300", "tmux", &large).expect_err("large"),
        JournalError::local(DiagnosticCode::RequestTooLarge)
    );
    assert!(check_envelope(67108864).is_ok());
    assert!(check_envelope(67108865).is_err());
}

#[test]
fn files_are_described_with_their_digest() {
    let file = prepare_file(b"/data/seg/tmux_main_screen.jsonl", 3, b"abc").expect("file");
    assert_eq!(file.name, "tmux_main_screen.jsonl");
    assert_eq!(file.size, 3);
    assert_eq!(
        file.sha256,
        "ba7816bf8f01cfea414140de5dae2223b00361a396177a9cb410ff61f20015ad"
    );
    let invalid = JournalError::local(DiagnosticCode::LocalSegmentInvalid);
    assert_eq!(prepare_file(b"/data/Up", 3, b"abc"), Err(invalid));
    assert_eq!(prepare_file(b"/data/..", 3, b"abc"), Err(invalid));
    assert_eq!(prepare_file(b"/data/\xff", 3, b"abc"), Err(invalid));
}

#[test]
fn the_upload_stage_counts_chunks_and_bytes() {
    let mut stage = UploadStage::new(2);
    assert!(stage.reserve());
    stage.record_bytes(10);
    assert!(stage.reserve());
    stage.record_bytes(5);
    assert!(!stage.reserve());
    assert_eq!(stage.high_water_bytes(), 15);
    stage.release(10);
    assert!(stage.reserve());
    assert_eq!(stage.bytes, 5);
    assert_eq!(stage.high_water_bytes(), 15);
}

#[test]
fn request_paths_stay_at_the_origin() {
    let origin = parse_origin("http://127.0.0.1:8080").expect("origin");
    assert_eq!(origin.scheme, "http");
    assert_eq!(origin.port, Some(8080));
    assert_eq!(
        confine_path(&origin, "/app/devices/ingest").expect("url").text,
        "http://127.0.0.1:8080/app/devices/ingest"
    );
    for path in ["app", "//evil.example/x", "/a?b", "/a#b", "/a\\b", "/a\r", "/a\n", ""] {
        assert_eq!(
            confine_path(&origin, path).map(|url| url.text),
            Err(DiagnosticCode::JournalContractInvalid),
            "{path}"
        );
    }
    assert_eq!(
        parse_origin("not a url").map(|url| url.text),
        Err(DiagnosticCode::BridgeUnavailable)
    );
    let elsewhere = |scheme: &str, host: &str, port: u16, query: bool, fragment: bool| {
        confine_url(
            &origin,
            Some(UrlParts {
                text: "x".to_owned(),
                scheme: scheme.to_owned(),
                host: Some(host.to_owned()),
                port: Some(port),
                has_query: query,
                has_fragment: fragment,
            }),
        )
        .is_ok()
    };
    assert!(elsewhere("http", "127.0.0.1", 8080, false, false));
    assert!(!elsewhere("https", "127.0.0.1", 8080, false, false));
    assert!(!elsewhere("http", "evil.example", 8080, false, false));
    assert!(!elsewhere("http", "127.0.0.1", 8081, false, false));
    assert!(!elsewhere("http", "127.0.0.1", 8080, true, false));
    assert!(!elsewhere("http", "127.0.0.1", 8080, false, true));
    assert!(confine_url(&origin, None).is_err());
}

#[test]
fn a_receipt_without_proof_is_reported() {
    assert_eq!(
        receipt_warning(&Receipt::Absent).as_deref(),
        Some("upload was not acknowledged (descriptors_absent)")
    );
    assert_eq!(
        receipt_warning(&Receipt::Invalid(ReceiptFault::SizeMismatch)).as_deref(),
        Some("upload was not acknowledged (size_mismatch)")
    );
    assert_eq!(receipt_warning(&Receipt::Valid(Vec::new())), None);
}
