use serde_json::Value;
use solstone_tmux::client_metadata::{
    accept_answer, build_reported_snapshot, decode_get_response, sanitize_field, AfterPublish,
    ClientsSelfGetResponse, ClientsSelfJournalInfo, ClientsSelfReportedSnapshot, MetadataEvent, MetadataJob,
    MetadataStep,
};
use solstone_tmux::paths::PlatformKind;

fn text(value: Option<&Value>) -> Option<String> {
    value.and_then(Value::as_str).map(str::to_owned)
}

fn read(bytes: &[u8]) -> Option<ClientsSelfGetResponse> {
    let value: Value = serde_json::from_slice(bytes).ok()?;
    Some(ClientsSelfGetResponse {
        protocol_version: value.get("protocol_version")?.as_u64()? as u32,
        revision: value.get("revision")?.as_u64()?,
        reported: None,
        owner_label: text(value.get("owner_label")),
        display_label: text(value.get("display_label")),
        updated_at: text(value.get("updated_at")),
        journal: ClientsSelfJournalInfo {
            name: text(value.get("journal")?.get("name")).unwrap_or_default(),
            version: text(value.get("journal")?.get("version"))?,
        },
    })
}

#[test]
fn sanitize_field_enforces_bounds_and_controls() {
    assert_eq!(
        sanitize_field("  my-host  ", 80),
        Some("my-host".to_owned())
    );
    assert_eq!(sanitize_field("   ", 80), None);
    assert_eq!(sanitize_field("host\x00name", 80), None);
    assert_eq!(sanitize_field("host\nname", 80), None);
    assert_eq!(sanitize_field("host\rname", 80), None);
    assert_eq!(sanitize_field("a".repeat(81).as_str(), 80), None);
    assert_eq!(
        sanitize_field("a".repeat(80).as_str(), 80),
        Some("a".repeat(80))
    );
}

#[test]
fn sanitize_multibyte_counts_utf8_bytes() {
    // '€' is 3 UTF-8 bytes: [0xe2, 0x82, 0xac]
    let euro = "€";
    assert_eq!(euro.len(), 3);
    assert_eq!(sanitize_field(euro, 3), Some("€".to_owned()));
    assert_eq!(sanitize_field(euro, 2), None);
}

#[test]
fn build_snapshot_invalid_name_nulls_without_tmux_fallback() {
    let snapshot = build_reported_snapshot(|| None, PlatformKind::Linux);
    assert_eq!(snapshot.name, None);
    assert_eq!(snapshot.platform, Some("linux".to_owned()));
    assert_eq!(snapshot.device_type, Some("terminal".to_owned()));
    assert_eq!(snapshot.app_id, Some("solstone-tmux".to_owned()));
    assert!(snapshot.app_version.is_some());
}

#[test]
fn snapshot_takes_the_host_name() {
    let snapshot = build_reported_snapshot(|| Some(" my-host ".to_owned()), PlatformKind::Macos);
    assert_eq!(snapshot.name, Some("my-host".to_owned()));
    assert_eq!(snapshot.platform, Some("macos".to_owned()));
    let unnamed = build_reported_snapshot(|| Some("a\tb".to_owned()), PlatformKind::Linux);
    assert_eq!(unnamed.name, None);
}

#[test]
fn decode_get_response_validates_protocol_version() {
    let valid_json = r#"{
            "protocol_version": 1,
            "revision": 4,
            "reported": null,
            "owner_label": "prod-server",
            "display_label": "prod",
            "updated_at": "2026-09-07T12:00:00Z",
            "journal": {
                "name": "journal-main",
                "version": "2026.9.1"
            }
        }"#;
    let decoded = decode_get_response(valid_json.as_bytes(), read(valid_json.as_bytes()))
        .expect("decode valid GET");
    assert_eq!(decoded.protocol_version, 1);
    assert_eq!(decoded.revision, 4);
    assert_eq!(decoded.owner_label, Some("prod-server".to_owned()));
    assert_eq!(decoded.journal.version, "2026.9.1");

    let invalid_version = r#"{
            "protocol_version": 2,
            "revision": 4,
            "journal": {"version": "2026.9.1"}
        }"#;
    assert!(decode_get_response(
        invalid_version.as_bytes(),
        read(invalid_version.as_bytes())
    )
    .is_none());
}

#[test]
fn every_field_of_an_answer_must_be_there() {
    let whole = r#"{"protocol_version":1,"revision":4,"reported":{"name":null,"platform":null,"device_type":null,"app_id":null,"app_version":null},"owner_label":null,"display_label":null,"updated_at":null,"journal":{"name":"j","version":"v"}}"#;
    assert!(decode_get_response(whole.as_bytes(), read(whole.as_bytes())).is_some());
    for (from, to) in [
        (r#""owner_label":null,"#, ""),
        (r#""display_label":null,"#, ""),
        (r#""updated_at":null,"#, ""),
        (r#""platform":null,"#, ""),
        (r#""app_version":null"#, r#""other":null"#),
        (r#"{"name":"j","version":"v"}"#, r#"{"version":"v"}"#),
        (r#""revision":4,"#, r#""revision":4,,"#),
    ] {
        let broken = whole.replace(from, to);
        assert_ne!(broken, whole);
        assert!(decode_get_response(broken.as_bytes(), read(whole.as_bytes())).is_none());
    }
    let reported_text = whole.replace(
        r#"{"name":null,"platform":null,"device_type":null,"app_id":null,"app_version":null}"#,
        r#""text""#,
    );
    assert!(decode_get_response(reported_text.as_bytes(), read(whole.as_bytes())).is_none());
    assert!(decode_get_response(whole.as_bytes(), None).is_none());
}

fn answer(revision: u64, reported: Option<ClientsSelfReportedSnapshot>, version: &str) -> ClientsSelfGetResponse {
    ClientsSelfGetResponse {
        protocol_version: 1,
        revision,
        reported,
        owner_label: None,
        display_label: None,
        updated_at: None,
        journal: ClientsSelfJournalInfo {
            name: "main".to_owned(),
            version: version.to_owned(),
        },
    }
}

fn snapshot() -> ClientsSelfReportedSnapshot {
    build_reported_snapshot(|| Some("host".to_owned()), PlatformKind::Linux)
}

#[test]
fn another_protocol_is_not_accepted() {
    let mut other = answer(1, None, "v");
    other.protocol_version = 2;
    assert!(accept_answer(true, Some(other)).is_none());
    assert!(accept_answer(false, Some(answer(1, None, "v"))).is_none());
    assert!(accept_answer(true, Some(answer(1, None, "v"))).is_some());
}

#[test]
fn job_sends_a_changed_snapshot_and_ends() {
    let mut job = MetadataJob::new();
    job.advance(MetadataEvent::Got {
        answer: Some((200, Some(answer(4, None, "2026.9.1")))),
        current: true,
    });
    assert_eq!(
        job.step,
        MetadataStep::Publishing(AfterPublish::Sample { retry: false })
    );
    let info = job.info.as_ref().expect("info");
    assert_eq!(info.name, Some("main".to_owned()));
    assert_eq!(info.version, "2026.9.1");
    job.advance(MetadataEvent::Published);
    assert_eq!(job.step, MetadataStep::Sampling { retry: false });
    job.advance(MetadataEvent::Sampled {
        snapshot: snapshot(),
        current: true,
    });
    assert_eq!(job.step, MetadataStep::Putting { retry: false });
    let request = job.put_request().expect("request");
    assert_eq!(request.protocol_version, 1);
    assert_eq!(request.expected_revision, 4);
    assert_eq!(request.reported, snapshot());
    job.advance(MetadataEvent::PutAnswered {
        answer: Some((200, Some(answer(5, Some(snapshot()), "2026.9.2")))),
        current: true,
    });
    assert_eq!(job.step, MetadataStep::Publishing(AfterPublish::Finish));
    job.advance(MetadataEvent::Published);
    assert_eq!(job.step, MetadataStep::Finished { succeeded: true });
}

#[test]
fn job_retries_once_after_a_conflict() {
    let mut job = MetadataJob::new();
    job.advance(MetadataEvent::Got {
        answer: Some((200, Some(answer(4, None, "")))),
        current: true,
    });
    assert_eq!(job.step, MetadataStep::Sampling { retry: false });
    job.advance(MetadataEvent::Sampled {
        snapshot: snapshot(),
        current: true,
    });
    job.advance(MetadataEvent::PutAnswered {
        answer: Some((409, None)),
        current: true,
    });
    assert_eq!(job.step, MetadataStep::Rereading);
    job.advance(MetadataEvent::Got {
        answer: Some((200, Some(answer(7, None, "")))),
        current: true,
    });
    assert_eq!(job.step, MetadataStep::Sampling { retry: true });
    job.advance(MetadataEvent::Sampled {
        snapshot: snapshot(),
        current: true,
    });
    assert_eq!(job.put_request().expect("request").expected_revision, 7);
    job.advance(MetadataEvent::PutAnswered {
        answer: Some((409, None)),
        current: true,
    });
    assert_eq!(job.step, MetadataStep::Finished { succeeded: false });
}

#[test]
fn job_asks_an_older_journal_for_its_status() {
    let mut job = MetadataJob::new();
    job.advance(MetadataEvent::Got {
        answer: Some((404, None)),
        current: true,
    });
    assert_eq!(job.step, MetadataStep::Probing);
    job.advance(MetadataEvent::Probed(Some("2025.1".to_owned())));
    assert_eq!(job.step, MetadataStep::Publishing(AfterPublish::Finish));
    assert_eq!(job.info.as_ref().expect("info").name, None);
    let mut blank = MetadataJob::new();
    blank.advance(MetadataEvent::Got {
        answer: Some((404, None)),
        current: true,
    });
    blank.advance(MetadataEvent::Probed(Some("  ".to_owned())));
    assert_eq!(blank.step, MetadataStep::Finished { succeeded: true });
}

#[test]
fn job_that_no_longer_counts_sends_nothing() {
    let mut late = MetadataJob::new();
    late.advance(MetadataEvent::Got {
        answer: Some((500, None)),
        current: false,
    });
    assert_eq!(late.step, MetadataStep::Finished { succeeded: true });
    let mut failed = MetadataJob::new();
    failed.advance(MetadataEvent::Got {
        answer: None,
        current: true,
    });
    assert_eq!(failed.step, MetadataStep::Finished { succeeded: false });
    let mut unchanged = MetadataJob::new();
    unchanged.advance(MetadataEvent::Got {
        answer: Some((200, Some(answer(1, Some(snapshot()), "")))),
        current: true,
    });
    unchanged.advance(MetadataEvent::Sampled {
        snapshot: snapshot(),
        current: true,
    });
    assert_eq!(unchanged.step, MetadataStep::Finished { succeeded: true });
}
