use solstone_tmux::health::DiagnosticCode;
use solstone_tmux::paths::PlatformKind;
use solstone_tmux::post_connect::{compute_pairing_generation, BurstStart, LaneKind, PostConnect};
use solstone_tmux::private_link::{
    accept_credential, check_private_read, check_private_write, loopback_origin, pairing_ceremony_identity,
    proxy_headers, read_pair_link, DialOutcome, PrivateFileOutcome, PrivateLinkOpener,
};
use solstone_tmux::relay_access::{
    decide_ready, read_access_answer, AccessProof, AccessRequest, ReadyDecision, RelayAccessNotConfigured,
    RelayAccessReady, RelayAccessResponse,
};
use solstone_tmux::sync::credentials::{
    Credential, CredentialPersistenceIssue, CredentialStore, ReadyPublication,
};
use solstone_tmux::sync::failure::{map_journal_error, SyncFailureClass, SyncOperationError};
use solstone_tmux::journal::JournalError;

fn credential() -> Credential {
    Credential {
        instance_id: "test-instance".to_owned(),
        client_cert_pem: "test-cert".to_owned(),
        has_endpoints: true,
        relay_origin: None,
        device_token: None,
        device_token_expires_at: None,
    }
}

fn store() -> CredentialStore {
    CredentialStore::new(credential(), compute_pairing_generation("test-cert"))
}

#[test]
fn the_pairing_is_the_digest_of_the_certificate() {
    assert_eq!(compute_pairing_generation("abc")[..4], [0xba, 0x78, 0x16, 0xbf]);
    assert_ne!(compute_pairing_generation("a"), compute_pairing_generation("b"));
}

#[test]
fn failed_token_persistence_is_reported_and_retried() {
    let mut store = store();
    assert!(store.begin_token_refresh(0, "refreshed-token".to_owned(), 1_900_000_000).is_some());
    assert!(store.finish_token_refresh(false));
    assert_eq!(store.persistence_issue(), Some(CredentialPersistenceIssue::Failed));

    let code = check_private_write(PrivateFileOutcome::InvalidTarget).expect_err("invalid target");
    assert!(store.begin_persist_pending().is_some());
    assert!(!store.finish_persist_pending(Err(code)));
    assert!(matches!(
        map_journal_error(JournalError::local(code)),
        SyncOperationError::EndSweepDiagnostic(
            SyncFailureClass::Contract,
            DiagnosticCode::PrivateStateInvalid
        )
    ));

    let written = store.begin_persist_pending().expect("retry pending token persistence");
    store.finish_persist_pending(Ok(()));
    assert!(written.device_token.is_some());
    assert!(written.device_token_expires_at.is_some());
    assert!(store.begin_persist_pending().is_none());
    assert_eq!(store.persistence_issue(), None);
}

#[test]
fn queued_refresh_cannot_publish_after_shutdown() {
    for retire in [false, true] {
        let mut store = store();
        if retire {
            store.invalidate();
        }
        let written = store.begin_token_refresh(0, "new-token".to_owned(), 1_900_000_000);
        let expected = if retire { None } else { Some("new-token") };
        assert_eq!(
            written.as_ref().and_then(|c| c.device_token.as_deref()),
            expected
        );
        assert_eq!(store.live_credential().device_token.as_deref(), expected);
    }
}

#[test]
fn queued_ready_rechecks_new_attempt_and_shutdown_before_disk_publication() {
    for supersession in [0, 1, 2] {
        let mut store = store();
        let mut opener = PrivateLinkOpener::new(credential());
        let attempt = store.capture_access_attempt(1, 100);
        if supersession == 1 {
            let _ = store.capture_access_attempt(2, 100);
        }
        if supersession == 2 {
            store.invalidate();
        }
        let prepared = store.begin_ready(
            &attempt,
            10,
            "https://relay.example".to_owned(),
            "new-token".to_owned(),
            1_900_000_000,
        );
        assert_eq!(prepared.is_some(), supersession == 0);
        let mut on_disk = credential();
        if let Some((updated, revision)) = prepared {
            on_disk = updated.clone();
            let (published, report) = store.finish_ready(updated.clone(), revision, true, &None);
            assert_eq!(published, Some(ReadyPublication::Confirmed));
            assert!(!report);
            opener.install_transport(updated, revision);
        }
        let expected = if supersession == 0 { Some("new-token") } else { None };
        assert_eq!(on_disk.device_token.as_deref(), expected);
        assert_eq!(store.live_credential().device_token.as_deref(), expected);
        assert_eq!(opener.live_dial_credential().device_token.as_deref(), expected);
    }
}

#[test]
fn an_attempt_must_be_in_time_and_of_a_lane() {
    let mut store = store();
    let attempt = store.capture_access_attempt(1, 100);
    assert!(store.access_attempt_is_current(&attempt, 99));
    assert!(!store.access_attempt_is_current(&attempt, 100));
    let laneless = store.capture_access_attempt(0, 100);
    assert!(!store.access_attempt_is_current(&laneless, 1));
    assert!(!store.access_attempt_is_current(&attempt, 1));
}

#[test]
fn an_uncertain_write_counts_where_the_file_holds_it() {
    let mut store = store();
    let attempt = store.capture_access_attempt(1, 100);
    let (updated, revision) = store
        .begin_ready(&attempt, 1, "o".to_owned(), "t".to_owned(), 7)
        .expect("current");
    assert_eq!(revision, 1);
    let (published, report) = store.finish_ready(updated.clone(), revision, false, &Some(credential()));
    assert_eq!(published, None);
    assert!(report);
    assert_eq!(store.live_credential().device_token, None);
    let (published, _) = store.finish_ready(updated.clone(), revision, false, &Some(updated));
    assert_eq!(published, Some(ReadyPublication::Uncertain));
    assert_eq!(store.persistence_issue(), Some(CredentialPersistenceIssue::Uncertain));
    assert!(store.begin_persist_pending().is_some());
    assert!(store.begin_token_refresh(0, "late".to_owned(), 8).is_none());
    assert!(store.begin_token_refresh(1, "new".to_owned(), 8).is_some());
}

#[test]
fn access_is_taken_away_at_once() {
    let mut store = store();
    let attempt = store.capture_access_attempt(1, 100);
    let (updated, revision) = store
        .begin_ready(&attempt, 1, "o".to_owned(), "t".to_owned(), 7)
        .expect("current");
    store.finish_ready(updated, revision, true, &None);
    assert!(store.begin_disable(&attempt, 1).is_none());
    let attempt = store.capture_access_attempt(2, 100);
    let (direct, revision) = store.begin_disable(&attempt, 1).expect("current");
    assert_eq!(direct.device_token, None);
    assert_eq!(store.live_credential().relay_origin, None);
    assert_eq!(store.finish_disable(revision, false), (false, true));
    assert!(store.begin_persist_pending().is_some());
    assert_eq!(store.finish_disable(revision, true), (true, false));
    assert!(store.begin_persist_pending().is_none());
    assert!(store.may_publish_info(&Some(credential())));
    assert!(!store.may_publish_info(&None));
    assert!(store.info_published(true));
    store.invalidate();
    assert!(!store.info_published(true));
    assert_eq!(store.instance_id(), "test-instance");
}

#[test]
fn a_burst_runs_each_job_at_most_twice() {
    let mut work = PostConnect::new();
    assert_eq!(
        work.trigger_external(),
        BurstStart {
            metadata: Some(1),
            access: Some(2)
        }
    );
    assert!(work.burst_is_active());
    let nothing = BurstStart {
        metadata: None,
        access: None,
    };
    assert_eq!(work.note_successful_dial(), nothing);
    assert_eq!(work.trigger_external(), nothing);
    assert_eq!(work.on_complete(LaneKind::Metadata, 99), (None, false));
    assert_eq!(work.on_complete(LaneKind::Metadata, 1), (Some(3), false));
    assert_eq!(work.trigger_external(), nothing);
    assert_eq!(work.on_complete(LaneKind::Metadata, 3), (None, false));
    assert_eq!(work.on_complete(LaneKind::Access, 2), (Some(4), false));
    assert_eq!(work.on_complete(LaneKind::Access, 4), (None, true));
    assert!(!work.burst_is_active());
    assert_eq!(
        work.note_successful_dial(),
        BurstStart {
            metadata: Some(5),
            access: Some(6)
        }
    );
}

#[test]
fn nothing_follows_a_shutdown() {
    let mut work = PostConnect::new();
    work.trigger_external();
    work.trigger_external();
    work.shutdown();
    assert!(!work.is_alive());
    assert_eq!(work.on_complete(LaneKind::Metadata, 1), (None, false));
    assert_eq!(work.on_complete(LaneKind::Access, 2), (None, true));
    assert_eq!(
        work.trigger_external(),
        BurstStart {
            metadata: None,
            access: None
        }
    );
}

#[test]
fn an_old_dial_is_dropped() {
    let mut opener = PrivateLinkOpener::new(credential());
    let ticket = opener.begin_dial(false).expect("ticket");
    assert_eq!(opener.finish_dial(ticket), DialOutcome::Accepted { reconnected: true });
    let induced = opener.begin_dial(true).expect("ticket");
    assert_eq!(opener.finish_dial(induced), DialOutcome::Accepted { reconnected: false });
    opener.install_disabled(credential(), 1);
    assert_eq!(opener.finish_dial(ticket), DialOutcome::Dropped);
    assert_eq!(opener.begin_dial(false), None);
    opener.install_transport(credential(), 2);
    let ticket = opener.begin_dial(false).expect("ticket");
    opener.retire();
    assert_eq!(opener.finish_dial(ticket), DialOutcome::Dropped);
    opener.install_transport(credential(), 3);
    assert_eq!(opener.begin_dial(false), None);
    assert_eq!(opener.access_revision, 2);
}

#[test]
fn requests_carry_the_protocol_version() {
    let headers = proxy_headers(&vec![("a".to_owned(), "b".to_owned())]);
    assert_eq!(headers.len(), 2);
    assert_eq!(headers[0].0, "a");
    assert_eq!(headers[1], ("x-solstone-protocol-version".to_owned(), "3".to_owned()));
    assert_eq!(loopback_origin(8080), "http://127.0.0.1:8080");
}

#[test]
fn a_device_is_paired_under_its_host_name() {
    let paired = pairing_ceremony_identity(PlatformKind::Linux, Some("box".to_owned()));
    assert_eq!(paired.device_label, "box");
    assert_eq!(paired.client_label, Some("box".to_owned()));
    assert_eq!(paired.platform, "linux");
    for hostname in [None, Some(String::new()), Some("a".repeat(254))] {
        let paired = pairing_ceremony_identity(PlatformKind::Macos, hostname);
        assert_eq!(paired.device_label, "tmux");
        assert_eq!(paired.client_label, None);
    }
    assert_eq!(
        pairing_ceremony_identity(PlatformKind::Linux, Some("a".repeat(253))).device_label.len(),
        253
    );
}

#[test]
fn a_pair_link_is_one_word() {
    assert_eq!(read_pair_link(b"https://x/y#z\n\n"), Ok("https://x/y#z".to_owned()));
    for bytes in [&b""[..], b" \n", b" x", b"a b", b"\xff", &[b'a'; 4097]] {
        assert_eq!(read_pair_link(bytes), Err(DiagnosticCode::SetupInputInvalid));
    }
    assert!(read_pair_link(&[b'a'; 4096]).is_ok());
}

#[test]
fn private_files_are_checked() {
    assert_eq!(check_private_read(PrivateFileOutcome::Done), Ok(true));
    assert_eq!(check_private_read(PrivateFileOutcome::NotFound), Ok(false));
    assert_eq!(
        check_private_read(PrivateFileOutcome::InvalidTarget),
        Err(DiagnosticCode::PrivateStateInvalid)
    );
    assert_eq!(check_private_read(PrivateFileOutcome::Failed), Err(DiagnosticCode::PrivateStateIo));
    assert_eq!(check_private_write(PrivateFileOutcome::Done), Ok(()));
    assert_eq!(check_private_write(PrivateFileOutcome::NotFound), Err(DiagnosticCode::PrivateStateIo));
    assert!(accept_credential(Some(credential())).is_ok());
    let mut nameless = credential();
    nameless.instance_id = String::new();
    assert_eq!(
        accept_credential(Some(nameless)).map(|_| ()),
        Err(DiagnosticCode::PrivateStateInvalid)
    );
    assert!(accept_credential(None).is_err());
}

fn ready() -> RelayAccessReady {
    RelayAccessReady {
        protocol_version: 2,
        status: "ready".to_owned(),
        instance_id: "i".to_owned(),
        relay_origin: "o".to_owned(),
        device_token: "t".to_owned(),
        expires_at: "e".to_owned(),
    }
}

#[test]
fn relay_answers_must_be_for_this_journal() {
    let read = |status: u16, response: Option<RelayAccessResponse>| read_access_answer(status, &response, "i");
    assert_eq!(read(200, Some(RelayAccessResponse::Ready(ready()))), AccessRequest::Prove);
    assert_eq!(read(404, Some(RelayAccessResponse::Ready(ready()))), AccessRequest::Reject);
    assert_eq!(read(200, None), AccessRequest::Reject);
    let mut other = ready();
    other.instance_id = "j".to_owned();
    assert_eq!(read(200, Some(RelayAccessResponse::Ready(other))), AccessRequest::Reject);
    let mut old = ready();
    old.protocol_version = 1;
    assert_eq!(read(200, Some(RelayAccessResponse::Ready(old))), AccessRequest::Reject);
    let refusal = |status: &str, protocol_version: u8| {
        RelayAccessResponse::NotConfigured(RelayAccessNotConfigured {
            protocol_version,
            status: status.to_owned(),
        })
    };
    assert_eq!(read(200, Some(refusal("not_configured", 2))), AccessRequest::Disable);
    assert_eq!(read(200, Some(refusal("ready", 2))), AccessRequest::Reject);
    assert_eq!(read(200, Some(refusal("not_configured", 3))), AccessRequest::Reject);
}

#[test]
fn relay_offers_are_proved() {
    let evidence = AccessProof {
        origin_valid: true,
        expires_at: Some(7),
        same_origin: Some(true),
    };
    let mut current = credential();
    assert_eq!(decide_ready(&ready(), evidence, &current), ReadyDecision::Submit(7));
    current.relay_origin = Some("o".to_owned());
    current.device_token = Some("t".to_owned());
    current.device_token_expires_at = Some(7);
    assert_eq!(decide_ready(&ready(), evidence, &current), ReadyDecision::Unchanged);
    assert_eq!(
        decide_ready(&ready(), AccessProof { expires_at: Some(8), ..evidence }, &current),
        ReadyDecision::Submit(8)
    );
    assert_eq!(
        decide_ready(&ready(), AccessProof { same_origin: Some(false), ..evidence }, &current),
        ReadyDecision::Submit(7)
    );
    assert_eq!(
        decide_ready(&ready(), AccessProof { same_origin: None, ..evidence }, &current),
        ReadyDecision::Reject
    );
    assert_eq!(
        decide_ready(&ready(), AccessProof { origin_valid: false, ..evidence }, &current),
        ReadyDecision::Reject
    );
    assert_eq!(
        decide_ready(&ready(), AccessProof { expires_at: None, ..evidence }, &current),
        ReadyDecision::Reject
    );
}
