//! The credential in use: who may change it, and what of it is still to be written.

use vstd::prelude::*;
use vstd::string::*;

use crate::health::DiagnosticCode;
use crate::text::{copy_option, opt_text, same_option, same_text};

verus! {

/// What the private link is dialled with, as far as decisions depend on it.
#[derive(Debug)]
pub struct Credential {
    pub instance_id: String,
    pub client_cert_pem: String,
    /// Whether there are addresses at which the journal is reached directly.
    pub has_endpoints: bool,
    pub relay_origin: Option<String>,
    pub device_token: Option<String>,
    pub device_token_expires_at: Option<i64>,
}

pub ghost struct CredentialView {
    pub instance_id: Seq<char>,
    pub client_cert_pem: Seq<char>,
    pub has_endpoints: bool,
    pub relay_origin: Option<Seq<char>>,
    pub device_token: Option<Seq<char>>,
    pub device_token_expires_at: Option<i64>,
}

impl View for Credential {
    type V = CredentialView;

    open spec fn view(&self) -> CredentialView {
        CredentialView {
            instance_id: self.instance_id@,
            client_cert_pem: self.client_cert_pem@,
            has_endpoints: self.has_endpoints,
            relay_origin: opt_text(self.relay_origin),
            device_token: opt_text(self.device_token),
            device_token_expires_at: self.device_token_expires_at,
        }
    }
}

impl Clone for Credential {
    fn clone(&self) -> (r: Self)
        ensures
            r == *self,
    {
        Credential {
            instance_id: self.instance_id.clone(),
            client_cert_pem: self.client_cert_pem.clone(),
            has_endpoints: self.has_endpoints,
            relay_origin: copy_option(&self.relay_origin),
            device_token: copy_option(&self.device_token),
            device_token_expires_at: self.device_token_expires_at,
        }
    }
}

/// A credential that reaches the journal over a relay.
pub open spec fn with_relay(
    c: CredentialView,
    relay_origin: Seq<char>,
    device_token: Seq<char>,
    expires_at: i64,
) -> CredentialView {
    CredentialView {
        relay_origin: Some(relay_origin),
        device_token: Some(device_token),
        device_token_expires_at: Some(expires_at),
        ..c
    }
}

/// A credential that reaches the journal over no relay.
pub open spec fn without_relay(c: CredentialView) -> CredentialView {
    CredentialView {
        relay_origin: None,
        device_token: None,
        device_token_expires_at: None,
        ..c
    }
}

/// A credential with another device token.
pub open spec fn with_token(c: CredentialView, token: Seq<char>, expires_at: i64) -> CredentialView {
    CredentialView { device_token: Some(token), device_token_expires_at: Some(expires_at), ..c }
}

/// What was read back is what was to be written.
pub open spec fn same_access(read: CredentialView, written: CredentialView) -> bool {
    &&& read.relay_origin == written.relay_origin
    &&& read.device_token == written.device_token
    &&& read.device_token_expires_at == written.device_token_expires_at
    &&& read.client_cert_pem == written.client_cert_pem
}

/// A token that is still to be written.
#[derive(Clone, Copy, Debug, PartialEq, Eq, Structural)]
pub struct TokenUpdate {
    pub id: u64,
    pub expected_mutation_gen: u64,
}

/// What was in force when a question for access was begun. Its answer counts only as
/// long as that is so.
#[derive(Debug)]
pub struct AccessAttempt {
    pub pairing_generation: [u8; 32],
    pub lane_attempt_id: u64,
    pub owner_attempt_id: u64,
    pub access_revision: u64,
    pub relay_origin: Option<String>,
    pub device_token: Option<String>,
    pub deadline: u64,
}

pub ghost struct AttemptView {
    pub pairing_generation: Seq<u8>,
    pub lane_attempt_id: u64,
    pub owner_attempt_id: u64,
    pub access_revision: u64,
    pub relay_origin: Option<Seq<char>>,
    pub device_token: Option<Seq<char>>,
    pub deadline: u64,
}

impl View for AccessAttempt {
    type V = AttemptView;

    open spec fn view(&self) -> AttemptView {
        AttemptView {
            pairing_generation: self.pairing_generation@,
            lane_attempt_id: self.lane_attempt_id,
            owner_attempt_id: self.owner_attempt_id,
            access_revision: self.access_revision,
            relay_origin: opt_text(self.relay_origin),
            device_token: opt_text(self.device_token),
            deadline: self.deadline,
        }
    }
}

#[derive(Clone, Copy, Debug, PartialEq, Eq, Structural)]
pub enum ReadyPublication {
    Confirmed,
    Uncertain,
}

#[derive(Clone, Copy, Debug, PartialEq, Eq, Structural)]
pub enum CredentialPersistenceIssue {
    Failed,
    Uncertain,
}

/// The credential in use and what is known of its file.
#[derive(Debug)]
pub struct CredentialStore {
    pub pairing_generation: [u8; 32],
    pub credential: Credential,
    pub mutation_generation: u64,
    pub pending: Option<TokenUpdate>,
    pub durable_clear_pending_gen: Option<u64>,
    pub shutdown: bool,
    pub current_access_attempt_id: u64,
    pub persistence_issue: Option<CredentialPersistenceIssue>,
    pub next_pending_id: u64,
    pub next_access_attempt_id: u64,
}

pub ghost struct StoreView {
    pub pairing_generation: Seq<u8>,
    pub credential: CredentialView,
    pub mutation_generation: u64,
    pub pending: Option<TokenUpdate>,
    pub durable_clear_pending_gen: Option<u64>,
    pub shutdown: bool,
    pub current_access_attempt_id: u64,
    pub persistence_issue: Option<CredentialPersistenceIssue>,
    pub next_pending_id: u64,
    pub next_access_attempt_id: u64,
}

impl View for CredentialStore {
    type V = StoreView;

    open spec fn view(&self) -> StoreView {
        StoreView {
            pairing_generation: self.pairing_generation@,
            credential: self.credential@,
            mutation_generation: self.mutation_generation,
            pending: self.pending,
            durable_clear_pending_gen: self.durable_clear_pending_gen,
            shutdown: self.shutdown,
            current_access_attempt_id: self.current_access_attempt_id,
            persistence_issue: self.persistence_issue,
            next_pending_id: self.next_pending_id,
            next_access_attempt_id: self.next_access_attempt_id,
        }
    }
}

/// The number after `n`, around the limit.
pub open spec fn next_number(n: u64) -> u64 {
    if n == u64::MAX {
        0
    } else {
        (n + 1) as u64
    }
}

/// The attempt is the last one that was begun, in time, and nothing that it rests on
/// has changed.
pub open spec fn attempt_is_current(s: StoreView, a: AttemptView, now: u64) -> bool {
    &&& now < a.deadline
    &&& a.pairing_generation == s.pairing_generation
    &&& a.lane_attempt_id != 0
    &&& s.current_access_attempt_id == a.owner_attempt_id
    &&& !s.shutdown
    &&& s.mutation_generation == a.access_revision
    &&& s.credential.relay_origin == a.relay_origin
    &&& s.credential.device_token == a.device_token
}

/// Something accepted is still to be written.
pub open spec fn has_pending(s: StoreView) -> bool {
    ||| s.pending is Some && s.pending->0.expected_mutation_gen == s.mutation_generation
    ||| s.durable_clear_pending_gen == Some(s.mutation_generation)
}

/// The store after a write failed in that way.
pub open spec fn with_issue(s: StoreView, issue: CredentialPersistenceIssue) -> StoreView {
    StoreView { persistence_issue: Some(issue), ..s }
}

fn same_generation(a: &[u8; 32], b: &[u8; 32]) -> (r: bool)
    ensures
        r == (a@ == b@),
{
    let mut i: usize = 0;
    while i < 32
        invariant
            i <= 32,
            forall|j: int| 0 <= j < i ==> a@[j] == b@[j],
        decreases 32 - i,
    {
        if a[i] != b[i] {
            return false;
        }
        i = i + 1;
    }
    proof {
        assert(a@ =~= b@);
    }
    true
}

/// The store once access over a relay was taken away: the write of that is owed.
pub open spec fn disabled(s: StoreView) -> StoreView {
    let revision = next_number(s.mutation_generation);
    StoreView {
        credential: without_relay(s.credential),
        pending: None,
        mutation_generation: revision,
        durable_clear_pending_gen: Some(revision),
        ..s
    }
}

/// The question for access that is begun with the store as it is.
pub open spec fn attempt_of(s: StoreView, lane_attempt_id: u64, deadline: u64) -> AttemptView {
    AttemptView {
        pairing_generation: s.pairing_generation,
        lane_attempt_id,
        owner_attempt_id: next_number(s.next_access_attempt_id),
        access_revision: s.mutation_generation,
        relay_origin: s.credential.relay_origin,
        device_token: s.credential.device_token,
        deadline,
    }
}

/// The store after a question for access was begun.
pub open spec fn captured(s: StoreView) -> StoreView {
    StoreView {
        current_access_attempt_id: next_number(s.next_access_attempt_id),
        next_access_attempt_id: next_number(s.next_access_attempt_id),
        ..s
    }
}

/// A refreshed token is taken: the transport that refreshed it is still the one in use.
pub open spec fn takes_token(s: StoreView, expected_mutation_gen: u64) -> bool {
    !s.shutdown && s.mutation_generation == expected_mutation_gen
}

/// The store after a refreshed token was taken: the write of it is owed.
pub open spec fn token_taken(s: StoreView, token: Seq<char>, expires_at: i64) -> StoreView {
    StoreView {
        credential: with_token(s.credential, token, expires_at),
        next_pending_id: next_number(s.next_pending_id),
        pending: Some(
            TokenUpdate {
                id: next_number(s.next_pending_id),
                expected_mutation_gen: s.mutation_generation,
            },
        ),
        ..s
    }
}

/// The store after a refreshed token was written or not.
pub open spec fn token_written(s: StoreView, persisted: bool) -> StoreView {
    if persisted {
        StoreView { pending: None, persistence_issue: None, ..s }
    } else {
        with_issue(s, CredentialPersistenceIssue::Failed)
    }
}

/// The store after the credential for access over a relay was written, or was not as
/// far as is known but stands in its file all the same, or neither.
pub open spec fn ready_written(
    s: StoreView,
    updated: CredentialView,
    revision: u64,
    confirmed: bool,
    landed: bool,
) -> StoreView {
    let installed = StoreView {
        credential: updated,
        mutation_generation: revision,
        durable_clear_pending_gen: None,
        ..s
    };
    if confirmed {
        StoreView { pending: None, persistence_issue: None, ..installed }
    } else if landed {
        StoreView {
            next_pending_id: next_number(s.next_pending_id),
            pending: Some(
                TokenUpdate {
                    id: next_number(s.next_pending_id),
                    expected_mutation_gen: revision,
                },
            ),
            persistence_issue: Some(CredentialPersistenceIssue::Uncertain),
            ..installed
        }
    } else {
        with_issue(s, CredentialPersistenceIssue::Failed)
    }
}

/// What is said of access over a relay, written, found written or neither.
pub open spec fn ready_publication(confirmed: bool, landed: bool) -> Option<ReadyPublication> {
    if confirmed {
        Some(ReadyPublication::Confirmed)
    } else if landed {
        Some(ReadyPublication::Uncertain)
    } else {
        None
    }
}

/// The store after the credential without access over a relay was written or not.
pub open spec fn disable_written(s: StoreView, revision: u64, persisted: bool) -> StoreView {
    if !persisted {
        with_issue(s, CredentialPersistenceIssue::Failed)
    } else if s.mutation_generation == revision && s.durable_clear_pending_gen == Some(revision) {
        StoreView { durable_clear_pending_gen: None, persistence_issue: None, ..s }
    } else {
        s
    }
}

/// The store after what was owed was written or not.
pub open spec fn pending_written(s: StoreView, written: bool) -> StoreView {
    if written {
        StoreView {
            pending: None,
            durable_clear_pending_gen: None,
            persistence_issue: None,
            ..s
        }
    } else {
        with_issue(
            s,
            match s.persistence_issue {
                Some(issue) => issue,
                None => CredentialPersistenceIssue::Failed,
            },
        )
    }
}

/// The store once the session is over.
pub open spec fn invalidated(s: StoreView) -> StoreView {
    StoreView { shutdown: true, ..s }
}

impl CredentialStore {
    pub fn new(credential: Credential, pairing_generation: [u8; 32]) -> (r: Self)
        ensures
            r@ == (StoreView {
                pairing_generation: pairing_generation@,
                credential: credential@,
                mutation_generation: 0,
                pending: None,
                durable_clear_pending_gen: None,
                shutdown: false,
                current_access_attempt_id: 0,
                persistence_issue: None,
                next_pending_id: 0,
                next_access_attempt_id: 0,
            }),
    {
        CredentialStore {
            pairing_generation,
            credential,
            mutation_generation: 0,
            pending: None,
            durable_clear_pending_gen: None,
            shutdown: false,
            current_access_attempt_id: 0,
            persistence_issue: None,
            next_pending_id: 0,
            next_access_attempt_id: 0,
        }
    }

    pub fn pairing_generation(&self) -> (r: [u8; 32])
        ensures
            r == self.pairing_generation,
    {
        self.pairing_generation
    }

    pub fn instance_id(&self) -> (r: String)
        ensures
            r@ == self@.credential.instance_id,
    {
        self.credential.instance_id.clone()
    }

    pub fn live_credential(&self) -> (r: Credential)
        ensures
            r == self.credential,
    {
        self.credential.clone()
    }

    pub fn persistence_issue(&self) -> (r: Option<CredentialPersistenceIssue>)
        ensures
            r == self.persistence_issue,
    {
        self.persistence_issue
    }

    /// Begins a question for access that must be answered before `deadline`. Every
    /// earlier one is superseded.
    pub fn capture_access_attempt(&mut self, lane_attempt_id: u64, deadline: u64) -> (r: AccessAttempt)
        ensures
            final(self)@ == captured(old(self)@),
            r@ == attempt_of(old(self)@, lane_attempt_id, deadline),
    {
        self.next_access_attempt_id = self.next_access_attempt_id.wrapping_add(1);
        self.current_access_attempt_id = self.next_access_attempt_id;
        AccessAttempt {
            pairing_generation: self.pairing_generation,
            lane_attempt_id,
            owner_attempt_id: self.current_access_attempt_id,
            access_revision: self.mutation_generation,
            relay_origin: copy_option(&self.credential.relay_origin),
            device_token: copy_option(&self.credential.device_token),
            deadline,
        }
    }

    pub fn access_attempt_is_current(&self, attempt: &AccessAttempt, now: u64) -> (r: bool)
        ensures
            r == attempt_is_current(self@, attempt@, now),
    {
        now < attempt.deadline && same_generation(
            &attempt.pairing_generation,
            &self.pairing_generation,
        ) && attempt.lane_attempt_id != 0 && self.current_access_attempt_id
            == attempt.owner_attempt_id && !self.shutdown && self.mutation_generation
            == attempt.access_revision && same_option(
            &self.credential.relay_origin,
            &attempt.relay_origin,
        ) && same_option(&self.credential.device_token, &attempt.device_token)
    }

    /// The session is over: nothing new is accepted.
    pub fn invalidate(&mut self)
        ensures
            final(self)@ == invalidated(old(self)@),
    {
        self.shutdown = true;
    }

    /// Notes that a write failed. The result is whether that is new and to be reported.
    pub fn record_persistence_issue(&mut self, issue: CredentialPersistenceIssue) -> (r: bool)
        ensures
            r == (old(self).persistence_issue != Some(issue)),
            final(self)@ == with_issue(old(self)@, issue),
    {
        let new = match self.persistence_issue {
            Some(known) => known != issue,
            None => true,
        };
        self.persistence_issue = Some(issue);
        new
    }

    /// Takes a refreshed token, where the transport that refreshed it is still the one
    /// in use. The result is the credential to write.
    pub fn begin_token_refresh(
        &mut self,
        expected_mutation_gen: u64,
        token: String,
        expires_at: i64,
    ) -> (r: Option<Credential>)
        ensures
            if takes_token(old(self)@, expected_mutation_gen) {
                &&& r is Some
                &&& r->0 == final(self).credential
                &&& final(self)@ == token_taken(old(self)@, token@, expires_at)
            } else {
                r is None && final(self)@ == old(self)@
            },
    {
        if self.shutdown || self.mutation_generation != expected_mutation_gen {
            return None;
        }
        self.credential.device_token = Some(token);
        self.credential.device_token_expires_at = Some(expires_at);
        self.next_pending_id = self.next_pending_id.wrapping_add(1);
        self.pending = Some(TokenUpdate { id: self.next_pending_id, expected_mutation_gen });
        Some(self.credential.clone())
    }

    /// A refreshed token was written or not. The result is whether a failure is to be
    /// reported.
    pub fn finish_token_refresh(&mut self, persisted: bool) -> (r: bool)
        ensures
            final(self)@ == token_written(old(self)@, persisted),
            r == (!persisted && old(self).persistence_issue != Some(
                CredentialPersistenceIssue::Failed,
            )),
    {
        if persisted {
            self.pending = None;
            self.persistence_issue = None;
            false
        } else {
            self.record_persistence_issue(CredentialPersistenceIssue::Failed)
        }
    }

    /// The credential that access over a relay makes, and its revision. Nothing where
    /// the attempt no longer counts. Nothing changes yet.
    pub fn begin_ready(
        &self,
        attempt: &AccessAttempt,
        now: u64,
        relay_origin: String,
        device_token: String,
        expires_at: i64,
    ) -> (r: Option<(Credential, u64)>)
        ensures
            match r {
                Some(prepared) => {
                    &&& attempt_is_current(self@, attempt@, now)
                    &&& prepared.0@ == with_relay(
                        self@.credential,
                        relay_origin@,
                        device_token@,
                        expires_at,
                    )
                    &&& prepared.1 == next_number(self.mutation_generation)
                },
                None => !attempt_is_current(self@, attempt@, now),
            },
    {
        if !self.access_attempt_is_current(attempt, now) {
            return None;
        }
        let mut updated = self.credential.clone();
        updated.relay_origin = Some(relay_origin);
        updated.device_token = Some(device_token);
        updated.device_token_expires_at = Some(expires_at);
        Some((updated, self.mutation_generation.wrapping_add(1)))
    }

    /// The credential for access over a relay was written, or not as far as is known;
    /// then `reread` is what stands in its file. It is installed where it was written,
    /// or the file holds it all the same. The result is what was published, and
    /// whether a failure is to be reported.
    pub fn finish_ready(
        &mut self,
        updated: Credential,
        revision: u64,
        confirmed: bool,
        reread: &Option<Credential>,
    ) -> (r: (Option<ReadyPublication>, bool))
        ensures
            ({
                let landed = *reread is Some && same_access(reread->0@, updated@);
                &&& final(self)@ == ready_written(
                    old(self)@,
                    updated@,
                    revision,
                    confirmed,
                    landed,
                )
                &&& r.0 == ready_publication(confirmed, landed)
                &&& r.1 == (!confirmed && old(self).persistence_issue != Some(
                    if landed {
                        CredentialPersistenceIssue::Uncertain
                    } else {
                        CredentialPersistenceIssue::Failed
                    },
                ))
            }),
    {
        if !confirmed {
            let landed = match reread {
                Some(read) => same_option(&read.relay_origin, &updated.relay_origin)
                    && same_option(&read.device_token, &updated.device_token)
                    && read.device_token_expires_at == updated.device_token_expires_at
                    && same_text(read.client_cert_pem.as_str(), updated.client_cert_pem.as_str()),
                None => false,
            };
            if !landed {
                let report = self.record_persistence_issue(CredentialPersistenceIssue::Failed);
                return (None, report);
            }
        }
        self.credential = updated;
        self.mutation_generation = revision;
        self.durable_clear_pending_gen = None;
        if confirmed {
            self.pending = None;
            self.persistence_issue = None;
            (Some(ReadyPublication::Confirmed), false)
        } else {
            self.next_pending_id = self.next_pending_id.wrapping_add(1);
            self.pending = Some(
                TokenUpdate { id: self.next_pending_id, expected_mutation_gen: revision },
            );
            let report = self.record_persistence_issue(CredentialPersistenceIssue::Uncertain);
            (Some(ReadyPublication::Uncertain), report)
        }
    }

    /// Takes access over a relay away at once, before anything is written. The result is
    /// the credential to install and to write, and its revision; nothing where the
    /// attempt no longer counts.
    pub fn begin_disable(&mut self, attempt: &AccessAttempt, now: u64) -> (r: Option<
        (Credential, u64),
    >)
        ensures
            if attempt_is_current(old(self)@, attempt@, now) {
                &&& r is Some
                &&& (r->0).0 == final(self).credential
                &&& (r->0).1 == final(self).mutation_generation
                &&& final(self)@ == disabled(old(self)@)
            } else {
                r is None && final(self)@ == old(self)@
            },
    {
        if !self.access_attempt_is_current(attempt, now) {
            return None;
        }
        self.credential.relay_origin = None;
        self.credential.device_token = None;
        self.credential.device_token_expires_at = None;
        self.pending = None;
        self.mutation_generation = self.mutation_generation.wrapping_add(1);
        self.durable_clear_pending_gen = Some(self.mutation_generation);
        Some((self.credential.clone(), self.mutation_generation))
    }

    /// The credential without access over a relay was written or not. The result is
    /// whether it was, and whether a failure is to be reported.
    pub fn finish_disable(&mut self, revision: u64, persisted: bool) -> (r: (bool, bool))
        ensures
            r.0 == persisted,
            r.1 == (!persisted && old(self).persistence_issue != Some(
                CredentialPersistenceIssue::Failed,
            )),
            final(self)@ == disable_written(old(self)@, revision, persisted),
    {
        if !persisted {
            let report = self.record_persistence_issue(CredentialPersistenceIssue::Failed);
            return (false, report);
        }
        let same_clear = match self.durable_clear_pending_gen {
            Some(pending) => pending == revision,
            None => false,
        };
        if self.mutation_generation == revision && same_clear {
            self.durable_clear_pending_gen = None;
            self.persistence_issue = None;
        }
        (true, false)
    }

    /// Whether what the journal says of itself may be written: the session is on, and
    /// the file still holds this pairing.
    pub fn may_publish_info(&self, on_disk: &Option<Credential>) -> (r: bool)
        ensures
            r == (!self.shutdown && *on_disk is Some && on_disk->0@.client_cert_pem
                == self@.credential.client_cert_pem),
    {
        if self.shutdown {
            return false;
        }
        match on_disk {
            Some(found) => same_text(
                found.client_cert_pem.as_str(),
                self.credential.client_cert_pem.as_str(),
            ),
            None => false,
        }
    }

    /// Whether it counts as published, now that it was written or not.
    pub fn info_published(&self, persisted: bool) -> (r: bool)
        ensures
            r == (!self.shutdown && persisted),
    {
        !self.shutdown && persisted
    }

    /// The credential to write, where something accepted is not written yet. A session
    /// that is over still writes what it had accepted.
    pub fn begin_persist_pending(&self) -> (r: Option<Credential>)
        ensures
            match r {
                Some(credential) => has_pending(self@) && credential == self.credential,
                None => !has_pending(self@),
            },
    {
        let token_pending = match self.pending {
            Some(update) => update.expected_mutation_gen == self.mutation_generation,
            None => false,
        };
        let clear_pending = match self.durable_clear_pending_gen {
            Some(generation) => generation == self.mutation_generation,
            None => false,
        };
        if token_pending || clear_pending {
            Some(self.credential.clone())
        } else {
            None
        }
    }

    /// What was to be written was, or failed with a code. The result is whether a
    /// failure is to be reported.
    pub fn finish_persist_pending(&mut self, written: Result<(), DiagnosticCode>) -> (r: bool)
        ensures
            final(self)@ == pending_written(old(self)@, written is Ok),
            r == (written is Err && old(self).persistence_issue is None),
    {
        match written {
            Ok(_) => {
                self.pending = None;
                self.durable_clear_pending_gen = None;
                self.persistence_issue = None;
                false
            },
            Err(_) => {
                let issue = match self.persistence_issue {
                    Some(issue) => issue,
                    None => CredentialPersistenceIssue::Failed,
                };
                self.record_persistence_issue(issue)
            },
        }
    }
}

// ---------------------------------------------------------------------------
// What the store keeps
// ---------------------------------------------------------------------------

/// A later question supersedes an earlier one: the answer to that changes nothing
/// any more.
pub proof fn lemma_later_attempt_supersedes(s: StoreView, a: AttemptView, now: u64)
    requires
        a.owner_attempt_id == s.next_access_attempt_id,
    ensures
        !attempt_is_current(captured(s), a, now),
{
}

/// Once the session is over no answer is accepted, in time or not.
pub proof fn lemma_no_attempt_after_shutdown(s: StoreView, a: AttemptView, now: u64)
    ensures
        !attempt_is_current(invalidated(s), a, now),
{
}

/// Once a credential was installed, the answers that were under way for the one
/// before it, and the tokens that its transport refreshes, are out of date.
pub proof fn lemma_new_revision_retires_old_one(
    s: StoreView,
    a: AttemptView,
    installed: StoreView,
    now: u64,
)
    requires
        attempt_is_current(s, a, now),
        installed.mutation_generation == next_number(s.mutation_generation),
    ensures
        !attempt_is_current(installed, a, now),
        installed.mutation_generation != s.mutation_generation,
{
}

/// A token that could not be written stays to be written, under the same credential.
pub proof fn lemma_failed_write_stays_pending(s: StoreView, issue: CredentialPersistenceIssue)
    requires
        has_pending(s),
    ensures
        has_pending(with_issue(s, issue)),
        has_pending(invalidated(s)),
{
}

/// Access over a relay that was taken away is out of the credential in use before its
/// file is written, and the write stays owed until it worked.
pub proof fn lemma_disable_is_immediate(s: StoreView)
    ensures
        ({
            let after = disabled(s);
            &&& after.credential.relay_origin is None
            &&& after.credential.device_token is None
            &&& has_pending(after)
            &&& has_pending(with_issue(after, CredentialPersistenceIssue::Failed))
        }),
{
}

/// The answer to a question counts from when it was begun until its deadline, as long as
/// nothing that it rests on changes, and no longer.
pub proof fn lemma_fresh_attempt_counts(s: StoreView, lane: u64, deadline: u64, now: u64)
    requires
        !s.shutdown,
        lane != 0,
    ensures
        attempt_is_current(captured(s), attempt_of(s, lane, deadline), now) <==> now < deadline,
        captured(s).credential == s.credential,
        captured(s).mutation_generation == s.mutation_generation,
        captured(s).pending == s.pending,
        captured(s).durable_clear_pending_gen == s.durable_clear_pending_gen,
        captured(s).persistence_issue == s.persistence_issue,
        captured(s).shutdown == s.shutdown,
{
}

/// An answer never counts for another pairing, without a lane, for an access that was
/// changed since, or for another token or relay.
pub proof fn lemma_changed_access_retires_attempt(s: StoreView, a: AttemptView, now: u64)
    requires
        ({
            ||| a.pairing_generation != s.pairing_generation
            ||| a.lane_attempt_id == 0
            ||| a.access_revision != s.mutation_generation
            ||| a.relay_origin != s.credential.relay_origin
            ||| a.device_token != s.credential.device_token
            ||| a.owner_attempt_id != s.current_access_attempt_id
            ||| now >= a.deadline
        }),
    ensures
        !attempt_is_current(s, a, now),
{
}

/// The credential that an answer makes reaches the journal over the relay that the answer
/// names with its token, is otherwise the one in use, and has a new revision; there is
/// one exactly while the answer counts.
pub proof fn lemma_ready_credential(
    store: CredentialStore,
    attempt: AccessAttempt,
    now: u64,
    relay_origin: String,
    device_token: String,
    expires_at: i64,
    r: Option<(Credential, u64)>,
)
    requires
        call_ensures(
            CredentialStore::begin_ready,
            (&store, &attempt, now, relay_origin, device_token, expires_at),
            r,
        ),
    ensures
        r is Some <==> attempt_is_current(store@, attempt@, now),
        r is Some ==> {
            let updated = (r->0).0@;
            &&& updated.relay_origin == Some(relay_origin@)
            &&& updated.device_token == Some(device_token@)
            &&& updated.device_token_expires_at == Some(expires_at)
            &&& updated.instance_id == store@.credential.instance_id
            &&& updated.client_cert_pem == store@.credential.client_cert_pem
            &&& updated.has_endpoints == store@.credential.has_endpoints
            &&& (r->0).1 != store@.mutation_generation
        },
{
}

/// A credential that was written is in use with its revision, nothing is owed any more,
/// and no failure is on record. One that was perhaps written is in use too, and its write
/// is owed. One that was not changes nothing but the record.
pub proof fn lemma_ready_is_installed(s: StoreView, updated: CredentialView, revision: u64, landed: bool)
    ensures
        ({
            let after = ready_written(s, updated, revision, true, landed);
            &&& after.credential == updated
            &&& after.mutation_generation == revision
            &&& !has_pending(after)
            &&& after.persistence_issue is None
            &&& after.shutdown == s.shutdown
            &&& after.pairing_generation == s.pairing_generation
            &&& ready_publication(true, landed) == Some(ReadyPublication::Confirmed)
        }),
        ({
            let after = ready_written(s, updated, revision, false, true);
            &&& after.credential == updated
            &&& after.mutation_generation == revision
            &&& has_pending(after)
            &&& after.durable_clear_pending_gen is None
            &&& after.persistence_issue == Some(CredentialPersistenceIssue::Uncertain)
            &&& after.shutdown == s.shutdown
            &&& ready_publication(false, true) == Some(ReadyPublication::Uncertain)
        }),
        ({
            let after = ready_written(s, updated, revision, false, false);
            &&& after.credential == s.credential
            &&& after.mutation_generation == s.mutation_generation
            &&& has_pending(after) == has_pending(s)
            &&& after.persistence_issue == Some(CredentialPersistenceIssue::Failed)
            &&& ready_publication(false, false) is None
        }),
{
}

/// What was read back counts as what was to be written only where every field that grants
/// access is the same, and so is the pairing.
pub proof fn lemma_what_counts_as_landed(read: CredentialView, written: CredentialView)
    ensures
        same_access(read, written) <==> read.relay_origin == written.relay_origin
            && read.device_token == written.device_token && read.device_token_expires_at
            == written.device_token_expires_at && read.client_cert_pem == written.client_cert_pem,
        same_access(written, written),
{
}

/// A token that the transport in use refreshed replaces the one before it, and nothing
/// else changes but that its write is owed; once written, it is not. One from a transport
/// that is out of date, or after the session, is not taken.
pub proof fn lemma_refreshed_token_is_kept(s: StoreView, generation: u64, token: Seq<char>, expires_at: i64)
    ensures
        takes_token(s, generation) <==> !s.shutdown && generation == s.mutation_generation,
        ({
            let after = token_taken(s, token, expires_at);
            &&& after.credential.device_token == Some(token)
            &&& after.credential.device_token_expires_at == Some(expires_at)
            &&& after.credential.relay_origin == s.credential.relay_origin
            &&& after.credential.instance_id == s.credential.instance_id
            &&& after.credential.client_cert_pem == s.credential.client_cert_pem
            &&& after.mutation_generation == s.mutation_generation
            &&& has_pending(after)
            &&& token_written(after, true).credential == after.credential
            &&& token_written(after, true).persistence_issue is None
            &&& has_pending(token_written(after, true)) ==> s.durable_clear_pending_gen == Some(
                s.mutation_generation,
            )
            &&& has_pending(token_written(after, false))
            &&& token_written(after, false).persistence_issue == Some(
                CredentialPersistenceIssue::Failed,
            )
        }),
{
}

/// Access over a relay that was taken away stays so: the revision is new, the pairing is
/// kept, and its write is owed until it worked for that very revision.
pub proof fn lemma_disable_is_owed_until_written(s: StoreView, revision: u64, persisted: bool)
    ensures
        ({
            let after = disabled(s);
            let done = disable_written(after, revision, persisted);
            &&& after.credential.device_token_expires_at is None
            &&& after.credential.instance_id == s.credential.instance_id
            &&& after.credential.client_cert_pem == s.credential.client_cert_pem
            &&& after.mutation_generation != s.mutation_generation
            &&& !has_pending(done) <==> persisted && revision == after.mutation_generation
            &&& done.credential == after.credential
            &&& persisted && revision == after.mutation_generation ==> done.persistence_issue
                is None
            &&& !persisted ==> done.persistence_issue == Some(CredentialPersistenceIssue::Failed)
        }),
{
}

/// What is owed is no longer owed once it was written, and stays owed where it was not,
/// with the failure that is on record already or a new one.
pub proof fn lemma_owed_until_written(s: StoreView)
    ensures
        !has_pending(pending_written(s, true)),
        pending_written(s, true).persistence_issue is None,
        pending_written(s, true).credential == s.credential,
        pending_written(s, true).mutation_generation == s.mutation_generation,
        has_pending(pending_written(s, false)) == has_pending(s),
        pending_written(s, false).persistence_issue is Some,
        s.persistence_issue is Some ==> pending_written(s, false).persistence_issue
            == s.persistence_issue,
        s.persistence_issue is None ==> pending_written(s, false).persistence_issue == Some(
            CredentialPersistenceIssue::Failed,
        ),
        pending_written(s, false).credential == s.credential,
{
}

/// What the journal says of itself is written only for the pairing that is on disk and
/// while the session is on, and counts as published only where it was written.
pub proof fn lemma_info_is_for_this_pairing(
    store: CredentialStore,
    on_disk: Option<Credential>,
    persisted: bool,
    may: bool,
    published: bool,
)
    requires
        call_ensures(CredentialStore::may_publish_info, (&store, &on_disk), may),
        call_ensures(CredentialStore::info_published, (&store, persisted), published),
    ensures
        may <==> !store.shutdown && on_disk is Some && on_disk->0@.client_cert_pem
            == store@.credential.client_cert_pem,
        published <==> persisted && !store.shutdown,
{
}

/// What is written for the store is the credential in use, exactly while something is
/// owed for its revision.
pub proof fn lemma_what_is_owed_is_in_use(store: CredentialStore, r: Option<Credential>)
    requires
        call_ensures(CredentialStore::begin_persist_pending, (&store,), r),
    ensures
        r is Some ==> r->0@ == store@.credential,
        store.durable_clear_pending_gen == Some(store.mutation_generation) ==> r is Some,
        store.pending is Some && store.pending->0.expected_mutation_gen == store.mutation_generation
            ==> r is Some,
        store.pending is None && store.durable_clear_pending_gen is None ==> r is None,
{
}

/// Numbers are given out one after the other, and start over at the limit.
pub proof fn lemma_numbers_follow(n: u64)
    ensures
        n < u64::MAX ==> next_number(n) == n + 1,
        n == u64::MAX ==> next_number(n) == 0,
{
}

} // verus!
