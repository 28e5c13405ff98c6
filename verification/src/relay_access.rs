//! Access to the journal over a relay: which answers change the credential.

use vstd::prelude::*;
use vstd::string::*;

use crate::journal::STATUS_OK;
use crate::sync::credentials::{Credential, CredentialView};
use crate::text::same_text;

verus! {

pub const RELAY_PROTOCOL_VERSION: u8 = 2;

/// The journal offers access over a relay.
#[derive(Clone, Debug, PartialEq, Eq)]
pub struct RelayAccessReady {
    pub protocol_version: u8,
    pub status: String,
    pub instance_id: String,
    pub relay_origin: String,
    pub device_token: String,
    pub expires_at: String,
}

/// The journal has no relay.
#[derive(Clone, Debug, PartialEq, Eq)]
pub struct RelayAccessNotConfigured {
    pub protocol_version: u8,
    pub status: String,
}

#[derive(Clone, Debug, PartialEq, Eq)]
pub enum RelayAccessResponse {
    Ready(RelayAccessReady),
    NotConfigured(RelayAccessNotConfigured),
}

/// What an answer asks for.
#[derive(Clone, Copy, Debug, PartialEq, Eq, Structural)]
pub enum AccessRequest {
    /// Take the access on, once its origin and its token are proved.
    Prove,
    /// Take the access away.
    Disable,
    /// Nothing: the answer is not to be believed.
    Reject,
}

/// What an answer asks for: it must be a 200 of this protocol, and an offer must be
/// for the paired journal.
pub open spec fn access_request(
    status: u16,
    response: Option<RelayAccessResponse>,
    paired_instance_id: Seq<char>,
) -> AccessRequest {
    if status != STATUS_OK {
        AccessRequest::Reject
    } else {
        match response {
            None => AccessRequest::Reject,
            Some(RelayAccessResponse::Ready(ready)) => if ready.status@ == "ready"@
                && ready.protocol_version == RELAY_PROTOCOL_VERSION && ready.instance_id@
                == paired_instance_id {
                AccessRequest::Prove
            } else {
                AccessRequest::Reject
            },
            Some(RelayAccessResponse::NotConfigured(refusal)) => if refusal.status@
                == "not_configured"@ && refusal.protocol_version == RELAY_PROTOCOL_VERSION {
                AccessRequest::Disable
            } else {
                AccessRequest::Reject
            },
        }
    }
}

/// What an answer asks for; `response` is nothing where its body is none.
pub fn read_access_answer(
    status: u16,
    response: &Option<RelayAccessResponse>,
    paired_instance_id: &str,
) -> (r: AccessRequest)
    ensures
        r == access_request(status, *response, paired_instance_id@),
{
    if status != STATUS_OK {
        return AccessRequest::Reject;
    }
    match response {
        None => AccessRequest::Reject,
        Some(RelayAccessResponse::Ready(ready)) => {
            if same_text(ready.status.as_str(), "ready") && ready.protocol_version
                == RELAY_PROTOCOL_VERSION && same_text(
                ready.instance_id.as_str(),
                paired_instance_id,
            ) {
                AccessRequest::Prove
            } else {
                AccessRequest::Reject
            }
        },
        Some(RelayAccessResponse::NotConfigured(refusal)) => {
            if same_text(refusal.status.as_str(), "not_configured") && refusal.protocol_version
                == RELAY_PROTOCOL_VERSION {
                AccessRequest::Disable
            } else {
                AccessRequest::Reject
            }
        },
    }
}

/// What the proof of an offer brought.
#[derive(Clone, Copy, Debug, PartialEq, Eq, Structural)]
pub struct AccessProof {
    /// Whether the relay's origin may be used.
    pub origin_valid: bool,
    /// When the token expires, where its claims hold for the journal and the time.
    pub expires_at: Option<i64>,
    /// Whether the relay is that of the credential in use; nothing where the two could
    /// not be held against each other.
    pub same_origin: Option<bool>,
}

/// What is done with an offer.
#[derive(Clone, Copy, Debug, PartialEq, Eq, Structural)]
pub enum ReadyDecision {
    /// The credential in use has it already.
    Unchanged,
    /// It is taken on, with the time at which it expires.
    Submit(i64),
    Reject,
}

/// What is done with an offer that was proved or not.
pub open spec fn ready_decision(
    device_token: Seq<char>,
    evidence: AccessProof,
    current: CredentialView,
) -> ReadyDecision {
    if !evidence.origin_valid || evidence.expires_at is None || (current.relay_origin is Some
        && evidence.same_origin is None) {
        ReadyDecision::Reject
    } else if current.relay_origin is Some && evidence.same_origin == Some(true)
        && current.device_token == Some(device_token) && current.device_token_expires_at
        == evidence.expires_at {
        ReadyDecision::Unchanged
    } else {
        ReadyDecision::Submit(evidence.expires_at->0)
    }
}

pub fn decide_ready(ready: &RelayAccessReady, evidence: AccessProof, current: &Credential) -> (r:
    ReadyDecision)
    ensures
        r == ready_decision(ready.device_token@, evidence, current@),
{
    if !evidence.origin_valid {
        return ReadyDecision::Reject;
    }
    let expires_at: i64 = match evidence.expires_at {
        Some(at) => at,
        None => return ReadyDecision::Reject,
    };
    let same_origin = if current.relay_origin.is_some() {
        match evidence.same_origin {
            Some(same) => same,
            None => return ReadyDecision::Reject,
        }
    } else {
        false
    };
    let same_token = match &current.device_token {
        Some(token) => same_text(token.as_str(), ready.device_token.as_str()),
        None => false,
    };
    let same_expiry = match current.device_token_expires_at {
        Some(at) => at == expires_at,
        None => false,
    };
    if same_origin && same_token && same_expiry {
        ReadyDecision::Unchanged
    } else {
        ReadyDecision::Submit(expires_at)
    }
}

/// Nothing but a proved answer changes the credential: any other status than 200, any
/// other protocol or journal, and any failed proof leave it as it is.
pub proof fn lemma_only_proved_answers_count(
    status: u16,
    response: Option<RelayAccessResponse>,
    paired_instance_id: Seq<char>,
    device_token: Seq<char>,
    evidence: AccessProof,
    current: CredentialView,
)
    ensures
        access_request(status, response, paired_instance_id) != AccessRequest::Reject ==> status
            == STATUS_OK && response is Some,
        access_request(status, response, paired_instance_id) == AccessRequest::Prove ==> (
        response->0 matches RelayAccessResponse::Ready(ready) && ready.instance_id@
            == paired_instance_id),
        ready_decision(device_token, evidence, current) is Submit ==> evidence.origin_valid
            && evidence.expires_at is Some,
{
}

/// An offer is proved exactly where it came with success, in the second version of the
/// protocol, under its own name and for the paired journal.
pub proof fn lemma_which_offers_are_proved(
    status: u16,
    ready: RelayAccessReady,
    refusal: RelayAccessNotConfigured,
    paired: Seq<char>,
)
    ensures
        access_request(status, Some(RelayAccessResponse::Ready(ready)), paired)
            == AccessRequest::Prove <==> status == 200 && ready.status@ == "ready"@
            && ready.protocol_version == 2 && ready.instance_id@ == paired,
        access_request(status, Some(RelayAccessResponse::Ready(ready)), paired)
            != AccessRequest::Disable,
        access_request(status, Some(RelayAccessResponse::NotConfigured(refusal)), paired)
            == AccessRequest::Disable <==> status == 200 && refusal.status@ == "not_configured"@
            && refusal.protocol_version == 2,
        access_request(status, Some(RelayAccessResponse::NotConfigured(refusal)), paired)
            != AccessRequest::Prove,
        access_request(status, None, paired) == AccessRequest::Reject,
{
}

/// A proved offer that the credential in use does not have already is taken on until the
/// time that was proved; one that it has is left, and one that is not proved is rejected.
pub proof fn lemma_what_becomes_of_an_offer(
    token: Seq<char>,
    evidence: AccessProof,
    current: CredentialView,
)
    ensures
        ({
            let decision = ready_decision(token, evidence, current);
            let proved = evidence.origin_valid && evidence.expires_at is Some && (
            current.relay_origin is None || evidence.same_origin is Some);
            let held = current.relay_origin is Some && evidence.same_origin == Some(true)
                && current.device_token == Some(token) && current.device_token_expires_at
                == evidence.expires_at;
            &&& decision == ReadyDecision::Reject <==> !proved
            &&& decision == ReadyDecision::Unchanged <==> proved && held
            &&& proved && !held ==> decision == ReadyDecision::Submit(evidence.expires_at->0)
        }),
{
}

/// Another relay, another token or another time of expiry each make an offer a new one.
pub proof fn lemma_changed_offer_is_taken_on(token: Seq<char>, at: i64, same: bool, current: CredentialView)
    requires
        current.relay_origin is Some,
        !same || current.device_token != Some(token) || current.device_token_expires_at != Some(at),
    ensures
        ready_decision(
            token,
            AccessProof { origin_valid: true, expires_at: Some(at), same_origin: Some(same) },
            current,
        ) == ReadyDecision::Submit(at),
{
}

} // verus!
