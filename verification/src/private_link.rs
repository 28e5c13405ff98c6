//! The private link to the journal: what is dialled, and what pairing hands over.

use vstd::prelude::*;
use vstd::string::*;
use vstd::utf8::*;

use crate::health::DiagnosticCode;
use crate::paths::PlatformKind;
use crate::sync::credentials::{next_number, Credential, CredentialView};
use crate::text::{
    any_space, byte_len, byte_length, chars_of, concat, copy, decimal, decimal_text, decode_text,
    has_space, is_space, opt_text, trim_end, trimmed_end,
};

verus! {

pub const CREDENTIALS_FILENAME: &'static str = "credentials.json";

pub const PRIVATE_STATE_LOCK_FILENAME: &'static str = ".solstone-tmux.private-state.lock";

pub const MAX_PAIR_LINK_BYTES: usize = 4096;

pub const MAX_REQUEST_BODY_BYTES: usize = 134217728;

pub const CAPABILITY_COOKIE_NAME: &'static str = "solstone_tmux_cap";

pub const UPSTREAM_COOKIE_PREFIX: &'static str = "solstone_tmux_";

pub const OBSERVER_HEADER_NAME: &'static str = "x-solstone-observer";

pub const PROTOCOL_VERSION_HEADER_NAME: &'static str = "x-solstone-protocol-version";

pub const PROTOCOL_VERSION: &'static str = "3";

pub const PROTOCOL_VERSION_NUMBER: u64 = 3;

pub const MAX_CLIENT_LABEL_BYTES: usize = 253;

pub const FALLBACK_DEVICE_LABEL: &'static str = "tmux";

// ---------------------------------------------------------------------------
// Dialling
// ---------------------------------------------------------------------------

/// Whether the journal may be dialled with the credential in use.
#[derive(Clone, Copy, Debug, PartialEq, Eq, Structural)]
pub enum OpenerMode {
    Transport,
    Disabled,
}

/// What is dialled with. Every change makes it a new incarnation.
#[derive(Debug)]
pub struct PrivateLinkOpener {
    pub incarnation: u64,
    pub retired: bool,
    pub mode: OpenerMode,
    pub credential: Credential,
    pub access_revision: u64,
}

pub ghost struct OpenerView {
    pub incarnation: u64,
    pub retired: bool,
    pub mode: OpenerMode,
    pub credential: CredentialView,
    pub access_revision: u64,
}

impl View for PrivateLinkOpener {
    type V = OpenerView;

    open spec fn view(&self) -> OpenerView {
        OpenerView {
            incarnation: self.incarnation,
            retired: self.retired,
            mode: self.mode,
            credential: self.credential@,
            access_revision: self.access_revision,
        }
    }
}

/// A dial under way: what it was begun with.
#[derive(Clone, Copy, Debug, PartialEq, Eq, Structural)]
pub struct DialTicket {
    pub incarnation: u64,
    /// Whether a job of a burst brought it about.
    pub job_induced: bool,
}

/// What becomes of a dial that succeeded.
#[derive(Clone, Copy, Debug, PartialEq, Eq, Structural)]
pub enum DialOutcome {
    /// It is used. Only a dial from outside a burst counts as a new connection.
    Accepted { reconnected: bool },
    /// What it was begun with is no longer in use.
    Dropped,
}

/// The opener with another credential; a retired one stays as it is.
pub open spec fn installed(
    o: OpenerView,
    mode: OpenerMode,
    credential: CredentialView,
    access_revision: u64,
) -> OpenerView {
    if o.retired {
        o
    } else {
        OpenerView {
            incarnation: next_number(o.incarnation),
            mode,
            credential,
            access_revision,
            ..o
        }
    }
}

pub open spec fn retirement(o: OpenerView) -> OpenerView {
    OpenerView { retired: true, incarnation: next_number(o.incarnation), ..o }
}

/// A dial may begin.
pub open spec fn may_dial(o: OpenerView) -> bool {
    !o.retired && o.mode == OpenerMode::Transport
}

pub open spec fn dial_outcome(o: OpenerView, ticket: DialTicket) -> DialOutcome {
    if o.retired || o.incarnation != ticket.incarnation {
        DialOutcome::Dropped
    } else {
        DialOutcome::Accepted { reconnected: !ticket.job_induced }
    }
}

impl PrivateLinkOpener {
    pub fn new(credential: Credential) -> (r: Self)
        ensures
            r@ == (OpenerView {
                incarnation: 0,
                retired: false,
                mode: OpenerMode::Transport,
                credential: credential@,
                access_revision: 0,
            }),
    {
        PrivateLinkOpener {
            incarnation: 0,
            retired: false,
            mode: OpenerMode::Transport,
            credential,
            access_revision: 0,
        }
    }

    fn install(&mut self, mode: OpenerMode, credential: Credential, access_revision: u64)
        ensures
            final(self)@ == installed(old(self)@, mode, credential@, access_revision),
    {
        if self.retired {
            return;
        }
        self.incarnation = self.incarnation.wrapping_add(1);
        self.mode = mode;
        self.credential = credential;
        self.access_revision = access_revision;
    }

    pub fn install_transport(&mut self, credential: Credential, access_revision: u64)
        ensures
            final(self)@ == installed(
                old(self)@,
                OpenerMode::Transport,
                credential@,
                access_revision,
            ),
    {
        self.install(OpenerMode::Transport, credential, access_revision);
    }

    pub fn install_disabled(&mut self, credential: Credential, access_revision: u64)
        ensures
            final(self)@ == installed(
                old(self)@,
                OpenerMode::Disabled,
                credential@,
                access_revision,
            ),
    {
        self.install(OpenerMode::Disabled, credential, access_revision);
    }

    pub fn retire(&mut self)
        ensures
            final(self)@ == retirement(old(self)@),
    {
        self.retired = true;
        self.incarnation = self.incarnation.wrapping_add(1);
    }

    pub fn live_dial_credential(&self) -> (r: Credential)
        ensures
            r == self.credential,
    {
        self.credential.clone()
    }

    /// Begins a dial; nothing where the journal may not be dialled.
    pub fn begin_dial(&self, burst_is_active: bool) -> (r: Option<DialTicket>)
        ensures
            r == if may_dial(self@) {
                Some(DialTicket { incarnation: self.incarnation, job_induced: burst_is_active })
            } else {
                None
            },
    {
        if self.retired {
            return None;
        }
        match self.mode {
            OpenerMode::Transport => Some(
                DialTicket { incarnation: self.incarnation, job_induced: burst_is_active },
            ),
            OpenerMode::Disabled => None,
        }
    }

    /// A dial has succeeded.
    pub fn finish_dial(&self, ticket: DialTicket) -> (r: DialOutcome)
        ensures
            r == dial_outcome(self@, ticket),
    {
        if self.retired || self.incarnation != ticket.incarnation {
            DialOutcome::Dropped
        } else {
            DialOutcome::Accepted { reconnected: !ticket.job_induced }
        }
    }
}

/// A retired opener neither dials nor changes, and no dial that it began is used.
pub proof fn lemma_retired_opener_is_inert(
    o: OpenerView,
    mode: OpenerMode,
    credential: CredentialView,
    access_revision: u64,
    ticket: DialTicket,
)
    requires
        o.retired,
    ensures
        !may_dial(o),
        installed(o, mode, credential, access_revision) == o,
        dial_outcome(o, ticket) == DialOutcome::Dropped,
        retirement(o).retired,
{
}

/// A dial that was begun with a credential is not used once another is installed, or
/// the opener is retired.
pub proof fn lemma_old_dial_is_dropped(
    o: OpenerView,
    mode: OpenerMode,
    credential: CredentialView,
    access_revision: u64,
    job_induced: bool,
)
    requires
        !o.retired,
    ensures
        ({
            let ticket = DialTicket { incarnation: o.incarnation, job_induced };
            &&& dial_outcome(o, ticket) != DialOutcome::Dropped
            &&& dial_outcome(installed(o, mode, credential, access_revision), ticket)
                == DialOutcome::Dropped
            &&& dial_outcome(retirement(o), ticket) == DialOutcome::Dropped
        }),
{
}

/// The headers of a request to the journal: those that came in and the protocol's.
pub fn proxy_headers(upstream_headers: &Vec<(String, String)>) -> (r: Vec<(String, String)>)
    ensures
        r@.len() == upstream_headers@.len() + 1,
        r@.drop_last() == upstream_headers@,
        r@.last().0@ == PROTOCOL_VERSION_HEADER_NAME@,
        r@.last().1@ == PROTOCOL_VERSION@,
{
    let mut headers: Vec<(String, String)> = Vec::new();
    let mut i: usize = 0;
    while i < upstream_headers.len()
        invariant
            i <= upstream_headers@.len(),
            headers@ =~= upstream_headers@.take(i as int),
        decreases upstream_headers@.len() - i,
    {
        headers.push((upstream_headers[i].0.clone(), upstream_headers[i].1.clone()));
        i = i + 1;
    }
    proof {
        assert(upstream_headers@.take(upstream_headers@.len() as int) =~= upstream_headers@);
    }
    headers.push((copy(PROTOCOL_VERSION_HEADER_NAME), copy(PROTOCOL_VERSION)));
    proof {
        assert(headers@.drop_last() =~= upstream_headers@);
    }
    headers
}

/// The origin of the bridge on this machine.
pub fn loopback_origin(port: u16) -> (r: String)
    ensures
        r@ == "http://127.0.0.1:"@ + decimal(port as nat),
{
    concat("http://127.0.0.1:", decimal_text(port as u64).as_str())
}

// ---------------------------------------------------------------------------
// Pairing
// ---------------------------------------------------------------------------

/// What a device says of itself when it is paired.
#[derive(Debug)]
pub struct PairingIdentity {
    pub device_label: String,
    pub client_label: Option<String>,
    pub platform: String,
}

/// A host name that can stand as a label.
pub open spec fn is_client_label(hostname: Seq<char>) -> bool {
    1 <= byte_len(hostname) <= MAX_CLIENT_LABEL_BYTES
}

/// What this device says of itself: its host name, where that can stand as a label.
/// `hostname` is nothing where the system gave none.
pub fn pairing_ceremony_identity(platform: PlatformKind, hostname: Option<String>) -> (r:
    PairingIdentity)
    ensures
        r.platform@ == platform.pairing_name(),
        if hostname is Some && is_client_label(hostname->0@) {
            r.device_label@ == hostname->0@ && opt_text(r.client_label) == Some(hostname->0@)
        } else {
            r.device_label@ == FALLBACK_DEVICE_LABEL@ && r.client_label is None
        },
{
    let platform = copy(platform.pairing_platform());
    match hostname {
        Some(hostname) => {
            let length: usize = byte_length(hostname.as_str());
            if 1 <= length && length <= MAX_CLIENT_LABEL_BYTES {
                return PairingIdentity {
                    device_label: hostname.clone(),
                    client_label: Some(hostname),
                    platform,
                };
            }
        },
        None => {},
    }
    PairingIdentity { device_label: copy(FALLBACK_DEVICE_LABEL), client_label: None, platform }
}

/// The link that was pasted: one line without white space, which may end in some.
pub open spec fn pair_link(bytes: Seq<u8>) -> Option<Seq<char>> {
    if bytes.len() > MAX_PAIR_LINK_BYTES || !valid_utf8(bytes) {
        None
    } else {
        let link = trim_end(decode_utf8(bytes));
        if link.len() == 0 || has_space(link) {
            None
        } else {
            Some(link)
        }
    }
}

/// The link that was pasted. `bytes` is what was read, one byte over the limit at
/// most.
pub fn read_pair_link(bytes: &[u8]) -> (r: Result<String, DiagnosticCode>)
    ensures
        match r {
            Ok(link) => pair_link(bytes@) == Some(link@),
            Err(code) => pair_link(bytes@) is None && code == DiagnosticCode::SetupInputInvalid,
        },
{
    if bytes.len() > MAX_PAIR_LINK_BYTES {
        return Err(DiagnosticCode::SetupInputInvalid);
    }
    let text = match decode_text(bytes) {
        Ok(text) => text,
        Err(_) => return Err(DiagnosticCode::SetupInputInvalid),
    };
    let link = trimmed_end(text.as_str());
    if chars_of(link.as_str()).len() == 0 || any_space(link.as_str()) {
        return Err(DiagnosticCode::SetupInputInvalid);
    }
    Ok(link)
}

// ---------------------------------------------------------------------------
// Private files
// ---------------------------------------------------------------------------

/// What came of opening or writing a private file.
#[derive(Clone, Copy, Debug, PartialEq, Eq, Structural)]
pub enum PrivateFileOutcome {
    Done,
    NotFound,
    /// It is no regular file, or a symbolic link.
    InvalidTarget,
    Failed,
}

/// Whether a private file can be read: `false` where it is not there.
pub fn check_private_read(outcome: PrivateFileOutcome) -> (r: Result<bool, DiagnosticCode>)
    ensures
        r == match outcome {
            PrivateFileOutcome::Done => Ok::<bool, DiagnosticCode>(true),
            PrivateFileOutcome::NotFound => Ok(false),
            PrivateFileOutcome::InvalidTarget => Err(DiagnosticCode::PrivateStateInvalid),
            PrivateFileOutcome::Failed => Err(DiagnosticCode::PrivateStateIo),
        },
{
    match outcome {
        PrivateFileOutcome::Done => Ok(true),
        PrivateFileOutcome::NotFound => Ok(false),
        PrivateFileOutcome::InvalidTarget => Err(DiagnosticCode::PrivateStateInvalid),
        PrivateFileOutcome::Failed => Err(DiagnosticCode::PrivateStateIo),
    }
}

/// Whether a private file was written.
pub fn check_private_write(outcome: PrivateFileOutcome) -> (r: Result<(), DiagnosticCode>)
    ensures
        r == match outcome {
            PrivateFileOutcome::Done => Ok::<(), DiagnosticCode>(()),
            PrivateFileOutcome::InvalidTarget => Err(DiagnosticCode::PrivateStateInvalid),
            _ => Err(DiagnosticCode::PrivateStateIo),
        },
{
    match outcome {
        PrivateFileOutcome::Done => Ok(()),
        PrivateFileOutcome::InvalidTarget => Err(DiagnosticCode::PrivateStateInvalid),
        _ => Err(DiagnosticCode::PrivateStateIo),
    }
}

/// The credential that was read: one that names a journal. `parsed` is nothing where
/// the file holds none.
pub fn accept_credential(parsed: Option<Credential>) -> (r: Result<Credential, DiagnosticCode>)
    ensures
        match r {
            Ok(credential) => parsed == Some(credential) && credential.instance_id@.len() > 0,
            Err(code) => code == DiagnosticCode::PrivateStateInvalid && (parsed is None
                || parsed->0.instance_id@.len() == 0),
        },
{
    match parsed {
        Some(credential) => {
            if chars_of(credential.instance_id.as_str()).len() == 0 {
                return Err(DiagnosticCode::PrivateStateInvalid);
            }
            Ok(credential)
        },
        None => Err(DiagnosticCode::PrivateStateInvalid),
    }
}

/// A credential that is installed is dialled with from then on, or not at all where it
/// takes the access away; the revision is the one that came with it.
pub proof fn lemma_installed_credential_is_used(
    o: OpenerView,
    mode: OpenerMode,
    credential: CredentialView,
    access_revision: u64,
)
    requires
        !o.retired,
    ensures
        ({
            let after = installed(o, mode, credential, access_revision);
            &&& after.credential == credential
            &&& after.access_revision == access_revision
            &&& may_dial(after) <==> mode == OpenerMode::Transport
            &&& !after.retired
            &&& after.incarnation != o.incarnation
        }),
        !may_dial(retirement(o)),
        retirement(o).credential == o.credential,
{
}

/// A dial is begun exactly where the journal may be dialled. One that was begun is used as
/// long as nothing changes, and counts as a new connection where no job brought it about.
pub proof fn lemma_dial_is_used(
    opener: PrivateLinkOpener,
    burst_is_active: bool,
    ticket: Option<DialTicket>,
    outcome: DialOutcome,
)
    requires
        call_ensures(PrivateLinkOpener::begin_dial, (&opener, burst_is_active), ticket),
        ticket is Some ==> call_ensures(
            PrivateLinkOpener::finish_dial,
            (&opener, ticket->0),
            outcome,
        ),
    ensures
        ticket is Some <==> !opener.retired && opener.mode == OpenerMode::Transport,
        ticket is Some ==> outcome == (DialOutcome::Accepted { reconnected: !burst_is_active }),
{
}

/// A request to the journal has all headers that came in, in their order, and then names
/// the third version of the protocol.
pub proof fn lemma_headers_are_passed_on(
    upstream: Vec<(String, String)>,
    r: Vec<(String, String)>,
)
    requires
        call_ensures(proxy_headers, (&upstream,), r),
    ensures
        r@.len() == upstream@.len() + 1,
        forall|i: int| 0 <= i < upstream@.len() ==> #[trigger] r@[i] == upstream@[i],
        r@.last().0@ == "x-solstone-protocol-version"@,
        r@.last().1@ == "3"@,
{
    assert forall|i: int| 0 <= i < upstream@.len() implies #[trigger] r@[i] == upstream@[i] by {
        assert(r@.drop_last()[i] == r@[i]);
    }
}

/// A link without white space that was pasted, with or without white space behind it, is
/// read back, as long as all of it is within the limit. What has white space in it, is
/// blank or too long is no link.
pub proof fn lemma_pasted_link_is_read_back(link: Seq<char>, after: Seq<char>)
    requires
        link.len() > 0,
        forall|i: int| 0 <= i < link.len() ==> !is_space(#[trigger] link[i]),
        forall|i: int| 0 <= i < after.len() ==> is_space(#[trigger] after[i]),
    ensures
        encode_utf8(link + after).len() <= 4096 ==> pair_link(encode_utf8(link + after)) == Some(
            link,
        ),
        encode_utf8(link + after).len() > 4096 ==> pair_link(encode_utf8(link + after)) is None,
{
    let text = link + after;
    encode_utf8_valid_utf8(text);
    encode_utf8_decode_utf8(text);
    let none = Seq::<char>::empty();
    crate::text::lemma_trim_takes_space_away(none, link, after);
    assert(none + link + after =~= text);
    assert(none + link =~= link);
}

/// What is read as a link holds no white space and is not empty.
pub proof fn lemma_link_has_no_space(bytes: Seq<u8>)
    requires
        pair_link(bytes) is Some,
    ensures
        pair_link(bytes)->0.len() > 0,
        forall|i: int| 0 <= i < pair_link(bytes)->0.len() ==> !is_space(#[trigger] pair_link(bytes)->0[i]),
        bytes.len() <= 4096,
{
    let link = pair_link(bytes)->0;
    assert forall|i: int| 0 <= i < link.len() implies !is_space(#[trigger] link[i]) by {
        assert(!has_space(link));
    }
}

/// A device is paired under its host name, where that is neither empty nor longer than a
/// name may be, and else under the name of the program and without a label.
pub proof fn lemma_device_is_named_after_host(
    platform: PlatformKind,
    hostname: Option<String>,
    r: PairingIdentity,
)
    requires
        call_ensures(pairing_ceremony_identity, (platform, hostname), r),
    ensures
        hostname is Some && 1 <= byte_len(hostname->0@) <= 253 ==> r.device_label@ == hostname->0@
            && r.client_label is Some && r.client_label->0@ == hostname->0@,
        hostname is None || byte_len(hostname->0@) == 0 || byte_len(hostname->0@) > 253
            ==> r.device_label@ == "tmux"@ && r.client_label is None,
        platform == PlatformKind::Linux ==> r.platform@ == "linux"@,
        platform == PlatformKind::Macos ==> r.platform@ == "macos"@,
{
}

/// A private file that is not there is no error when it is read, but one when it is
/// written; what is no regular file is always told from what failed.
pub proof fn lemma_private_file_outcomes(
    outcome: PrivateFileOutcome,
    read: Result<bool, DiagnosticCode>,
    written: Result<(), DiagnosticCode>,
)
    requires
        call_ensures(check_private_read, (outcome,), read),
        call_ensures(check_private_write, (outcome,), written),
    ensures
        read == Ok::<bool, DiagnosticCode>(true) <==> outcome == PrivateFileOutcome::Done,
        read == Ok::<bool, DiagnosticCode>(false) <==> outcome == PrivateFileOutcome::NotFound,
        read == Err::<bool, DiagnosticCode>(DiagnosticCode::PrivateStateInvalid) <==> outcome
            == PrivateFileOutcome::InvalidTarget,
        read == Err::<bool, DiagnosticCode>(DiagnosticCode::PrivateStateIo) <==> outcome
            == PrivateFileOutcome::Failed,
        written is Ok <==> outcome == PrivateFileOutcome::Done,
        written == Err::<(), DiagnosticCode>(DiagnosticCode::PrivateStateInvalid) <==> outcome
            == PrivateFileOutcome::InvalidTarget,
        written == Err::<(), DiagnosticCode>(DiagnosticCode::PrivateStateIo) <==> outcome
            == PrivateFileOutcome::NotFound || outcome == PrivateFileOutcome::Failed,
{
}

/// A credential that was read is taken as it is exactly where it names a journal.
pub proof fn lemma_credential_names_a_journal(
    parsed: Option<Credential>,
    r: Result<Credential, DiagnosticCode>,
)
    requires
        call_ensures(accept_credential, (parsed,), r),
    ensures
        r is Ok <==> parsed is Some && parsed->0.instance_id@.len() > 0,
        r is Ok ==> r->Ok_0 == parsed->0,
        r is Err ==> r->Err_0 == DiagnosticCode::PrivateStateInvalid,
{
}

} // verus!
