//! The settings that the observer runs with.

use vstd::prelude::*;
use vstd::string::*;
use vstd::utf8::*;

use crate::name::{
    chars_are_canonical, derivation, derive_component, is_canonical, DerivedName, NameError,
};
use crate::text::{
    all_digits, all_pieces, byte_len, byte_length, char_is_digit, char_is_lower, char_is_space,
    chars_of, concat, concat3, copy, debug_quoting, has_char, is_digit, is_lower, is_space, join,
    joined, lemma_pieces_are_read_back, lossy_decoding, lossy_text, lower_case, only_digits,
    opt_text, quoted, split_on, texts, trim, trimmed, unicode_lowercase,
};

verus! {

pub const CONFIG_FILENAME: &'static str = "config.json";

pub const DEFAULT_CAPTURE_INTERVAL_SECONDS: u64 = 5;

pub const DEFAULT_SEGMENT_INTERVAL_SECONDS: u64 = 300;

pub const DEFAULT_CACHE_RETENTION_DAYS: i64 = 7;

pub const DEFAULT_SOURCE: &'static str = "tmux";

pub const MAX_SOURCE_BYTES: usize = 64;

/// The settings, checked. The intervals are in seconds.
#[derive(Clone, Debug, PartialEq, Eq)]
pub struct RuntimeConfig {
    pub stream: DerivedName,
    pub capture_interval: u64,
    pub segment_interval: u64,
    pub cache_retention_days: i64,
    pub status_indicator: bool,
    pub source: String,
}

/// A field of the settings file that may hold any JSON.
#[derive(Debug)]
pub enum OptionalJson {
    Absent,
    Text(String),
    /// Anything that is no text.
    Other,
}

impl OptionalJson {
    pub fn is_absent(&self) -> (r: bool)
        ensures
            r == (*self is Absent),
    {
        match self {
            OptionalJson::Absent => true,
            _ => false,
        }
    }
}

/// The settings file.
#[derive(Debug)]
pub struct ConfigFile {
    pub stream: Option<String>,
    pub capture_interval: u64,
    pub segment_interval: u64,
    pub cache_retention_days: i64,
    pub status_indicator: bool,
    pub source: OptionalJson,
}

impl Default for ConfigFile {
    fn default() -> (r: Self)
        ensures
            r.stream is None,
            r.capture_interval == DEFAULT_CAPTURE_INTERVAL_SECONDS,
            r.segment_interval == DEFAULT_SEGMENT_INTERVAL_SECONDS,
            r.cache_retention_days == DEFAULT_CACHE_RETENTION_DAYS,
            r.status_indicator,
            r.source is Absent,
    {
        ConfigFile {
            stream: None,
            capture_interval: DEFAULT_CAPTURE_INTERVAL_SECONDS,
            segment_interval: DEFAULT_SEGMENT_INTERVAL_SECONDS,
            cache_retention_days: DEFAULT_CACHE_RETENTION_DAYS,
            status_indicator: true,
            source: OptionalJson::Absent,
        }
    }
}

/// Why there are no settings. Paths are bytes; what the system said is text.
#[allow(inconsistent_fields)]
#[derive(Debug)]
pub enum ConfigError {
    InvalidTarget(Vec<u8>),
    InvalidConfig { path: Vec<u8>, detail: String },
    InvalidStream { identity: String, source: NameError },
    InvalidInterval { field: &'static str },
    InvalidSource,
    InvalidHostname(String),
    Io { operation: &'static str, path: Vec<u8>, source: String },
}

impl ConfigError {
    pub open spec fn text(self) -> Seq<char> {
        match self {
            ConfigError::InvalidTarget(path) => "native config "@ + lossy_decoding(path@)
                + " must be a regular file, not a symlink or special target"@,
            ConfigError::InvalidConfig { path, detail } => "native config "@ + lossy_decoding(path@)
                + " is invalid: "@ + detail@,
            ConfigError::InvalidStream { identity, source } => "native stream name "@
                + debug_quoting(identity@) + " is invalid: "@ + source.text()
                + "; update stream in config.json"@,
            ConfigError::InvalidInterval { field } => "native config "@ + field@
                + " must be greater than zero seconds"@,
            ConfigError::InvalidSource =>
                "native config source must be a nonempty string matching [a-z0-9][a-z0-9_-]* and at most 64 bytes; update source in config.json"@,
            ConfigError::InvalidHostname(detail) =>
                "could not derive the default native stream from this hostname: "@ + detail@
                + "; set stream in config.json"@,
            ConfigError::Io { operation, path, source } => operation@ + " failed for "@
                + lossy_decoding(path@) + ": "@ + source@,
        }
    }

    /// The error in words.
    pub fn message(&self) -> (r: String)
        ensures
            r@ == self.text(),
    {
        match self {
            ConfigError::InvalidTarget(path) => concat3(
                "native config ",
                lossy_text(path.as_slice()).as_str(),
                " must be a regular file, not a symlink or special target",
            ),
            ConfigError::InvalidConfig { path, detail } => {
                let mut out = concat3(
                    "native config ",
                    lossy_text(path.as_slice()).as_str(),
                    " is invalid: ",
                );
                out.append(detail.as_str());
                out
            },
            ConfigError::InvalidStream { identity, source } => {
                let mut out = concat3(
                    "native stream name ",
                    quoted(identity.as_str()).as_str(),
                    " is invalid: ",
                );
                out.append(source.message().as_str());
                out.append("; update stream in config.json");
                out
            },
            ConfigError::InvalidInterval { field } => concat3(
                "native config ",
                field,
                " must be greater than zero seconds",
            ),
            ConfigError::InvalidSource => copy(
                "native config source must be a nonempty string matching [a-z0-9][a-z0-9_-]* and at most 64 bytes; update source in config.json",
            ),
            ConfigError::InvalidHostname(detail) => concat3(
                "could not derive the default native stream from this hostname: ",
                detail.as_str(),
                "; set stream in config.json",
            ),
            ConfigError::Io { operation, path, source } => {
                let mut out = concat3(
                    operation,
                    " failed for ",
                    lossy_text(path.as_slice()).as_str(),
                );
                out.append(": ");
                out.append(source.as_str());
                out
            },
        }
    }
}

// ---------------------------------------------------------------------------
// The default stream
// ---------------------------------------------------------------------------

/// The pieces that are not empty, in order.
pub open spec fn nonempty(pieces: Seq<Seq<char>>) -> Seq<Seq<char>>
    decreases pieces.len(),
{
    if pieces.len() == 0 {
        Seq::empty()
    } else if pieces.last().len() == 0 {
        nonempty(pieces.drop_last())
    } else {
        nonempty(pieces.drop_last()).push(pieces.last())
    }
}

pub open spec fn all_numeric(pieces: Seq<Seq<char>>) -> bool {
    forall|i: int| 0 <= i < pieces.len() ==> all_digits(#[trigger] pieces[i])
}

/// What a host is called for short: its first label, or all of them with hyphens
/// where they are all numbers.
pub open spec fn short_host(hostname: Seq<char>) -> Seq<char> {
    let labels = nonempty(split_on(hostname, '.'));
    if labels.len() > 0 && all_numeric(labels) {
        join(labels, "-"@)
    } else {
        split_on(hostname, '.')[0]
    }
}

/// A character that cannot stand in a stream's name.
pub open spec fn is_gap(c: char) -> bool {
    is_space(c) || c == '/' || c == '\\'
}

/// `s` with one hyphen for each run of white space and slashes.
pub open spec fn hyphenated(s: Seq<char>) -> Seq<char>
    decreases s.len(),
{
    if s.len() == 0 {
        Seq::empty()
    } else {
        let before = hyphenated(s.drop_last());
        if !is_gap(s.last()) {
            before.push(s.last())
        } else if s.len() >= 2 && is_gap(s[s.len() - 2]) {
            before
        } else {
            before.push('-')
        }
    }
}

/// Two dots stand side by side.
pub open spec fn has_double_dot(s: Seq<char>) -> bool {
    exists|i: int| 0 <= i < s.len() - 1 && #[trigger] s[i] == '.' && s[i + 1] == '.'
}

/// The stream's name for a host's short name in small letters.
pub open spec fn stream_name(lowered: Seq<char>) -> Option<Seq<char>> {
    let name = hyphenated(lowered);
    let stream = name + ".tmux"@;
    if name.len() > 0 && !has_double_dot(stream) && is_canonical(stream) {
        Some(stream)
    } else {
        None
    }
}

/// The default stream of a host.
pub open spec fn host_stream(hostname: Seq<char>) -> Option<Seq<char>> {
    stream_name(unicode_lowercase(trim(short_host(trim(hostname)))))
}

/// What is said of a host whose name makes no stream.
pub open spec fn host_complaint(hostname: Seq<char>) -> Seq<char> {
    "hostname "@ + debug_quoting(trim(hostname)) + " cannot form a native stream name"@
}

fn keep_nonempty(pieces: &Vec<String>) -> (r: Vec<String>)
    ensures
        texts(r@) == nonempty(texts(pieces@)),
{
    let ghost all = texts(pieces@);
    let mut out: Vec<String> = Vec::new();
    let mut i: usize = 0;
    proof {
        assert(all.take(0) =~= Seq::<Seq<char>>::empty());
        assert(texts(out@) =~= Seq::<Seq<char>>::empty());
    }
    while i < pieces.len()
        invariant
            i <= pieces@.len(),
            all == texts(pieces@),
            texts(out@) == nonempty(all.take(i as int)),
        decreases pieces@.len() - i,
    {
        proof {
            assert(all.take(i + 1).drop_last() =~= all.take(i as int));
            assert(all.take(i + 1).last() == pieces@[i as int]@);
        }
        if chars_of(pieces[i].as_str()).len() > 0 {
            let ghost before = texts(out@);
            out.push(pieces[i].clone());
            proof {
                assert(texts(out@) =~= before.push(pieces@[i as int]@));
            }
        }
        i = i + 1;
    }
    proof {
        assert(all.take(pieces@.len() as int) =~= all);
    }
    out
}

fn pieces_are_numeric(pieces: &Vec<String>) -> (r: bool)
    ensures
        r == all_numeric(texts(pieces@)),
{
    let ghost all = texts(pieces@);
    let mut i: usize = 0;
    while i < pieces.len()
        invariant
            i <= pieces@.len(),
            all == texts(pieces@),
            forall|j: int| 0 <= j < i ==> all_digits(#[trigger] all[j]),
        decreases pieces@.len() - i,
    {
        if !only_digits(pieces[i].as_str()) {
            proof {
                assert(!all_digits(all[i as int]));
            }
            return false;
        }
        i = i + 1;
    }
    true
}

/// What a host is called for short.
pub fn short_hostname(hostname: &str) -> (r: String)
    ensures
        r@ == short_host(hostname@),
{
    let pieces = all_pieces(hostname, '.');
    let labels = keep_nonempty(&pieces);
    proof {
        assert(texts(labels@).len() == labels@.len());
        assert(texts(pieces@)[0] == pieces@[0]@);
    }
    if labels.len() > 0 && pieces_are_numeric(&labels) {
        joined(&labels, "-")
    } else {
        pieces[0].clone()
    }
}

fn char_is_gap(c: char) -> (r: bool)
    ensures
        r == is_gap(c),
{
    char_is_space(c) || c == '/' || c == '\\'
}

fn hyphenate(s: &str) -> (r: String)
    ensures
        r@ == hyphenated(s@),
{
    let chars = chars_of(s);
    let mut out: String = String::new();
    let mut replaced = false;
    let mut i: usize = 0;
    proof {
        assert(s@.take(0) =~= Seq::<char>::empty());
        assert(out@ =~= Seq::<char>::empty());
    }
    while i < chars.len()
        invariant
            i <= chars@.len(),
            chars@ == s@,
            out@ == hyphenated(s@.take(i as int)),
            replaced == (i > 0 && is_gap(s@[i - 1])),
        decreases chars@.len() - i,
    {
        let c = chars[i];
        proof {
            assert(s@.take(i + 1).drop_last() =~= s@.take(i as int));
            assert(s@.take(i + 1).last() == c);
            if i > 0 {
                assert(s@.take(i + 1)[i - 1] == s@[i - 1]);
            }
        }
        if char_is_gap(c) {
            if !replaced {
                out.push('-');
                replaced = true;
            }
        } else {
            out.push(c);
            replaced = false;
        }
        i = i + 1;
    }
    proof {
        assert(s@.take(s@.len() as int) =~= s@);
    }
    out
}

fn double_dot(chars: &Vec<char>) -> (r: bool)
    ensures
        r == has_double_dot(chars@),
{
    let mut i: usize = 1;
    while i < chars.len()
        invariant
            1 <= i,
            forall|j: int| 0 <= j < i - 1 && j < chars@.len() - 1 ==> !(#[trigger] chars@[j] == '.'
                && chars@[j + 1] == '.'),
        decreases chars@.len() - i,
    {
        if chars[i - 1] == '.' && chars[i] == '.' {
            proof {
                assert(chars@[i - 1] == '.');
            }
            return true;
        }
        i = i + 1;
    }
    false
}

/// The stream's name for a host's short name in small letters.
pub fn stream_for(lowered: &str) -> (r: Option<String>)
    ensures
        opt_text(r) == stream_name(lowered@),
{
    let name = hyphenate(lowered);
    let stream = concat(name.as_str(), ".tmux");
    let chars = chars_of(stream.as_str());
    if chars_of(name.as_str()).len() > 0 && !double_dot(&chars) && chars_are_canonical(&chars) {
        Some(stream)
    } else {
        None
    }
}

/// The default stream of a host.
pub fn default_stream(hostname: &str) -> (r: Result<String, ConfigError>)
    ensures
        match r {
            Ok(stream) => host_stream(hostname@) == Some(stream@),
            Err(error) => host_stream(hostname@) is None
                && (error matches ConfigError::InvalidHostname(detail) && detail@ == host_complaint(
                hostname@,
            )),
        },
{
    let host = trimmed(hostname);
    let base = trimmed(short_hostname(host.as_str()).as_str());
    let lowered = lower_case(base.as_str());
    match stream_for(lowered.as_str()) {
        Some(stream) => Ok(stream),
        None => Err(
            ConfigError::InvalidHostname(
                concat3(
                    "hostname ",
                    quoted(host.as_str()).as_str(),
                    " cannot form a native stream name",
                ),
            ),
        ),
    }
}

/// A default stream is a canonical name: it is its own path component wherever it is
/// not too long.
pub proof fn lemma_default_stream_is_canonical(lowered: Seq<char>)
    requires
        stream_name(lowered) is Some,
    ensures
        is_canonical(stream_name(lowered)->0),
        stream_name(lowered)->0.len() <= crate::name::MAX_COMPONENT_BYTES
            ==> crate::name::is_valid_component(stream_name(lowered)->0),
{
    reveal_strlit(".tmux");
    crate::name::lemma_valid_component(stream_name(lowered)->0);
}

// ---------------------------------------------------------------------------
// The settings
// ---------------------------------------------------------------------------

/// A source: small letters, digits and, but for the first character, `_` and `-`.
pub open spec fn is_source(s: Seq<char>) -> bool {
    &&& 0 < s.len()
    &&& byte_len(s) <= MAX_SOURCE_BYTES
    &&& forall|i: int|
        0 <= i < s.len() ==> {
            let c = #[trigger] s[i];
            is_lower(c) || is_digit(c) || (i > 0 && (c == '_' || c == '-'))
        }
}

pub fn is_configured_source(source: &str) -> (r: bool)
    ensures
        r == is_source(source@),
{
    let chars = chars_of(source);
    if chars.len() == 0 || byte_length(source) > MAX_SOURCE_BYTES {
        return false;
    }
    let mut i: usize = 0;
    while i < chars.len()
        invariant
            i <= chars@.len(),
            chars@ == source@,
            forall|j: int|
                0 <= j < i ==> {
                    let c = #[trigger] source@[j];
                    is_lower(c) || is_digit(c) || (j > 0 && (c == '_' || c == '-'))
                },
        decreases chars@.len() - i,
    {
        let c = chars[i];
        if !(char_is_lower(c) || char_is_digit(c) || (i > 0 && (c == '_' || c == '-'))) {
            return false;
        }
        i = i + 1;
    }
    true
}

/// The source that the settings name, or the default one.
pub open spec fn source_of(value: OptionalJson) -> Option<Seq<char>> {
    match value {
        OptionalJson::Absent => Some(DEFAULT_SOURCE@),
        OptionalJson::Text(source) => if is_source(source@) {
            Some(source@)
        } else {
            None
        },
        OptionalJson::Other => None,
    }
}

/// The stream that the settings name, or the host's.
pub open spec fn stream_identity(file: ConfigFile, hostname: Seq<char>) -> Option<Seq<char>> {
    match file.stream {
        Some(stream) => Some(stream@),
        None => host_stream(hostname),
    }
}

/// The error is the first that stands in the way of the settings.
pub open spec fn is_first_error(file: ConfigFile, hostname: Seq<char>, error: ConfigError) -> bool {
    let identity = stream_identity(file, hostname);
    if file.capture_interval == 0 {
        error matches ConfigError::InvalidInterval { field } && field@ == "capture_interval"@
    } else if file.segment_interval == 0 {
        error matches ConfigError::InvalidInterval { field } && field@ == "segment_interval"@
    } else if identity is None {
        error matches ConfigError::InvalidHostname(detail) && detail@ == host_complaint(hostname)
    } else if derivation(identity->0) is Err {
        error matches ConfigError::InvalidStream { identity: named, source } && named@
            == identity->0 && derivation(identity->0) == Err::<Seq<char>, NameError>(source)
    } else {
        source_of(file.source) is None && error is InvalidSource
    }
}

/// The settings are those of the file.
pub open spec fn is_config_of(file: ConfigFile, hostname: Seq<char>, config: RuntimeConfig) -> bool {
    let identity = stream_identity(file, hostname);
    &&& file.capture_interval > 0
    &&& file.segment_interval > 0
    &&& identity is Some
    &&& derivation(identity->0) == Ok::<Seq<char>, NameError>(config.stream@)
    &&& source_of(file.source) == Some(config.source@)
    &&& config.capture_interval == file.capture_interval
    &&& config.segment_interval == file.segment_interval
    &&& config.cache_retention_days == file.cache_retention_days
    &&& config.status_indicator == file.status_indicator
}

fn configured_source(value: &OptionalJson) -> (r: Option<String>)
    ensures
        opt_text(r) == source_of(*value),
{
    match value {
        OptionalJson::Absent => Some(copy(DEFAULT_SOURCE)),
        OptionalJson::Text(source) => if is_configured_source(source.as_str()) {
            Some(source.clone())
        } else {
            None
        },
        OptionalJson::Other => None,
    }
}

/// What was found where the settings file is expected.
#[derive(Debug)]
pub enum ConfigTarget {
    /// A symbolic link, or no file at all.
    NotRegular,
    NotFound,
    /// It could not be looked at.
    InspectFailed(String),
    PermissionsFailed(String),
    ReadFailed(String),
    /// It was read and is no settings file.
    Malformed(String),
    Read(ConfigFile),
}

/// The settings, or the error, are those of what was found at `path`.
pub open spec fn is_load_of(
    path: Vec<u8>,
    target: ConfigTarget,
    hostname: Seq<char>,
    r: Result<RuntimeConfig, ConfigError>,
) -> bool {
    match target {
        ConfigTarget::NotRegular => r == Err::<RuntimeConfig, ConfigError>(
            ConfigError::InvalidTarget(path),
        ),
        ConfigTarget::InspectFailed(source) => r is Err && (r->Err_0 matches ConfigError::Io {
            operation,
            path: at,
            source: said,
        } && operation@ == "inspect native config"@ && at == path && said == source),
        ConfigTarget::PermissionsFailed(source) => r is Err && (
        r->Err_0 matches ConfigError::Io { operation, path: at, source: said } && operation@
            == "set native config permissions"@ && at == path && said == source),
        ConfigTarget::ReadFailed(source) => r is Err && (r->Err_0 matches ConfigError::Io {
            operation,
            path: at,
            source: said,
        } && operation@ == "read native config"@ && at == path && said == source),
        ConfigTarget::Malformed(detail) => r == Err::<RuntimeConfig, ConfigError>(
            ConfigError::InvalidConfig { path, detail },
        ),
        ConfigTarget::Read(file) => match r {
            Ok(config) => is_config_of(file, hostname, config),
            Err(error) => is_first_error(file, hostname, error),
        },
        ConfigTarget::NotFound => exists|file: ConfigFile|
            #[trigger] is_default_file(file) && match r {
                Ok(config) => is_config_of(file, hostname, config),
                Err(error) => is_first_error(file, hostname, error),
            },
    }
}

impl RuntimeConfig {
    /// The settings that a file stands for on a host.
    pub fn from_config_file(file: &ConfigFile, hostname: &str) -> (r: Result<Self, ConfigError>)
        ensures
            match r {
                Ok(config) => is_config_of(*file, hostname@, config),
                Err(error) => is_first_error(*file, hostname@, error),
            },
    {
        if file.capture_interval == 0 {
            return Err(ConfigError::InvalidInterval { field: "capture_interval" });
        }
        if file.segment_interval == 0 {
            return Err(ConfigError::InvalidInterval { field: "segment_interval" });
        }
        let identity = match &file.stream {
            Some(stream) => stream.clone(),
            None => match default_stream(hostname) {
                Ok(stream) => stream,
                Err(error) => return Err(error),
            },
        };
        let stream = match derive_component(identity.as_str()) {
            Ok(stream) => stream,
            Err(source) => return Err(ConfigError::InvalidStream { identity, source }),
        };
        let source = match configured_source(&file.source) {
            Some(source) => source,
            None => return Err(ConfigError::InvalidSource),
        };
        Ok(
            RuntimeConfig {
                stream,
                capture_interval: file.capture_interval,
                segment_interval: file.segment_interval,
                cache_retention_days: file.cache_retention_days,
                status_indicator: file.status_indicator,
                source,
            },
        )
    }

    /// The settings from what was found at `path`. A file that is not there stands for
    /// the defaults.
    pub fn load(path: Vec<u8>, target: ConfigTarget, hostname: &str) -> (r: Result<
        Self,
        ConfigError,
    >)
        ensures
            is_load_of(path, target, hostname@, r),
    {
        let file = match target {
            ConfigTarget::NotRegular => return Err(ConfigError::InvalidTarget(path)),
            ConfigTarget::InspectFailed(source) => return Err(
                ConfigError::Io { operation: "inspect native config", path, source },
            ),
            ConfigTarget::PermissionsFailed(source) => return Err(
                ConfigError::Io { operation: "set native config permissions", path, source },
            ),
            ConfigTarget::ReadFailed(source) => return Err(
                ConfigError::Io { operation: "read native config", path, source },
            ),
            ConfigTarget::Malformed(detail) => return Err(
                ConfigError::InvalidConfig { path, detail },
            ),
            ConfigTarget::Read(file) => file,
            ConfigTarget::NotFound => {
                let file = ConfigFile::default();
                proof {
                    assert(is_default_file(file));
                }
                file
            },
        };
        RuntimeConfig::from_config_file(&file, hostname)
    }
}

/// The settings file that holds nothing.
pub open spec fn is_default_file(file: ConfigFile) -> bool {
    &&& file.stream is None
    &&& file.capture_interval == DEFAULT_CAPTURE_INTERVAL_SECONDS
    &&& file.segment_interval == DEFAULT_SEGMENT_INTERVAL_SECONDS
    &&& file.cache_retention_days == DEFAULT_CACHE_RETENTION_DAYS
    &&& file.status_indicator
    &&& file.source is Absent
}

/// Settings never ask for an interval of zero, and their stream is one path component.
pub proof fn lemma_config_is_usable(file: ConfigFile, hostname: Seq<char>, config: RuntimeConfig)
    requires
        is_config_of(file, hostname, config),
    ensures
        config.capture_interval > 0,
        config.segment_interval > 0,
        crate::name::is_component(config.stream@),
{
    crate::name::lemma_derived_is_component(stream_identity(file, hostname)->0);
}

proof fn lemma_nonempty_keeps(pieces: Seq<Seq<char>>, k: int)
    requires
        0 <= k < pieces.len(),
        pieces[k].len() > 0,
    ensures
        nonempty(pieces).contains(pieces[k]),
    decreases pieces.len(),
{
    let before = pieces.drop_last();
    let all = nonempty(pieces);
    if k < before.len() {
        lemma_nonempty_keeps(before, k);
        let kept = nonempty(before);
        let i = choose|i: int| 0 <= i < kept.len() && kept[i] == pieces[k];
        assert(all[i] == pieces[k]);
    } else {
        assert(all[all.len() - 1] == pieces[k]);
    }
}

proof fn lemma_nonempty_of_full(pieces: Seq<Seq<char>>)
    requires
        forall|i: int| 0 <= i < pieces.len() ==> (#[trigger] pieces[i]).len() > 0,
    ensures
        nonempty(pieces) == pieces,
    decreases pieces.len(),
{
    if pieces.len() > 0 {
        assert(pieces[pieces.len() - 1].len() > 0);
        lemma_nonempty_of_full(pieces.drop_last());
        assert(pieces.drop_last().push(pieces.last()) =~= pieces);
    } else {
        assert(nonempty(pieces) =~= pieces);
    }
}

/// A host is called after the first label of its name, unless all labels are numbers, as
/// in an address: then after all of them, with hyphens.
pub proof fn lemma_short_host_name(labels: Seq<Seq<char>>)
    requires
        labels.len() > 0,
        forall|i: int| 0 <= i < labels.len() ==> !has_char(#[trigger] labels[i], '.'),
        forall|i: int| 0 <= i < labels.len() ==> (#[trigger] labels[i]).len() > 0,
    ensures
        (exists|i: int| 0 <= i < labels.len() && !all_digits(#[trigger] labels[i])) ==> short_host(
            join(labels, seq!['.']),
        ) == labels[0],
        (forall|i: int| 0 <= i < labels.len() ==> all_digits(#[trigger] labels[i])) ==> short_host(
            join(labels, seq!['.']),
        ) == join(labels, "-"@),
{
    lemma_pieces_are_read_back(labels, '.');
    lemma_nonempty_of_full(labels);
}

proof fn lemma_hyphenated_joined(a: Seq<char>, b: Seq<char>)
    requires
        a.len() == 0 || b.len() == 0 || !is_gap(a.last()) || !is_gap(b[0]),
    ensures
        hyphenated(a + b) == hyphenated(a) + hyphenated(b),
    decreases b.len(),
{
    let s = a + b;
    if b.len() == 0 {
        assert(s =~= a);
        assert(hyphenated(b) =~= Seq::<char>::empty());
        assert(hyphenated(a) + hyphenated(b) =~= hyphenated(a));
    } else {
        let shorter = b.drop_last();
        assert(s.drop_last() =~= a + shorter);
        assert(s.last() == b.last());
        if shorter.len() > 0 {
            assert(shorter[0] == b[0]);
        }
        lemma_hyphenated_joined(a, shorter);
        let front = hyphenated(a) + hyphenated(shorter);
        if b.len() >= 2 {
            assert(s[s.len() - 2] == b[b.len() - 2]);
        } else if a.len() > 0 {
            assert(s[s.len() - 2] == a.last());
        }
        assert(front.push(b.last()) =~= hyphenated(a) + hyphenated(shorter).push(b.last()));
        assert(front.push('-') =~= hyphenated(a) + hyphenated(shorter).push('-'));
    }
}

proof fn lemma_hyphen_for_gaps(gaps: Seq<char>)
    requires
        gaps.len() > 0,
        forall|i: int| 0 <= i < gaps.len() ==> is_gap(#[trigger] gaps[i]),
    ensures
        hyphenated(gaps) == seq!['-'],
    decreases gaps.len(),
{
    let before = gaps.drop_last();
    assert(is_gap(gaps[gaps.len() - 1]));
    if gaps.len() > 1 {
        assert(is_gap(gaps[gaps.len() - 2]));
        lemma_hyphen_for_gaps(before);
    } else {
        assert(before =~= Seq::<char>::empty());
        assert(hyphenated(before) =~= Seq::<char>::empty());
        assert(hyphenated(gaps) =~= seq!['-']);
    }
}

proof fn lemma_no_gap_is_kept(s: Seq<char>)
    requires
        forall|i: int| 0 <= i < s.len() ==> !is_gap(#[trigger] s[i]),
    ensures
        hyphenated(s) == s,
    decreases s.len(),
{
    if s.len() > 0 {
        assert(!is_gap(s[s.len() - 1]));
        lemma_no_gap_is_kept(s.drop_last());
        assert(s.drop_last().push(s.last()) =~= s);
    } else {
        assert(hyphenated(s) =~= s);
    }
}

/// A run of white space and slashes becomes one hyphen, and nothing else changes.
pub proof fn lemma_gaps_become_one_hyphen(before: Seq<char>, gaps: Seq<char>, after: Seq<char>)
    requires
        forall|i: int| 0 <= i < before.len() ==> !is_gap(#[trigger] before[i]),
        gaps.len() > 0,
        forall|i: int|
            0 <= i < gaps.len() ==> is_space(#[trigger] gaps[i]) || gaps[i] == '/' || gaps[i]
                == '\\',
        after.len() == 0 || !is_gap(after[0]),
    ensures
        hyphenated(before) == before,
        hyphenated(before + gaps + after) == before + seq!['-'] + hyphenated(after),
{
    assert forall|i: int| 0 <= i < gaps.len() implies is_gap(#[trigger] gaps[i]) by {
        assert(is_space(gaps[i]) || gaps[i] == '/' || gaps[i] == '\\');
    }
    lemma_no_gap_is_kept(before);
    lemma_hyphen_for_gaps(gaps);
    lemma_hyphenated_joined(before, gaps);
    let front = before + gaps;
    lemma_hyphenated_joined(front, after);
}

/// A plain name of small letters, digits, underscores and hyphens makes a stream of its
/// own: the name with the program's suffix.
pub proof fn lemma_plain_host_has_a_stream(name: Seq<char>)
    requires
        name.len() > 0,
        is_lower(name[0]) || is_digit(name[0]),
        forall|i: int|
            0 <= i < name.len() ==> is_lower(#[trigger] name[i]) || is_digit(name[i]) || name[i]
                == '_' || name[i] == '-',
    ensures
        stream_name(name) == Some(name + ".tmux"@),
{
    reveal_strlit(".tmux");
    let stream = name + ".tmux"@;
    assert forall|i: int| 0 <= i < name.len() implies !is_gap(#[trigger] name[i]) by {
        assert(is_lower(name[i]) || is_digit(name[i]) || name[i] == '_' || name[i] == '-');
    }
    lemma_no_gap_is_kept(name);
    assert forall|i: int| 0 <= i < stream.len() implies ({
        let c = #[trigger] stream[i];
        is_lower(c) || is_digit(c) || (i > 0 && (c == '.' || c == '_' || c == '-'))
    }) by {
        if i < name.len() {
            assert(stream[i] == name[i]);
        } else {
            assert(stream[i] == ".tmux"@[i - name.len()]);
        }
    }
    assert(!has_double_dot(stream)) by {
        assert forall|i: int| 0 <= i < stream.len() - 1 implies !(#[trigger] stream[i] == '.'
            && stream[i + 1] == '.') by {
            if i < name.len() {
                assert(stream[i] == name[i]);
                assert(stream[i] != '.');
            } else {
                assert(stream[i + 1] == ".tmux"@[i + 1 - name.len()]);
            }
        }
    }
}

/// Every stream of a host ends with the program's suffix, and hosts whose names differ in
/// their short form have different streams.
pub proof fn lemma_stream_has_the_suffix(a: Seq<char>, b: Seq<char>)
    requires
        stream_name(a) is Some,
        stream_name(b) is Some,
    ensures
        stream_name(a)->0.len() > 5,
        stream_name(a)->0.skip(stream_name(a)->0.len() - 5) == ".tmux"@,
        hyphenated(a) != hyphenated(b) ==> stream_name(a) != stream_name(b),
{
    reveal_strlit(".tmux");
    let x = stream_name(a)->0;
    let y = stream_name(b)->0;
    assert(x.skip(x.len() - 5) =~= ".tmux"@);
    assert(x.take(x.len() - 5) =~= hyphenated(a));
    assert(y.take(y.len() - 5) =~= hyphenated(b));
}

/// Settings can be run with exactly where both intervals are above zero, the stream has a
/// name that can stand in a path, and the source is one; they then say what the file says.
/// Else the first of these that fails is named.
pub proof fn lemma_settings_of_a_file(
    file: ConfigFile,
    hostname: &str,
    r: Result<RuntimeConfig, ConfigError>,
)
    requires
        call_ensures(RuntimeConfig::from_config_file, (&file, hostname), r),
    ensures
        ({
            let identity = match file.stream {
                Some(stream) => Some(stream@),
                None => host_stream(hostname@),
            };
            let source_fits = match file.source {
                OptionalJson::Absent => true,
                OptionalJson::Text(source) => is_source(source@),
                OptionalJson::Other => false,
            };
            &&& r is Ok <==> file.capture_interval > 0 && file.segment_interval > 0 && identity
                is Some && derivation(identity->0) is Ok && source_fits
            &&& r is Ok ==> {
                let config = r->Ok_0;
                &&& config.capture_interval == file.capture_interval
                &&& config.segment_interval == file.segment_interval
                &&& config.cache_retention_days == file.cache_retention_days
                &&& config.status_indicator == file.status_indicator
                &&& config.stream@ == derivation(identity->0)->Ok_0
                &&& file.source is Absent ==> config.source@ == "tmux"@
                &&& file.source matches OptionalJson::Text(source) ==> config.source@ == source@
            }
            &&& file.capture_interval == 0 ==> r is Err && r->Err_0 is InvalidInterval
                && r->Err_0->field@ == "capture_interval"@
            &&& file.capture_interval > 0 && file.segment_interval == 0 ==> r is Err && r->Err_0
                is InvalidInterval && r->Err_0->field@ == "segment_interval"@
            &&& file.capture_interval > 0 && file.segment_interval > 0 && identity is None ==> r
                is Err && r->Err_0 is InvalidHostname && r->Err_0->InvalidHostname_0@ == "hostname "@
                + debug_quoting(trim(hostname@)) + " cannot form a native stream name"@
            &&& file.capture_interval > 0 && file.segment_interval > 0 && identity is Some
                && derivation(identity->0) is Err ==> r is Err && r->Err_0 is InvalidStream
            &&& file.capture_interval > 0 && file.segment_interval > 0 && identity is Some
                && derivation(identity->0) is Ok && !source_fits ==> r is Err && r->Err_0
                is InvalidSource
        }),
{
}

/// Without a settings file a capture is taken every five seconds, a segment is five
/// minutes long, captures are kept for a week, and the host's stream is used.
pub proof fn lemma_settings_without_a_file(
    path: Vec<u8>,
    hostname: &str,
    r: Result<RuntimeConfig, ConfigError>,
)
    requires
        call_ensures(RuntimeConfig::load, (path, ConfigTarget::NotFound, hostname), r),
    ensures
        r is Ok <==> host_stream(hostname@) is Some && derivation(host_stream(hostname@)->0) is Ok,
        r is Ok ==> {
            let config = r->Ok_0;
            &&& config.capture_interval == 5
            &&& config.segment_interval == 300
            &&& config.cache_retention_days == 7
            &&& config.status_indicator
            &&& config.source@ == "tmux"@
            &&& config.stream@ == derivation(host_stream(hostname@)->0)->Ok_0
        },
{
}

/// A settings file that cannot be used is never taken for one that is not there.
pub proof fn lemma_unusable_file_is_an_error(
    path: Vec<u8>,
    target: ConfigTarget,
    hostname: &str,
    r: Result<RuntimeConfig, ConfigError>,
)
    requires
        call_ensures(RuntimeConfig::load, (path, target, hostname), r),
        !(target is NotFound),
        !(target is Read),
    ensures
        r is Err,
        target is NotRegular ==> r->Err_0 is InvalidTarget,
        target is Malformed ==> r->Err_0 is InvalidConfig,
        target is InspectFailed || target is PermissionsFailed || target is ReadFailed ==> r->Err_0
            is Io && r->Err_0->Io_path@ == path@,
        target matches ConfigTarget::InspectFailed(said) ==> r->Err_0->Io_source@ == said@
            && r->Err_0->operation@ == "inspect native config"@,
        target matches ConfigTarget::PermissionsFailed(said) ==> r->Err_0->Io_source@ == said@
            && r->Err_0->operation@ == "set native config permissions"@,
        target matches ConfigTarget::ReadFailed(said) ==> r->Err_0->Io_source@ == said@
            && r->Err_0->operation@ == "read native config"@,
        target matches ConfigTarget::Malformed(said) ==> r->Err_0->detail@ == said@
            && r->Err_0->InvalidConfig_path@ == path@,
{
}

/// A source is a word of small letters, digits, underscores and hyphens that begins with
/// one of the first two and is not too long; the default one is such a word.
pub proof fn lemma_which_words_are_sources(word: Seq<char>)
    ensures
        is_source("tmux"@),
        is_source(word) ==> word.len() > 0 && (is_lower(word[0]) || is_digit(word[0])) && byte_len(
            word,
        ) <= 64,
        is_source(word) ==> forall|i: int|
            0 <= i < word.len() ==> is_lower(#[trigger] word[i]) || is_digit(word[i]) || word[i]
                == '_' || word[i] == '-',
        word.len() > 0 && byte_len(word) <= 64 && (is_lower(word[0]) || is_digit(word[0])) && (
        forall|i: int|
            0 <= i < word.len() ==> is_lower(#[trigger] word[i]) || is_digit(word[i]) || word[i]
                == '_' || word[i] == '-') ==> is_source(word),
{
    reveal_strlit("tmux");
    let s = "tmux"@;
    assert(is_ascii_chars(s));
    is_ascii_chars_encode_utf8(s);
}

/// A name with two dots side by side, or that ends in a dot, makes no stream.
pub proof fn lemma_dots_side_by_side_make_no_stream(a: Seq<char>, b: Seq<char>)
    requires
        forall|i: int| 0 <= i < a.len() ==> !is_gap(#[trigger] a[i]),
        forall|i: int| 0 <= i < b.len() ==> !is_gap(#[trigger] b[i]),
    ensures
        stream_name(a + seq!['.', '.'] + b) is None,
        stream_name(a + seq!['.']) is None,
        stream_name(Seq::<char>::empty()) is None,
{
    reveal_strlit(".tmux");
    let s = a + seq!['.', '.'] + b;
    let n = a.len() as int;
    assert forall|i: int| 0 <= i < s.len() implies !is_gap(#[trigger] s[i]) by {
        if i < n {
            assert(s[i] == a[i]);
        } else if i >= n + 2 {
            assert(s[i] == b[i - n - 2]);
        }
    }
    lemma_no_gap_is_kept(s);
    let whole = s + ".tmux"@;
    assert(whole[n] == '.' && whole[n + 1] == '.');
    assert(has_double_dot(whole));
    let t = a + seq!['.'];
    assert forall|i: int| 0 <= i < t.len() implies !is_gap(#[trigger] t[i]) by {
        if i < n {
            assert(t[i] == a[i]);
        }
    }
    lemma_no_gap_is_kept(t);
    let ended = t + ".tmux"@;
    assert(ended[n] == '.' && ended[n + 1] == '.');
    assert(has_double_dot(ended));
    assert(hyphenated(Seq::<char>::empty()) =~= Seq::<char>::empty());
}

/// A name of small letters, digits, dots, underscores and hyphens whose dots stand apart
/// makes a stream of its own.
pub proof fn lemma_dotted_name_has_a_stream(name: Seq<char>)
    requires
        name.len() > 0,
        is_lower(name[0]) || is_digit(name[0]),
        forall|i: int|
            0 <= i < name.len() ==> is_lower(#[trigger] name[i]) || is_digit(name[i]) || name[i]
                == '_' || name[i] == '-' || name[i] == '.',
        forall|i: int, j: int|
            0 <= i && j == i + 1 && j < name.len() ==> !(#[trigger] name[i] == '.' && #[trigger] name[j]
                == '.'),
        name.last() != '.',
    ensures
        stream_name(name) == Some(name + ".tmux"@),
{
    reveal_strlit(".tmux");
    let stream = name + ".tmux"@;
    assert forall|i: int| 0 <= i < name.len() implies !is_gap(#[trigger] name[i]) by {
        assert(is_lower(name[i]) || is_digit(name[i]) || name[i] == '_' || name[i] == '-' || name[i]
            == '.');
    }
    lemma_no_gap_is_kept(name);
    assert forall|i: int| 0 <= i < stream.len() implies ({
        let c = #[trigger] stream[i];
        is_lower(c) || is_digit(c) || (i > 0 && (c == '.' || c == '_' || c == '-'))
    }) by {
        if i < name.len() {
            assert(stream[i] == name[i]);
        } else {
            assert(stream[i] == ".tmux"@[i - name.len()]);
        }
    }
    assert(!has_double_dot(stream)) by {
        assert forall|i: int| 0 <= i < stream.len() - 1 implies !(#[trigger] stream[i] == '.'
            && stream[i + 1] == '.') by {
            if i + 1 < name.len() {
                assert(stream[i] == name[i] && stream[i + 1] == name[i + 1]);
            } else if i < name.len() {
                assert(stream[i] == name[i]);
                assert(name[i] == name.last());
            } else {
                assert(stream[i + 1] == ".tmux"@[i + 1 - name.len()]);
            }
        }
    }
}

} // verus!
