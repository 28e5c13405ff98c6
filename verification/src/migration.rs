//! The settings of an older installation, taken over once.

use vstd::prelude::*;
use vstd::string::*;

use crate::config::{is_config_of, is_first_error, ConfigError, ConfigFile, RuntimeConfig};
use crate::json::{
    field, field_text, field_texts, json_reading, read_json, string_of, JsonNode, JsonView,
};
use crate::paths::{PlatformKind, TargetState};
use crate::text::{chars_of, concat3, copy, lossy_decoding, lossy_text, same_text};

verus! {

/// The fields that are taken over.
pub const IMPORTED_LEGACY_FIELDS: [&'static str; 5] = [
    "stream",
    "capture_interval",
    "segment_interval",
    "cache_retention_days",
    "status_indicator",
];

#[derive(Clone, Copy, Debug, PartialEq, Eq, Structural)]
pub enum MigrationOutcome {
    NotApplicable,
    NativePresent,
    LegacyAbsent,
    Migrated,
}

#[derive(Clone, Copy, Debug, PartialEq, Eq, Structural)]
pub enum MigrationFailure {
    NativeTargetNotRegular,
    LegacyInspect,
    LegacyRead,
    LegacyInvalid,
    LegacyValidation,
    Write,
}

/// Why settings were not taken over, and for which file.
#[derive(Debug)]
pub struct MigrationError {
    pub failure: MigrationFailure,
    pub native_path: Vec<u8>,
}

impl MigrationError {
    pub fn new(failure: MigrationFailure, native_path: Vec<u8>) -> (r: Self)
        ensures
            r == (MigrationError { failure, native_path }),
    {
        MigrationError { failure, native_path }
    }

    pub open spec fn text(self) -> Seq<char> {
        let what = match self.failure {
            MigrationFailure::NativeTargetNotRegular =>
                "native settings target is not a regular file:"@,
            MigrationFailure::LegacyInspect =>
                "legacy settings could not be inspected while preparing"@,
            MigrationFailure::LegacyRead => "legacy settings could not be read while preparing"@,
            MigrationFailure::LegacyInvalid => "legacy settings are invalid for"@,
            MigrationFailure::LegacyValidation => "legacy settings could not be validated for"@,
            MigrationFailure::Write => "migrated settings could not be written to"@,
        };
        what + " "@ + lossy_decoding(self.native_path@)
    }

    /// The error in words.
    pub fn message(&self) -> (r: String)
        ensures
            r@ == self.text(),
    {
        let what = match self.failure {
            MigrationFailure::NativeTargetNotRegular =>
                "native settings target is not a regular file:",
            MigrationFailure::LegacyInspect =>
                "legacy settings could not be inspected while preparing",
            MigrationFailure::LegacyRead => "legacy settings could not be read while preparing",
            MigrationFailure::LegacyInvalid => "legacy settings are invalid for",
            MigrationFailure::LegacyValidation => "legacy settings could not be validated for",
            MigrationFailure::Write => "migrated settings could not be written to",
        };
        concat3(what, " ", lossy_text(self.native_path.as_slice()).as_str())
    }
}

/// Whether there is anything to take over: nothing where there is, else what the
/// migration comes to. The older settings are looked at only where there are no new
/// ones.
pub open spec fn migration_opening(
    platform: PlatformKind,
    native: TargetState,
    legacy: TargetState,
) -> Result<Option<MigrationOutcome>, MigrationFailure> {
    if platform == PlatformKind::Macos {
        Ok(Some(MigrationOutcome::NotApplicable))
    } else {
        match native {
            TargetState::Regular => Ok(Some(MigrationOutcome::NativePresent)),
            TargetState::NotRegular | TargetState::Unreadable => Err(
                MigrationFailure::NativeTargetNotRegular,
            ),
            TargetState::NotFound => match legacy {
                TargetState::Regular => Ok(None),
                TargetState::NotRegular => Err(MigrationFailure::LegacyInvalid),
                TargetState::NotFound => Ok(Some(MigrationOutcome::LegacyAbsent)),
                TargetState::Unreadable => Err(MigrationFailure::LegacyInspect),
            },
        }
    }
}

pub fn open_migration(platform: PlatformKind, native: TargetState, legacy: TargetState) -> (r:
    Result<Option<MigrationOutcome>, MigrationFailure>)
    ensures
        r == migration_opening(platform, native, legacy),
{
    if platform == PlatformKind::Macos {
        return Ok(Some(MigrationOutcome::NotApplicable));
    }
    match native {
        TargetState::Regular => Ok(Some(MigrationOutcome::NativePresent)),
        TargetState::NotRegular | TargetState::Unreadable => Err(
            MigrationFailure::NativeTargetNotRegular,
        ),
        TargetState::NotFound => match legacy {
            TargetState::Regular => Ok(None),
            TargetState::NotRegular => Err(MigrationFailure::LegacyInvalid),
            TargetState::NotFound => Ok(Some(MigrationOutcome::LegacyAbsent)),
            TargetState::Unreadable => Err(MigrationFailure::LegacyInspect),
        },
    }
}

/// The names of the fields that are taken over.
pub open spec fn imported_fields() -> Seq<Seq<char>> {
    seq![
        "stream"@,
        "capture_interval"@,
        "segment_interval"@,
        "cache_retention_days"@,
        "status_indicator"@,
    ]
}

/// A field is left out where it is an empty stream name.
pub open spec fn is_left_out(name: Seq<char>, value: Seq<char>) -> bool {
    name == "stream"@ && string_of(value) == Some(Seq::<char>::empty())
}

/// The fields of that name that are taken over, in order, each as JSON text.
pub open spec fn projection(names: Seq<Seq<char>>, fields: Seq<(Seq<char>, Seq<char>)>) -> Seq<
    (Seq<char>, Seq<char>),
>
    decreases names.len(),
{
    if names.len() == 0 {
        Seq::empty()
    } else {
        let before = projection(names.drop_last(), fields);
        match field(fields, names.last()) {
            Some(value) => if is_left_out(names.last(), value) {
                before
            } else {
                before.push((names.last(), value))
            },
            None => before,
        }
    }
}

/// What is taken over of older settings; nothing where they are no JSON object.
pub open spec fn legacy_projection(settings: Option<JsonView>) -> Option<
    Seq<(Seq<char>, Seq<char>)>,
> {
    match settings {
        Some(JsonView::Object(fields)) => Some(projection(imported_fields(), fields)),
        _ => None,
    }
}

fn imported_field(i: usize) -> (r: &'static str)
    requires
        i < 5,
    ensures
        r@ == imported_fields()[i as int],
{
    IMPORTED_LEGACY_FIELDS[i]
}

fn value_is_left_out(name: &str, value: &str) -> (r: bool)
    ensures
        r == is_left_out(name@, value@),
{
    if !same_text(name, "stream") {
        return false;
    }
    match read_json(value.as_bytes()) {
        Some(JsonNode::Text(text)) => {
            let chars = chars_of(text.as_str());
            proof {
                if chars@.len() == 0 {
                    assert(text@ =~= Seq::<char>::empty());
                }
            }
            chars.len() == 0
        },
        _ => false,
    }
}

/// What is taken over of the fields of older settings.
pub fn project_fields(fields: &Vec<(String, String)>) -> (r: Vec<(String, String)>)
    ensures
        field_texts(r@) == projection(imported_fields(), field_texts(fields@)),
{
    let ghost names = imported_fields();
    let ghost all = field_texts(fields@);
    let mut out: Vec<(String, String)> = Vec::new();
    let mut i: usize = 0;
    proof {
        assert(names.take(0) =~= Seq::<Seq<char>>::empty());
        assert(field_texts(out@) =~= Seq::<(Seq<char>, Seq<char>)>::empty());
    }
    while i < 5
        invariant
            i <= 5,
            names == imported_fields(),
            all == field_texts(fields@),
            field_texts(out@) == projection(names.take(i as int), all),
        decreases 5 - i,
    {
        let name = imported_field(i);
        proof {
            assert(names.take(i + 1).drop_last() =~= names.take(i as int));
            assert(names.take(i + 1).last() == name@);
        }
        if let Some(value) = field_text(fields, name) {
            if !value_is_left_out(name, value.as_str()) {
                let ghost before = field_texts(out@);
                out.push((copy(name), value.clone()));
                proof {
                    assert(field_texts(out@) =~= before.push((name@, value@)));
                }
            }
        }
        i = i + 1;
    }
    proof {
        assert(names.take(5) =~= names);
    }
    out
}

/// What is taken over of older settings, from the bytes of their file.
pub fn project_legacy(bytes: &[u8]) -> (r: Result<Vec<(String, String)>, MigrationFailure>)
    ensures
        match r {
            Ok(fields) => legacy_projection(json_reading(bytes@)) == Some(field_texts(fields@)),
            Err(failure) => legacy_projection(json_reading(bytes@)) is None && failure
                == MigrationFailure::LegacyInvalid,
        },
{
    match read_json(bytes) {
        Some(JsonNode::Object(fields)) => Ok(project_fields(&fields)),
        _ => Err(MigrationFailure::LegacyInvalid),
    }
}

/// Whether the settings that were taken over can be run with. `config` is nothing
/// where the fields are no settings.
pub fn validate_legacy(config: &Option<ConfigFile>, hostname: &str) -> (r: Result<
    (),
    MigrationFailure,
>)
    ensures
        match *config {
            None => r == Err::<(), MigrationFailure>(MigrationFailure::LegacyInvalid),
            Some(file) => match r {
                Ok(_) => exists|config: RuntimeConfig| is_config_of(file, hostname@, config),
                Err(failure) => failure == MigrationFailure::LegacyValidation && exists|
                    error: ConfigError,
                |
                    is_first_error(file, hostname@, error),
            },
        },
{
    match config {
        None => Err(MigrationFailure::LegacyInvalid),
        Some(file) => match RuntimeConfig::from_config_file(file, hostname) {
            Ok(config) => {
                proof {
                    assert(is_config_of(*file, hostname@, config));
                }
                Ok(())
            },
            Err(error) => {
                proof {
                    assert(is_first_error(*file, hostname@, error));
                }
                Err(MigrationFailure::LegacyValidation)
            },
        },
    }
}

/// Settings that can be run with have no error: a validation is either passed or
/// failed.
pub proof fn lemma_validation_decides(
    file: ConfigFile,
    hostname: Seq<char>,
    config: RuntimeConfig,
    error: ConfigError,
)
    ensures
        !(is_config_of(file, hostname, config) && is_first_error(file, hostname, error)),
{
}

/// What the migration comes to once the settings were written: `mode` is that of the
/// new file, which nobody else may read.
pub fn conclude_migration(serialized: bool, written: bool, mode: Option<u32>) -> (r: Result<
    MigrationOutcome,
    MigrationFailure,
>)
    ensures
        r == if !serialized {
            Err::<MigrationOutcome, MigrationFailure>(MigrationFailure::LegacyValidation)
        } else if written && mode is Some && mode->0 & 0o777 == 0o600 {
            Ok(MigrationOutcome::Migrated)
        } else {
            Err(MigrationFailure::Write)
        },
{
    if !serialized {
        return Err(MigrationFailure::LegacyValidation);
    }
    if !written {
        return Err(MigrationFailure::Write);
    }
    match mode {
        Some(mode) => if mode & 0o777 == 0o600 {
            Ok(MigrationOutcome::Migrated)
        } else {
            Err(MigrationFailure::Write)
        },
        None => Err(MigrationFailure::Write),
    }
}

/// Nothing but the listed fields is taken over, each as it stands in the older
/// settings.
pub proof fn lemma_projection_is_limited(
    names: Seq<Seq<char>>,
    fields: Seq<(Seq<char>, Seq<char>)>,
    k: int,
)
    requires
        0 <= k < projection(names, fields).len(),
    ensures
        projection(names, fields).len() <= names.len(),
        names.contains(projection(names, fields)[k].0),
        field(fields, projection(names, fields)[k].0) == Some(projection(names, fields)[k].1),
    decreases names.len(),
{
    if names.len() > 0 {
        let before = projection(names.drop_last(), fields);
        lemma_projection_length(names.drop_last(), fields);
        if k < before.len() {
            lemma_projection_is_limited(names.drop_last(), fields, k);
            let name = before[k].0;
            let i = choose|i: int| 0 <= i < names.len() - 1 && names.drop_last()[i] == name;
            assert(names[i] == name);
        } else {
            assert(names[names.len() - 1] == names.last());
        }
    }
}

proof fn lemma_projection_length(names: Seq<Seq<char>>, fields: Seq<(Seq<char>, Seq<char>)>)
    ensures
        projection(names, fields).len() <= names.len(),
    decreases names.len(),
{
    if names.len() > 0 {
        lemma_projection_length(names.drop_last(), fields);
    }
}

/// A new settings file is never replaced, and older settings are not touched where
/// there is one.
pub proof fn lemma_native_settings_win(platform: PlatformKind, legacy: TargetState)
    ensures
        migration_opening(platform, TargetState::Regular, legacy) is Ok,
        migration_opening(platform, TargetState::Regular, legacy)->Ok_0 is Some,
        migration_opening(platform, TargetState::NotRegular, legacy) != Ok::<
            Option<MigrationOutcome>,
            MigrationFailure,
        >(None),
{
}

/// Every listed field that the older settings have is taken over with its value, unless it
/// is left out.
pub proof fn lemma_projection_is_complete(
    names: Seq<Seq<char>>,
    fields: Seq<(Seq<char>, Seq<char>)>,
    name: Seq<char>,
    value: Seq<char>,
)
    ensures
        projection(names, fields).contains((name, value)) <==> names.contains(name) && field(
            fields,
            name,
        ) == Some(value) && !(name == "stream"@ && string_of(value) == Some(
            Seq::<char>::empty(),
        )),
    decreases names.len(),
{
    if names.len() > 0 {
        let before = names.drop_last();
        let kept = projection(before, fields);
        let all = projection(names, fields);
        let item = (name, value);
        lemma_projection_is_complete(before, fields, name, value);
        assert(names =~= before.push(names.last()));
        if before.contains(name) {
            let i = choose|i: int| 0 <= i < before.len() && before[i] == name;
            assert(names[i] == name);
        }
        assert(names[names.len() - 1] == names.last());
        if names.contains(name) && !before.contains(name) {
            let i = choose|i: int| 0 <= i < names.len() && names[i] == name;
            if i < before.len() {
                assert(before[i] == name);
            }
        }
        if kept.contains(item) {
            let i = choose|i: int| 0 <= i < kept.len() && kept[i] == item;
            assert(all[i] == item);
        }
        if all.contains(item) && !kept.contains(item) {
            let i = choose|i: int| 0 <= i < all.len() && all[i] == item;
            if i < kept.len() {
                assert(kept[i] == item);
            }
        }
        if name == names.last() && field(fields, name) == Some(value) && !is_left_out(name, value) {
            assert(all[all.len() - 1] == item);
        }
    }
}

/// The five settings are taken over, and no other field of the older file.
pub proof fn lemma_what_is_taken_over(fields: Seq<(Seq<char>, Seq<char>)>, name: Seq<char>, value: Seq<char>)
    requires
        field(fields, name) == Some(value),
        string_of(value) != Some(Seq::<char>::empty()),
    ensures
        legacy_projection(Some(JsonView::Object(fields))) is Some,
        legacy_projection(Some(JsonView::Object(fields)))->0.contains((name, value)) <==> name
            == "stream"@ || name == "capture_interval"@ || name == "segment_interval"@ || name
            == "cache_retention_days"@ || name == "status_indicator"@,
{
    let names = imported_fields();
    lemma_projection_is_complete(names, fields, name, value);
    assert(names[0] == "stream"@ && names[1] == "capture_interval"@ && names[2]
        == "segment_interval"@ && names[3] == "cache_retention_days"@ && names[4]
        == "status_indicator"@);
    assert(names.contains(names[0]) && names.contains(names[1]) && names.contains(names[2])
        && names.contains(names[3]) && names.contains(names[4]));
}

/// Settings are taken over exactly on Linux, where there are no new ones and the older
/// ones are a regular file. What stands in the way is told apart.
pub proof fn lemma_when_settings_are_taken_over(
    platform: PlatformKind,
    native: TargetState,
    legacy: TargetState,
)
    ensures
        migration_opening(platform, native, legacy) == Ok::<
            Option<MigrationOutcome>,
            MigrationFailure,
        >(None) <==> platform == PlatformKind::Linux && native == TargetState::NotFound && legacy
            == TargetState::Regular,
        migration_opening(PlatformKind::Macos, native, legacy) == Ok::<
            Option<MigrationOutcome>,
            MigrationFailure,
        >(Some(MigrationOutcome::NotApplicable)),
        platform == PlatformKind::Linux ==> {
            let opening = migration_opening(platform, native, legacy);
            &&& opening == Ok::<Option<MigrationOutcome>, MigrationFailure>(
                Some(MigrationOutcome::NativePresent),
            ) <==> native == TargetState::Regular
            &&& opening == Err::<Option<MigrationOutcome>, MigrationFailure>(
                MigrationFailure::NativeTargetNotRegular,
            ) <==> native == TargetState::NotRegular || native == TargetState::Unreadable
            &&& opening == Ok::<Option<MigrationOutcome>, MigrationFailure>(
                Some(MigrationOutcome::LegacyAbsent),
            ) <==> native == TargetState::NotFound && legacy == TargetState::NotFound
            &&& opening == Err::<Option<MigrationOutcome>, MigrationFailure>(
                MigrationFailure::LegacyInvalid,
            ) <==> native == TargetState::NotFound && legacy == TargetState::NotRegular
            &&& opening == Err::<Option<MigrationOutcome>, MigrationFailure>(
                MigrationFailure::LegacyInspect,
            ) <==> native == TargetState::NotFound && legacy == TargetState::Unreadable
        },
{
}

/// Settings count as taken over only where they were written to a file that nobody but
/// its owner can read or write.
pub proof fn lemma_migrated_settings_are_private(
    serialized: bool,
    written: bool,
    mode: Option<u32>,
    r: Result<MigrationOutcome, MigrationFailure>,
)
    requires
        call_ensures(conclude_migration, (serialized, written, mode), r),
    ensures
        r is Ok <==> serialized && written && mode is Some && mode->0 & 0o777 == 0o600,
        r is Ok ==> r->Ok_0 == MigrationOutcome::Migrated,
        !serialized ==> r == Err::<MigrationOutcome, MigrationFailure>(
            MigrationFailure::LegacyValidation,
        ),
        serialized && r is Err ==> r == Err::<MigrationOutcome, MigrationFailure>(
            MigrationFailure::Write,
        ),
{
}

/// Settings that can be run with pass the validation, and those that cannot fail it.
pub proof fn lemma_validation_is_of_the_settings(
    file: ConfigFile,
    hostname: &str,
    r: Result<(), MigrationFailure>,
    config: RuntimeConfig,
    error: ConfigError,
)
    requires
        call_ensures(validate_legacy, (&Some(file), hostname), r),
    ensures
        is_config_of(file, hostname@, config) ==> r is Ok,
        is_first_error(file, hostname@, error) ==> r == Err::<(), MigrationFailure>(
            MigrationFailure::LegacyValidation,
        ),
{
    if r is Ok {
        let found = choose|found: RuntimeConfig| is_config_of(file, hostname@, found);
        lemma_validation_decides(file, hostname@, found, error);
    } else {
        let found = choose|found: ConfigError| is_first_error(file, hostname@, found);
        lemma_validation_decides(file, hostname@, config, found);
    }
}

} // verus!
