//! The layered resolver: the three layers merged, then decoded into a typed
//! record of a given shape.

use crate::config::{lists, ConfigMap};
use crate::layers::{apply_env, apply_members, apply_trailing, merged};
use crate::schema::{decode_value, decoded_value, typed_view, FieldKind, FieldSpec, TypedValue, TypedView};
use crate::value::{json_document, parse_document, ConfigValue, ValueView};
use vstd::prelude::*;
use vstd::string::*;

verus! {

/// Why a merged mapping does not fit a record's shape.
#[derive(Clone, Debug, PartialEq, Eq)]
pub enum DecodeError {
    /// A required field is not set.
    MissingField { field: String },
    /// A key of the mapping is no field of the record.
    UnknownField { field: String },
    /// A field is set to a value of another kind than it holds.
    Mismatch { field: String, expected: FieldKind },
}

/// What a [`DecodeError`] holds, as mathematical values.
pub enum DecodeErrorView {
    MissingField { field: Seq<char> },
    UnknownField { field: Seq<char> },
    Mismatch { field: Seq<char>, expected: FieldKind },
}

impl View for DecodeError {
    type V = DecodeErrorView;

    open spec fn view(&self) -> DecodeErrorView {
        match self {
            DecodeError::MissingField { field } => DecodeErrorView::MissingField { field: field@ },
            DecodeError::UnknownField { field } => DecodeErrorView::UnknownField { field: field@ },
            DecodeError::Mismatch { field, expected } => DecodeErrorView::Mismatch {
                field: field@,
                expected: *expected,
            },
        }
    }
}

/// A field of a decoded record: its name and its value, if it is set.
#[derive(Clone, Debug, PartialEq, Eq)]
pub struct Field {
    pub name: String,
    pub value: Option<TypedValue>,
}

/// A decoded record: one field for each field of the shape, in its order.
#[derive(Clone, Debug, PartialEq, Eq)]
pub struct Record {
    pub fields: Vec<Field>,
}

/// Whether the field at `i` is the first of `fields` with the name `name`.
pub open spec fn is_first_named(fields: Seq<Field>, name: Seq<char>, i: int) -> bool {
    &&& 0 <= i < fields.len()
    &&& fields[i].name@ == name
    &&& forall|j: int| 0 <= j < i ==> (#[trigger] fields[j]).name@ != name
}

impl Record {
    /// The value of the first field named `name`; `None` where there is no
    /// such field or it is not set.
    pub fn get(&self, name: &str) -> (r: Option<&TypedValue>)
        ensures
            match r {
                Some(value) => exists|i: int|
                    #[trigger] is_first_named(self.fields@, name@, i) && self.fields[i].value
                        == Some(*value),
                None => forall|i: int|
                    #[trigger] is_first_named(self.fields@, name@, i)
                        ==> self.fields[i].value is None,
            },
    {
        let wanted = String::from_str(name);
        let mut i: usize = 0;
        while i < self.fields.len()
            invariant
                i <= self.fields.len(),
                wanted@ == name@,
                forall|j: int| 0 <= j < i ==> (#[trigger] self.fields@[j]).name@ != name@,
            decreases self.fields.len() - i,
        {
            if self.fields[i].name == wanted {
                proof {
                    assert(is_first_named(self.fields@, name@, i as int));
                    assert forall|k: int| #[trigger]
                        is_first_named(self.fields@, name@, k) implies k == i by {
                        if k < i {
                            assert(self.fields@[k].name@ != name@);
                        } else if i < k {
                            assert(self.fields@[i as int].name@ != name@);
                        }
                    }
                }
                return self.fields[i].value.as_ref();
            }
            i += 1;
        }
        None
    }
}

/// What decoding makes of one field of the shape: its typed value, `None`
/// for an optional field that is unset or null, or the reason why the
/// mapping does not fit.
pub open spec fn field_outcome(map: Map<Seq<char>, ValueView>, spec: FieldSpec) -> Result<
    Option<TypedView>,
    DecodeErrorView,
> {
    if !map.contains_key(spec.name@) {
        if spec.required {
            Err(DecodeErrorView::MissingField { field: spec.name@ })
        } else {
            Ok(None)
        }
    } else if map[spec.name@] is Null && !spec.required {
        Ok(None)
    } else {
        match decoded_value(spec.kind, map[spec.name@]) {
            Some(t) => Ok(Some(t)),
            None => Err(DecodeErrorView::Mismatch { field: spec.name@, expected: spec.kind }),
        }
    }
}

/// The failure of the first among the first `n` fields of the shape that
/// the mapping does not fit, if there is one.
pub open spec fn first_failure(
    map: Map<Seq<char>, ValueView>,
    schema: Seq<FieldSpec>,
    n: int,
) -> Option<DecodeErrorView>
    decreases n,
{
    if n <= 0 {
        None
    } else {
        match first_failure(map, schema, n - 1) {
            Some(e) => Some(e),
            None => match field_outcome(map, schema[n - 1]) {
                Err(e) => Some(e),
                Ok(_) => None,
            },
        }
    }
}

/// Whether `k` names a field of the shape.
pub open spec fn is_known(schema: Seq<FieldSpec>, k: Seq<char>) -> bool {
    exists|i: int| 0 <= i < schema.len() && (#[trigger] schema[i]).name@ == k
}

/// Whether `record` holds what the mapping gives for each field of the shape.
pub open spec fn holds(
    record: Record,
    map: Map<Seq<char>, ValueView>,
    schema: Seq<FieldSpec>,
) -> bool {
    &&& record.fields.len() == schema.len()
    &&& forall|i: int|
        0 <= i < schema.len() ==> (#[trigger] record.fields[i]).name@ == schema[i].name@
            && field_outcome(map, schema[i]) == Ok::<Option<TypedView>, DecodeErrorView>(
            typed_view(record.fields[i].value),
        )
}

/// Whether `r` is what decoding the mapping into the shape gives. It is a
/// record exactly where the mapping fits every field and has no other key.
/// Otherwise it is the failure of the first field that does not fit or,
/// where all fit, an unknown key of the mapping.
pub open spec fn decodes_to(
    map: Map<Seq<char>, ValueView>,
    schema: Seq<FieldSpec>,
    r: Result<Record, DecodeError>,
) -> bool {
    match r {
        Ok(record) => {
            &&& first_failure(map, schema, schema.len() as int) is None
            &&& forall|k: Seq<char>| map.contains_key(k) ==> is_known(schema, k)
            &&& holds(record, map, schema)
        },
        Err(e) => match first_failure(map, schema, schema.len() as int) {
            Some(failure) => e@ == failure,
            None => match e {
                DecodeError::UnknownField { field } => map.contains_key(field@) && !is_known(
                    schema,
                    field@,
                ),
                _ => false,
            },
        },
    }
}

/// Decodes one field of the shape out of `map`.
pub fn decode_field(map: &ConfigMap, spec: &FieldSpec) -> (r: Result<Option<TypedValue>, DecodeError>)
    ensures
        match r {
            Ok(v) => field_outcome(map@, *spec) == Ok::<Option<TypedView>, DecodeErrorView>(
                typed_view(v),
            ),
            Err(e) => field_outcome(map@, *spec) == Err::<Option<TypedView>, DecodeErrorView>(e@),
        },
{
    match map.get(spec.name.as_str()) {
        None => {
            if spec.required {
                Err(DecodeError::MissingField { field: spec.name.clone() })
            } else {
                Ok(None)
            }
        },
        Some(value) => {
            let null = match value {
                ConfigValue::Null => true,
                _ => false,
            };
            if null && !spec.required {
                Ok(None)
            } else {
                match decode_value(spec.kind, value) {
                    Some(typed) => Ok(Some(typed)),
                    None => Err(
                        DecodeError::Mismatch { field: spec.name.clone(), expected: spec.kind },
                    ),
                }
            }
        },
    }
}

/// Tests whether `key` names a field of the shape.
pub fn names_field(schema: &Vec<FieldSpec>, key: &String) -> (r: bool)
    ensures
        r == is_known(schema@, key@),
{
    let mut i: usize = 0;
    while i < schema.len()
        invariant
            i <= schema.len(),
            forall|k: int| 0 <= k < i ==> (#[trigger] schema@[k]).name@ != key@,
        decreases schema.len() - i,
    {
        if schema[i].name == *key {
            return true;
        }
        i += 1;
    }
    false
}

/// Decodes `map` into a record of the shape `schema`, as [`decodes_to`]
/// says.
pub fn decode(map: &ConfigMap, schema: &Vec<FieldSpec>) -> (r: Result<Record, DecodeError>)
    ensures
        decodes_to(map@, schema@, r),
{
    let mut fields: Vec<Field> = Vec::new();
    let mut i: usize = 0;
    while i < schema.len()
        invariant
            i <= schema.len(),
            fields.len() == i,
            first_failure(map@, schema@, i as int) is None,
            forall|k: int|
                0 <= k < i ==> (#[trigger] fields[k]).name@ == schema[k].name@ && field_outcome(
                    map@,
                    schema[k],
                ) == Ok::<Option<TypedView>, DecodeErrorView>(typed_view(fields[k].value)),
        decreases schema.len() - i,
    {
        match decode_field(map, &schema[i]) {
            Ok(value) => {
                fields.push(Field { name: schema[i].name.clone(), value });
            },
            Err(e) => {
                proof {
                    lemma_failure_stays(map@, schema@, i as int + 1, schema.len() as int);
                }
                return Err(e);
            },
        }
        i += 1;
    }
    let entries = map.entries();
    let mut j: usize = 0;
    while j < entries.len()
        invariant
            j <= entries.len(),
            lists(entries@, map@),
            first_failure(map@, schema@, schema.len() as int) is None,
            forall|k: int| 0 <= k < j ==> is_known(schema@, (#[trigger] entries@[k]).0@),
        decreases entries.len() - j,
    {
        if !names_field(schema, &entries[j].0) {
            return Err(DecodeError::UnknownField { field: entries[j].0.clone() });
        }
        j += 1;
    }
    Ok(Record { fields })
}

/// Once a field has failed, the first failure does not change as more
/// fields are looked at.
proof fn lemma_failure_stays(
    map: Map<Seq<char>, ValueView>,
    schema: Seq<FieldSpec>,
    n: int,
    m: int,
)
    requires
        0 <= n <= m,
        first_failure(map, schema, n) is Some,
    ensures
        first_failure(map, schema, m) == first_failure(map, schema, n),
    decreases m - n,
{
    if n < m {
        lemma_failure_stays(map, schema, n, m - 1);
    }
}

/// The configuration file as the caller found it.
#[derive(Clone, Debug, PartialEq, Eq)]
pub enum ConfigFile {
    /// No file was named.
    Absent,
    /// A file was named and could not be read.
    Unreadable { path: String, cause: String },
    /// The whole text of the file that was named.
    Contents(String),
}

/// Why no record could be resolved.
#[derive(Clone, Debug, PartialEq, Eq)]
pub enum ConfigError {
    /// The file could not be read.
    Io { path: String, cause: String },
    /// The file's text is not one JSON document.
    Parse { message: String },
    /// The merged mapping does not fit the record's shape.
    Deserialization(DecodeError),
}

/// What a [`ConfigError`] holds, as mathematical values.
pub enum ConfigErrorView {
    Io { path: Seq<char>, cause: Seq<char> },
    Parse { message: Seq<char> },
    Deserialization(DecodeErrorView),
}

impl View for ConfigError {
    type V = ConfigErrorView;

    open spec fn view(&self) -> ConfigErrorView {
        match self {
            ConfigError::Io { path, cause } => ConfigErrorView::Io { path: path@, cause: cause@ },
            ConfigError::Parse { message } => ConfigErrorView::Parse { message: message@ },
            ConfigError::Deserialization(e) => ConfigErrorView::Deserialization(e@),
        }
    }
}

/// The members that the file layer merges, or why the file gives none: no
/// member where no file was named or its document is no object; an error
/// where the file could not be read or its text is no JSON document.
pub open spec fn file_members(file: ConfigFile) -> Result<
    Seq<(Seq<char>, ValueView)>,
    ConfigErrorView,
> {
    match file {
        ConfigFile::Absent => Ok(Seq::empty()),
        ConfigFile::Unreadable { path, cause } => Err(
            ConfigErrorView::Io { path: path@, cause: cause@ },
        ),
        ConfigFile::Contents(text) => match json_document(text@) {
            Ok(document) => Ok(document.members),
            Err(message) => Err(ConfigErrorView::Parse { message }),
        },
    }
}

/// Whether `r` is what resolving gives: the file's error where it has one;
/// else what decoding the merged mapping into the shape gives, a failure
/// of it as a deserialization error.
pub open spec fn resolves_to(
    struct_prefix: Seq<char>,
    vars: Seq<(Seq<char>, Seq<char>)>,
    file: ConfigFile,
    pairs: Seq<Seq<char>>,
    schema: Seq<FieldSpec>,
    r: Result<Record, ConfigError>,
) -> bool {
    match file_members(file) {
        Err(e) => r is Err && r->Err_0@ == e,
        Ok(members) => {
            let map = merged(struct_prefix, vars, members, pairs);
            match r {
                Ok(record) => decodes_to(map, schema, Ok(record)),
                Err(ConfigError::Deserialization(e)) => decodes_to(map, schema, Err(e)),
                Err(_) => false,
            }
        },
    }
}

/// Merges the three layers into one mapping: the environment variables
/// `vars` of the record with prefix `struct_prefix`, over them the members
/// of the file's top-level object, over them the trailing pairs. Fails,
/// and merges nothing, where the file could not be read or parsed.
pub fn merge_layers(
    struct_prefix: &str,
    vars: &Vec<(String, String)>,
    file: &ConfigFile,
    pairs: &Vec<String>,
) -> (r: Result<ConfigMap, ConfigError>)
    ensures
        match file_members(*file) {
            Err(e) => r is Err && r->Err_0@ == e,
            Ok(members) => r is Ok && r->Ok_0@ == merged(
                struct_prefix@,
                vars.deep_view(),
                members,
                pairs.deep_view(),
            ),
        },
{
    let mut map = ConfigMap::new();
    apply_env(&mut map, struct_prefix, vars);
    match file {
        ConfigFile::Absent => {},
        ConfigFile::Unreadable { path, cause } => {
            return Err(ConfigError::Io { path: path.clone(), cause: cause.clone() });
        },
        ConfigFile::Contents(text) => {
            match parse_document(text.as_str()) {
                Ok(document) => {
                    apply_members(&mut map, &document.members);
                },
                Err(message) => {
                    return Err(ConfigError::Parse { message });
                },
            }
        },
    }
    apply_trailing(&mut map, pairs);
    Ok(map)
}

/// Resolves a record of the shape `schema` from the three layers, as
/// [`resolves_to`] says: either the whole record, or the one error.
pub fn resolve(
    struct_prefix: &str,
    vars: &Vec<(String, String)>,
    file: &ConfigFile,
    pairs: &Vec<String>,
    schema: &Vec<FieldSpec>,
) -> (r: Result<Record, ConfigError>)
    ensures
        resolves_to(struct_prefix@, vars.deep_view(), *file, pairs.deep_view(), schema@, r),
{
    match merge_layers(struct_prefix, vars, file, pairs) {
        Err(e) => Err(e),
        Ok(map) => match decode(&map, schema) {
            Ok(record) => Ok(record),
            Err(e) => Err(ConfigError::Deserialization(e)),
        },
    }
}

/// The name of a kind, as it stands in a message.
pub open spec fn kind_name(kind: FieldKind) -> Seq<char> {
    match kind {
        FieldKind::Text => "a string"@,
        FieldKind::Bool => "a boolean"@,
        FieldKind::Unsigned => "an unsigned integer"@,
        FieldKind::Signed => "a signed integer"@,
        FieldKind::Number => "a number"@,
        FieldKind::Structured => "an array or object"@,
    }
}

/// What a [`DecodeError`] says in words.
pub open spec fn decode_message(e: DecodeErrorView) -> Seq<char> {
    match e {
        DecodeErrorView::MissingField { field } => "missing field `"@ + field + "`"@,
        DecodeErrorView::UnknownField { field } => "unknown field `"@ + field + "`"@,
        DecodeErrorView::Mismatch { field, expected } => "invalid type for field `"@ + field
            + "`, expected "@ + kind_name(expected),
    }
}

/// What a [`ConfigError`] says in words: what was being done, then the
/// cause.
pub open spec fn config_message(e: ConfigErrorView) -> Seq<char> {
    match e {
        ConfigErrorView::Io { path, cause } => "Failed to read file at "@ + path + ": "@ + cause,
        ConfigErrorView::Parse { message } => "Failed to parse config file: "@ + message,
        ConfigErrorView::Deserialization(cause) => "Failed to deserialize merged config: "@
            + decode_message(cause),
    }
}

/// The name of `kind`, as it stands in a message.
pub fn kind_text(kind: FieldKind) -> (r: &'static str)
    ensures
        r@ == kind_name(kind),
{
    match kind {
        FieldKind::Text => "a string",
        FieldKind::Bool => "a boolean",
        FieldKind::Unsigned => "an unsigned integer",
        FieldKind::Signed => "a signed integer",
        FieldKind::Number => "a number",
        FieldKind::Structured => "an array or object",
    }
}

impl DecodeError {
    /// The field that the error is about.
    pub fn field(&self) -> (r: &String)
        ensures
            r@ == match self@ {
                DecodeErrorView::MissingField { field } => field,
                DecodeErrorView::UnknownField { field } => field,
                DecodeErrorView::Mismatch { field, .. } => field,
            },
    {
        match self {
            DecodeError::MissingField { field } => field,
            DecodeError::UnknownField { field } => field,
            DecodeError::Mismatch { field, .. } => field,
        }
    }

    /// The error in words.
    pub fn message(&self) -> (r: String)
        ensures
            r@ == decode_message(self@),
    {
        match self {
            DecodeError::MissingField { field } => {
                let mut r = String::from_str("missing field `");
                r.append(field.as_str());
                r.append("`");
                r
            },
            DecodeError::UnknownField { field } => {
                let mut r = String::from_str("unknown field `");
                r.append(field.as_str());
                r.append("`");
                r
            },
            DecodeError::Mismatch { field, expected } => {
                let mut r = String::from_str("invalid type for field `");
                r.append(field.as_str());
                r.append("`, expected ");
                r.append(kind_text(*expected));
                r
            },
        }
    }
}

impl ConfigError {
    /// The error in words.
    pub fn message(&self) -> (r: String)
        ensures
            r@ == config_message(self@),
    {
        match self {
            ConfigError::Io { path, cause } => {
                let mut r = String::from_str("Failed to read file at ");
                r.append(path.as_str());
                r.append(": ");
                r.append(cause.as_str());
                r
            },
            ConfigError::Parse { message } => {
                let mut r = String::from_str("Failed to parse config file: ");
                r.append(message.as_str());
                r
            },
            ConfigError::Deserialization(cause) => {
                let mut r = String::from_str("Failed to deserialize merged config: ");
                let detail = cause.message();
                r.append(detail.as_str());
                r
            },
        }
    }
}

} // verus!
