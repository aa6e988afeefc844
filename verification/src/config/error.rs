//! Configuration errors shared by decoding, preparation, validation, compilation,
//! packaging, inspection and ability grants.

use super::text::{push_char, push_str, push_signed, push_unsigned, decimal};
use vstd::prelude::*;

verus! {

/// Machine-readable category of a configuration or configured-ability failure.
#[derive(Debug, Clone, Copy, PartialEq, Eq, Structural)]
pub enum ConfigErrorKind {
    /// Reading or writing a configuration file failed.
    Io,
    /// A file, package, or decoder exceeded a supported capacity.
    Capacity,
    /// Binary data could not be decoded.
    Decode,
    /// A manifest, schema, hash, or generated table contract is invalid.
    Package,
    /// Authoring validation rejected a gameplay rule.
    Validation,
    /// A required runtime registry is missing.
    MissingResource,
    /// A name could not be registered consistently with existing registries.
    Registration,
    /// A referenced configuration definition is absent.
    Reference,
    /// A value cannot be represented by the runtime definition.
    InvalidValue,
    /// The requested catalog ability is absent.
    UnknownAbility,
    /// The requested grant or inspection level is unsupported.
    UnsupportedLevel,
    /// The owner already has a binding for this ability.
    AlreadyGranted,
    /// An active ability cannot be revoked.
    ActiveAbility,
    /// An inspection report could not be formatted.
    Report,
}

/// The mathematical content of a [`ConfigLocation`]: every text as its characters.
pub enum LocationView {
    File { path: Seq<char>, field: Option<Seq<char>>, byte_offset: Option<usize> },
    Table { table: Seq<char>, row: Option<Seq<char>>, field: Option<Seq<char>> },
    Resource(Seq<char>),
    Operation(Seq<char>),
}

/// Structured source of a configuration diagnostic.
///
/// Row keys preserve authored IDs or names, while fields may identify a nested
/// field path. Binary offsets are present only for decoding failures.
#[derive(Debug, Clone, PartialEq, Eq)]
pub enum ConfigLocation {
    /// A file or a field inside that file.
    File {
        /// The input or output path.
        path: String,
        /// The optional field path inside the file.
        field: Option<String>,
        /// The optional byte offset of a binary decoding failure.
        byte_offset: Option<usize>,
    },
    /// A generated table, optionally narrowed to one row and field.
    Table {
        /// The authored table name.
        table: &'static str,
        /// The authored row ID or stable name.
        row: Option<String>,
        /// The optional authored field path.
        field: Option<String>,
    },
    /// A required or conflicting runtime registry.
    Resource(&'static str),
    /// A configuration operation without a single source row or file.
    Operation(&'static str),
}

impl View for ConfigLocation {
    type V = LocationView;

    open spec fn view(&self) -> LocationView {
        match self {
            ConfigLocation::File { path, field, byte_offset } => LocationView::File {
                path: path@,
                field: field.deep_view(),
                byte_offset: *byte_offset,
            },
            ConfigLocation::Table { table, row, field } => LocationView::Table {
                table: table@,
                row: row.deep_view(),
                field: field.deep_view(),
            },
            ConfigLocation::Resource(name) => LocationView::Resource(name@),
            ConfigLocation::Operation(name) => LocationView::Operation(name@),
        }
    }
}

/// A whole file location.
pub open spec fn file_at(path: Seq<char>) -> LocationView {
    LocationView::File { path, field: None, byte_offset: None }
}

/// A table location without row or field.
pub open spec fn table_at(table: Seq<char>) -> LocationView {
    LocationView::Table { table, row: None, field: None }
}

/// A table location narrowed to one row.
pub open spec fn row_at(table: Seq<char>, row: Seq<char>) -> LocationView {
    LocationView::Table { table, row: Some(row), field: None }
}

/// A table location narrowed to one row and one field.
pub open spec fn field_at(table: Seq<char>, row: Seq<char>, field: Seq<char>) -> LocationView {
    LocationView::Table { table, row: Some(row), field: Some(field) }
}

/// A field path extended by one more segment, separated by a dot.
pub open spec fn extend_field(parent: Option<Seq<char>>, value: Seq<char>) -> Seq<char> {
    match parent {
        Some(p) => p + seq!['.'] + value,
        None => value,
    }
}

/// The location narrowed to field `value` (files and tables only).
pub open spec fn with_field(l: LocationView, value: Seq<char>) -> LocationView {
    match l {
        LocationView::File { path, field, byte_offset } => LocationView::File {
            path,
            field: Some(extend_field(field, value)),
            byte_offset,
        },
        LocationView::Table { table, row, field } => LocationView::Table {
            table,
            row,
            field: Some(extend_field(field, value)),
        },
        _ => l,
    }
}

/// The readable text of a location.
pub open spec fn location_text(l: LocationView) -> Seq<char> {
    match l {
        LocationView::File { path, field, byte_offset } => path + match field {
            Some(f) => seq!['.'] + f,
            None => Seq::empty(),
        } + match byte_offset {
            Some(o) => seq![':', ' ', 'b', 'y', 't', 'e', ' '] + decimal(o as int),
            None => Seq::empty(),
        },
        LocationView::Table { table, row, field } => table + match row {
            Some(r) => seq!['['] + r + seq![']'],
            None => Seq::empty(),
        } + match field {
            Some(f) => seq!['.'] + f,
            None => Seq::empty(),
        },
        LocationView::Resource(name) => name,
        LocationView::Operation(name) => name,
    }
}

fn clone_text(s: &String) -> (r: String)
    ensures
        r@ == s@,
{
    s.clone()
}

fn clone_optional_text(s: &Option<String>) -> (r: Option<String>)
    ensures
        r.deep_view() == s.deep_view(),
{
    match s {
        Some(t) => Some(clone_text(t)),
        None => None,
    }
}

fn extended(parent: &Option<String>, value: &str) -> (r: String)
    ensures
        r@ == extend_field(parent.deep_view(), value@),
{
    match parent {
        Some(p) => {
            let mut r = clone_text(p);
            push_char(&mut r, '.');
            push_str(&mut r, value);
            assert(r@ =~= extend_field(parent.deep_view(), value@));
            r
        },
        None => {
            let mut r = String::new();
            push_str(&mut r, value);
            assert(r@ =~= value@);
            r
        },
    }
}

impl ConfigLocation {
    /// A whole file at `path`.
    pub fn file(path: &str) -> (l: Self)
        ensures
            l@ == (LocationView::File { path: path@, field: None, byte_offset: None }),
    {
        let mut p = String::new();
        push_str(&mut p, path);
        assert(p@ =~= path@);
        ConfigLocation::File { path: p, field: None, byte_offset: None }
    }

    /// A whole generated table.
    pub fn table(table: &'static str) -> (l: Self)
        ensures
            l@ == table_at(table@),
    {
        ConfigLocation::Table { table, row: None, field: None }
    }

    /// Narrows a table location to the row with numeric ID `id`; other locations are unchanged.
    pub fn row(self, id: i64) -> (l: Self)
        ensures
            l@ == (match self@ {
                LocationView::Table { table, field, .. } => LocationView::Table {
                    table,
                    row: Some(decimal(id as int)),
                    field,
                },
                other => other,
            }),
    {
        match self {
            ConfigLocation::Table { table, field, .. } => {
                let mut r = String::new();
                push_signed(&mut r, id);
                assert(r@ =~= decimal(id as int));
                ConfigLocation::Table { table, row: Some(r), field }
            },
            other => other,
        }
    }

    /// Narrows a table location to the row named `name`; other locations are unchanged.
    pub fn row_name(self, name: &str) -> (l: Self)
        ensures
            l@ == (match self@ {
                LocationView::Table { table, field, .. } => LocationView::Table {
                    table,
                    row: Some(name@),
                    field,
                },
                other => other,
            }),
    {
        match self {
            ConfigLocation::Table { table, field, .. } => {
                let mut r = String::new();
                push_str(&mut r, name);
                assert(r@ =~= name@);
                ConfigLocation::Table { table, row: Some(r), field }
            },
            other => other,
        }
    }

    /// A copy of this location narrowed to field `value`, appended to any
    /// existing field path with a dot.
    pub fn field(&self, value: &str) -> (l: Self)
        ensures
            l@ == with_field(self@, value@),
    {
        match self {
            ConfigLocation::File { path, field, byte_offset } => ConfigLocation::File {
                path: clone_text(path),
                field: Some(extended(field, value)),
                byte_offset: *byte_offset,
            },
            ConfigLocation::Table { table, row, field } => ConfigLocation::Table {
                table: *table,
                row: clone_optional_text(row),
                field: Some(extended(field, value)),
            },
            ConfigLocation::Resource(name) => ConfigLocation::Resource(*name),
            ConfigLocation::Operation(name) => ConfigLocation::Operation(*name),
        }
    }

    /// An exact copy of this location.
    pub fn duplicate(&self) -> (l: Self)
        ensures
            l@ == self@,
    {
        match self {
            ConfigLocation::File { path, field, byte_offset } => ConfigLocation::File {
                path: clone_text(path),
                field: clone_optional_text(field),
                byte_offset: *byte_offset,
            },
            ConfigLocation::Table { table, row, field } => ConfigLocation::Table {
                table: *table,
                row: clone_optional_text(row),
                field: clone_optional_text(field),
            },
            ConfigLocation::Resource(name) => ConfigLocation::Resource(*name),
            ConfigLocation::Operation(name) => ConfigLocation::Operation(*name),
        }
    }

    /// Records the byte offset of a decoding failure in a file location; other
    /// locations are unchanged.
    pub fn at_byte(self, offset: usize) -> (l: Self)
        ensures
            l@ == (match self@ {
                LocationView::File { path, field, .. } => LocationView::File {
                    path,
                    field,
                    byte_offset: Some(offset),
                },
                other => other,
            }),
    {
        match self {
            ConfigLocation::File { path, field, .. } => ConfigLocation::File {
                path,
                field,
                byte_offset: Some(offset),
            },
            other => other,
        }
    }

    /// The readable text of this location, as shown in diagnostics.
    pub fn to_text(&self) -> (s: String)
        ensures
            s@ == location_text(self@),
    {
        let mut s = String::new();
        match self {
            ConfigLocation::File { path, field, byte_offset } => {
                push_str(&mut s, path.as_str());
                if let Some(f) = field {
                    push_char(&mut s, '.');
                    push_str(&mut s, f.as_str());
                }
                if let Some(o) = byte_offset {
                    push_str(&mut s, ": byte ");
                    proof {
                        reveal_strlit(": byte ");
                    }
                    push_unsigned(&mut s, *o as u64);
                }
            },
            ConfigLocation::Table { table, row, field } => {
                push_str(&mut s, table);
                if let Some(r) = row {
                    push_char(&mut s, '[');
                    push_str(&mut s, r.as_str());
                    push_char(&mut s, ']');
                }
                if let Some(f) = field {
                    push_char(&mut s, '.');
                    push_str(&mut s, f.as_str());
                }
            },
            ConfigLocation::Resource(name) => push_str(&mut s, name),
            ConfigLocation::Operation(name) => push_str(&mut s, name),
        }
        assert(s@ =~= location_text(self@));
        s
    }
}

/// The mathematical content of a [`ConfigError`].
pub struct ErrorView {
    pub kind: ConfigErrorKind,
    pub location: LocationView,
    pub message: Seq<char>,
}

/// The location of row `id` of `table`.
pub fn row_location(table: &'static str, id: i32) -> (l: ConfigLocation)
    ensures
        l@ == row_at(table@, decimal(id as int)),
{
    ConfigLocation::table(table).row(id as i64)
}

/// The location of field `field` of row `id` of `table`.
pub fn row_field_location(table: &'static str, id: i32, field: &str) -> (l: ConfigLocation)
    ensures
        l@ == field_at(table@, decimal(id as int), field@),
{
    let l = ConfigLocation::table(table).row(id as i64).field(field);
    assert(extend_field(None, field@) == field@);
    l
}

/// An error of `kind` at field `field` of row `id` of `table`.
pub fn row_field_error(table: &'static str, id: i32, field: &str, kind: ConfigErrorKind, message: &str) -> (e: ConfigError)
    ensures
        e@.kind == kind,
        e@.location == field_at(table@, decimal(id as int), field@),
        e@.message == message@,
{
    ConfigError::new(kind, row_field_location(table, id, field), message)
}

/// Where and of what kind a failure is: what contracts promise of an error.
pub struct ErrorSite {
    pub kind: ConfigErrorKind,
    pub location: LocationView,
    pub message: Option<Seq<char>>,
}

/// The failure `kind` at `location`, whatever its message.
pub open spec fn site(kind: ConfigErrorKind, location: LocationView) -> ErrorSite {
    ErrorSite { kind, location, message: None }
}

/// The failure `kind` at `location` with `message`.
pub open spec fn site_with(kind: ConfigErrorKind, location: LocationView, message: Seq<char>) -> ErrorSite {
    ErrorSite { kind, location, message: Some(message) }
}

/// The error reports the failure `s`: its kind, its location, and its message
/// where `s` names one.
pub open spec fn reports(e: ErrorView, s: ErrorSite) -> bool {
    &&& e.kind == s.kind
    &&& e.location == s.location
    &&& (s.message matches Some(m) ==> e.message == m)
}

/// Two errors that report the same failure, when the failure names its message,
/// are the same error.
pub proof fn lemma_reports_determine_error(e1: ErrorView, e2: ErrorView, s: ErrorSite)
    requires
        reports(e1, s),
        reports(e2, s),
        s.message is Some,
    ensures
        e1 == e2,
{
}

/// A classified failure with structured source location and a readable message.
#[derive(Debug, Clone, PartialEq, Eq)]
pub struct ConfigError {
    kind: ConfigErrorKind,
    location: ConfigLocation,
    message: String,
}

impl View for ConfigError {
    type V = ErrorView;

    closed spec fn view(&self) -> ErrorView {
        ErrorView { kind: self.kind, location: self.location@, message: self.message@ }
    }
}

impl ConfigError {
    /// An error of `kind` at `location` explained by `message`.
    pub fn new(kind: ConfigErrorKind, location: ConfigLocation, message: &str) -> (e: Self)
        ensures
            e@ == (ErrorView { kind, location: location@, message: message@ }),
    {
        let mut m = String::new();
        push_str(&mut m, message);
        assert(m@ =~= message@);
        ConfigError { kind, location, message: m }
    }

    /// An error of `kind` at `location` with an owned `message`.
    pub fn with_message(kind: ConfigErrorKind, location: ConfigLocation, message: String) -> (e: Self)
        ensures
            e@ == (ErrorView { kind, location: location@, message: message@ }),
    {
        ConfigError { kind, location, message }
    }

    /// Returns the stable error category for programmatic handling.
    pub fn kind(&self) -> (k: ConfigErrorKind)
        ensures
            k == self@.kind,
    {
        self.kind
    }

    /// Returns the structured file, table-row-field, or registry location.
    pub fn location(&self) -> (l: &ConfigLocation)
        ensures
            l@ == self@.location,
    {
        &self.location
    }

    /// Returns the readable explanation of the failure.
    pub fn message(&self) -> (m: &str)
        ensures
            m@ == self@.message,
    {
        self.message.as_str()
    }

    /// The diagnostic text: the location, a colon, and the message.
    pub fn to_text(&self) -> (s: String)
        ensures
            s@ == location_text(self@.location) + seq![':', ' '] + self@.message,
    {
        let mut s = self.location.to_text();
        push_str(&mut s, ": ");
        proof {
            reveal_strlit(": ");
        }
        push_str(&mut s, self.message.as_str());
        assert(s@ =~= location_text(self@.location) + seq![':', ' '] + self@.message);
        s
    }
}

} // verus!
