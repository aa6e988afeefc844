//! The package manifest: versions, schema fingerprint, every table file with its
//! size and fingerprint, and a fingerprint over the file list.
//!
//! The manifest arrives as a parsed JSON document; this module checks it against
//! the compiled schema and table set, and then checks each table file read
//! afterwards against its record.

use super::files::{
    MAX_FILE_BYTES, MAX_MANIFEST_BYTES, MAX_PACKAGE_BYTES, add_package_size,
    package_size_failure,
};
use super::hashes::{
    fingerprint, fingerprint_of, frame, le_bytes, package_schema_hash, push_frame, push_le_bytes,
    push_text_frame, schema_message, text_frame,
};
use crate::config::compiler::registration::{
    lemma_text_less_irreflexive, lemma_text_less_total, lemma_text_less_transitive, text_before,
    text_less,
};
use crate::config::error::{
    ConfigError, ConfigErrorKind, ConfigLocation, ErrorSite, LocationView, file_at, reports,
    site_with, with_field,
};
use crate::config::generated::{spec_table_files, table_files};
use crate::config::text::{chars_of, debug_text, decimal, owned, push_str, push_unsigned, str_debug, text_eq};
use vstd::prelude::*;

verus! {

/// The manifest format this library reads and writes.
pub const FORMAT_VERSION: u64 = 1;

/// The template version this library reads and writes.
pub const TEMPLATE_VERSION: u64 = 1;

/// A parsed JSON value, holding what package checks read: unsigned integers as
/// `Number(Some(n))`, any other number as `Number(None)`, and object members with
/// unique keys.
pub enum JsonValue {
    Null,
    Bool(bool),
    Number(Option<u64>),
    Text(String),
    Array(Vec<JsonValue>),
    Object(Vec<(String, JsonValue)>),
}

/// The mathematical content of a [`FileRecord`].
pub struct FileRecordView {
    pub name: Seq<char>,
    pub size: u64,
    pub hash: Seq<char>,
}

/// One table file listed in a manifest.
#[derive(Debug, Clone, PartialEq)]
pub struct FileRecord {
    /// The file name, with the `.bytes` suffix.
    pub name: String,
    /// The byte size.
    pub size: u64,
    /// The fingerprint of the contents.
    pub hash: String,
}

impl DeepView for FileRecord {
    type V = FileRecordView;

    open spec fn deep_view(&self) -> FileRecordView {
        FileRecordView { name: self.name@, size: self.size, hash: self.hash@ }
    }
}

/// The values a manifest records, ready to be written as JSON.
#[derive(Debug)]
pub struct ManifestContents {
    pub format_version: u64,
    pub template_version: u64,
    pub schema_hash: String,
    pub data_hash: String,
    pub files: Vec<FileRecord>,
}

// ---------------------------------------------------------------------------
// Specification: fingerprints and the expected table set

/// The framed records `0..n`: each name, size and fingerprint.
pub open spec fn record_frames(records: Seq<FileRecordView>, n: nat) -> Seq<u8>
    decreases n,
{
    if n == 0 {
        Seq::empty()
    } else {
        let r = records[n - 1];
        record_frames(records, (n - 1) as nat) + text_frame(r.name) + frame(le_bytes(r.size)) + text_frame(r.hash)
    }
}

/// The message whose fingerprint covers the listed files.
pub open spec fn data_message(records: Seq<FileRecordView>) -> Seq<u8> {
    text_frame("gas-config-data-v1"@) + record_frames(records, records.len())
}

/// `c` is an ASCII letter, digit or underscore.
pub open spec fn file_char(c: char) -> bool {
    ('a' <= c <= 'z') || ('A' <= c <= 'Z') || ('0' <= c <= '9') || c == '_'
}

/// A table name usable as a file name.
pub open spec fn table_name_valid(table: Seq<char>) -> bool {
    table.len() > 0 && forall|i: int| 0 <= i < table.len() ==> file_char(#[trigger] table[i])
}

/// `(file, table)` placed into `s` before the first entry whose file name is not
/// below `file`.
pub open spec fn insert_file(s: Seq<(Seq<char>, Seq<char>)>, file: Seq<char>, table: Seq<char>) -> Seq<(Seq<char>, Seq<char>)>
    decreases s.len(),
{
    if s.len() == 0 {
        seq![(file, table)]
    } else if file == s[0].0 || text_less(file, s[0].0) {
        seq![(file, table)] + s
    } else {
        seq![s[0]] + insert_file(s.drop_first(), file, table)
    }
}

/// The file names of `s`.
pub open spec fn file_names(s: Seq<(Seq<char>, Seq<char>)>) -> Seq<Seq<char>> {
    Seq::new(s.len(), |i: int| s[i].0)
}

/// The expected files of the first `n` tables, ascending by file name, each with
/// its table name; or the failure of an unusable or repeated name.
pub open spec fn expected_upto(n: nat) -> Result<Seq<(Seq<char>, Seq<char>)>, ErrorSite>
    decreases n,
{
    if n == 0 {
        Ok(Seq::empty())
    } else {
        match expected_upto((n - 1) as nat) {
            Err(s) => Err(s),
            Ok(s) => {
                let table = spec_table_files()[n - 1];
                let file = table + ".bytes"@;
                if !table_name_valid(table) {
                    Err(site_with(ConfigErrorKind::Package, LocationView::Operation("compiled schema"@), "table filename contains unsupported characters"@))
                } else if file_names(s).contains(file) {
                    Err(site_with(ConfigErrorKind::Package, LocationView::Operation("compiled schema"@), "duplicate table filename"@))
                } else {
                    Ok(insert_file(s, file, table))
                }
            },
        }
    }
}

/// The expected table files, ascending by file name, each with its table name.
pub open spec fn spec_expected_files() -> Result<Seq<(Seq<char>, Seq<char>)>, ErrorSite> {
    expected_upto(spec_table_files().len())
}

// ---------------------------------------------------------------------------
// Specification: manifest checks

/// The value of the first member named `name`.
pub open spec fn member(fields: Seq<(String, JsonValue)>, name: Seq<char>) -> Option<JsonValue>
    decreases fields.len(),
{
    if fields.len() == 0 {
        None
    } else if fields[0].0@ == name {
        Some(fields[0].1)
    } else {
        member(fields.drop_first(), name)
    }
}

/// The object has exactly the members `names`.
pub open spec fn members_are(fields: Seq<(String, JsonValue)>, names: Seq<Seq<char>>) -> bool {
    fields.len() == names.len() && forall|i: int| 0 <= i < names.len() ==> member(fields, #[trigger] names[i]) is Some
}

/// The member `name` as an unsigned integer.
pub open spec fn unsigned_member(fields: Seq<(String, JsonValue)>, name: Seq<char>) -> Option<u64> {
    match member(fields, name) {
        Some(JsonValue::Number(Some(n))) => Some(n),
        _ => None,
    }
}

/// The member `name` as a text.
pub open spec fn text_member(fields: Seq<(String, JsonValue)>, name: Seq<char>) -> Option<Seq<char>> {
    match member(fields, name) {
        Some(JsonValue::Text(s)) => Some(s@),
        _ => None,
    }
}

/// The location of file entry `i` of a manifest at `ctx`.
pub open spec fn entry_location(ctx: LocationView, i: int) -> LocationView {
    with_field(ctx, "files["@ + decimal(i) + "]"@)
}

/// What file entry `entry` at `at` gives after the records `before` declaring
/// `total` bytes: its record and the new total, or its first failure.
pub open spec fn entry_result(entry: JsonValue, at: LocationView, expected: Seq<Seq<char>>, before: Seq<FileRecordView>, total: u64) -> Result<(FileRecordView, u64), ErrorSite> {
    match entry {
        JsonValue::Object(fields) => if !members_are(fields@, seq!["name"@, "size"@, "hash"@]) {
            Err(site_with(ConfigErrorKind::Package, at, "object fields do not match the package format"@))
        } else {
            match text_member(fields@, "name"@) {
                None => Err(site_with(ConfigErrorKind::Package, with_field(at, "name"@), "name must be a string"@)),
                Some(name) => if !expected.contains(name) {
                    Err(site_with(ConfigErrorKind::Package, at, "unknown or unsafe table filename "@ + str_debug(name)))
                } else if record_names(before).contains(name) {
                    Err(site_with(ConfigErrorKind::Package, at, "duplicate table filename "@ + str_debug(name)))
                } else {
                    match unsigned_member(fields@, "size"@) {
                        None => Err(site_with(ConfigErrorKind::Package, with_field(at, "size"@), "size must be an unsigned integer"@)),
                        Some(size) => if size > MAX_FILE_BYTES {
                            Err(site_with(ConfigErrorKind::Capacity, with_field(at, "size"@), "table size exceeds limit 67108864"@))
                        } else if total + size > MAX_PACKAGE_BYTES {
                            Err(package_size_failure(total as int, size as int))
                        } else {
                            match text_member(fields@, "hash"@) {
                                None => Err(site_with(ConfigErrorKind::Package, with_field(at, "hash"@), "hash must be a string"@)),
                                Some(hash) => Ok((FileRecordView { name, size, hash }, (total + size) as u64)),
                            }
                        },
                    }
                },
            }
        },
        _ => Err(site_with(ConfigErrorKind::Package, at, "expected a JSON object"@)),
    }
}

/// The names of `records`.
pub open spec fn record_names(records: Seq<FileRecordView>) -> Seq<Seq<char>> {
    Seq::new(records.len(), |i: int| records[i].name)
}

/// The records of the first `n` file entries and their declared total size, or
/// the first failure.
pub open spec fn entries_upto(entries: Seq<JsonValue>, ctx: LocationView, expected: Seq<Seq<char>>, n: nat) -> Result<(Seq<FileRecordView>, u64), ErrorSite>
    decreases n,
{
    if n == 0 {
        Ok((Seq::empty(), 0))
    } else {
        match entries_upto(entries, ctx, expected, (n - 1) as nat) {
            Err(s) => Err(s),
            Ok((records, total)) => match entry_result(entries[n - 1], entry_location(ctx, n - 1), expected, records, total) {
                Err(s) => Err(s),
                Ok((r, t)) => Ok((records.push(r), t)),
            },
        }
    }
}

/// `r` placed into `s` after every record whose name does not sort after its name.
pub open spec fn insert_record(s: Seq<FileRecordView>, r: FileRecordView) -> Seq<FileRecordView>
    decreases s.len(),
{
    if s.len() == 0 {
        seq![r]
    } else if text_less(r.name, s[0].name) {
        seq![r] + s
    } else {
        seq![s[0]] + insert_record(s.drop_first(), r)
    }
}

/// The records ordered by name, keeping list order among equal names.
pub open spec fn sort_records(records: Seq<FileRecordView>) -> Seq<FileRecordView>
    decreases records.len(),
{
    if records.len() == 0 {
        Seq::empty()
    } else {
        insert_record(sort_records(records.drop_last()), records.last())
    }
}

/// The manifest's top-level members.
pub open spec fn manifest_members() -> Seq<Seq<char>> {
    seq!["format_version"@, "template_version"@, "schema_hash"@, "data_hash"@, "files"@]
}

/// What checking manifest `m` at `ctx` gives: the file records ordered by name, or
/// the first failure of its format, versions, schema, file list, table set or
/// data fingerprint.
pub open spec fn spec_check_manifest(m: JsonValue, ctx: LocationView) -> Result<Seq<FileRecordView>, ErrorSite> {
    match m {
        JsonValue::Object(root) => if !members_are(root@, manifest_members()) {
            Err(site_with(ConfigErrorKind::Package, ctx, "object fields do not match the package format"@))
        } else if unsigned_member(root@, "format_version"@) != Some(FORMAT_VERSION) {
            Err(site_with(ConfigErrorKind::Package, with_field(ctx, "format_version"@), if unsigned_member(root@, "format_version"@) is Some {
                "unsupported format_version"@
            } else {
                "format_version must be an unsigned integer"@
            }))
        } else if unsigned_member(root@, "template_version"@) != Some(TEMPLATE_VERSION) {
            Err(site_with(ConfigErrorKind::Package, with_field(ctx, "template_version"@), if unsigned_member(root@, "template_version"@) is Some {
                "unsupported template_version"@
            } else {
                "template_version must be an unsigned integer"@
            }))
        } else if text_member(root@, "schema_hash"@) != Some(fingerprint(schema_message())) {
            Err(site_with(ConfigErrorKind::Package, with_field(ctx, "schema_hash"@), if text_member(root@, "schema_hash"@) is Some {
                "schema_hash does not match compiled schema"@
            } else {
                "schema_hash must be a string"@
            }))
        } else if text_member(root@, "data_hash"@) is None {
            Err(site_with(ConfigErrorKind::Package, with_field(ctx, "data_hash"@), "data_hash must be a string"@))
        } else {
            match member(root@, "files"@) {
                Some(JsonValue::Array(entries)) => match spec_expected_files() {
                    Err(s) => Err(s),
                    Ok(expected) => match entries_upto(entries@, ctx, file_names(expected), entries@.len()) {
                        Err(s) => Err(s),
                        Ok((records, _)) => if records.len() != expected.len() {
                            Err(site_with(ConfigErrorKind::Package, ctx, "manifest does not list the complete expected table set"@))
                        } else if fingerprint(data_message(sort_records(records))) != text_member(root@, "data_hash"@).unwrap() {
                            Err(site_with(ConfigErrorKind::Package, with_field(ctx, "data_hash"@), "data_hash does not match the file manifest"@))
                        } else {
                            Ok(sort_records(records))
                        },
                    },
                },
                _ => Err(site_with(ConfigErrorKind::Package, with_field(ctx, "files"@), "files must be an array"@)),
            }
        }
        _ => Err(site_with(ConfigErrorKind::Package, ctx, "expected a JSON object"@)),
    }
}

// ---------------------------------------------------------------------------
// Fingerprints and the expected table set

/// The fingerprint of the file list `records`: a version label, then each file's
/// name, size and fingerprint, every part framed by its length.
pub fn package_data_hash(records: &Vec<FileRecord>) -> (s: String)
    ensures
        s@ == fingerprint(data_message(records.deep_view())),
{
    let ghost rv = records.deep_view();
    let mut message: Vec<u8> = Vec::new();
    push_text_frame(&mut message, "gas-config-data-v1");
    let ghost head = message@;
    let mut i: usize = 0;
    assert(message@ =~= head + record_frames(rv, 0));
    while i < records.len()
        invariant
            rv == records.deep_view(),
            i <= rv.len(),
            message@ == head + record_frames(rv, i as nat),
        decreases rv.len() - i,
    {
        assert(rv[i as int] == records@[i as int].deep_view());
        push_text_frame(&mut message, records[i].name.as_str());
        let mut size: Vec<u8> = Vec::new();
        push_le_bytes(&mut size, records[i].size);
        assert(size@ =~= le_bytes(records@[i as int].size));
        push_frame(&mut message, size.as_slice());
        push_text_frame(&mut message, records[i].hash.as_str());
        assert(message@ =~= head + record_frames(rv, (i + 1) as nat));
        i = i + 1;
    }
    assert(message@ =~= data_message(rv));
    fingerprint_of(message.as_slice())
}

/// The view of an expected file list.
pub open spec fn expected_view(v: Seq<(String, &'static str)>) -> Seq<(Seq<char>, Seq<char>)> {
    Seq::new(v.len(), |i: int| (v[i].0@, v[i].1@))
}

fn table_name_ok(table: &str) -> (r: bool)
    ensures
        r == table_name_valid(table@),
{
    let chars = chars_of(table);
    if chars.len() == 0 {
        return false;
    }
    let mut i: usize = 0;
    while i < chars.len()
        invariant
            chars@ == table@,
            i <= chars@.len(),
            forall|k: int| 0 <= k < i ==> file_char(#[trigger] chars@[k]),
        decreases chars@.len() - i,
    {
        let c = chars[i];
        if !(('a' <= c && c <= 'z') || ('A' <= c && c <= 'Z') || ('0' <= c && c <= '9') || c == '_') {
            return false;
        }
        i = i + 1;
    }
    true
}

proof fn lemma_insert_file_at(s: Seq<(Seq<char>, Seq<char>)>, file: Seq<char>, table: Seq<char>, j: int)
    requires
        0 <= j <= s.len(),
        forall|k: int| 0 <= k < j ==> s[k].0 != file && !text_less(file, s[k].0),
        j == s.len() || s[j].0 == file || text_less(file, s[j].0),
    ensures
        insert_file(s, file, table) == s.insert(j, (file, table)),
    decreases j,
{
    if j == 0 {
        if s.len() == 0 {
            assert(seq![(file, table)] =~= s.insert(0, (file, table)));
        } else {
            assert(seq![(file, table)] + s =~= s.insert(0, (file, table)));
        }
    } else {
        let rest = s.drop_first();
        lemma_insert_file_at(rest, file, table, j - 1);
        assert(seq![s[0]] + rest.insert(j - 1, (file, table)) =~= s.insert(j, (file, table)));
    }
}

fn holds_file(v: &Vec<(String, &'static str)>, name: &str) -> (r: bool)
    ensures
        r == file_names(expected_view(v@)).contains(name@),
{
    let ghost d = file_names(expected_view(v@));
    let mut i: usize = 0;
    while i < v.len()
        invariant
            d == file_names(expected_view(v@)),
            i <= v@.len(),
            forall|k: int| 0 <= k < i ==> d[k] != name@,
        decreases v@.len() - i,
    {
        if text_eq(v[i].0.as_str(), name) {
            assert(d[i as int] == name@);
            return true;
        }
        i = i + 1;
    }
    false
}

/// The expected table files, ascending by file name (`table.bytes`), each with
/// its table name. A table name that is empty or not made of ASCII letters,
/// digits and underscores, or that repeats, is reported.
pub fn expected_files() -> (res: Result<Vec<(String, &'static str)>, ConfigError>)
    ensures
        match spec_expected_files() {
            Err(s) => res matches Err(e) && reports(e@, s),
            Ok(v) => res matches Ok(files) && expected_view(files@) == v,
        },
        res matches Ok(files) ==> names_ascending(file_names(expected_view(files@))),
{
    let tables = table_files();
    let mut files: Vec<(String, &'static str)> = Vec::new();
    let mut i: usize = 0;
    assert(expected_view(files@) =~= Seq::<(Seq<char>, Seq<char>)>::empty());
    while i < tables.len()
        invariant
            tables@.len() == spec_table_files().len(),
            forall|k: int| 0 <= k < tables@.len() ==> tables@[k]@ == spec_table_files()[k],
            i <= tables@.len(),
            expected_upto(i as nat) == Ok::<Seq<(Seq<char>, Seq<char>)>, ErrorSite>(expected_view(files@)),
        decreases tables@.len() - i,
    {
        let table = tables[i];
        let mut file = owned(table);
        push_str(&mut file, ".bytes");
        if !table_name_ok(table) {
            proof {
                lemma_expected_error_persists((i + 1) as nat, spec_table_files().len());
            }
            return Err(ConfigError::new(ConfigErrorKind::Package, ConfigLocation::Operation("compiled schema"), "table filename contains unsupported characters"));
        }
        if holds_file(&files, file.as_str()) {
            proof {
                lemma_expected_error_persists((i + 1) as nat, spec_table_files().len());
            }
            return Err(ConfigError::new(ConfigErrorKind::Package, ConfigLocation::Operation("compiled schema"), "duplicate table filename"));
        }
        let ghost d = expected_view(files@);
        let mut j: usize = 0;
        while j < files.len() && !text_eq(files[j].0.as_str(), file.as_str()) && !text_before(file.as_str(), files[j].0.as_str())
            invariant
                j <= files@.len(),
                d == expected_view(files@),
                forall|k: int| 0 <= k < j ==> d[k].0 != file@ && !text_less(file@, d[k].0),
            decreases files@.len() - j,
        {
            j = j + 1;
        }
        proof {
            lemma_insert_file_at(d, file@, table@, j as int);
        }
        let ghost fv = file@;
        files.insert(j, (file, table));
        assert(expected_view(files@) =~= d.insert(j as int, (fv, table@)));
        i = i + 1;
    }
    proof {
        lemma_expected_ascending(spec_table_files().len());
    }
    Ok(files)
}

proof fn lemma_expected_error_persists(i: nat, n: nat)
    requires
        i <= n,
        expected_upto(i) is Err,
    ensures
        expected_upto(n) == expected_upto(i),
    decreases n - i,
{
    if i < n {
        lemma_expected_error_persists(i, (n - 1) as nat);
    }
}

// ---------------------------------------------------------------------------
// Reading members

fn find_member<'a>(fields: &'a Vec<(String, JsonValue)>, name: &str) -> (r: Option<&'a JsonValue>)
    ensures
        match member(fields@, name@) {
            Some(v) => r matches Some(x) && *x == v,
            None => r is None,
        },
{
    let mut i: usize = 0;
    assert(fields@.subrange(0, fields@.len() as int) =~= fields@);
    while i < fields.len()
        invariant
            i <= fields@.len(),
            member(fields@, name@) == member(fields@.subrange(i as int, fields@.len() as int), name@),
        decreases fields@.len() - i,
    {
        assert(fields@.subrange(i as int, fields@.len() as int).drop_first() =~= fields@.subrange(i + 1, fields@.len() as int));
        if text_eq(fields[i].0.as_str(), name) {
            return Some(&fields[i].1);
        }
        i = i + 1;
    }
    None
}

fn members_match(fields: &Vec<(String, JsonValue)>, names: &Vec<&str>) -> (r: bool)
    ensures
        r == members_are(fields@, Seq::new(names@.len(), |i: int| names@[i]@)),
{
    let ghost wanted = Seq::new(names@.len(), |i: int| names@[i]@);
    if fields.len() != names.len() {
        return false;
    }
    let mut i: usize = 0;
    while i < names.len()
        invariant
            wanted == Seq::new(names@.len(), |i: int| names@[i]@),
            fields@.len() == names@.len(),
            i <= names@.len(),
            forall|k: int| 0 <= k < i ==> member(fields@, #[trigger] wanted[k]) is Some,
        decreases names@.len() - i,
    {
        if find_member(fields, names[i]).is_none() {
            assert(member(fields@, wanted[i as int]) is None);
            return false;
        }
        i = i + 1;
    }
    true
}

fn unsigned_of(fields: &Vec<(String, JsonValue)>, name: &str) -> (r: Option<u64>)
    ensures
        r == unsigned_member(fields@, name@),
{
    match find_member(fields, name) {
        Some(JsonValue::Number(Some(n))) => Some(*n),
        _ => None,
    }
}

fn text_of<'a>(fields: &'a Vec<(String, JsonValue)>, name: &str) -> (r: Option<&'a String>)
    ensures
        match text_member(fields@, name@) {
            Some(s) => r matches Some(x) && x@ == s,
            None => r is None,
        },
{
    match find_member(fields, name) {
        Some(JsonValue::Text(s)) => Some(s),
        _ => None,
    }
}

fn package_error(location: ConfigLocation, message: &str) -> (e: ConfigError)
    ensures
        e@.kind == ConfigErrorKind::Package,
        e@.location == location@,
        e@.message == message@,
{
    ConfigError::new(ConfigErrorKind::Package, location, message)
}

// ---------------------------------------------------------------------------
// Checking the manifest

/// A package error whose message is `lead` followed by the debug form of `name`.
fn named_file_error(location: ConfigLocation, lead: &str, name: &str) -> (e: ConfigError)
    ensures
        e@.kind == ConfigErrorKind::Package,
        e@.location == location@,
        e@.message == lead@ + str_debug(name@),
{
    let mut message = owned(lead);
    let quoted = debug_text(name);
    push_str(&mut message, quoted.as_str());
    ConfigError::with_message(ConfigErrorKind::Package, location, message)
}

fn holds_record_name(records: &Vec<FileRecord>, name: &str) -> (r: bool)
    ensures
        r == record_names(records.deep_view()).contains(name@),
{
    let ghost d = record_names(records.deep_view());
    let mut i: usize = 0;
    while i < records.len()
        invariant
            d == record_names(records.deep_view()),
            i <= records@.len(),
            forall|k: int| 0 <= k < i ==> d[k] != name@,
        decreases records@.len() - i,
    {
        assert(records.deep_view()[i as int] == records@[i as int].deep_view());
        if text_eq(records[i].name.as_str(), name) {
            assert(d[i as int] == name@);
            return true;
        }
        i = i + 1;
    }
    false
}

fn check_entry(
    entry: &JsonValue,
    at: &ConfigLocation,
    expected: &Vec<(String, &'static str)>,
    records: &Vec<FileRecord>,
    total: u64,
) -> (res: Result<(FileRecord, u64), ConfigError>)
    requires
        total <= MAX_PACKAGE_BYTES,
    ensures
        match entry_result(*entry, at@, file_names(expected_view(expected@)), records.deep_view(), total) {
            Err(s) => res matches Err(e) && reports(e@, s),
            Ok((r, t)) => res matches Ok((record, next)) && record.deep_view() == r && next == t,
        },
{
    let fields = match entry {
        JsonValue::Object(fields) => fields,
        _ => return Err(package_error(at.duplicate(), "expected a JSON object")),
    };
    let wanted = vec!["name", "size", "hash"];
    proof {
        reveal_strlit("name");
        reveal_strlit("size");
        reveal_strlit("hash");
    }
    assert(Seq::new(wanted@.len(), |i: int| wanted@[i]@) =~= seq!["name"@, "size"@, "hash"@]);
    if !members_match(fields, &wanted) {
        return Err(package_error(at.duplicate(), "object fields do not match the package format"));
    }
    let name = match text_of(fields, "name") {
        Some(s) => s,
        None => return Err(package_error(at.field("name"), "name must be a string")),
    };
    if !holds_file(expected, name.as_str()) {
        return Err(named_file_error(at.duplicate(), "unknown or unsafe table filename ", name.as_str()));
    }
    if holds_record_name(records, name.as_str()) {
        return Err(named_file_error(at.duplicate(), "duplicate table filename ", name.as_str()));
    }
    let size = match unsigned_of(fields, "size") {
        Some(n) => n,
        None => return Err(package_error(at.field("size"), "size must be an unsigned integer")),
    };
    if size > MAX_FILE_BYTES {
        return Err(ConfigError::new(ConfigErrorKind::Capacity, at.field("size"), "table size exceeds limit 67108864"));
    }
    let mut next = total;
    add_package_size(&mut next, size)?;
    let hash = match text_of(fields, "hash") {
        Some(s) => s,
        None => return Err(package_error(at.field("hash"), "hash must be a string")),
    };
    Ok((FileRecord { name: owned(name.as_str()), size, hash: owned(hash.as_str()) }, next))
}

fn entry_context(ctx: &ConfigLocation, i: usize) -> (l: ConfigLocation)
    ensures
        l@ == entry_location(ctx@, i as int),
{
    let mut field = String::new();
    push_str(&mut field, "files[");
    push_unsigned(&mut field, i as u64);
    push_str(&mut field, "]");
    assert(field@ =~= "files["@ + decimal(i as int) + "]"@);
    ctx.field(field.as_str())
}

proof fn lemma_entries_error_persists(entries: Seq<JsonValue>, ctx: LocationView, expected: Seq<Seq<char>>, i: nat, n: nat)
    requires
        i <= n,
        entries_upto(entries, ctx, expected, i) is Err,
    ensures
        entries_upto(entries, ctx, expected, n) == entries_upto(entries, ctx, expected, i),
    decreases n - i,
{
    if i < n {
        lemma_entries_error_persists(entries, ctx, expected, i, (n - 1) as nat);
    }
}

fn check_entries(entries: &Vec<JsonValue>, ctx: &ConfigLocation, expected: &Vec<(String, &'static str)>) -> (res: Result<Vec<FileRecord>, ConfigError>)
    ensures
        match entries_upto(entries@, ctx@, file_names(expected_view(expected@)), entries@.len()) {
            Err(s) => res matches Err(e) && reports(e@, s),
            Ok((records, _)) => res matches Ok(v) && v.deep_view() == records,
        },
{
    let ghost names = file_names(expected_view(expected@));
    let mut records: Vec<FileRecord> = Vec::new();
    let mut total: u64 = 0;
    let mut i: usize = 0;
    assert(records.deep_view() =~= Seq::<FileRecordView>::empty());
    while i < entries.len()
        invariant
            names == file_names(expected_view(expected@)),
            i <= entries@.len(),
            total <= MAX_PACKAGE_BYTES,
            entries_upto(entries@, ctx@, names, i as nat) == Ok::<(Seq<FileRecordView>, u64), ErrorSite>((records.deep_view(), total)),
        decreases entries@.len() - i,
    {
        let at = entry_context(ctx, i);
        match check_entry(&entries[i], &at, expected, &records, total) {
            Ok((record, next)) => {
                let ghost before = records.deep_view();
                let ghost rv = record.deep_view();
                records.push(record);
                assert(records.deep_view() =~= before.push(rv));
                total = next;
            },
            Err(e) => {
                proof {
                    lemma_entries_error_persists(entries@, ctx@, names, (i + 1) as nat, entries@.len());
                }
                return Err(e);
            },
        }
        i = i + 1;
    }
    Ok(records)
}

proof fn lemma_insert_record_at(s: Seq<FileRecordView>, r: FileRecordView, j: int)
    requires
        0 <= j <= s.len(),
        forall|k: int| 0 <= k < j ==> !text_less(r.name, s[k].name),
        j == s.len() || text_less(r.name, s[j].name),
    ensures
        insert_record(s, r) == s.insert(j, r),
    decreases j,
{
    if j == 0 {
        if s.len() == 0 {
            assert(seq![r] =~= s.insert(0, r));
        } else {
            assert(seq![r] + s =~= s.insert(0, r));
        }
    } else {
        let rest = s.drop_first();
        lemma_insert_record_at(rest, r, j - 1);
        assert(seq![s[0]] + rest.insert(j - 1, r) =~= s.insert(j, r));
    }
}

/// The records ordered by name, keeping list order among equal names.
fn sorted_records(records: Vec<FileRecord>) -> (sorted: Vec<FileRecord>)
    ensures
        sorted.deep_view() == sort_records(records.deep_view()),
{
    let ghost rv = records.deep_view();
    let mut sorted: Vec<FileRecord> = Vec::new();
    let mut rest = records;
    let mut taken: Vec<FileRecord> = Vec::new();
    let mut i: usize = 0;
    assert(rv.take(0) =~= Seq::<FileRecordView>::empty());
    while i < rest.len()
        invariant
            rv == rest.deep_view(),
            i <= rv.len(),
            sorted.deep_view() == sort_records(rv.take(i as int)),
        decreases rv.len() - i,
    {
        let r = FileRecord { name: owned(rest[i].name.as_str()), size: rest[i].size, hash: owned(rest[i].hash.as_str()) };
        assert(r.deep_view() == rv[i as int]);
        assert(rv.take(i + 1).drop_last() =~= rv.take(i as int));
        let ghost s = sorted.deep_view();
        let mut j: usize = 0;
        while j < sorted.len() && !text_before(r.name.as_str(), sorted[j].name.as_str())
            invariant
                j <= sorted@.len(),
                s == sorted.deep_view(),
                forall|k: int| 0 <= k < j ==> !text_less(r.name@, s[k].name),
            decreases sorted@.len() - j,
        {
            assert(s[j as int] == sorted@[j as int].deep_view());
            j = j + 1;
        }
        if j < sorted.len() {
            assert(s[j as int] == sorted@[j as int].deep_view());
        }
        proof {
            lemma_insert_record_at(s, r.deep_view(), j as int);
        }
        let ghost item = r.deep_view();
        sorted.insert(j, r);
        assert(sorted.deep_view() =~= s.insert(j as int, item));
        i = i + 1;
    }
    assert(rv.take(rv.len() as int) =~= rv);
    sorted
}

/// Checks the parsed manifest at `manifest_path`: its members, versions, schema
/// fingerprint, the complete expected table set with sizes within limits, and the
/// data fingerprint over the file list ordered by name. Returns that ordered list.
pub fn check_manifest(manifest: &JsonValue, manifest_path: &str) -> (res: Result<Vec<FileRecord>, ConfigError>)
    ensures
        match spec_check_manifest(*manifest, file_at(manifest_path@)) {
            Err(s) => res matches Err(e) && reports(e@, s),
            Ok(records) => res matches Ok(v) && v.deep_view() == records,
        },
        res matches Ok(v) ==> records_ordered(v.deep_view()),
{
    let ctx = ConfigLocation::file(manifest_path);
    let root = match manifest {
        JsonValue::Object(fields) => fields,
        _ => return Err(package_error(ctx, "expected a JSON object")),
    };
    let wanted = vec!["format_version", "template_version", "schema_hash", "data_hash", "files"];
    proof {
        reveal_strlit("format_version");
        reveal_strlit("template_version");
        reveal_strlit("schema_hash");
        reveal_strlit("data_hash");
        reveal_strlit("files");
    }
    assert(Seq::new(wanted@.len(), |i: int| wanted@[i]@) =~= manifest_members());
    if !members_match(root, &wanted) {
        return Err(package_error(ctx, "object fields do not match the package format"));
    }
    match unsigned_of(root, "format_version") {
        Some(v) => if v != FORMAT_VERSION {
            return Err(package_error(ctx.field("format_version"), "unsupported format_version"));
        },
        None => return Err(package_error(ctx.field("format_version"), "format_version must be an unsigned integer")),
    }
    match unsigned_of(root, "template_version") {
        Some(v) => if v != TEMPLATE_VERSION {
            return Err(package_error(ctx.field("template_version"), "unsupported template_version"));
        },
        None => return Err(package_error(ctx.field("template_version"), "template_version must be an unsigned integer")),
    }
    let schema = package_schema_hash();
    match text_of(root, "schema_hash") {
        Some(s) => if !text_eq(s.as_str(), schema.as_str()) {
            return Err(package_error(ctx.field("schema_hash"), "schema_hash does not match compiled schema"));
        },
        None => return Err(package_error(ctx.field("schema_hash"), "schema_hash must be a string")),
    }
    let data_hash = match text_of(root, "data_hash") {
        Some(s) => s,
        None => return Err(package_error(ctx.field("data_hash"), "data_hash must be a string")),
    };
    let entries = match find_member(root, "files") {
        Some(JsonValue::Array(entries)) => entries,
        _ => return Err(package_error(ctx.field("files"), "files must be an array")),
    };
    let expected = expected_files()?;
    let records = check_entries(entries, &ctx, &expected)?;
    if records.len() != expected.len() {
        return Err(package_error(ctx, "manifest does not list the complete expected table set"));
    }
    proof {
        lemma_sort_records(records.deep_view());
    }
    let sorted = sorted_records(records);
    let actual = package_data_hash(&sorted);
    if !text_eq(actual.as_str(), data_hash.as_str()) {
        return Err(package_error(ctx.field("data_hash"), "data_hash does not match the file manifest"));
    }
    Ok(sorted)
}

// ---------------------------------------------------------------------------
// Checking table files and writing manifests

/// The table name of expected file `name`.
pub open spec fn file_table(expected: Seq<(Seq<char>, Seq<char>)>, name: Seq<char>) -> Option<Seq<char>>
    decreases expected.len(),
{
    if expected.len() == 0 {
        None
    } else if expected[0].0 == name {
        Some(expected[0].1)
    } else {
        file_table(expected.drop_first(), name)
    }
}

/// What accepting the table file at `path` holding `data` for `record`, after
/// `total` bytes, gives: its table name, or the first failure of the package
/// size, the recorded size, the recorded fingerprint or the table set.
pub open spec fn spec_accept_file(expected: Seq<(Seq<char>, Seq<char>)>, record: FileRecordView, path: Seq<char>, data: Seq<u8>, total: u64) -> Result<Seq<char>, ErrorSite> {
    if total + data.len() > MAX_PACKAGE_BYTES {
        Err(package_size_failure(total as int, data.len() as int))
    } else if data.len() != record.size {
        Err(site_with(ConfigErrorKind::Package, with_field(file_at(path), "size"@), "file size does not match manifest"@))
    } else if fingerprint(data) != record.hash {
        Err(site_with(ConfigErrorKind::Package, with_field(file_at(path), "hash"@), "file hash does not match manifest"@))
    } else {
        match file_table(expected, record.name) {
            None => Err(site_with(ConfigErrorKind::Package, file_at(path), "table is absent from compiled schema"@)),
            Some(table) => Ok(table),
        }
    }
}

fn lookup_table(expected: &Vec<(String, &'static str)>, name: &str) -> (r: Option<&'static str>)
    ensures
        match file_table(expected_view(expected@), name@) {
            Some(t) => r matches Some(s) && s@ == t,
            None => r is None,
        },
{
    let ghost d = expected_view(expected@);
    let mut i: usize = 0;
    assert(d.subrange(0, d.len() as int) =~= d);
    while i < expected.len()
        invariant
            d == expected_view(expected@),
            i <= d.len(),
            file_table(d, name@) == file_table(d.subrange(i as int, d.len() as int), name@),
        decreases d.len() - i,
    {
        assert(d.subrange(i as int, d.len() as int).drop_first() =~= d.subrange(i + 1, d.len() as int));
        if text_eq(expected[i].0.as_str(), name) {
            return Some(expected[i].1);
        }
        i = i + 1;
    }
    None
}

/// Accepts the table file at `path` holding `data` for manifest `record`: adds its
/// size to the running package `total`, checks the recorded size and fingerprint,
/// and returns its table name.
pub fn accept_table_file(
    expected: &Vec<(String, &'static str)>,
    record: &FileRecord,
    path: &str,
    data: &[u8],
    total: &mut u64,
) -> (res: Result<&'static str, ConfigError>)
    requires
        *old(total) <= MAX_PACKAGE_BYTES,
    ensures
        old(total) + data@.len() <= u64::MAX ==> *final(total) == old(total) + data@.len(),
        old(total) + data@.len() > u64::MAX ==> *final(total) == *old(total),
        match spec_accept_file(expected_view(expected@), record.deep_view(), path@, data@, *old(total)) {
            Err(s) => res matches Err(e) && reports(e@, s),
            Ok(table) => res matches Ok(t) && t@ == table,
        },
{
    add_package_size(total, data.len() as u64)?;
    if data.len() as u64 != record.size {
        return Err(package_error(ConfigLocation::file(path).field("size"), "file size does not match manifest"));
    }
    let actual = fingerprint_of(data);
    if !text_eq(actual.as_str(), record.hash.as_str()) {
        return Err(package_error(ConfigLocation::file(path).field("hash"), "file hash does not match manifest"));
    }
    match lookup_table(expected, record.name.as_str()) {
        Some(table) => Ok(table),
        None => Err(package_error(ConfigLocation::file(path), "table is absent from compiled schema")),
    }
}

/// The manifest record of file `name` holding `data`.
pub fn manifest_record(name: &str, data: &[u8]) -> (r: FileRecord)
    ensures
        r.deep_view() == (FileRecordView { name: name@, size: data@.len() as u64, hash: fingerprint(data@) }),
{
    FileRecord { name: owned(name), size: data.len() as u64, hash: fingerprint_of(data) }
}

/// The manifest contents for `files`: the current versions, the schema
/// fingerprint and the fingerprint over `files`.
pub fn manifest_contents(files: Vec<FileRecord>) -> (m: ManifestContents)
    ensures
        m.format_version == FORMAT_VERSION,
        m.template_version == TEMPLATE_VERSION,
        m.schema_hash@ == fingerprint(schema_message()),
        m.data_hash@ == fingerprint(data_message(files.deep_view())),
        m.files.deep_view() == files.deep_view(),
{
    let data_hash = package_data_hash(&files);
    ManifestContents {
        format_version: FORMAT_VERSION,
        template_version: TEMPLATE_VERSION,
        schema_hash: package_schema_hash(),
        data_hash,
        files,
    }
}

/// Checks that a written manifest of `len` bytes at `manifest_path` fits its limit.
pub fn check_manifest_size(len: usize, manifest_path: &str) -> (res: Result<(), ConfigError>)
    ensures
        len > MAX_MANIFEST_BYTES ==> (res matches Err(e) && reports(e@, site_with(ConfigErrorKind::Capacity, file_at(manifest_path@), "manifest exceeds its size limit"@))),
        len <= MAX_MANIFEST_BYTES ==> res is Ok,
{
    if len as u64 > MAX_MANIFEST_BYTES {
        return Err(ConfigError::new(ConfigErrorKind::Capacity, ConfigLocation::file(manifest_path), "manifest exceeds its size limit"));
    }
    Ok(())
}

// ---------------------------------------------------------------------------
// Writing manifests, and what reading them back gives

/// `v` is the manifest entry of file record `r`.
pub open spec fn entry_of(v: JsonValue, r: FileRecordView) -> bool {
    &&& v matches JsonValue::Object(fields)
    &&& fields@.len() == 3
    &&& fields@[0].0@ == "name"@
    &&& fields@[0].1 matches JsonValue::Text(s) && s@ == r.name
    &&& fields@[1].0@ == "size"@
    &&& fields@[1].1 == JsonValue::Number(Some(r.size))
    &&& fields@[2].0@ == "hash"@
    &&& fields@[2].1 matches JsonValue::Text(h) && h@ == r.hash
}

/// `doc` is the manifest document of the given versions, fingerprints and files.
pub open spec fn document_of(doc: JsonValue, format_version: u64, template_version: u64, schema_hash: Seq<char>, data_hash: Seq<char>, files: Seq<FileRecordView>) -> bool {
    &&& doc matches JsonValue::Object(root)
    &&& root@.len() == 5
    &&& root@[0].0@ == "format_version"@ && root@[0].1 == JsonValue::Number(Some(format_version))
    &&& root@[1].0@ == "template_version"@ && root@[1].1 == JsonValue::Number(Some(template_version))
    &&& root@[2].0@ == "schema_hash"@
    &&& root@[2].1 matches JsonValue::Text(s) && s@ == schema_hash
    &&& root@[3].0@ == "data_hash"@
    &&& root@[3].1 matches JsonValue::Text(d) && d@ == data_hash
    &&& root@[4].0@ == "files"@
    &&& root@[4].1 matches JsonValue::Array(entries)
    &&& entries@.len() == files.len()
    &&& forall|i: int| 0 <= i < files.len() ==> entry_of(#[trigger] entries@[i], files[i])
}

/// `v` reads as the manifest entry of file record `r`: an object of three members
/// whose `name`, `size` and `hash` hold the record's values, in any order.
pub open spec fn entry_reads_as(v: JsonValue, r: FileRecordView) -> bool {
    &&& v matches JsonValue::Object(fields)
    &&& fields@.len() == 3
    &&& member(fields@, "name"@) matches Some(JsonValue::Text(s)) && s@ == r.name
    &&& member(fields@, "size"@) == Some(JsonValue::Number(Some(r.size)))
    &&& member(fields@, "hash"@) matches Some(JsonValue::Text(h)) && h@ == r.hash
}

/// `doc` reads as the manifest document of the given versions, fingerprints and
/// files: an object of five members holding them, in any order.
pub open spec fn document_reads_as(doc: JsonValue, format_version: u64, template_version: u64, schema_hash: Seq<char>, data_hash: Seq<char>, files: Seq<FileRecordView>) -> bool {
    &&& doc matches JsonValue::Object(root)
    &&& root@.len() == 5
    &&& member(root@, "format_version"@) == Some(JsonValue::Number(Some(format_version)))
    &&& member(root@, "template_version"@) == Some(JsonValue::Number(Some(template_version)))
    &&& member(root@, "schema_hash"@) matches Some(JsonValue::Text(s)) && s@ == schema_hash
    &&& member(root@, "data_hash"@) matches Some(JsonValue::Text(d)) && d@ == data_hash
    &&& member(root@, "files"@) matches Some(JsonValue::Array(entries))
    &&& entries@.len() == files.len()
    &&& forall|i: int| 0 <= i < files.len() ==> entry_reads_as(#[trigger] entries@[i], files[i])
}

/// The written manifest document reads as what it holds.
pub proof fn lemma_document_reads_as(doc: JsonValue, format_version: u64, template_version: u64, schema_hash: Seq<char>, data_hash: Seq<char>, files: Seq<FileRecordView>)
    requires
        document_of(doc, format_version, template_version, schema_hash, data_hash, files),
    ensures
        document_reads_as(doc, format_version, template_version, schema_hash, data_hash, files),
{
    reveal_strlit("format_version");
    reveal_strlit("template_version");
    reveal_strlit("schema_hash");
    reveal_strlit("data_hash");
    reveal_strlit("files");
    reveal_strlit("name");
    reveal_strlit("size");
    reveal_strlit("hash");
    if let JsonValue::Object(root) = doc {
        let r = root@;
        assert("format_version"@.len() == 14 && "template_version"@.len() == 16);
        assert("schema_hash"@.len() == 11 && "data_hash"@.len() == 9 && "files"@.len() == 5);
        lemma_member_at(r, 0, "format_version"@);
        lemma_member_at(r, 1, "template_version"@);
        lemma_member_at(r, 2, "schema_hash"@);
        lemma_member_at(r, 3, "data_hash"@);
        lemma_member_at(r, 4, "files"@);
        if let JsonValue::Array(entries) = r[4].1 {
            assert forall|i: int| 0 <= i < files.len() implies entry_reads_as(#[trigger] entries@[i], files[i]) by {
                if let JsonValue::Object(fields) = entries@[i] {
                    let f = fields@;
                    assert("name"@ != "size"@) by { assert("name"@[0] != "size"@[0]); }
                    assert("name"@ != "hash"@) by { assert("name"@[0] != "hash"@[0]); }
                    assert("size"@ != "hash"@) by { assert("size"@[0] != "hash"@[0]); }
                    lemma_member_at(f, 0, "name"@);
                    lemma_member_at(f, 1, "size"@);
                    lemma_member_at(f, 2, "hash"@);
                }
            }
        }
    }
}

/// The manifest document of `contents`, with members and entries in a fixed order.
pub fn manifest_document(contents: &ManifestContents) -> (doc: JsonValue)
    ensures
        document_of(doc, contents.format_version, contents.template_version, contents.schema_hash@,
            contents.data_hash@, contents.files.deep_view()),
{
    let ghost files = contents.files.deep_view();
    let mut entries: Vec<JsonValue> = Vec::new();
    let mut i: usize = 0;
    while i < contents.files.len()
        invariant
            files == contents.files.deep_view(),
            i <= files.len(),
            entries@.len() == i,
            forall|k: int| 0 <= k < i ==> entry_of(#[trigger] entries@[k], files[k]),
        decreases files.len() - i,
    {
        let f = &contents.files[i];
        assert(files[i as int] == contents.files@[i as int].deep_view());
        let entry = JsonValue::Object(vec![
            (owned("name"), JsonValue::Text(owned(f.name.as_str()))),
            (owned("size"), JsonValue::Number(Some(f.size))),
            (owned("hash"), JsonValue::Text(owned(f.hash.as_str()))),
        ]);
        entries.push(entry);
        i = i + 1;
    }
    JsonValue::Object(vec![
        (owned("format_version"), JsonValue::Number(Some(contents.format_version))),
        (owned("template_version"), JsonValue::Number(Some(contents.template_version))),
        (owned("schema_hash"), JsonValue::Text(owned(contents.schema_hash.as_str()))),
        (owned("data_hash"), JsonValue::Text(owned(contents.data_hash.as_str()))),
        (owned("files"), JsonValue::Array(entries)),
    ])
}

/// The total size of `records`.
pub open spec fn records_total(records: Seq<FileRecordView>) -> int
    decreases records.len(),
{
    if records.len() == 0 {
        0
    } else {
        records_total(records.drop_last()) + records.last().size
    }
}

proof fn lemma_total_prefix(records: Seq<FileRecordView>, k: int)
    requires
        0 <= k <= records.len(),
    ensures
        records_total(records.take(k)) <= records_total(records),
        records_total(records.take(k)) >= 0,
    decreases records.len() - k,
{
    if k < records.len() {
        lemma_total_prefix(records, k + 1);
        assert(records.take(k + 1).drop_last() =~= records.take(k));
    } else {
        assert(records.take(k) =~= records);
    }
    lemma_total_nonnegative(records.take(k));
}

proof fn lemma_total_nonnegative(records: Seq<FileRecordView>)
    ensures
        records_total(records) >= 0,
    decreases records.len(),
{
    if records.len() > 0 {
        lemma_total_nonnegative(records.drop_last());
    }
}

/// The names are strictly ascending.
pub open spec fn names_ascending(names: Seq<Seq<char>>) -> bool {
    forall|i: int, j: int| 0 <= i < j < names.len() ==> text_less(#[trigger] names[i], #[trigger] names[j])
}

proof fn lemma_insert_file_sorted(s: Seq<(Seq<char>, Seq<char>)>, file: Seq<char>, table: Seq<char>)
    requires
        names_ascending(file_names(s)),
        !file_names(s).contains(file),
    ensures
        names_ascending(file_names(insert_file(s, file, table))),
    decreases s.len(),
{
    if s.len() > 0 && !(file == s[0].0 || text_less(file, s[0].0)) {
        let rest = s.drop_first();
        assert forall|i: int, j: int| 0 <= i < j < file_names(rest).len() implies text_less(#[trigger] file_names(rest)[i], #[trigger] file_names(rest)[j]) by {
            assert(file_names(rest)[i] == file_names(s)[i + 1]);
            assert(file_names(rest)[j] == file_names(s)[j + 1]);
        }
        assert forall|k: int| 0 <= k < rest.len() implies file_names(rest)[k] != file by {
            assert(file_names(rest)[k] == file_names(s)[k + 1]);
        }
        lemma_insert_file_sorted(rest, file, table);
        let inner = insert_file(rest, file, table);
        let n = insert_file(s, file, table);
        assert(n == seq![s[0]] + inner);
        lemma_text_less_total(file, s[0].0);
        lemma_insert_file_members(rest, file, table);
        assert forall|i: int, j: int| 0 <= i < j < file_names(n).len() implies text_less(#[trigger] file_names(n)[i], #[trigger] file_names(n)[j]) by {
            if i == 0 {
                let e = inner[j - 1].0;
                assert(file_names(n)[0] == s[0].0);
                assert(file_names(n)[j] == e);
                if e != file {
                    let m = choose|m: int| 0 <= m < rest.len() && rest[m].0 == e;
                    assert(file_names(s)[m + 1] == e);
                    assert(file_names(s)[0] == s[0].0);
                    assert(text_less(file_names(s)[0], file_names(s)[m + 1]));
                }
            } else {
                assert(file_names(n)[i] == file_names(inner)[i - 1]);
                assert(file_names(n)[j] == file_names(inner)[j - 1]);
                assert(text_less(file_names(inner)[i - 1], file_names(inner)[j - 1]));
            }
        }
    } else if s.len() > 0 {
        let n = insert_file(s, file, table);
        assert(file != s[0].0) by {
            assert(file_names(s)[0] == s[0].0);
        }
        assert forall|i: int, j: int| 0 <= i < j < file_names(n).len() implies text_less(#[trigger] file_names(n)[i], #[trigger] file_names(n)[j]) by {
            if i == 0 {
                assert(file_names(n)[0] == file);
                assert(file_names(n)[j] == s[j - 1].0);
                if j > 1 {
                    assert(file_names(s)[0] == s[0].0 && file_names(s)[j - 1] == s[j - 1].0);
                    assert(text_less(file_names(s)[0], file_names(s)[j - 1]));
                    lemma_text_less_transitive(file, s[0].0, s[j - 1].0);
                }
            } else {
                assert(file_names(n)[i] == file_names(s)[i - 1]);
                assert(file_names(n)[j] == file_names(s)[j - 1]);
            }
        }
    }
}

proof fn lemma_insert_file_members(s: Seq<(Seq<char>, Seq<char>)>, file: Seq<char>, table: Seq<char>)
    ensures
        forall|k: int| 0 <= k < insert_file(s, file, table).len() ==>
            (#[trigger] insert_file(s, file, table)[k]).0 == file || exists|m: int| 0 <= m < s.len() && s[m].0 == insert_file(s, file, table)[k].0,
        insert_file(s, file, table).len() == s.len() + 1,
    decreases s.len(),
{
    if s.len() > 0 && !(file == s[0].0 || text_less(file, s[0].0)) {
        let rest = s.drop_first();
        lemma_insert_file_members(rest, file, table);
        let inner = insert_file(rest, file, table);
        let n = insert_file(s, file, table);
        assert forall|k: int| 0 <= k < n.len() implies
            (#[trigger] n[k]).0 == file || exists|m: int| 0 <= m < s.len() && s[m].0 == n[k].0 by {
            if k == 0 {
                assert(s[0].0 == n[0].0);
            } else {
                assert(n[k] == inner[k - 1]);
                if inner[k - 1].0 != file {
                    let m = choose|m: int| 0 <= m < rest.len() && rest[m].0 == inner[k - 1].0;
                    assert(s[m + 1].0 == n[k].0);
                }
            }
        }
    } else if s.len() > 0 {
        let n = insert_file(s, file, table);
        assert forall|k: int| 0 <= k < n.len() implies
            (#[trigger] n[k]).0 == file || exists|m: int| 0 <= m < s.len() && s[m].0 == n[k].0 by {
            if k > 0 {
                assert(s[k - 1].0 == n[k].0);
            }
        }
    }
}

/// The expected file names are strictly ascending.
proof fn lemma_expected_ascending(n: nat)
    ensures
        expected_upto(n) matches Ok(s) ==> names_ascending(file_names(s)),
    decreases n,
{
    if n > 0 {
        lemma_expected_ascending((n - 1) as nat);
        if let Ok(s) = expected_upto((n - 1) as nat) {
            let table = spec_table_files()[n - 1];
            let file = table + ".bytes"@;
            if table_name_valid(table) && !file_names(s).contains(file) {
                lemma_insert_file_sorted(s, file, table);
            }
        }
    }
}

proof fn lemma_sorted_records_unchanged(records: Seq<FileRecordView>)
    requires
        names_ascending(record_names(records)),
    ensures
        sort_records(records) == records,
    decreases records.len(),
{
    if records.len() > 0 {
        let rest = records.drop_last();
        assert forall|i: int, j: int| 0 <= i < j < record_names(rest).len() implies text_less(#[trigger] record_names(rest)[i], #[trigger] record_names(rest)[j]) by {
            assert(record_names(rest)[i] == record_names(records)[i]);
            assert(record_names(rest)[j] == record_names(records)[j]);
        }
        lemma_sorted_records_unchanged(rest);
        let x = records.last();
        assert forall|k: int| 0 <= k < rest.len() implies !text_less(x.name, rest[k].name) by {
            assert(record_names(records)[k] == rest[k].name);
            assert(record_names(records)[records.len() - 1] == x.name);
            lemma_text_less_total(rest[k].name, x.name);
        }
        lemma_insert_record_at(rest, x, rest.len() as int);
        assert(rest.insert(rest.len() as int, x) =~= records);
    }
}

pub(crate) proof fn lemma_member_at(fields: Seq<(String, JsonValue)>, i: int, name: Seq<char>)
    requires
        0 <= i < fields.len(),
        fields[i].0@ == name,
        forall|k: int| 0 <= k < i ==> fields[k].0@ != name,
    ensures
        member(fields, name) == Some(fields[i].1),
    decreases i,
{
    if i > 0 {
        let rest = fields.drop_first();
        assert forall|k: int| 0 <= k < i - 1 implies rest[k].0@ != name by {
            assert(rest[k] == fields[k + 1]);
        }
        lemma_member_at(rest, i - 1, name);
    }
}

proof fn lemma_entry_checks(entry: JsonValue, r: FileRecordView, at: LocationView, expected: Seq<Seq<char>>, before: Seq<FileRecordView>, total: u64)
    requires
        entry_reads_as(entry, r),
        expected.contains(r.name),
        !record_names(before).contains(r.name),
        r.size <= MAX_FILE_BYTES,
        total + r.size <= MAX_PACKAGE_BYTES,
    ensures
        entry_result(entry, at, expected, before, total) == Ok::<(FileRecordView, u64), ErrorSite>((r, (total + r.size) as u64)),
{
    if let JsonValue::Object(fields) = entry {
        let f = fields@;
        let names = seq!["name"@, "size"@, "hash"@];
        assert(names[0] == "name"@ && names[1] == "size"@ && names[2] == "hash"@);
        assert(members_are(f, names));
    }
}

proof fn lemma_entries_check(entries: Seq<JsonValue>, files: Seq<FileRecordView>, ctx: LocationView, expected: Seq<Seq<char>>, n: nat)
    requires
        n <= files.len(),
        entries.len() == files.len(),
        forall|i: int| 0 <= i < files.len() ==> entry_reads_as(#[trigger] entries[i], files[i]),
        forall|i: int| 0 <= i < files.len() ==> expected.contains(#[trigger] files[i].name),
        names_ascending(record_names(files)),
        forall|i: int| 0 <= i < files.len() ==> (#[trigger] files[i]).size <= MAX_FILE_BYTES,
        records_total(files) <= MAX_PACKAGE_BYTES,
    ensures
        entries_upto(entries, ctx, expected, n) == Ok::<(Seq<FileRecordView>, u64), ErrorSite>((files.take(n as int), records_total(files.take(n as int)) as u64)),
    decreases n,
{
    if n == 0 {
        assert(files.take(0) =~= Seq::<FileRecordView>::empty());
    } else {
        lemma_entries_check(entries, files, ctx, expected, (n - 1) as nat);
        let before = files.take(n - 1);
        let r = files[n - 1];
        lemma_total_prefix(files, n as int);
        lemma_total_prefix(files, n - 1);
        assert(files.take(n as int).drop_last() =~= before);
        assert(files.take(n as int).last() == r);
        assert(!record_names(before).contains(r.name)) by {
            if record_names(before).contains(r.name) {
                let k = choose|k: int| 0 <= k < record_names(before).len() && record_names(before)[k] == r.name;
                assert(record_names(files)[k] == r.name);
                assert(record_names(files)[n - 1] == r.name);
                lemma_text_less_irreflexive(r.name);
            }
        }
        lemma_entry_checks(entries[n - 1], r, entry_location(ctx, n - 1), expected, before, records_total(before) as u64);
        assert(before.push(r) =~= files.take(n as int));
    }
}

/// Reading back a written manifest: a document that reads as the one written for
/// records of exactly the expected table files, in file name order, within the
/// file and package size limits, with the current versions and the schema and data
/// fingerprints, passes every manifest check and gives back those records, whatever
/// the order of its members.
pub proof fn lemma_written_manifest_checks(doc: JsonValue, files: Seq<FileRecordView>, expected: Seq<(Seq<char>, Seq<char>)>, ctx: LocationView)
    requires
        document_reads_as(doc, FORMAT_VERSION, TEMPLATE_VERSION, fingerprint(schema_message()), fingerprint(data_message(files)), files),
        spec_expected_files() == Ok::<Seq<(Seq<char>, Seq<char>)>, ErrorSite>(expected),
        files.len() == expected.len(),
        forall|i: int| 0 <= i < files.len() ==> (#[trigger] files[i]).name == expected[i].0,
        forall|i: int| 0 <= i < files.len() ==> (#[trigger] files[i]).size <= MAX_FILE_BYTES,
        records_total(files) <= MAX_PACKAGE_BYTES,
    ensures
        spec_check_manifest(doc, ctx) == Ok::<Seq<FileRecordView>, ErrorSite>(files),
{
    reveal_strlit("format_version");
    reveal_strlit("template_version");
    reveal_strlit("schema_hash");
    reveal_strlit("data_hash");
    reveal_strlit("files");
    lemma_expected_ascending(spec_table_files().len());
    let names = file_names(expected);
    assert forall|i: int, j: int| 0 <= i < j < record_names(files).len() implies text_less(#[trigger] record_names(files)[i], #[trigger] record_names(files)[j]) by {
        assert(record_names(files)[i] == names[i]);
        assert(record_names(files)[j] == names[j]);
    }
    assert forall|i: int| 0 <= i < files.len() implies names.contains(#[trigger] files[i].name) by {
        assert(names[i] == files[i].name);
    }
    lemma_sorted_records_unchanged(files);
    if let JsonValue::Object(root) = doc {
        let r = root@;
        let m = manifest_members();
        assert(m[0] == "format_version"@ && m[1] == "template_version"@ && m[2] == "schema_hash"@);
        assert(m[3] == "data_hash"@ && m[4] == "files"@);
        assert(members_are(r, m));
        if let Some(JsonValue::Array(entries)) = member(r, "files"@) {
            lemma_entries_check(entries@, files, ctx, names, files.len());
            assert(files.take(files.len() as int) =~= files);
        }
    }
}

/// A manifest is accepted only when it is an object whose `format_version` and
/// `template_version` members are the unsigned integers [`FORMAT_VERSION`] and
/// [`TEMPLATE_VERSION`] and whose `schema_hash` is the compiled schema's
/// fingerprint. An object of the package's members with the supported format
/// version but any other unsigned template version is refused as an unsupported
/// template version, at its `template_version` member; and any other unsigned
/// format version as an unsupported format version. The records it gives are
/// those its `data_hash` fingerprints, one for each expected table file.
pub proof fn lemma_manifest_versions(m: JsonValue, ctx: LocationView)
    ensures
        spec_check_manifest(m, ctx) is Ok ==> (m matches JsonValue::Object(root)
            && unsigned_member(root@, "format_version"@) == Some(FORMAT_VERSION)
            && unsigned_member(root@, "template_version"@) == Some(TEMPLATE_VERSION)
            && text_member(root@, "schema_hash"@) == Some(fingerprint(schema_message()))),
        spec_check_manifest(m, ctx) matches Ok(records) ==> (m matches JsonValue::Object(root)
            && text_member(root@, "data_hash"@) == Some(fingerprint(data_message(records)))
            && (spec_expected_files() matches Ok(expected) && records.len() == expected.len())),
        (m matches JsonValue::Object(root) && members_are(root@, manifest_members())
            && unsigned_member(root@, "format_version"@) == Some(FORMAT_VERSION)
            && (unsigned_member(root@, "template_version"@) matches Some(v) && v != TEMPLATE_VERSION))
            ==> spec_check_manifest(m, ctx) == Err::<Seq<FileRecordView>, ErrorSite>(site_with(ConfigErrorKind::Package,
                with_field(ctx, "template_version"@), "unsupported template_version"@)),
        (m matches JsonValue::Object(root) && members_are(root@, manifest_members())
            && (unsigned_member(root@, "format_version"@) matches Some(v) && v != FORMAT_VERSION))
            ==> spec_check_manifest(m, ctx) == Err::<Seq<FileRecordView>, ErrorSite>(site_with(ConfigErrorKind::Package,
                with_field(ctx, "format_version"@), "unsupported format_version"@)),
{
    broadcast use vstd::seq_lib::group_to_multiset_ensures;

    if let JsonValue::Object(root) = m {
        if let Some(JsonValue::Array(entries)) = member(root@, "files"@) {
            if let Ok(expected) = spec_expected_files() {
                if let Ok((records, _)) = entries_upto(entries@, ctx, file_names(expected), entries@.len()) {
                    lemma_sort_records(records);
                    assert(sort_records(records).to_multiset().len() == records.to_multiset().len());
                }
            }
        }
    }
}

/// Reading back a written table file: bytes checked against the record written
/// for those same bytes under an expected file name, within the package size
/// limit, are accepted as that file's table.
pub proof fn lemma_written_file_accepted(expected: Seq<(Seq<char>, Seq<char>)>, name: Seq<char>, path: Seq<char>, data: Seq<u8>, total: u64)
    requires
        total + data.len() <= MAX_PACKAGE_BYTES,
        file_table(expected, name) is Some,
    ensures
        spec_accept_file(expected, FileRecordView { name, size: data.len() as u64, hash: fingerprint(data) }, path, data, total)
            == Ok::<Seq<char>, ErrorSite>(file_table(expected, name).unwrap()),
{
}

/// No record's name sorts before the name of a record listed earlier.
pub open spec fn records_ordered(s: Seq<FileRecordView>) -> bool {
    forall|i: int, j: int| 0 <= i < j < s.len() ==> !text_less(#[trigger] s[j].name, #[trigger] s[i].name)
}

proof fn lemma_insert_record_position(s: Seq<FileRecordView>, r: FileRecordView) -> (j: int)
    ensures
        0 <= j <= s.len(),
        forall|k: int| 0 <= k < j ==> !text_less(r.name, #[trigger] s[k].name),
        j == s.len() || text_less(r.name, s[j].name),
    decreases s.len(),
{
    if s.len() == 0 || text_less(r.name, s[0].name) {
        0
    } else {
        let rest = s.drop_first();
        let k = lemma_insert_record_position(rest, r);
        assert forall|m: int| 0 <= m < k + 1 implies !text_less(r.name, #[trigger] s[m].name) by {
            if m > 0 {
                assert(s[m] == rest[m - 1]);
            }
        }
        if k < rest.len() {
            assert(s[k + 1] == rest[k]);
        }
        k + 1
    }
}

proof fn lemma_insert_record_ordered(s: Seq<FileRecordView>, r: FileRecordView)
    requires
        records_ordered(s),
    ensures
        records_ordered(insert_record(s, r)),
        insert_record(s, r).to_multiset() == s.to_multiset().insert(r),
{
    let j = lemma_insert_record_position(s, r);
    lemma_insert_record_at(s, r, j);
    let n = s.insert(j, r);
    vstd::seq_lib::to_multiset_insert(s, j, r);
    assert forall|a: int, b: int| 0 <= a < b < n.len() implies !text_less(#[trigger] n[b].name, #[trigger] n[a].name) by {
        if b < j {
            assert(n[a] == s[a] && n[b] == s[b]);
        } else if b == j {
            assert(n[a] == s[a] && n[b] == r);
        } else if a < j {
            assert(n[a] == s[a] && n[b] == s[b - 1]);
        } else if a == j {
            assert(n[a] == r && n[b] == s[b - 1]);
            if text_less(s[b - 1].name, r.name) {
                if b - 1 == j {
                    lemma_text_less_transitive(s[j].name, r.name, s[j].name);
                    lemma_text_less_irreflexive(s[j].name);
                } else {
                    lemma_text_less_transitive(s[b - 1].name, r.name, s[j].name);
                    assert(!text_less(s[b - 1].name, s[j].name));
                }
            }
        } else {
            assert(n[a] == s[a - 1] && n[b] == s[b - 1]);
        }
    }
}

/// Ordering records by name gives a list ordered by name holding exactly the
/// same records, each as often.
pub proof fn lemma_sort_records(records: Seq<FileRecordView>)
    ensures
        records_ordered(sort_records(records)),
        sort_records(records).to_multiset() == records.to_multiset(),
    decreases records.len(),
{
    if records.len() == 0 {
        assert(sort_records(records) =~= records);
    } else {
        let rest = records.drop_last();
        lemma_sort_records(rest);
        lemma_insert_record_ordered(sort_records(rest), records.last());
        vstd::seq_lib::to_multiset_build(rest, records.last());
        assert(rest.push(records.last()) =~= records);
    }
}

} // verus!
