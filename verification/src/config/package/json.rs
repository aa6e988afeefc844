//! The JSON text of manifests: reading it into [`JsonValue`], writing a
//! [`JsonValue`] back as pretty-printed text, both with `serde_json`, and what
//! reading written text back gives.

use super::files::MAX_MANIFEST_BYTES;
use super::hashes::{fingerprint, schema_message};
use super::manifest::{
    FORMAT_VERSION, FileRecord, FileRecordView, JsonValue, TEMPLATE_VERSION, check_manifest, check_manifest_size, data_message,
    document_of, document_reads_as, entry_reads_as, lemma_document_reads_as, lemma_member_at,
    lemma_written_manifest_checks, member, records_ordered, records_total, spec_check_manifest,
    spec_expected_files,
};
use super::{MAX_FILE_BYTES, MAX_PACKAGE_BYTES};
use crate::config::compiler::registration::text_less;
use crate::config::error::{ConfigError, ConfigErrorKind, ConfigLocation, ErrorSite, file_at, reports, site_with};
use vstd::prelude::*;

verus! {

/// The content of a [`JsonValue`]: texts by their characters, arrays and objects
/// by their items in order.
pub enum JsonModel {
    Null,
    Bool(bool),
    Number(Option<u64>),
    Text(Seq<char>),
    Array(Seq<JsonModel>),
    Object(Seq<(Seq<char>, JsonModel)>),
}

/// The content of `v`.
pub open spec fn json_model(v: JsonValue) -> JsonModel
    decreases v, 0nat,
{
    match v {
        JsonValue::Null => JsonModel::Null,
        JsonValue::Bool(b) => JsonModel::Bool(b),
        JsonValue::Number(n) => JsonModel::Number(n),
        JsonValue::Text(t) => JsonModel::Text(t@),
        JsonValue::Array(items) => JsonModel::Array(items_model(items@, items@.len())),
        JsonValue::Object(fields) => JsonModel::Object(fields_model(fields@, fields@.len())),
    }
}

/// The contents of the first `n` items of `s`.
pub open spec fn items_model(s: Seq<JsonValue>, n: nat) -> Seq<JsonModel>
    decreases s, n,
{
    if n == 0 || n > s.len() {
        Seq::empty()
    } else {
        items_model(s, (n - 1) as nat).push(json_model(s[n - 1]))
    }
}

/// The contents of the first `n` members of `s`, each with its key.
pub open spec fn fields_model(s: Seq<(String, JsonValue)>, n: nat) -> Seq<(Seq<char>, JsonModel)>
    decreases s, n,
{
    if n == 0 || n > s.len() {
        Seq::empty()
    } else {
        fields_model(s, (n - 1) as nat).push((s[n - 1].0@, json_model(s[n - 1].1)))
    }
}

/// `ms`, ascending by key, with the member `(k, v)` placed before the first
/// member whose key does not sort before `k`.
pub open spec fn put_member(ms: Seq<(Seq<char>, JsonModel)>, k: Seq<char>, v: JsonModel) -> Seq<(Seq<char>, JsonModel)>
    decreases ms.len(),
{
    if ms.len() == 0 || !text_less(ms[0].0, k) {
        seq![(k, v)] + ms
    } else {
        seq![ms[0]] + put_member(ms.drop_first(), k, v)
    }
}

/// What writing a document and reading it back gives of its content: numbers
/// without an unsigned value as `null`, and the members of each object in
/// ascending key order, as the map that `serde_json` keeps them in orders them.
pub open spec fn json_normal(m: JsonModel) -> JsonModel
    decreases m, 0nat,
{
    match m {
        JsonModel::Number(None) => JsonModel::Null,
        JsonModel::Array(items) => JsonModel::Array(normal_items(items, items.len())),
        JsonModel::Object(ms) => JsonModel::Object(normal_members(ms, ms.len())),
        _ => m,
    }
}

/// The first `n` items of `s`, each as [`json_normal`] gives it.
pub open spec fn normal_items(s: Seq<JsonModel>, n: nat) -> Seq<JsonModel>
    decreases s, n,
{
    if n == 0 || n > s.len() {
        Seq::empty()
    } else {
        normal_items(s, (n - 1) as nat).push(json_normal(s[n - 1]))
    }
}

/// The first `n` members of `s`, each value as [`json_normal`] gives it,
/// ascending by key.
pub open spec fn normal_members(s: Seq<(Seq<char>, JsonModel)>, n: nat) -> Seq<(Seq<char>, JsonModel)>
    decreases s, n,
{
    if n == 0 || n > s.len() {
        Seq::empty()
    } else {
        put_member(normal_members(s, (n - 1) as nat), s[n - 1].0, json_normal(s[n - 1].1))
    }
}

/// No two members of `ms` have the same key.
pub open spec fn keys_unique(ms: Seq<(Seq<char>, JsonModel)>) -> bool {
    forall|i: int, j: int| 0 <= i < j < ms.len() ==> #[trigger] ms[i].0 != #[trigger] ms[j].0
}

/// `m` nests arrays and objects at most `room` deep, and no object repeats a key.
pub open spec fn json_writable(m: JsonModel, room: nat) -> bool
    decreases m, 0nat,
{
    match m {
        JsonModel::Array(items) => room > 0 && items_writable(items, items.len(), (room - 1) as nat),
        JsonModel::Object(ms) => room > 0 && keys_unique(ms) && members_writable(ms, ms.len(), (room - 1) as nat),
        _ => true,
    }
}

/// Each of the first `n` items of `s` is writable within `room`.
pub open spec fn items_writable(s: Seq<JsonModel>, n: nat, room: nat) -> bool
    decreases s, n,
{
    if n == 0 || n > s.len() {
        true
    } else {
        items_writable(s, (n - 1) as nat, room) && json_writable(s[n - 1], room)
    }
}

/// Each value among the first `n` members of `s` is writable within `room`.
pub open spec fn members_writable(s: Seq<(Seq<char>, JsonModel)>, n: nat, room: nat) -> bool
    decreases s, n,
{
    if n == 0 || n > s.len() {
        true
    } else {
        members_writable(s, (n - 1) as nat, room) && json_writable(s[n - 1].1, room)
    }
}

/// The deepest nesting that `serde_json` reads back: its reader refuses more than
/// 127 nested arrays and objects.
pub const JSON_NESTING_LIMIT: u64 = 100;

#[verifier::external_type_specification]
#[verifier::external_body]
pub struct ExSerdeJsonValue(serde_json::Value);

/// What `serde_json::from_slice` reads from `bytes`, in this library's model:
/// the document, or the text of the parse error. It depends on the bytes alone.
pub uninterp spec fn json_document(bytes: Seq<u8>) -> Result<JsonValue, Seq<char>>;

/// What `serde_json::to_vec_pretty` writes for `doc`: the bytes, or the text of
/// the serialisation error. It depends on the document alone.
pub uninterp spec fn json_pretty(doc: JsonValue) -> Result<Seq<u8>, Seq<char>>;

/// The model of a parsed `serde_json::Value`: one variant for each of its own,
/// unsigned integers kept by `Number::as_u64`, object members in the order the
/// parsed map keeps them.
#[verifier::external_body]
fn model_of(value: serde_json::Value) -> JsonValue {
    match value {
        serde_json::Value::Null => JsonValue::Null,
        serde_json::Value::Bool(b) => JsonValue::Bool(b),
        serde_json::Value::Number(n) => JsonValue::Number(n.as_u64()),
        serde_json::Value::String(s) => JsonValue::Text(s),
        serde_json::Value::Array(items) => JsonValue::Array(items.into_iter().map(model_of).collect()),
        serde_json::Value::Object(members) => JsonValue::Object(members.into_iter().map(|(k, v)| (k, model_of(v))).collect()),
    }
}

/// The `serde_json::Value` of a model: one variant for each of its own; a number
/// without an unsigned value becomes `null`.
#[verifier::external_body]
fn value_of(doc: &JsonValue) -> serde_json::Value {
    match doc {
        JsonValue::Null | JsonValue::Number(None) => serde_json::Value::Null,
        JsonValue::Bool(b) => serde_json::Value::Bool(*b),
        JsonValue::Number(Some(n)) => serde_json::Value::from(*n),
        JsonValue::Text(s) => serde_json::Value::String(s.clone()),
        JsonValue::Array(items) => serde_json::Value::Array(items.iter().map(value_of).collect()),
        JsonValue::Object(members) => serde_json::Value::Object(members.iter().map(|(k, v)| (k.clone(), value_of(v))).collect()),
    }
}

/// Parses `bytes` with `serde_json::from_slice` into a `serde_json::Value` and
/// returns its model, or the parse error's text. The contract claims only that
/// the outcome is a function of the bytes, named [`json_document`].
#[verifier::external_body]
fn parse_json(bytes: &[u8]) -> (res: Result<JsonValue, String>)
    ensures
        match res {
            Ok(doc) => json_document(bytes@) == Ok::<JsonValue, Seq<char>>(doc),
            Err(m) => json_document(bytes@) == Err::<JsonValue, Seq<char>>(m@),
        },
{
    match serde_json::from_slice::<serde_json::Value>(bytes) {
        Ok(value) => Ok(model_of(value)),
        Err(e) => Err(e.to_string()),
    }
}

/// Writes `doc` with `serde_json::to_vec_pretty`, or returns the error's text.
/// The outcome is a function of the document, named [`json_pretty`]. For a
/// document that nests at most [`JSON_NESTING_LIMIT`] deep and repeats no key in
/// an object, the contract also claims what `serde_json`'s source shows: writing
/// a `serde_json::Value` (string keys only) into a byte vector succeeds, and
/// `serde_json::from_slice` reads the bytes back as the document's content with
/// a number that has no unsigned value turned into `null` and object members in
/// ascending key order, the order of the `BTreeMap` that holds them (byte order of
/// UTF-8 keys, which is the order of their characters). The text of a writing
/// error is left unsaid.
#[verifier::external_body]
fn pretty_json(doc: &JsonValue) -> (res: Result<Vec<u8>, String>)
    ensures
        match res {
            Ok(b) => json_pretty(*doc) == Ok::<Seq<u8>, Seq<char>>(b@),
            Err(m) => json_pretty(*doc) == Err::<Seq<u8>, Seq<char>>(m@),
        },
        json_writable(json_model(*doc), JSON_NESTING_LIMIT as nat) ==> res is Ok,
        res matches Ok(b) ==> (json_writable(json_model(*doc), JSON_NESTING_LIMIT as nat) ==> (json_document(b@) matches Ok(d) && json_model(d) == json_normal(json_model(*doc)))),
{
    match serde_json::to_vec_pretty(&value_of(doc)) {
        Ok(b) => Ok(b),
        Err(e) => Err(e.to_string()),
    }
}


// ---------------------------------------------------------------------------
// Reading written documents back

proof fn lemma_items_model(s: Seq<JsonValue>, n: nat)
    requires
        n <= s.len(),
    ensures
        items_model(s, n).len() == n,
        forall|i: int| 0 <= i < n ==> #[trigger] items_model(s, n)[i] == json_model(s[i]),
    decreases n,
{
    if n > 0 {
        lemma_items_model(s, (n - 1) as nat);
    }
}

proof fn lemma_fields_model(s: Seq<(String, JsonValue)>, n: nat)
    requires
        n <= s.len(),
    ensures
        fields_model(s, n).len() == n,
        forall|i: int| 0 <= i < n ==> #[trigger] fields_model(s, n)[i] == (s[i].0@, json_model(s[i].1)),
    decreases n,
{
    if n > 0 {
        lemma_fields_model(s, (n - 1) as nat);
    }
}

proof fn lemma_normal_items(s: Seq<JsonModel>, n: nat)
    requires
        n <= s.len(),
    ensures
        normal_items(s, n).len() == n,
        forall|i: int| 0 <= i < n ==> #[trigger] normal_items(s, n)[i] == json_normal(s[i]),
    decreases n,
{
    if n > 0 {
        lemma_normal_items(s, (n - 1) as nat);
    }
}

/// `put_member` inserts its member at one position and keeps the others in order.
proof fn lemma_put_member(ms: Seq<(Seq<char>, JsonModel)>, k: Seq<char>, v: JsonModel) -> (j: int)
    ensures
        0 <= j <= ms.len(),
        put_member(ms, k, v) == ms.take(j).push((k, v)) + ms.skip(j),
    decreases ms.len(),
{
    if ms.len() == 0 || !text_less(ms[0].0, k) {
        assert(put_member(ms, k, v) =~= ms.take(0).push((k, v)) + ms.skip(0));
        0
    } else {
        let rest = ms.drop_first();
        let j = lemma_put_member(rest, k, v);
        assert(put_member(ms, k, v) =~= ms.take(j + 1).push((k, v)) + ms.skip(j + 1));
        j + 1
    }
}

/// Normalising the first `n` members of an object without repeated keys keeps
/// each member, normalised, and repeats no key.
proof fn lemma_normal_members(ms: Seq<(Seq<char>, JsonModel)>, n: nat)
    requires
        n <= ms.len(),
        keys_unique(ms),
    ensures
        normal_members(ms, n).len() == n,
        keys_unique(normal_members(ms, n)),
        forall|i: int| 0 <= i < n ==> normal_members(ms, n).contains((#[trigger] ms[i].0, json_normal(ms[i].1))),
        forall|j: int| 0 <= j < n ==> exists|i: int| 0 <= i < n && #[trigger] normal_members(ms, n)[j].0 == ms[i].0,
    decreases n,
{
    if n > 0 {
        let m = (n - 1) as nat;
        lemma_normal_members(ms, m);
        let prev = normal_members(ms, m);
        let k = ms[m as int].0;
        let v = json_normal(ms[m as int].1);
        let j = lemma_put_member(prev, k, v);
        let next = normal_members(ms, n);
        assert(next == put_member(prev, k, v));
        assert(next.len() == n);
        assert forall|a: int| 0 <= a < next.len() implies (a < j ==> next[a] == prev[a]) && (a == j ==> next[a] == (k, v))
            && (a > j ==> next[a] == prev[a - 1]) by {
        }
        assert forall|a: int| 0 <= a < prev.len() implies #[trigger] prev[a].0 != k by {
            let i = choose|i: int| 0 <= i < m && #[trigger] prev[a].0 == ms[i].0;
            assert(prev[a].0 == ms[i].0);
        }
        assert forall|a: int, b: int| 0 <= a < b < next.len() implies #[trigger] next[a].0 != #[trigger] next[b].0 by {
            if a < j && b < j {
            } else if a < j && b == j {
                assert(prev[a].0 != k);
            } else if a < j {
                assert(next[b] == prev[b - 1]);
            } else if a == j {
                assert(next[b] == prev[b - 1]);
                assert(prev[b - 1].0 != k);
            } else {
                assert(next[a] == prev[a - 1] && next[b] == prev[b - 1]);
            }
        }
        assert forall|i: int| 0 <= i < n implies next.contains((#[trigger] ms[i].0, json_normal(ms[i].1))) by {
            if i == m {
                assert(next[j] == (k, v));
            } else {
                let x = (ms[i].0, json_normal(ms[i].1));
                assert(prev.contains(x));
                let a = choose|a: int| 0 <= a < prev.len() && prev[a] == x;
                if a < j {
                    assert(next[a] == x);
                } else {
                    assert(next[a + 1] == x);
                }
            }
        }
        assert forall|b: int| 0 <= b < n implies exists|i: int| 0 <= i < n && #[trigger] next[b].0 == ms[i].0 by {
            if b == j {
                assert(next[b].0 == ms[m as int].0);
            } else if b < j {
                let i = choose|i: int| 0 <= i < m && #[trigger] prev[b].0 == ms[i].0;
                assert(next[b].0 == ms[i].0);
            } else {
                let i = choose|i: int| 0 <= i < m && #[trigger] prev[b - 1].0 == ms[i].0;
                assert(next[b].0 == ms[i].0);
            }
        }
    }
}

/// Member `i` of an object without repeated keys is found under its key in an
/// object whose content is the first one's normalised, holding its value
/// normalised.
proof fn lemma_read_back_member(f: Seq<(String, JsonValue)>, g: Seq<(String, JsonValue)>, i: int)
    requires
        0 <= i < f.len(),
        keys_unique(fields_model(f, f.len())),
        fields_model(g, g.len()) == normal_members(fields_model(f, f.len()), f.len()),
    ensures
        g.len() == f.len(),
        member(g, f[i].0@) matches Some(x) && json_model(x) == json_normal(json_model(f[i].1)),
{
    let fm = fields_model(f, f.len());
    lemma_fields_model(f, f.len());
    lemma_fields_model(g, g.len());
    lemma_normal_members(fm, f.len());
    let nm = normal_members(fm, f.len());
    assert(fm[i] == (f[i].0@, json_model(f[i].1)));
    assert(nm.contains((fm[i].0, json_normal(fm[i].1))));
    let j = choose|j: int| 0 <= j < nm.len() && nm[j] == (fm[i].0, json_normal(fm[i].1));
    assert(fields_model(g, g.len())[j] == (g[j].0@, json_model(g[j].1)));
    assert forall|k: int| 0 <= k < j implies g[k].0@ != f[i].0@ by {
        assert(fields_model(g, g.len())[k] == (g[k].0@, json_model(g[k].1)));
        assert(nm[k].0 != nm[j].0);
    }
    lemma_member_at(g, j, f[i].0@);
}

/// An entry written for a file record reads back as that record.
proof fn lemma_read_back_entry(e: JsonValue, x: JsonValue, r: FileRecordView)
    requires
        entry_reads_as(e, r),
        e matches JsonValue::Object(f) && keys_unique(fields_model(f@, f@.len())),
        json_model(x) == json_normal(json_model(e)),
    ensures
        entry_reads_as(x, r),
{
    reveal_strlit("name");
    reveal_strlit("size");
    reveal_strlit("hash");
    if let JsonValue::Object(f) = e {
        lemma_fields_model(f@, f@.len());
        lemma_model_inverse(x);
        if let JsonValue::Object(g) = x {
            let i0 = lemma_member_found(f@, "name"@);
            let i1 = lemma_member_found(f@, "size"@);
            let i2 = lemma_member_found(f@, "hash"@);
            lemma_read_back_member(f@, g@, i0);
            lemma_read_back_member(f@, g@, i1);
            lemma_read_back_member(f@, g@, i2);
            lemma_model_inverse(member(g@, "name"@).unwrap());
            lemma_model_inverse(member(g@, "size"@).unwrap());
            lemma_model_inverse(member(g@, "hash"@).unwrap());
        }
    }
}

/// What a content determines of a value: its variant, and its text, number,
/// items or members.
proof fn lemma_model_inverse(y: JsonValue)
    ensures
        json_model(y) matches JsonModel::Text(t) ==> (y matches JsonValue::Text(u) && u@ == t),
        json_model(y) matches JsonModel::Number(n) ==> y == JsonValue::Number(n),
        json_model(y) matches JsonModel::Array(ms) ==> (y matches JsonValue::Array(v) && ms == items_model(v@, v@.len())),
        json_model(y) matches JsonModel::Object(ms) ==> (y matches JsonValue::Object(v) && ms == fields_model(v@, v@.len())),
{
}

/// A member found under `name` sits at an index with that key.
proof fn lemma_member_found(s: Seq<(String, JsonValue)>, name: Seq<char>) -> (i: int)
    requires
        member(s, name) is Some,
    ensures
        0 <= i < s.len(),
        s[i].0@ == name,
        member(s, name) == Some(s[i].1),
    decreases s.len(),
{
    if s[0].0@ == name {
        0
    } else {
        let j = lemma_member_found(s.drop_first(), name);
        j + 1
    }
}


proof fn lemma_items_writable(s: Seq<JsonModel>, n: nat, room: nat)
    requires
        n <= s.len(),
        forall|i: int| 0 <= i < n ==> json_writable(#[trigger] s[i], room),
    ensures
        items_writable(s, n, room),
    decreases n,
{
    if n > 0 {
        lemma_items_writable(s, (n - 1) as nat, room);
    }
}

proof fn lemma_members_writable(s: Seq<(Seq<char>, JsonModel)>, n: nat, room: nat)
    requires
        n <= s.len(),
        forall|i: int| 0 <= i < n ==> json_writable(#[trigger] s[i].1, room),
    ensures
        members_writable(s, n, room),
    decreases n,
{
    if n > 0 {
        lemma_members_writable(s, (n - 1) as nat, room);
    }
}

/// The members of a written manifest entry have three different keys, and the
/// entry is writable within any positive room.
proof fn lemma_entry_keys(e: JsonValue, r: FileRecordView, room: nat)
    requires
        super::manifest::entry_of(e, r),
        room > 0,
    ensures
        e matches JsonValue::Object(f) && keys_unique(fields_model(f@, f@.len())),
        json_writable(json_model(e), room),
{
    reveal_strlit("name");
    reveal_strlit("size");
    reveal_strlit("hash");
    if let JsonValue::Object(f) = e {
        lemma_fields_model(f@, f@.len());
        let fm = fields_model(f@, f@.len());
        assert(fm[0].0 == "name"@ && fm[1].0 == "size"@ && fm[2].0 == "hash"@);
        assert("name"@ != "size"@) by { assert("name"@[0] != "size"@[0]); }
        assert("name"@ != "hash"@) by { assert("name"@[0] != "hash"@[0]); }
        assert("size"@ != "hash"@) by { assert("size"@[0] != "hash"@[0]); }
        assert(keys_unique(fm));
        assert forall|i: int| 0 <= i < 3 implies json_writable(#[trigger] fm[i].1, (room - 1) as nat) by {
            assert(fm[i].1 == json_model(f@[i].1));
        }
        lemma_members_writable(fm, 3, (room - 1) as nat);
    }
}

/// The keys of a written manifest document are five different names.
proof fn lemma_document_keys(doc: JsonValue, fv: u64, tv: u64, sh: Seq<char>, dh: Seq<char>, files: Seq<FileRecordView>)
    requires
        document_of(doc, fv, tv, sh, dh, files),
    ensures
        doc matches JsonValue::Object(f) && keys_unique(fields_model(f@, f@.len())),
{
    reveal_strlit("format_version");
    reveal_strlit("template_version");
    reveal_strlit("schema_hash");
    reveal_strlit("data_hash");
    reveal_strlit("files");
    if let JsonValue::Object(f) = doc {
        lemma_fields_model(f@, f@.len());
        let fm = fields_model(f@, f@.len());
        assert(fm[0].0.len() == 14 && fm[1].0.len() == 16 && fm[2].0.len() == 11);
        assert(fm[3].0.len() == 9 && fm[4].0.len() == 5);
        assert(keys_unique(fm));
    }
}

/// A written manifest document nests two deep and repeats no key, so it can be
/// written and read back.
pub proof fn lemma_manifest_document_writable(doc: JsonValue, fv: u64, tv: u64, sh: Seq<char>, dh: Seq<char>, files: Seq<FileRecordView>)
    requires
        document_of(doc, fv, tv, sh, dh, files),
    ensures
        json_writable(json_model(doc), JSON_NESTING_LIMIT as nat),
{
    lemma_document_keys(doc, fv, tv, sh, dh, files);
    if let JsonValue::Object(f) = doc {
        let fm = fields_model(f@, f@.len());
        lemma_fields_model(f@, f@.len());
        if let JsonValue::Array(entries) = f@[4].1 {
            let n = entries@.len();
            lemma_items_model(entries@, n);
            let im = items_model(entries@, n);
            assert forall|i: int| 0 <= i < n implies json_writable(#[trigger] im[i], 98) by {
                lemma_entry_keys(entries@[i], files[i], 98);
            }
            lemma_items_writable(im, n, 98);
        }
        assert forall|i: int| 0 <= i < 5 implies json_writable(#[trigger] fm[i].1, 99) by {
            assert(fm[i].1 == json_model(f@[i].1));
        }
        lemma_members_writable(fm, 5, 99);
    }
}

/// A document whose content is a written manifest document's, normalised, reads
/// as that document.
proof fn lemma_read_back_document(doc: JsonValue, d: JsonValue, fv: u64, tv: u64, sh: Seq<char>, dh: Seq<char>, files: Seq<FileRecordView>)
    requires
        document_of(doc, fv, tv, sh, dh, files),
        json_model(d) == json_normal(json_model(doc)),
    ensures
        document_reads_as(d, fv, tv, sh, dh, files),
{
    reveal_strlit("format_version");
    reveal_strlit("template_version");
    reveal_strlit("schema_hash");
    reveal_strlit("data_hash");
    reveal_strlit("files");
    lemma_document_keys(doc, fv, tv, sh, dh, files);
    if let JsonValue::Object(f) = doc {
        lemma_fields_model(f@, f@.len());
        lemma_model_inverse(d);
        if let JsonValue::Object(g) = d {
            let r = f@;
            lemma_read_back_member(r, g@, 0);
            lemma_read_back_member(r, g@, 1);
            lemma_read_back_member(r, g@, 2);
            lemma_read_back_member(r, g@, 3);
            lemma_read_back_member(r, g@, 4);
            lemma_model_inverse(member(g@, "format_version"@).unwrap());
            lemma_model_inverse(member(g@, "template_version"@).unwrap());
            lemma_model_inverse(member(g@, "schema_hash"@).unwrap());
            lemma_model_inverse(member(g@, "data_hash"@).unwrap());
            let y = member(g@, "files"@).unwrap();
            lemma_model_inverse(y);
            if let JsonValue::Array(entries) = r[4].1 {
                let n = entries@.len();
                lemma_items_model(entries@, n);
                lemma_normal_items(items_model(entries@, n), n);
                if let JsonValue::Array(v) = y {
                    lemma_items_model(v@, v@.len());
                    assert forall|i: int| 0 <= i < files.len() implies entry_reads_as(#[trigger] v@[i], files[i]) by {
                        assert(items_model(v@, v@.len())[i] == json_model(v@[i]));
                        assert(items_model(entries@, n)[i] == json_model(entries@[i]));
                        lemma_entry_keys(entries@[i], files[i], 1);
                        lemma_document_reads_as(doc, fv, tv, sh, dh, files);
                        assert(member(r, "files"@) == Some(r[4].1)) by {
                            lemma_member_at(r, 4, "files"@);
                        }
                        lemma_read_back_entry(entries@[i], v@[i], files[i]);
                    }
                }
            }
        }
    }
}

/// Reading back a written manifest text: the text that `manifest_bytes` writes
/// for the manifest document of records of exactly the expected table files, in
/// file name order, within the file and package size limits, with the current
/// versions and the schema and data fingerprints, and that `serde_json` reads back
/// as the document's normalised content, passes every check of
/// `check_manifest_bytes` and gives back those records.
pub proof fn lemma_written_manifest_reads_back(doc: JsonValue, files: Seq<FileRecordView>, expected: Seq<(Seq<char>, Seq<char>)>, bytes: Seq<u8>, manifest_path: Seq<char>)
    requires
        document_of(doc, FORMAT_VERSION, TEMPLATE_VERSION, fingerprint(schema_message()), fingerprint(data_message(files)), files),
        spec_expected_files() == Ok::<Seq<(Seq<char>, Seq<char>)>, ErrorSite>(expected),
        files.len() == expected.len(),
        forall|i: int| 0 <= i < files.len() ==> (#[trigger] files[i]).name == expected[i].0,
        forall|i: int| 0 <= i < files.len() ==> (#[trigger] files[i]).size <= MAX_FILE_BYTES,
        records_total(files) <= MAX_PACKAGE_BYTES,
        bytes.len() <= MAX_MANIFEST_BYTES,
        json_document(bytes) matches Ok(d) && json_model(d) == json_normal(json_model(doc)),
    ensures
        spec_check_manifest_bytes(bytes, manifest_path) == Ok::<Seq<FileRecordView>, ErrorSite>(files),
{
    let d = json_document(bytes)->Ok_0;
    lemma_read_back_document(doc, d, FORMAT_VERSION, TEMPLATE_VERSION, fingerprint(schema_message()), fingerprint(data_message(files)), files);
    lemma_written_manifest_checks(d, files, expected, file_at(manifest_path));
}

/// What checking the manifest text `bytes` at `manifest_path` gives: a size
/// failure above the manifest limit, a package failure with the parser's message
/// where the text is not JSON, else what checking the parsed document gives.
pub open spec fn spec_check_manifest_bytes(bytes: Seq<u8>, manifest_path: Seq<char>) -> Result<Seq<super::manifest::FileRecordView>, ErrorSite> {
    if bytes.len() > MAX_MANIFEST_BYTES {
        Err(site_with(ConfigErrorKind::Capacity, file_at(manifest_path), "manifest exceeds its size limit"@))
    } else {
        match json_document(bytes) {
            Err(m) => Err(site_with(ConfigErrorKind::Package, file_at(manifest_path), m)),
            Ok(doc) => spec_check_manifest(doc, file_at(manifest_path)),
        }
    }
}

/// Checks the manifest text `bytes` read from `manifest_path`: its size, its JSON
/// form, and then everything [`check_manifest`] checks. Returns the file records
/// ordered by name.
pub fn check_manifest_bytes(bytes: &[u8], manifest_path: &str) -> (res: Result<Vec<FileRecord>, ConfigError>)
    ensures
        match spec_check_manifest_bytes(bytes@, manifest_path@) {
            Err(s) => res matches Err(e) && reports(e@, s),
            Ok(records) => res matches Ok(v) && v.deep_view() == records,
        },
        res matches Ok(v) ==> records_ordered(v.deep_view()),
{
    check_manifest_size(bytes.len(), manifest_path)?;
    match parse_json(bytes) {
        Err(m) => Err(ConfigError::with_message(ConfigErrorKind::Package, ConfigLocation::file(manifest_path), m)),
        Ok(doc) => check_manifest(&doc, manifest_path),
    }
}

/// The manifest text of document `doc` written to `manifest_path`: the
/// pretty-printed JSON, a package failure with the writer's message, or a size
/// failure above the manifest limit. Text written for a document that nests at
/// most [`JSON_NESTING_LIMIT`] deep without repeated keys reads back as the
/// document's content in [`json_normal`] form.
pub fn manifest_bytes(doc: &JsonValue, manifest_path: &str) -> (res: Result<Vec<u8>, ConfigError>)
    ensures
        match json_pretty(*doc) {
            Err(m) => res matches Err(e) && reports(e@, site_with(ConfigErrorKind::Package, file_at(manifest_path@), m)),
            Ok(b) => if b.len() > MAX_MANIFEST_BYTES {
                res matches Err(e) && reports(e@, site_with(ConfigErrorKind::Capacity, file_at(manifest_path@), "manifest exceeds its size limit"@))
            } else {
                res matches Ok(v) && v@ == b
            },
        },
        json_writable(json_model(*doc), JSON_NESTING_LIMIT as nat) ==> json_pretty(*doc) is Ok,
        res matches Ok(v) ==> (json_writable(json_model(*doc), JSON_NESTING_LIMIT as nat) ==>
            (json_document(v@) matches Ok(d) && json_model(d) == json_normal(json_model(*doc)))),
{
    match pretty_json(doc) {
        Err(m) => Err(ConfigError::with_message(ConfigErrorKind::Package, ConfigLocation::file(manifest_path), m)),
        Ok(b) => {
            check_manifest_size(b.len(), manifest_path)?;
            Ok(b)
        },
    }
}

} // verus!
