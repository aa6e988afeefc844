//! The configuration table model: typed rows decoded from one binary file per
//! table, keyed by stable ID or name.

pub mod enums;
pub mod rows;

pub use enums::{
    ActionKind, AttributeRegion, DurationKind, MagnitudeKind, ModifierOperation, SelectionKind,
    SortOrder, TargetScope,
};
pub use rows::{
    Ability, AbilityAdditionalCost, AbilityAdditionalCostView, AbilityTask, AbilityTaskView,
    AbilityView, Attribute, AttributeView, Effect, EffectView, Modifier, ModifierView, Tag,
    TagView, Targeting, TargetingView,
};

use crate::config::decoding::{ByteBuf, Decode, DecodeError, DecodeLimits};
use crate::config::text::{owned, push_str, text_eq};
use vstd::prelude::*;

verus! {

/// The key that identifies a row within its table.
pub enum RowKey {
    Id(i32),
    Name(Seq<char>),
}

/// A row type of a keyed configuration table.
pub trait TableRow: Decode {
    /// The key of a row with content `v`.
    spec fn spec_key(v: <Self as DeepView>::V) -> RowKey;

    /// Whether two rows have the same key.
    fn same_key(&self, other: &Self) -> (same: bool)
        ensures
            same == (Self::spec_key(self.deep_view()) == Self::spec_key(other.deep_view())),
    ;

    /// Whether this row's key is the numeric ID `id`.
    fn has_id(&self, id: i32) -> (found: bool)
        ensures
            found == (Self::spec_key(self.deep_view()) == RowKey::Id(id)),
    ;

    /// Whether this row's key is the name `name`.
    fn has_name(&self, name: &str) -> (found: bool)
        ensures
            found == (Self::spec_key(self.deep_view()) == RowKey::Name(name@)),
    ;
}

/// No two rows share a key.
pub open spec fn keys_distinct<R: TableRow>(rows: Seq<<R as DeepView>::V>) -> bool {
    forall|i: int, j: int| 0 <= i < j < rows.len() ==> R::spec_key(rows[i]) != R::spec_key(rows[j])
}

/// The first row whose key is `key`.
pub open spec fn row_with_key<R: TableRow>(rows: Seq<<R as DeepView>::V>, key: RowKey) -> Option<<R as DeepView>::V>
    decreases rows.len(),
{
    if rows.len() == 0 {
        None
    } else if R::spec_key(rows[0]) == key {
        Some(rows[0])
    } else {
        row_with_key::<R>(rows.drop_first(), key)
    }
}

proof fn lemma_row_with_key_found<R: TableRow>(rows: Seq<<R as DeepView>::V>, key: RowKey)
    ensures
        match row_with_key::<R>(rows, key) {
            Some(v) => exists|i: int| 0 <= i < rows.len() && rows[i] == v && R::spec_key(v) == key,
            None => forall|i: int| 0 <= i < rows.len() ==> R::spec_key(#[trigger] rows[i]) != key,
        },
    decreases rows.len(),
{
    if rows.len() > 0 {
        let rest = rows.drop_first();
        lemma_row_with_key_found::<R>(rest, key);
        if R::spec_key(rows[0]) != key {
            match row_with_key::<R>(rest, key) {
                Some(v) => {
                    let i = choose|i: int| 0 <= i < rest.len() && rest[i] == v && R::spec_key(v) == key;
                    assert(rows[i + 1] == v);
                },
                None => {
                    assert forall|i: int| 0 <= i < rows.len() implies R::spec_key(#[trigger] rows[i]) != key by {
                        if i > 0 {
                            assert(rows[i] == rest[i - 1]);
                        }
                    }
                },
            }
        }
    }
}

/// A keyed lookup does not depend on the order of the rows: two tables holding
/// the same rows, each without repeated keys, find the same row for every key.
pub proof fn lemma_row_with_key_permuted<R: TableRow>(a: Seq<<R as DeepView>::V>, b: Seq<<R as DeepView>::V>, key: RowKey)
    requires
        a.to_multiset() == b.to_multiset(),
        keys_distinct::<R>(a),
        keys_distinct::<R>(b),
    ensures
        row_with_key::<R>(a, key) == row_with_key::<R>(b, key),
{
    broadcast use vstd::seq_lib::group_to_multiset_ensures;

    lemma_row_with_key_found::<R>(a, key);
    lemma_row_with_key_found::<R>(b, key);
    if let Some(v) = row_with_key::<R>(a, key) {
        let i = choose|i: int| 0 <= i < a.len() && a[i] == v && R::spec_key(v) == key;
        assert(a.contains(v));
        assert(b.to_multiset().count(v) > 0);
        assert(b.contains(v));
        let j = choose|j: int| 0 <= j < b.len() && b[j] == v;
        assert(R::spec_key(b[j]) == key);
        if let Some(w) = row_with_key::<R>(b, key) {
            let k = choose|k: int| 0 <= k < b.len() && b[k] == w && R::spec_key(w) == key;
            if k != j {
                assert(R::spec_key(b[k]) == R::spec_key(b[j]));
                if k < j {
                    assert(R::spec_key(b[k]) != R::spec_key(b[j]));
                } else {
                    assert(R::spec_key(b[j]) != R::spec_key(b[k]));
                }
            }
        }
    } else if let Some(w) = row_with_key::<R>(b, key) {
        let k = choose|k: int| 0 <= k < b.len() && b[k] == w && R::spec_key(w) == key;
        assert(b.contains(w));
        assert(a.to_multiset().count(w) > 0);
        assert(a.contains(w));
        let j = choose|j: int| 0 <= j < a.len() && a[j] == w;
        assert(R::spec_key(a[j]) != key);
    }
}

/// Why a table could not be loaded.
pub enum TableFailure {
    /// The package has no file for the table.
    Missing,
    /// Decoding failed at this byte offset (trailing bytes fail at the first of them).
    Decode(int),
    /// Two rows share a key.
    DuplicateKey,
}

/// A table loading failure.
#[derive(Debug, Clone, PartialEq)]
pub enum LubanError {
    /// The package does not provide the table.
    Loader(String),
    /// The rows violate a table rule.
    Table(String),
    /// The table bytes are malformed.
    Decode(DecodeError),
}

impl LubanError {
    /// The readable text of this failure.
    pub fn to_text(&self) -> (s: String)
        ensures
            self matches LubanError::Loader(m) ==> s@ == m@,
            self matches LubanError::Table(m) ==> s@ == m@,
            self matches LubanError::Decode(e) ==> s@ == crate::config::decoding::error::decode_error_text(e@),
    {
        match self {
            LubanError::Loader(m) => owned(m.as_str()),
            LubanError::Table(m) => owned(m.as_str()),
            LubanError::Decode(e) => e.to_text(),
        }
    }
}

/// Whether `error` reports `failure`.
pub open spec fn failure_matches(error: LubanError, failure: TableFailure) -> bool {
    match failure {
        TableFailure::Missing => error is Loader,
        TableFailure::DuplicateKey => error is Table,
        TableFailure::Decode(at) => error matches LubanError::Decode(e) && e@.offset == at,
    }
}

/// The default decoding limits.
pub open spec fn default_limits() -> DecodeLimits {
    DecodeLimits { max_collection_len: 1_000_000, max_string_bytes: 16_777_216 }
}

/// What decoding a whole table file gives: a row count and the rows, all bytes
/// consumed, with distinct keys.
pub open spec fn spec_decode_table<R: TableRow>(data: Seq<u8>, limits: DecodeLimits) -> Result<Seq<<R as DeepView>::V>, TableFailure> {
    match <Vec<R> as Decode>::spec_decode(data, 0, limits) {
        Err(at) => Err(TableFailure::Decode(at)),
        Ok((rows, end)) => if end != data.len() {
            Err(TableFailure::Decode(end))
        } else if !keys_distinct::<R>(rows) {
            Err(TableFailure::DuplicateKey)
        } else {
            Ok(rows)
        },
    }
}

/// One keyed configuration table.
#[derive(Debug, Clone, PartialEq)]
pub struct Table<R> {
    rows: Vec<R>,
}

impl<R: DeepView> DeepView for Table<R> {
    type V = Seq<<R as DeepView>::V>;

    closed spec fn deep_view(&self) -> Seq<<R as DeepView>::V> {
        self.rows.deep_view()
    }
}

impl<R: TableRow> Table<R> {
    /// A table without rows.
    pub fn empty() -> (t: Self)
        ensures
            t.deep_view() == Seq::<<R as DeepView>::V>::empty(),
    {
        let t = Table { rows: Vec::new() };
        assert(t.deep_view() =~= Seq::<<R as DeepView>::V>::empty());
        t
    }

    /// Builds a table from `rows`, rejecting rows that share a key.
    pub fn from_rows(rows: Vec<R>) -> (res: Result<Self, LubanError>)
        ensures
            res is Ok <==> keys_distinct::<R>(rows.deep_view()),
            res matches Ok(t) ==> t.deep_view() == rows.deep_view(),
            res matches Err(e) ==> e is Table,
    {
        let n = rows.len();
        let mut i: usize = 0;
        while i < n
            invariant
                n == rows@.len(),
                i <= n,
                forall|a: int, b: int| 0 <= a < b < n && a < i ==> R::spec_key(rows.deep_view()[a]) != R::spec_key(rows.deep_view()[b]),
            decreases n - i,
        {
            let mut j: usize = i + 1;
            while j < n
                invariant
                    n == rows@.len(),
                    i < n,
                    i < j <= n,
                    forall|a: int, b: int| 0 <= a < b < n && a < i ==> R::spec_key(rows.deep_view()[a]) != R::spec_key(rows.deep_view()[b]),
                    forall|b: int| i < b < j ==> R::spec_key(rows.deep_view()[i as int]) != R::spec_key(rows.deep_view()[b]),
                decreases n - j,
            {
                if rows[i].same_key(&rows[j]) {
                    proof {
                        assert(rows.deep_view()[i as int] == rows@[i as int].deep_view());
                        assert(rows.deep_view()[j as int] == rows@[j as int].deep_view());
                    }
                    return Err(LubanError::Table(owned("duplicate row key")));
                }
                assert(rows.deep_view()[i as int] == rows@[i as int].deep_view());
                assert(rows.deep_view()[j as int] == rows@[j as int].deep_view());
                j = j + 1;
            }
            i = i + 1;
        }
        Ok(Table { rows })
    }

    /// Decodes a whole table file: the row count, every row, and no trailing bytes.
    pub fn decode(buf: &mut ByteBuf) -> (res: Result<Self, LubanError>)
        requires
            old(buf)@.offset == 0,
        ensures
            match spec_decode_table::<R>(old(buf)@.data, old(buf)@.limits) {
                Ok(rows) => res matches Ok(t) && t.deep_view() == rows,
                Err(failure) => res matches Err(e) && failure_matches(e, failure),
            },
    {
        let rows = match <Vec<R> as Decode>::decode(buf) {
            Ok(rows) => rows,
            Err(e) => return Err(LubanError::Decode(e)),
        };
        if let Err(e) = buf.finish() {
            return Err(LubanError::Decode(e));
        }
        Table::from_rows(rows)
    }

    /// All rows in stored order.
    pub fn rows(&self) -> (rows: &Vec<R>)
        ensures
            rows.deep_view() == self.deep_view(),
    {
        &self.rows
    }

    /// The number of rows.
    pub fn len(&self) -> (n: usize)
        ensures
            n == self.deep_view().len(),
    {
        self.rows.len()
    }

    /// The row with numeric ID `id`, or `None` when absent.
    pub fn get(&self, id: i32) -> (row: Option<&R>)
        ensures
            match row {
                Some(r) => row_with_key::<R>(self.deep_view(), RowKey::Id(id)) == Some(r.deep_view()),
                None => row_with_key::<R>(self.deep_view(), RowKey::Id(id)) is None,
            },
    {
        let n = self.rows.len();
        let mut i: usize = 0;
        assert(self.deep_view().subrange(0, n as int) =~= self.deep_view());
        while i < n
            invariant
                n == self.rows@.len(),
                n == self.deep_view().len(),
                i <= n,
                row_with_key::<R>(self.deep_view(), RowKey::Id(id)) == row_with_key::<R>(self.deep_view().subrange(i as int, n as int), RowKey::Id(id)),
            decreases n - i,
        {
            proof {
                let rest = self.deep_view().subrange(i as int, n as int);
                assert(rest.drop_first() =~= self.deep_view().subrange(i + 1, n as int));
            }
            assert(self.deep_view()[i as int] == self.rows@[i as int].deep_view());
            if self.rows[i].has_id(id) {
                return Some(&self.rows[i]);
            }
            i = i + 1;
        }
        None
    }

    /// The row named `name`, or `None` when absent.
    pub fn get_by_name(&self, name: &str) -> (row: Option<&R>)
        ensures
            match row {
                Some(r) => row_with_key::<R>(self.deep_view(), RowKey::Name(name@)) == Some(r.deep_view()),
                None => row_with_key::<R>(self.deep_view(), RowKey::Name(name@)) is None,
            },
    {
        let n = self.rows.len();
        let mut i: usize = 0;
        assert(self.deep_view().subrange(0, n as int) =~= self.deep_view());
        while i < n
            invariant
                n == self.rows@.len(),
                n == self.deep_view().len(),
                i <= n,
                row_with_key::<R>(self.deep_view(), RowKey::Name(name@)) == row_with_key::<R>(self.deep_view().subrange(i as int, n as int), RowKey::Name(name@)),
            decreases n - i,
        {
            proof {
                let rest = self.deep_view().subrange(i as int, n as int);
                assert(rest.drop_first() =~= self.deep_view().subrange(i + 1, n as int));
            }
            assert(self.deep_view()[i as int] == self.rows@[i as int].deep_view());
            if self.rows[i].has_name(name) {
                return Some(&self.rows[i]);
            }
            i = i + 1;
        }
        None
    }
}

/// A failure to load one table of a package.
#[derive(Debug, Clone, PartialEq)]
pub struct TablesError {
    /// The table name, without the `.bytes` suffix.
    pub table: &'static str,
    /// What went wrong.
    pub error: LubanError,
}

/// `i` is the first position of a file named `name`.
pub open spec fn is_first_file(files: Seq<(Seq<char>, Seq<u8>)>, name: Seq<char>, i: int) -> bool {
    &&& 0 <= i < files.len()
    &&& files[i].0 == name
    &&& forall|j: int| 0 <= j < i ==> files[j].0 != name
}

/// The bytes of the first file named `name`.
pub open spec fn file_lookup(files: Seq<(Seq<char>, Seq<u8>)>, name: Seq<char>) -> Option<Seq<u8>> {
    if exists|i: int| is_first_file(files, name, i) {
        Some(files[choose|i: int| is_first_file(files, name, i)].1)
    } else {
        None
    }
}

/// The files left after moving out the first file named `name`.
pub open spec fn spec_take(files: Seq<(Seq<char>, Seq<u8>)>, name: Seq<char>) -> Seq<(Seq<char>, Seq<u8>)> {
    if exists|i: int| is_first_file(files, name, i) {
        files.remove(choose|i: int| is_first_file(files, name, i))
    } else {
        files
    }
}

proof fn lemma_first_file_unique(files: Seq<(Seq<char>, Seq<u8>)>, name: Seq<char>, i: int, j: int)
    requires
        is_first_file(files, name, i),
        is_first_file(files, name, j),
    ensures
        i == j,
{
}

/// Moving out a file does not change which bytes any other name finds.
proof fn lemma_lookup_after_take(files: Seq<(Seq<char>, Seq<u8>)>, taken: Seq<char>, other: Seq<char>)
    requires
        taken != other,
    ensures
        file_lookup(spec_take(files, taken), other) == file_lookup(files, other),
{
    if exists|k: int| is_first_file(files, taken, k) {
        let k = choose|k: int| is_first_file(files, taken, k);
        let rest = files.remove(k);
        if exists|i: int| is_first_file(files, other, i) {
            let i = choose|i: int| is_first_file(files, other, i);
            let i2 = if i < k { i } else { i - 1 };
            assert(i != k);
            assert forall|j: int| 0 <= j < i2 implies rest[j].0 != other by {
                if j < k {
                    assert(rest[j] == files[j]);
                } else {
                    assert(rest[j] == files[j + 1]);
                }
            }
            assert(rest[i2] == files[i]);
            assert(is_first_file(rest, other, i2));
            let c = choose|c: int| is_first_file(rest, other, c);
            lemma_first_file_unique(rest, other, c, i2);
        } else {
            if exists|c: int| is_first_file(rest, other, c) {
                let c = choose|c: int| is_first_file(rest, other, c);
                let c2 = if c < k { c } else { c + 1 };
                assert forall|j: int| 0 <= j < c2 implies files[j].0 != other by {
                    if j < k {
                        assert(rest[j] == files[j]);
                    } else if j > k {
                        assert(rest[j - 1] == files[j]);
                    }
                }
                assert(files[c2] == rest[c]);
                assert(is_first_file(files, other, c2));
            }
        }
    }
}

fn take_file(files: &mut Vec<(String, Vec<u8>)>, name: &str) -> (res: Option<Vec<u8>>)
    ensures
        final(files).deep_view() == spec_take(old(files).deep_view(), name@),
        match file_lookup(old(files).deep_view(), name@) {
            Some(bytes) => res matches Some(b) && b@ == bytes,
            None => res is None,
        },
{
    let ghost names = old(files).deep_view();
    let n = files.len();
    let mut i: usize = 0;
    while i < n
        invariant
            n == files@.len(),
            i <= n,
            files.deep_view() == names,
            names == old(files).deep_view(),
            forall|j: int| 0 <= j < i ==> names[j].0 != name@,
        decreases n - i,
    {
        assert(names[i as int].0 == files@[i as int].0@);
        if text_eq(files[i].0.as_str(), name) {
            proof {
                assert(is_first_file(names, name@, i as int));
                let c = choose|c: int| is_first_file(names, name@, c);
                lemma_first_file_unique(names, name@, c, i as int);
            }
            let ghost entry = files@[i as int];
            let (_, bytes) = files.remove(i);
            proof {
                assert(bytes == entry.1);
                assert(names[i as int].1 =~= bytes@);
                assert(file_lookup(names, name@) == Some(names[i as int].1));
                assert(files.deep_view() =~= names.remove(i as int));
                assert(spec_take(names, name@) == names.remove(i as int));
            }
            return Some(bytes);
        }
        i = i + 1;
    }
    None
}

/// What loading table `name` of row type `R` from the package `files` gives.
#[verifier::opaque]
pub open spec fn spec_load_table<R: TableRow>(files: Seq<(Seq<char>, Seq<u8>)>, name: Seq<char>) -> Result<Seq<<R as DeepView>::V>, TableFailure> {
    match file_lookup(files, name) {
        None => Err(TableFailure::Missing),
        Some(bytes) => spec_decode_table::<R>(bytes, default_limits()),
    }
}

proof fn lemma_load_table_by_lookup<R: TableRow>(
    a: Seq<(Seq<char>, Seq<u8>)>,
    b: Seq<(Seq<char>, Seq<u8>)>,
    name: Seq<char>,
)
    requires
        file_lookup(a, name) == file_lookup(b, name),
    ensures
        spec_load_table::<R>(a, name) == spec_load_table::<R>(b, name),
{
    reveal(spec_load_table);
}

fn load_table<R: TableRow>(files: &mut Vec<(String, Vec<u8>)>, name: &str) -> (res: Result<Table<R>, LubanError>)
    ensures
        final(files).deep_view() == spec_take(old(files).deep_view(), name@),
        match spec_load_table::<R>(old(files).deep_view(), name@) {
            Ok(rows) => res matches Ok(t) && t.deep_view() == rows,
            Err(failure) => res matches Err(e) && failure_matches(e, failure),
        },
{
    reveal(spec_load_table);
    match take_file(files, name) {
        None => {
            let mut message = owned("missing table '");
            push_str(&mut message, name);
            push_str(&mut message, "'");
            Err(LubanError::Loader(message))
        },
        Some(bytes) => {
            let mut buf = ByteBuf::new(bytes);
            Table::decode(&mut buf)
        },
    }
}

proof fn lemma_table_names_distinct()
    ensures
        forall|i: int, j: int| 0 <= i < 8 && 0 <= j < 8 && i != j ==> spec_table_files()[i] != spec_table_files()[j],
{
    reveal_strlit("gas_tbability");
    reveal_strlit("gas_tbabilityadditionalcost");
    reveal_strlit("gas_tbabilitytask");
    reveal_strlit("gas_tbattribute");
    reveal_strlit("gas_tbeffect");
    reveal_strlit("gas_tbmodifier");
    reveal_strlit("gas_tbtag");
    reveal_strlit("gas_tbtargeting");
    let names = spec_table_files();
    assert(names[0].len() == 13);
    assert(names[1].len() == 27);
    assert(names[2].len() == 17);
    assert(names[3].len() == 15);
    assert(names[4].len() == 12);
    assert(names[5].len() == 14);
    assert(names[6].len() == 9);
    assert(names[7].len() == 15);
    assert(names[3][6] != names[7][6]);
}

/// Loads table number `index` of the load order, keeping every later table's
/// bytes where the original package had them.
fn load_step<R: TableRow>(
    files: &mut Vec<(String, Vec<u8>)>,
    name: &'static str,
    Ghost(original): Ghost<Seq<(Seq<char>, Seq<u8>)>>,
    Ghost(index): Ghost<int>,
) -> (res: Result<Table<R>, TablesError>)
    requires
        0 <= index < 8,
        name@ == spec_table_files()[index],
        forall|i: int, j: int| 0 <= i < 8 && 0 <= j < 8 && i != j ==> spec_table_files()[i] != spec_table_files()[j],
        forall|m: int| index <= m < 8 ==> file_lookup(old(files).deep_view(), #[trigger] spec_table_files()[m]) == file_lookup(original, spec_table_files()[m]),
    ensures
        forall|m: int| index < m < 8 ==> file_lookup(final(files).deep_view(), #[trigger] spec_table_files()[m]) == file_lookup(original, spec_table_files()[m]),
        match spec_load_table::<R>(original, name@) {
            Ok(rows) => res matches Ok(t) && t.deep_view() == rows,
            Err(failure) => res matches Err(e) && e.table@ == name@ && failure_matches(e.error, failure),
        },
{
    let ghost before = files.deep_view();
    let loaded = load_table::<R>(files, name);
    proof {
        assert forall|m: int| index < m < 8 implies file_lookup(files.deep_view(), #[trigger] spec_table_files()[m]) == file_lookup(original, spec_table_files()[m]) by {
            lemma_lookup_after_take(before, name@, spec_table_files()[m]);
        }
        assert(file_lookup(before, spec_table_files()[index]) == file_lookup(original, spec_table_files()[index]));
        lemma_load_table_by_lookup::<R>(before, original, name@);
    }
    match loaded {
        Ok(table) => Ok(table),
        Err(error) => Err(TablesError { table: name, error }),
    }
}

/// The table names of a package in load order, without the `.bytes` suffix.
pub open spec fn spec_table_files() -> Seq<Seq<char>> {
    seq![
        "gas_tbability"@,
        "gas_tbabilityadditionalcost"@,
        "gas_tbabilitytask"@,
        "gas_tbattribute"@,
        "gas_tbeffect"@,
        "gas_tbmodifier"@,
        "gas_tbtag"@,
        "gas_tbtargeting"@,
    ]
}

/// Returns the table names of a package in load order, without the `.bytes` suffix.
pub fn table_files() -> (names: Vec<&'static str>)
    ensures
        names@.len() == spec_table_files().len(),
        forall|i: int| 0 <= i < names@.len() ==> names@[i]@ == spec_table_files()[i],
{
    let names = vec![
        "gas_tbability",
        "gas_tbabilityadditionalcost",
        "gas_tbabilitytask",
        "gas_tbattribute",
        "gas_tbeffect",
        "gas_tbmodifier",
        "gas_tbtag",
        "gas_tbtargeting",
    ];
    names
}

/// The mathematical content of [`Tables`]: the rows of every table.
pub struct TablesView {
    pub abilities: Seq<AbilityView>,
    pub additional_costs: Seq<AbilityAdditionalCostView>,
    pub tasks: Seq<AbilityTaskView>,
    pub attributes: Seq<AttributeView>,
    pub effects: Seq<EffectView>,
    pub modifiers: Seq<ModifierView>,
    pub tags: Seq<TagView>,
    pub targetings: Seq<TargetingView>,
}

/// Every generated configuration table.
#[derive(Debug, Clone, PartialEq)]
pub struct Tables {
    /// Rows of `gas_tbability`.
    pub tb_ability: Table<Ability>,
    /// Rows of `gas_tbabilityadditionalcost`.
    pub tb_ability_additional_cost: Table<AbilityAdditionalCost>,
    /// Rows of `gas_tbabilitytask`.
    pub tb_ability_task: Table<AbilityTask>,
    /// Rows of `gas_tbattribute`.
    pub tb_attribute: Table<Attribute>,
    /// Rows of `gas_tbeffect`.
    pub tb_effect: Table<Effect>,
    /// Rows of `gas_tbmodifier`.
    pub tb_modifier: Table<Modifier>,
    /// Rows of `gas_tbtag`.
    pub tb_tag: Table<Tag>,
    /// Rows of `gas_tbtargeting`.
    pub tb_targeting: Table<Targeting>,
}

impl DeepView for Tables {
    type V = TablesView;

    open spec fn deep_view(&self) -> TablesView {
        TablesView {
            abilities: self.tb_ability.deep_view(),
            additional_costs: self.tb_ability_additional_cost.deep_view(),
            tasks: self.tb_ability_task.deep_view(),
            attributes: self.tb_attribute.deep_view(),
            effects: self.tb_effect.deep_view(),
            modifiers: self.tb_modifier.deep_view(),
            tags: self.tb_tag.deep_view(),
            targetings: self.tb_targeting.deep_view(),
        }
    }
}

/// What loading the package `files` gives: every table, or the first table in
/// load order that is missing, malformed or holds a duplicate key.
pub open spec fn spec_load_tables(files: Seq<(Seq<char>, Seq<u8>)>) -> Result<TablesView, (Seq<char>, TableFailure)> {
    match spec_load_table::<Ability>(files, "gas_tbability"@) {
        Err(failure) => Err(("gas_tbability"@, failure)),
        Ok(abilities) => 
        match spec_load_table::<AbilityAdditionalCost>(files, "gas_tbabilityadditionalcost"@) {
            Err(failure) => Err(("gas_tbabilityadditionalcost"@, failure)),
            Ok(additional_costs) => 
            match spec_load_table::<AbilityTask>(files, "gas_tbabilitytask"@) {
                Err(failure) => Err(("gas_tbabilitytask"@, failure)),
                Ok(tasks) => 
                match spec_load_table::<Attribute>(files, "gas_tbattribute"@) {
                    Err(failure) => Err(("gas_tbattribute"@, failure)),
                    Ok(attributes) => 
                    match spec_load_table::<Effect>(files, "gas_tbeffect"@) {
                        Err(failure) => Err(("gas_tbeffect"@, failure)),
                        Ok(effects) => 
                        match spec_load_table::<Modifier>(files, "gas_tbmodifier"@) {
                            Err(failure) => Err(("gas_tbmodifier"@, failure)),
                            Ok(modifiers) => 
                            match spec_load_table::<Tag>(files, "gas_tbtag"@) {
                                Err(failure) => Err(("gas_tbtag"@, failure)),
                                Ok(tags) => 
                                match spec_load_table::<Targeting>(files, "gas_tbtargeting"@) {
                                    Err(failure) => Err(("gas_tbtargeting"@, failure)),
                                    Ok(targetings) => 
                                    Ok(TablesView { abilities, additional_costs, tasks, attributes, effects, modifiers, tags, targetings }),
                                }
                            }
                        }
                    }
                }
            }
        }
    }
}

impl Tables {
    /// Decodes every table from the package `files` (table name without suffix and
    /// file bytes), moving each table's bytes into its decoder. Returns the first
    /// table in load order that is missing, malformed or holds a duplicate key.
    pub fn new(files: Vec<(String, Vec<u8>)>) -> (res: Result<Tables, TablesError>)
        ensures
            match spec_load_tables(files.deep_view()) {
                Ok(v) => res matches Ok(t) && t.deep_view() == v,
                Err((name, failure)) => res matches Err(e) && e.table@ == name && failure_matches(e.error, failure),
            },
    {
        let mut files = files;
        let ghost original = files.deep_view();
        proof {
            lemma_table_names_distinct();
        }
        let abilities = load_step::<Ability>(&mut files, "gas_tbability", Ghost(original), Ghost(0))?;
        let additional_costs = load_step::<AbilityAdditionalCost>(&mut files, "gas_tbabilityadditionalcost", Ghost(original), Ghost(1))?;
        let tasks = load_step::<AbilityTask>(&mut files, "gas_tbabilitytask", Ghost(original), Ghost(2))?;
        let attributes = load_step::<Attribute>(&mut files, "gas_tbattribute", Ghost(original), Ghost(3))?;
        let effects = load_step::<Effect>(&mut files, "gas_tbeffect", Ghost(original), Ghost(4))?;
        let modifiers = load_step::<Modifier>(&mut files, "gas_tbmodifier", Ghost(original), Ghost(5))?;
        let tags = load_step::<Tag>(&mut files, "gas_tbtag", Ghost(original), Ghost(6))?;
        let targetings = load_step::<Targeting>(&mut files, "gas_tbtargeting", Ghost(original), Ghost(7))?;
        Ok(Tables { tb_ability: abilities, tb_ability_additional_cost: additional_costs, tb_ability_task: tasks, tb_attribute: attributes, tb_effect: effects, tb_modifier: modifiers, tb_tag: tags, tb_targeting: targetings })
    }
}

impl Tables {
    /// Tables without rows.
    pub fn empty() -> (t: Tables)
        ensures
            t.deep_view().abilities.len() == 0,
            t.deep_view().additional_costs.len() == 0,
            t.deep_view().tasks.len() == 0,
            t.deep_view().attributes.len() == 0,
            t.deep_view().effects.len() == 0,
            t.deep_view().modifiers.len() == 0,
            t.deep_view().tags.len() == 0,
            t.deep_view().targetings.len() == 0,
    {
        Tables {
            tb_ability: Table::empty(),
            tb_ability_additional_cost: Table::empty(),
            tb_ability_task: Table::empty(),
            tb_attribute: Table::empty(),
            tb_effect: Table::empty(),
            tb_modifier: Table::empty(),
            tb_tag: Table::empty(),
            tb_targeting: Table::empty(),
        }
    }
}

} // verus!
