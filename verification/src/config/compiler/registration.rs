//! Deterministic registration orders of tags, attributes and external-cost
//! resources, and resolution of authored tag references against the registered
//! tag names.

use super::preparation::{
    PreparedAdditionalCost, PreparedCostView, PreparedTables, PreparedView, costs_of,
};
use super::validation::{first_failure, lemma_failure_persists, tag_expansion};
use crate::config::error::{
    ConfigError, ConfigErrorKind, ConfigLocation, LocationView, reports, row_at, site_with,
};
use crate::config::generated::{AttributeRegion, AttributeView, Tables, TablesView};
use crate::config::text::{
    chars_of, last_dot, last_dot_before, name_chain, owned, text_eq, text_from,
};
use vstd::prelude::*;

verus! {

// ---------------------------------------------------------------------------
// Specification

/// `a` sorts before `b`: the first differing character is smaller, or `a` is a
/// proper prefix of `b`. This is the order of `str`, whose UTF-8 byte order is
/// the order of the characters' code points.
pub open spec fn text_less(a: Seq<char>, b: Seq<char>) -> bool
    decreases a.len(),
{
    if a.len() == 0 {
        b.len() > 0
    } else if b.len() == 0 {
        false
    } else if a[0] != b[0] {
        (a[0] as int) < (b[0] as int)
    } else {
        text_less(a.drop_first(), b.drop_first())
    }
}

/// `x` placed into `s` before the first element not below it, unless that element is `x`.
pub open spec fn insert_name(s: Seq<Seq<char>>, x: Seq<char>) -> Seq<Seq<char>>
    decreases s.len(),
{
    if s.len() == 0 {
        seq![x]
    } else if x == s[0] {
        s
    } else if text_less(x, s[0]) {
        seq![x] + s
    } else {
        seq![s[0]] + insert_name(s.drop_first(), x)
    }
}

/// Every element of `xs` placed into `s` in turn by [`insert_name`].
pub open spec fn insert_names(s: Seq<Seq<char>>, xs: Seq<Seq<char>>) -> Seq<Seq<char>>
    decreases xs.len(),
{
    if xs.len() == 0 {
        s
    } else {
        insert_name(insert_names(s, xs.drop_last()), xs.last())
    }
}

/// The registered tag names: every tag row and each of its implicit parents, in
/// ascending order and without repeats.
pub open spec fn registered_tags(t: TablesView) -> Seq<Seq<char>> {
    insert_names(Seq::empty(), tag_expansion(t, t.tags.len()))
}

/// The parent of a tag name: the text before its last dot.
pub open spec fn parent_name(name: Seq<char>) -> Option<Seq<char>> {
    match last_dot(name) {
        Some(k) => Some(name.take(k)),
        None => None,
    }
}

/// `row` placed into `s` after every element whose name does not sort after its name.
pub open spec fn insert_attribute(s: Seq<AttributeView>, row: AttributeView) -> Seq<AttributeView>
    decreases s.len(),
{
    if s.len() == 0 {
        seq![row]
    } else if text_less(row.name, s[0].name) {
        seq![row] + s
    } else {
        seq![s[0]] + insert_attribute(s.drop_first(), row)
    }
}

/// The first `n` attribute rows ordered by name, keeping row order among equal names.
pub open spec fn attributes_by_name(t: TablesView, n: nat) -> Seq<AttributeView>
    decreases n,
{
    if n == 0 {
        Seq::empty()
    } else {
        insert_attribute(attributes_by_name(t, (n - 1) as nat), t.attributes[n - 1])
    }
}

/// `(name, id)` placed into `s` before the first entry whose name is not below
/// `name`, unless that entry has the same name.
pub open spec fn insert_resource(s: Seq<(Seq<char>, i32)>, name: Seq<char>, id: i32) -> Seq<(Seq<char>, i32)>
    decreases s.len(),
{
    if s.len() == 0 {
        seq![(name, id)]
    } else if name == s[0].0 {
        s
    } else if text_less(name, s[0].0) {
        seq![(name, id)] + s
    } else {
        seq![s[0]] + insert_resource(s.drop_first(), name, id)
    }
}

/// Every cost of `costs` placed into `s` in turn by [`insert_resource`].
pub open spec fn insert_resources(s: Seq<(Seq<char>, i32)>, costs: Seq<PreparedCostView>) -> Seq<(Seq<char>, i32)>
    decreases costs.len(),
{
    if costs.len() == 0 {
        s
    } else {
        let c = costs.last();
        insert_resource(insert_resources(s, costs.drop_last()), c.resource, c.id)
    }
}

/// The external-cost resources of the first `n` abilities, ascending by name, each
/// with the first cost row that names it.
pub open spec fn resources_upto(t: TablesView, p: PreparedView, n: nat) -> Seq<(Seq<char>, i32)>
    decreases n,
{
    if n == 0 {
        Seq::empty()
    } else {
        insert_resources(resources_upto(t, p, (n - 1) as nat), costs_of(t, p, t.abilities[n - 1].id))
    }
}

/// The first of `names` that is not a registered tag, as its tag location.
pub open spec fn tag_resolution_check(registered: Seq<Seq<char>>, names: Seq<Seq<char>>) -> spec_fn(int) -> Option<LocationView> {
    |i: int| if registered.contains(names[i]) {
        None
    } else {
        Some(row_at("Tag"@, names[i]))
    }
}

/// The first of `names` that is not a registered tag.
pub open spec fn tag_resolution_failure(registered: Seq<Seq<char>>, names: Seq<Seq<char>>) -> Option<LocationView> {
    first_failure(tag_resolution_check(registered, names), names.len())
}

// ---------------------------------------------------------------------------
// The order of texts

pub proof fn lemma_text_less_irreflexive(a: Seq<char>)
    ensures
        !text_less(a, a),
    decreases a.len(),
{
    if a.len() > 0 {
        lemma_text_less_irreflexive(a.drop_first());
    }
}

pub proof fn lemma_text_less_total(a: Seq<char>, b: Seq<char>)
    ensures
        a == b || text_less(a, b) || text_less(b, a),
        !(text_less(a, b) && text_less(b, a)),
    decreases a.len(),
{
    if a.len() > 0 && b.len() > 0 && a[0] == b[0] {
        lemma_text_less_total(a.drop_first(), b.drop_first());
        if a.drop_first() == b.drop_first() {
            assert(a =~= seq![a[0]] + a.drop_first());
            assert(b =~= seq![b[0]] + b.drop_first());
        }
    } else if a.len() == 0 && b.len() == 0 {
        assert(a =~= b);
    } else if a.len() > 0 && b.len() > 0 {
        assert((a[0] as int) != (b[0] as int));
    }
}

pub proof fn lemma_text_less_transitive(a: Seq<char>, b: Seq<char>, c: Seq<char>)
    requires
        text_less(a, b),
        text_less(b, c),
    ensures
        text_less(a, c),
    decreases a.len(),
{
    if a.len() > 0 && b.len() > 0 && c.len() > 0 && a[0] == b[0] && b[0] == c[0] {
        lemma_text_less_transitive(a.drop_first(), b.drop_first(), c.drop_first());
    }
}

proof fn lemma_prefix_less(a: Seq<char>, k: int)
    requires
        0 <= k < a.len(),
    ensures
        text_less(a.take(k), a),
    decreases k,
{
    if k > 0 {
        lemma_prefix_less(a.drop_first(), k - 1);
        assert(a.take(k).drop_first() =~= a.drop_first().take(k - 1));
    }
}

/// The texts are strictly ascending.
pub open spec fn texts_ascending(s: Seq<Seq<char>>) -> bool {
    forall|i: int, j: int| 0 <= i < j < s.len() ==> text_less(#[trigger] s[i], #[trigger] s[j])
}

proof fn name_insertion_point(s: Seq<Seq<char>>, x: Seq<char>) -> (j: int)
    ensures
        0 <= j <= s.len(),
        forall|k: int| 0 <= k < j ==> s[k] != x && !text_less(x, #[trigger] s[k]),
        j == s.len() || s[j] == x || text_less(x, s[j]),
    decreases s.len(),
{
    if s.len() == 0 || s[0] == x || text_less(x, s[0]) {
        0
    } else {
        let rest = s.drop_first();
        let r = name_insertion_point(rest, x);
        assert forall|k: int| 0 <= k < r + 1 implies s[k] != x && !text_less(x, #[trigger] s[k]) by {
            if k > 0 {
                assert(s[k] == rest[k - 1]);
            }
        }
        if r < rest.len() {
            assert(s[r + 1] == rest[r]);
        }
        r + 1
    }
}

proof fn lemma_insert_name_sorted(s: Seq<Seq<char>>, x: Seq<char>)
    requires
        texts_ascending(s),
    ensures
        texts_ascending(insert_name(s, x)),
        forall|y: Seq<char>| insert_name(s, x).contains(y) <==> (s.contains(y) || y == x),
{
    let j = name_insertion_point(s, x);
    lemma_insert_name_at(s, x, j);
    if j < s.len() && s[j] == x {
        assert(insert_name(s, x) == s);
        assert(s.contains(x));
        assert forall|y: Seq<char>| insert_name(s, x).contains(y) <==> (s.contains(y) || y == x) by {
            if y == x {
                assert(s[j] == y);
            }
        }
    } else {
        let n = s.insert(j, x);
        if j == s.len() {
            assert(s.push(x) =~= n);
        }
        assert(insert_name(s, x) == n);
        assert forall|k: int| 0 <= k < j implies text_less(#[trigger] s[k], x) by {
            lemma_text_less_total(s[k], x);
        }
        assert forall|a: int, b: int| 0 <= a < b < n.len() implies text_less(#[trigger] n[a], #[trigger] n[b]) by {
            if b < j {
                assert(n[a] == s[a] && n[b] == s[b]);
            } else if b == j {
                assert(n[a] == s[a] && n[b] == x);
            } else if a == j {
                assert(n[a] == x && n[b] == s[b - 1]);
                if b - 1 > j {
                    lemma_text_less_transitive(x, s[j], s[b - 1]);
                }
            } else if a < j {
                assert(n[a] == s[a] && n[b] == s[b - 1]);
            } else {
                assert(n[a] == s[a - 1] && n[b] == s[b - 1]);
            }
        }
        assert forall|y: Seq<char>| n.contains(y) <==> (s.contains(y) || y == x) by {
            if n.contains(y) {
                let i = choose|i: int| 0 <= i < n.len() && n[i] == y;
                if i < j {
                    assert(s[i] == y);
                } else if i > j {
                    assert(s[i - 1] == y);
                }
            }
            if s.contains(y) {
                let i = choose|i: int| 0 <= i < s.len() && s[i] == y;
                if i < j {
                    assert(n[i] == y);
                } else {
                    assert(n[i + 1] == y);
                }
            }
            if y == x {
                assert(n[j] == x);
            }
        }
    }
}

proof fn lemma_insert_names_sorted(s: Seq<Seq<char>>, xs: Seq<Seq<char>>)
    requires
        texts_ascending(s),
    ensures
        texts_ascending(insert_names(s, xs)),
        forall|y: Seq<char>| insert_names(s, xs).contains(y) <==> (s.contains(y) || xs.contains(y)),
    decreases xs.len(),
{
    if xs.len() > 0 {
        let rest = xs.drop_last();
        lemma_insert_names_sorted(s, rest);
        lemma_insert_name_sorted(insert_names(s, rest), xs.last());
        assert forall|y: Seq<char>| insert_names(s, xs).contains(y) <==> (s.contains(y) || xs.contains(y)) by {
            if xs.contains(y) && y != xs.last() {
                let i = choose|i: int| 0 <= i < xs.len() && xs[i] == y;
                assert(rest[i] == y);
            }
            if rest.contains(y) {
                let i = choose|i: int| 0 <= i < rest.len() && rest[i] == y;
                assert(xs[i] == y);
            }
            assert(xs[xs.len() - 1] == xs.last());
        }
    }
}

proof fn lemma_chain_closed(name: Seq<char>)
    ensures
        forall|i: int| 0 <= i < name_chain(name).len() ==>
            (parent_name(#[trigger] name_chain(name)[i]) matches Some(p) ==> name_chain(name).contains(p)),
    decreases name.len(),
{
    lemma_last_dot_position(name);
    match last_dot(name) {
        Some(k) => {
            let rest = name_chain(name.take(k));
            lemma_chain_closed(name.take(k));
            assert(name_chain(name) == seq![name] + rest);
            assert forall|i: int| 0 <= i < name_chain(name).len() implies
                (parent_name(#[trigger] name_chain(name)[i]) matches Some(p) ==> name_chain(name).contains(p)) by {
                let c = name_chain(name);
                if i == 0 {
                    assert(parent_name(name) == Some(name.take(k)));
                    assert(rest[0] == name.take(k)) by {
                        lemma_chain_head(name.take(k));
                    }
                    assert(c[1] == name.take(k));
                } else {
                    assert(c[i] == rest[i - 1]);
                    if let Some(p) = parent_name(rest[i - 1]) {
                        let m = choose|m: int| 0 <= m < rest.len() && rest[m] == p;
                        assert(c[m + 1] == p);
                    }
                }
            }
        },
        None => {
            assert(name_chain(name) == seq![name]);
            assert(parent_name(name) is None);
        },
    }
}

proof fn lemma_chain_head(name: Seq<char>)
    ensures
        name_chain(name).len() > 0,
        name_chain(name)[0] == name,
{
    lemma_last_dot_position(name);
}

proof fn lemma_last_dot_position(s: Seq<char>)
    ensures
        last_dot(s) matches Some(k) ==> 0 <= k < s.len(),
    decreases s.len(),
{
    if s.len() > 0 && s.last() != '.' {
        lemma_last_dot_position(s.drop_last());
    }
}

proof fn lemma_expansion_closed(t: TablesView, n: nat)
    requires
        n <= t.tags.len(),
    ensures
        forall|i: int| 0 <= i < tag_expansion(t, n).len() ==>
            (parent_name(#[trigger] tag_expansion(t, n)[i]) matches Some(p) ==> tag_expansion(t, n).contains(p)),
    decreases n,
{
    if n > 0 {
        lemma_expansion_closed(t, (n - 1) as nat);
        let before = tag_expansion(t, (n - 1) as nat);
        let chain = name_chain(t.tags[n - 1].name);
        lemma_chain_closed(t.tags[n - 1].name);
        let all = tag_expansion(t, n);
        assert(all == before + chain);
        assert forall|i: int| 0 <= i < all.len() implies
            (parent_name(#[trigger] all[i]) matches Some(p) ==> all.contains(p)) by {
            if i < before.len() {
                assert(all[i] == before[i]);
                if let Some(p) = parent_name(before[i]) {
                    let m = choose|m: int| 0 <= m < before.len() && before[m] == p;
                    assert(all[m] == p);
                }
            } else {
                assert(all[i] == chain[i - before.len()]);
                if let Some(p) = parent_name(chain[i - before.len()]) {
                    let m = choose|m: int| 0 <= m < chain.len() && chain[m] == p;
                    assert(all[before.len() + m] == p);
                }
            }
        }
    }
}

/// The registered tags are strictly ascending, so each is registered once, and
/// the parent of every registered tag is registered before it.
pub proof fn lemma_registration_order(t: TablesView)
    ensures
        texts_ascending(registered_tags(t)),
        forall|j: int| 0 <= j < registered_tags(t).len() ==>
            (parent_name(#[trigger] registered_tags(t)[j]) matches Some(p) ==> exists|i: int| 0 <= i < j && registered_tags(t)[i] == p),
{
    let xs = tag_expansion(t, t.tags.len());
    let r = registered_tags(t);
    lemma_insert_names_sorted(Seq::empty(), xs);
    lemma_expansion_closed(t, t.tags.len());
    assert forall|j: int| 0 <= j < r.len() implies
        (parent_name(#[trigger] r[j]) matches Some(p) ==> exists|i: int| 0 <= i < j && r[i] == p) by {
        if let Some(p) = parent_name(r[j]) {
            assert(r.contains(r[j]));
            assert(xs.contains(r[j]));
            let m = choose|m: int| 0 <= m < xs.len() && xs[m] == r[j];
            assert(parent_name(xs[m]) == Some(p));
            assert(xs.contains(p));
            assert(r.contains(p));
            let i = choose|i: int| 0 <= i < r.len() && r[i] == p;
            lemma_last_dot_position(r[j]);
            let k = last_dot(r[j]).unwrap();
            lemma_prefix_less(r[j], k);
            if i >= j {
                if i == j {
                    lemma_text_less_irreflexive(p);
                } else {
                    lemma_text_less_total(r[j], r[i]);
                }
            }
        }
    }
}

// ---------------------------------------------------------------------------
// Ordering

/// Whether `a` sorts before `b` in the order of `str`.
pub fn text_before(a: &str, b: &str) -> (r: bool)
    ensures
        r == text_less(a@, b@),
{
    let x = chars_of(a);
    let y = chars_of(b);
    let mut i: usize = 0;
    assert(x@.skip(0) =~= x@);
    assert(y@.skip(0) =~= y@);
    while i < x.len() && i < y.len() && x[i] == y[i]
        invariant
            x@ == a@,
            y@ == b@,
            i <= x@.len(),
            i <= y@.len(),
            text_less(a@, b@) == text_less(x@.skip(i as int), y@.skip(i as int)),
        decreases x@.len() - i,
    {
        assert(x@.skip(i as int).drop_first() =~= x@.skip(i + 1));
        assert(y@.skip(i as int).drop_first() =~= y@.skip(i + 1));
        i = i + 1;
    }
    if i == x.len() {
        i < y.len()
    } else if i == y.len() {
        false
    } else {
        x[i] < y[i]
    }
}

proof fn lemma_insert_name_at(s: Seq<Seq<char>>, x: Seq<char>, j: int)
    requires
        0 <= j <= s.len(),
        forall|k: int| 0 <= k < j ==> s[k] != x && !text_less(x, s[k]),
        j == s.len() || s[j] == x || text_less(x, s[j]),
    ensures
        insert_name(s, x) == (if j == s.len() {
            s.push(x)
        } else if s[j] == x {
            s
        } else {
            s.insert(j, x)
        }),
    decreases j,
{
    if j == 0 {
        if s.len() == 0 {
            assert(seq![x] =~= s.push(x));
        } else if s[0] != x {
            assert(seq![x] + s =~= s.insert(0, x));
        }
    } else {
        let rest = s.drop_first();
        lemma_insert_name_at(rest, x, j - 1);
        if j == s.len() {
            assert(seq![s[0]] + rest.push(x) =~= s.push(x));
        } else if s[j] == x {
            assert(seq![s[0]] + rest =~= s);
        } else {
            assert(seq![s[0]] + rest.insert(j - 1, x) =~= s.insert(j, x));
        }
    }
}

/// Places `x` into `v` by [`insert_name`].
fn insert_name_sorted(v: &mut Vec<String>, x: String)
    ensures
        final(v).deep_view() == insert_name(old(v).deep_view(), x@),
{
    let ghost d = v.deep_view();
    let mut j: usize = 0;
    while j < v.len() && !text_eq(v[j].as_str(), x.as_str()) && !text_before(x.as_str(), v[j].as_str())
        invariant
            j <= v@.len(),
            v.deep_view() == d,
            forall|k: int| 0 <= k < j ==> d[k] != x@ && !text_less(x@, d[k]),
        decreases v@.len() - j,
    {
        assert(d[j as int] == v@[j as int]@);
        j = j + 1;
    }
    if j < v.len() {
        assert(d[j as int] == v@[j as int]@);
    }
    proof {
        lemma_insert_name_at(d, x@, j as int);
    }
    if j == v.len() {
        v.push(x);
        assert(v.deep_view() =~= d.push(x@));
    } else if !text_eq(v[j].as_str(), x.as_str()) {
        let ghost xv = x@;
        v.insert(j, x);
        assert(v.deep_view() =~= d.insert(j as int, xv));
    }
}

/// Places every name of `names` into `v` in turn.
fn insert_all_sorted(v: &mut Vec<String>, names: &Vec<String>)
    ensures
        final(v).deep_view() == insert_names(old(v).deep_view(), names.deep_view()),
{
    let ghost start = v.deep_view();
    let ghost d = names.deep_view();
    let mut i: usize = 0;
    assert(d.take(0) =~= Seq::<Seq<char>>::empty());
    while i < names.len()
        invariant
            d == names.deep_view(),
            i <= d.len(),
            v.deep_view() == insert_names(start, d.take(i as int)),
        decreases d.len() - i,
    {
        assert(d.take(i + 1).drop_last() =~= d.take(i as int));
        assert(d[i as int] == names@[i as int]@);
        insert_name_sorted(v, owned(names[i].as_str()));
        i = i + 1;
    }
    assert(d.take(d.len() as int) =~= d);
}

proof fn lemma_insert_names_concat(s: Seq<Seq<char>>, xs: Seq<Seq<char>>, ys: Seq<Seq<char>>)
    ensures
        insert_names(s, xs + ys) == insert_names(insert_names(s, xs), ys),
    decreases ys.len(),
{
    if ys.len() == 0 {
        assert(xs + ys =~= xs);
    } else {
        assert((xs + ys).drop_last() =~= xs + ys.drop_last());
        lemma_insert_names_concat(s, xs, ys.drop_last());
    }
}

/// `name` followed by each of its implicit parents.
fn tag_chain(name: &str) -> (chain: Vec<String>)
    ensures
        chain.deep_view() == name_chain(name@),
{
    let chars = chars_of(name);
    let mut end = chars.len();
    let mut chain: Vec<String> = Vec::new();
    assert(chars@.take(end as int) =~= name@);
    assert(chain.deep_view() =~= Seq::<Seq<char>>::empty());
    loop
        invariant
            end <= chars@.len(),
            chars@ == name@,
            name_chain(name@) == chain.deep_view() + name_chain(chars@.take(end as int)),
        decreases end,
    {
        let current = text_from(&chars, 0, end);
        let ghost cur = chars@.take(end as int);
        assert(current@ =~= cur);
        let ghost before = chain.deep_view();
        chain.push(current);
        assert(chain.deep_view() =~= before.push(cur));
        match last_dot_before(&chars, end) {
            Some(k) => {
                proof {
                    lemma_dot_position(cur, k as int);
                    assert(cur.take(k as int) =~= chars@.take(k as int));
                    assert(name_chain(cur) == seq![cur] + name_chain(cur.take(k as int)));
                    assert(before + (seq![cur] + name_chain(chars@.take(k as int))) =~= before.push(cur) + name_chain(chars@.take(k as int)));
                }
                end = k;
            },
            None => {
                proof {
                    assert(name_chain(cur) == seq![cur]);
                    assert(before + seq![cur] =~= before.push(cur));
                }
                return chain;
            },
        }
    }
}

proof fn lemma_dot_position(s: Seq<char>, k: int)
    requires
        last_dot(s) == Some(k),
    ensures
        0 <= k < s.len(),
    decreases s.len(),
{
    if s.len() > 0 && s.last() != '.' {
        lemma_dot_position(s.drop_last(), k);
    }
}

/// The tag names to register: every tag row and each of its implicit parents, in
/// ascending order and without repeats.
pub fn tag_registration_order(tables: &Tables) -> (names: Vec<String>)
    ensures
        names.deep_view() == registered_tags(tables.deep_view()),
{
    let ghost t = tables.deep_view();
    let rows = tables.tb_tag.rows();
    let mut names: Vec<String> = Vec::new();
    let mut i: usize = 0;
    assert(names.deep_view() =~= insert_names(Seq::empty(), tag_expansion(t, 0)));
    while i < rows.len()
        invariant
            t == tables.deep_view(),
            rows.deep_view() == t.tags,
            i <= t.tags.len(),
            names.deep_view() == insert_names(Seq::empty(), tag_expansion(t, i as nat)),
        decreases t.tags.len() - i,
    {
        assert(t.tags[i as int] == rows@[i as int].deep_view());
        let chain = tag_chain(rows[i].name.as_str());
        insert_all_sorted(&mut names, &chain);
        proof {
            lemma_insert_names_concat(Seq::empty(), tag_expansion(t, i as nat), name_chain(t.tags[i as int].name));
        }
        i = i + 1;
    }
    names
}

/// The parent of tag `name`: the text before its last dot, if it has one.
pub fn tag_parent(name: &str) -> (parent: Option<String>)
    ensures
        match parent_name(name@) {
            Some(p) => parent matches Some(s) && s@ == p,
            None => parent is None,
        },
{
    let chars = chars_of(name);
    assert(chars@.take(chars@.len() as int) =~= chars@);
    match last_dot_before(&chars, chars.len()) {
        Some(k) => {
            proof {
                lemma_dot_position(chars@.take(chars@.len() as int), k as int);
            }
            let p = text_from(&chars, 0, k);
            assert(p@ =~= name@.take(k as int));
            Some(p)
        },
        None => None,
    }
}

proof fn lemma_insert_attribute_at(s: Seq<AttributeView>, row: AttributeView, j: int)
    requires
        0 <= j <= s.len(),
        forall|k: int| 0 <= k < j ==> !text_less(row.name, s[k].name),
        j == s.len() || text_less(row.name, s[j].name),
    ensures
        insert_attribute(s, row) == s.insert(j, row),
    decreases j,
{
    if j == 0 {
        if s.len() == 0 {
            assert(seq![row] =~= s.insert(0, row));
        } else {
            assert(seq![row] + s =~= s.insert(0, row));
        }
    } else {
        let rest = s.drop_first();
        lemma_insert_attribute_at(rest, row, j - 1);
        assert(seq![s[0]] + rest.insert(j - 1, row) =~= s.insert(j, row));
    }
}

/// The attribute rows to register, ordered by name and keeping row order among
/// equal names, as `(name, region)`.
pub fn attribute_registration_order(tables: &Tables) -> (order: Vec<(String, AttributeRegion)>)
    ensures
        order@.len() == tables.deep_view().attributes.len(),
        forall|i: int| 0 <= i < order@.len() ==> {
            &&& (#[trigger] order@[i]).0@ == attributes_by_name(tables.deep_view(), tables.deep_view().attributes.len())[i].name
            &&& order@[i].1 == attributes_by_name(tables.deep_view(), tables.deep_view().attributes.len())[i].region
        },
{
    let ghost t = tables.deep_view();
    let rows = tables.tb_attribute.rows();
    let mut order: Vec<(String, AttributeRegion)> = Vec::new();
    let mut i: usize = 0;
    while i < rows.len()
        invariant
            t == tables.deep_view(),
            rows.deep_view() == t.attributes,
            i <= t.attributes.len(),
            order@.len() == attributes_by_name(t, i as nat).len(),
            order@.len() == i,
            forall|k: int| 0 <= k < order@.len() ==> {
                &&& (#[trigger] order@[k]).0@ == attributes_by_name(t, i as nat)[k].name
                &&& order@[k].1 == attributes_by_name(t, i as nat)[k].region
            },
        decreases t.attributes.len() - i,
    {
        assert(t.attributes[i as int] == rows@[i as int].deep_view());
        let ghost s = attributes_by_name(t, i as nat);
        let ghost row = t.attributes[i as int];
        let name = rows[i].name.as_str();
        let mut j: usize = 0;
        while j < order.len() && !text_before(name, order[j].0.as_str())
            invariant
                j <= order@.len(),
                order@.len() == s.len(),
                name@ == row.name,
                forall|k: int| 0 <= k < order@.len() ==> {
                    &&& (#[trigger] order@[k]).0@ == s[k].name
                    &&& order@[k].1 == s[k].region
                },
                forall|k: int| 0 <= k < j ==> !text_less(row.name, s[k].name),
            decreases order@.len() - j,
        {
            j = j + 1;
        }
        proof {
            lemma_insert_attribute_at(s, row, j as int);
        }
        let ghost before = order@;
        order.insert(j, (owned(name), rows[i].region));
        assert(attributes_by_name(t, (i + 1) as nat) == s.insert(j as int, row));
        assert forall|k: int| 0 <= k < order@.len() implies {
            &&& (#[trigger] order@[k]).0@ == attributes_by_name(t, (i + 1) as nat)[k].name
            &&& order@[k].1 == attributes_by_name(t, (i + 1) as nat)[k].region
        } by {
            if k < j {
                assert(order@[k] == before[k]);
            } else if k > j {
                assert(order@[k] == before[k - 1]);
            }
        }
        i = i + 1;
    }
    order
}

proof fn lemma_insert_resource_at(s: Seq<(Seq<char>, i32)>, name: Seq<char>, id: i32, j: int)
    requires
        0 <= j <= s.len(),
        forall|k: int| 0 <= k < j ==> s[k].0 != name && !text_less(name, s[k].0),
        j == s.len() || s[j].0 == name || text_less(name, s[j].0),
    ensures
        insert_resource(s, name, id) == (if j == s.len() {
            s.push((name, id))
        } else if s[j].0 == name {
            s
        } else {
            s.insert(j, (name, id))
        }),
    decreases j,
{
    if j == 0 {
        if s.len() == 0 {
            assert(seq![(name, id)] =~= s.push((name, id)));
        } else if s[0].0 != name {
            assert(seq![(name, id)] + s =~= s.insert(0, (name, id)));
        }
    } else {
        let rest = s.drop_first();
        lemma_insert_resource_at(rest, name, id, j - 1);
        if j == s.len() {
            assert(seq![s[0]] + rest.push((name, id)) =~= s.push((name, id)));
        } else if s[j].0 == name {
            assert(seq![s[0]] + rest =~= s);
        } else {
            assert(seq![s[0]] + rest.insert(j - 1, (name, id)) =~= s.insert(j, (name, id)));
        }
    }
}

/// The view of a resource order: names as characters, with their first cost rows.
pub open spec fn resource_view(v: Seq<(String, i32)>) -> Seq<(Seq<char>, i32)> {
    Seq::new(v.len(), |i: int| (v[i].0@, v[i].1))
}

fn insert_resource_sorted(v: &mut Vec<(String, i32)>, cost: &PreparedAdditionalCost)
    ensures
        resource_view(final(v)@) == insert_resource(resource_view(old(v)@), cost.resource@, cost.id),
{
    let ghost d = resource_view(v@);
    let name = cost.resource.as_str();
    let mut j: usize = 0;
    while j < v.len() && !text_eq(v[j].0.as_str(), name) && !text_before(name, v[j].0.as_str())
        invariant
            j <= v@.len(),
            resource_view(v@) == d,
            forall|k: int| 0 <= k < j ==> d[k].0 != name@ && !text_less(name@, d[k].0),
        decreases v@.len() - j,
    {
        j = j + 1;
    }
    proof {
        lemma_insert_resource_at(d, name@, cost.id, j as int);
    }
    if j == v.len() {
        v.push((owned(name), cost.id));
        assert(resource_view(v@) =~= d.push((name@, cost.id)));
    } else if !text_eq(v[j].0.as_str(), name) {
        v.insert(j, (owned(name), cost.id));
        assert(resource_view(v@) =~= d.insert(j as int, (name@, cost.id)));
    }
}

/// The external-cost resources to register, ascending by name, each with the
/// first cost row (abilities in row order, costs in authored order) that names it.
pub fn resource_registration_order(prepared: &PreparedTables) -> (order: Vec<(String, i32)>)
    ensures
        resource_view(order@) == resources_upto(prepared.source(), prepared@, prepared.source().abilities.len()),
{
    let ghost t = prepared.source();
    let ghost p = prepared@;
    let rows = prepared.tables().tb_ability.rows();
    let mut order: Vec<(String, i32)> = Vec::new();
    let mut i: usize = 0;
    assert(resource_view(order@) =~= resources_upto(t, p, 0));
    while i < rows.len()
        invariant
            t == prepared.source(),
            p == prepared@,
            rows.deep_view() == t.abilities,
            i <= t.abilities.len(),
            resource_view(order@) == resources_upto(t, p, i as nat),
        decreases t.abilities.len() - i,
    {
        assert(t.abilities[i as int] == rows@[i as int].deep_view());
        let costs = prepared.additional_costs(rows[i].id);
        let ghost cv = costs.deep_view();
        let ghost start = resource_view(order@);
        let mut k: usize = 0;
        assert(cv.take(0) =~= Seq::<PreparedCostView>::empty());
        while k < costs.len()
            invariant
                cv == costs.deep_view(),
                k <= cv.len(),
                resource_view(order@) == insert_resources(start, cv.take(k as int)),
            decreases cv.len() - k,
        {
            assert(cv.take(k + 1).drop_last() =~= cv.take(k as int));
            assert(cv[k as int] == costs@[k as int].deep_view());
            insert_resource_sorted(&mut order, &costs[k]);
            k = k + 1;
        }
        assert(cv.take(cv.len() as int) =~= cv);
        i = i + 1;
    }
    order
}

// ---------------------------------------------------------------------------
// Resolution

/// Checks that every tag of `names` is among the `registered` tag names; a missing
/// one is reported at its tag location.
pub fn resolve_tags(registered: &Vec<String>, names: &Vec<String>) -> (res: Result<(), ConfigError>)
    ensures
        match tag_resolution_failure(registered.deep_view(), names.deep_view()) {
            Some(l) => res matches Err(e) && reports(e@, site_with(ConfigErrorKind::Reference, l, "unresolved registered tag"@)),
            None => res is Ok,
        },
{
    let ghost r = registered.deep_view();
    let ghost d = names.deep_view();
    let mut i: usize = 0;
    while i < names.len()
        invariant
            r == registered.deep_view(),
            d == names.deep_view(),
            i <= d.len(),
            first_failure(tag_resolution_check(r, d), i as nat) is None,
        decreases d.len() - i,
    {
        assert(d[i as int] == names@[i as int]@);
        if !holds_name(registered, names[i].as_str()) {
            proof {
                lemma_failure_persists(tag_resolution_check(r, d), (i + 1) as nat, d.len());
            }
            return Err(ConfigError::new(ConfigErrorKind::Reference, ConfigLocation::table("Tag").row_name(names[i].as_str()), "unresolved registered tag"));
        }
        i = i + 1;
    }
    Ok(())
}

fn holds_name(v: &Vec<String>, s: &str) -> (r: bool)
    ensures
        r == v.deep_view().contains(s@),
{
    let mut i: usize = 0;
    while i < v.len()
        invariant
            i <= v@.len(),
            forall|j: int| 0 <= j < i ==> v.deep_view()[j] != s@,
        decreases v@.len() - i,
    {
        assert(v.deep_view()[i as int] == v@[i as int]@);
        if text_eq(v[i].as_str(), s) {
            return true;
        }
        i = i + 1;
    }
    false
}

} // verus!
