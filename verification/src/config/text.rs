//! Text building blocks: character appends, debug quoting and decimal rendering
//! of integers.

use vstd::prelude::*;

verus! {

/// Appends `c` to `s` through `String::push`, which extends the string by exactly
/// that character.
#[verifier::external_body]
pub(crate) fn push_char(s: &mut String, c: char)
    ensures
        final(s)@ == old(s)@.push(c),
{
    s.push(c);
}

/// The debug form of a string: quoted, with special characters escaped, as
/// `<str as Debug>::fmt` writes it.
pub uninterp spec fn str_debug(s: Seq<char>) -> Seq<char>;

/// Writes the debug form of `s` with `format!("{:?}", s)`; the result depends on
/// the characters of `s` alone.
#[verifier::external_body]
pub(crate) fn debug_text(s: &str) -> (r: String)
    ensures
        r@ == str_debug(s@),
{
    format!("{:?}", s)
}

/// Appends `t` to `s`.
pub(crate) fn push_str(s: &mut String, t: &str)
    ensures
        final(s)@ == old(s)@ + t@,
{
    s.append(t);
}

/// Whether two string slices hold the same characters.
pub(crate) fn text_eq(a: &str, b: &str) -> (same: bool)
    ensures
        same == (a@ == b@),
{
    let n = a.unicode_len();
    if n != b.unicode_len() {
        return false;
    }
    let mut i: usize = 0;
    while i < n
        invariant
            n == a@.len(),
            n == b@.len(),
            i <= n,
            forall|k: int| 0 <= k < i ==> a@[k] == b@[k],
        decreases n - i,
    {
        if a.get_char(i) != b.get_char(i) {
            return false;
        }
        i = i + 1;
    }
    assert(a@ =~= b@);
    true
}

/// `c` has the Unicode `White_Space` property (`char::is_whitespace`).
pub open spec fn spec_is_whitespace(c: char) -> bool {
    let v = c as u32;
    (0x09 <= v <= 0x0d) || v == 0x20 || v == 0x85 || v == 0xa0 || v == 0x1680 || (0x2000 <= v
        <= 0x200a) || v == 0x2028 || v == 0x2029 || v == 0x202f || v == 0x205f || v == 0x3000
}

/// Every character of `s` is whitespace, so `s.trim()` is empty.
pub open spec fn spec_is_blank(s: Seq<char>) -> bool {
    forall|i: int| 0 <= i < s.len() ==> spec_is_whitespace(#[trigger] s[i])
}

/// Returns whether `c` has the Unicode `White_Space` property.
pub fn is_whitespace(c: char) -> (r: bool)
    ensures
        r == spec_is_whitespace(c),
{
    let v = c as u32;
    (0x09 <= v && v <= 0x0d) || v == 0x20 || v == 0x85 || v == 0xa0 || v == 0x1680 || (0x2000
        <= v && v <= 0x200a) || v == 0x2028 || v == 0x2029 || v == 0x202f || v == 0x205f || v
        == 0x3000
}

/// Returns whether `s` holds only whitespace, so that `s.trim()` is empty.
pub fn is_blank(s: &str) -> (r: bool)
    ensures
        r == spec_is_blank(s@),
{
    let n = s.unicode_len();
    let mut i: usize = 0;
    while i < n
        invariant
            n == s@.len(),
            i <= n,
            forall|j: int| 0 <= j < i ==> spec_is_whitespace(#[trigger] s@[j]),
        decreases n - i,
    {
        if !is_whitespace(s.get_char(i)) {
            return false;
        }
        i = i + 1;
    }
    true
}

/// Returns the characters of `s`, in order.
pub(crate) fn chars_of(s: &str) -> (chars: Vec<char>)
    ensures
        chars@ == s@,
{
    let n = s.unicode_len();
    let mut chars: Vec<char> = Vec::new();
    let mut i: usize = 0;
    while i < n
        invariant
            n == s@.len(),
            i <= n,
            chars@ == s@.take(i as int),
        decreases n - i,
    {
        chars.push(s.get_char(i));
        assert(chars@ =~= s@.take(i + 1));
        i = i + 1;
    }
    assert(s@.take(n as int) =~= s@);
    chars
}

/// Returns a string holding exactly `chars[start..end]`.
pub fn text_from(chars: &Vec<char>, start: usize, end: usize) -> (s: String)
    requires
        start <= end <= chars@.len(),
    ensures
        s@ == chars@.subrange(start as int, end as int),
{
    let mut s = String::new();
    let mut i = start;
    while i < end
        invariant
            start <= i <= end,
            end <= chars@.len(),
            s@ == chars@.subrange(start as int, i as int),
        decreases end - i,
    {
        push_char(&mut s, chars[i]);
        assert(s@ =~= chars@.subrange(start as int, i + 1));
        i = i + 1;
    }
    s
}

/// `c` is an ASCII letter, digit or underscore.
pub open spec fn spec_is_name_char(c: char) -> bool {
    ('a' <= c <= 'z') || ('A' <= c <= 'Z') || ('0' <= c <= '9') || c == '_'
}

/// `s` is a nonempty sequence of nonempty dot-separated segments of ASCII letters,
/// digits and underscores.
pub open spec fn spec_valid_name(s: Seq<char>) -> bool {
    &&& s.len() > 0
    &&& forall|i: int| 0 <= i < s.len() ==> spec_is_name_char(#[trigger] s[i]) || s[i] == '.'
    &&& s[0] != '.'
    &&& s.last() != '.'
    &&& forall|i: int| 0 <= i < s.len() - 1 ==> !(#[trigger] s[i] == '.' && s[i + 1] == '.')
}

/// Returns whether `s` is a nonempty sequence of nonempty dot-separated segments of
/// ASCII letters, digits and underscores.
pub fn valid_name(s: &str) -> (r: bool)
    ensures
        r == spec_valid_name(s@),
{
    let chars = chars_of(s);
    let n = chars.len();
    if n == 0 {
        return false;
    }
    if chars[0] == '.' || chars[n - 1] == '.' {
        return false;
    }
    let mut i: usize = 0;
    while i < n
        invariant
            n == chars@.len(),
            chars@ == s@,
            0 < n,
            i <= n,
            forall|j: int| 0 <= j < i ==> spec_is_name_char(#[trigger] chars@[j]) || chars@[j] == '.',
            forall|j: int| 0 <= j < i && j < n - 1 ==> !(#[trigger] chars@[j] == '.' && chars@[j + 1] == '.'),
        decreases n - i,
    {
        let c = chars[i];
        let ok = ('a' <= c && c <= 'z') || ('A' <= c && c <= 'Z') || ('0' <= c && c <= '9') || c == '_' || c == '.';
        if !ok {
            return false;
        }
        if i + 1 < n && c == '.' && chars[i + 1] == '.' {
            return false;
        }
        i = i + 1;
    }
    true
}

/// The position of the last dot of `s`, if any.
pub open spec fn last_dot(s: Seq<char>) -> Option<int>
    decreases s.len(),
{
    if s.len() == 0 {
        None
    } else if s.last() == '.' {
        Some(s.len() - 1)
    } else {
        last_dot(s.drop_last())
    }
}

/// `name` followed by each parent formed by cutting at the last dot, as
/// `rsplit_once('.')` walks them: `a.b.c`, `a.b`, `a`.
pub open spec fn name_chain(name: Seq<char>) -> Seq<Seq<char>>
    decreases name.len(),
{
    match last_dot(name) {
        Some(k) => if 0 <= k < name.len() {
            seq![name] + name_chain(name.take(k))
        } else {
            seq![name]
        },
        None => seq![name],
    }
}

proof fn lemma_last_dot_bounds(s: Seq<char>)
    ensures
        last_dot(s) matches Some(k) ==> 0 <= k < s.len() && s[k] == '.',
        last_dot(s) is None ==> forall|i: int| 0 <= i < s.len() ==> s[i] != '.',
        last_dot(s) matches Some(k) ==> forall|i: int| k < i < s.len() ==> s[i] != '.',
    decreases s.len(),
{
    if s.len() > 0 && s.last() != '.' {
        lemma_last_dot_bounds(s.drop_last());
        assert forall|i: int| 0 <= i < s.len() - 1 implies s.drop_last()[i] == s[i] by {}
    }
}

/// Returns the position of the last dot among `chars[..end]`.
pub fn last_dot_before(chars: &Vec<char>, end: usize) -> (r: Option<usize>)
    requires
        end <= chars@.len(),
    ensures
        match r {
            Some(k) => last_dot(chars@.take(end as int)) == Some(k as int),
            None => last_dot(chars@.take(end as int)) is None,
        },
{
    let mut i = end;
    while i > 0
        invariant
            i <= end <= chars@.len(),
            last_dot(chars@.take(end as int)) == last_dot(chars@.take(i as int)),
        decreases i,
    {
        assert(chars@.take(i as int).drop_last() =~= chars@.take(i - 1));
        if chars[i - 1] == '.' {
            return Some(i - 1);
        }
        i = i - 1;
    }
    None
}

/// `required` is `blocked` or one of its descendants (`blocked` followed by a dot).
pub open spec fn spec_tag_implies(required: Seq<char>, blocked: Seq<char>) -> bool {
    required == blocked || (required.len() > blocked.len() && required.take(blocked.len() as int)
        == blocked && required[blocked.len() as int] == '.')
}

/// Returns whether `required` is `blocked` or one of its descendants.
pub fn tag_implies(required: &str, blocked: &str) -> (r: bool)
    ensures
        r == spec_tag_implies(required@, blocked@),
{
    let r = chars_of(required);
    let b = chars_of(blocked);
    let n = b.len();
    if r.len() < n {
        return false;
    }
    let mut i: usize = 0;
    while i < n
        invariant
            n == b@.len(),
            n <= r@.len(),
            r@ == required@,
            b@ == blocked@,
            i <= n,
            forall|j: int| 0 <= j < i ==> r@[j] == b@[j],
        decreases n - i,
    {
        if r[i] != b[i] {
            return false;
        }
        i = i + 1;
    }
    assert(r@.take(n as int) =~= b@);
    if r.len() == n {
        assert(r@ =~= b@);
        true
    } else {
        r[n] == '.'
    }
}

/// The ASCII digit character for `d` in `0..10`.
pub open spec fn digit_char(d: int) -> char {
    (48 + d) as char
}

/// Decimal digits of a natural number, most significant first, without leading zeros.
pub open spec fn decimal_digits(n: nat) -> Seq<char>
    decreases n,
{
    if n < 10 {
        seq![digit_char(n as int)]
    } else {
        decimal_digits(n / 10).push(digit_char((n % 10) as int))
    }
}

/// Decimal text of an integer, with a leading `-` for negative values.
pub open spec fn decimal(n: int) -> Seq<char> {
    if n < 0 {
        seq!['-'] + decimal_digits((-n) as nat)
    } else {
        decimal_digits(n as nat)
    }
}

fn digit(d: u64) -> (c: char)
    requires
        d < 10,
    ensures
        c == digit_char(d as int),
{
    let b: u8 = 48u8 + d as u8;
    b as char
}

/// Appends the decimal digits of `n` to `s`.
pub fn push_unsigned(s: &mut String, n: u64)
    ensures
        final(s)@ == old(s)@ + decimal_digits(n as nat),
    decreases n,
{
    if n < 10 {
        push_char(s, digit(n));
    } else {
        push_unsigned(s, n / 10);
        push_char(s, digit(n % 10));
    }
    assert(final(s)@ =~= old(s)@ + decimal_digits(n as nat));
}

/// Appends the decimal text of `n` to `s`.
pub fn push_signed(s: &mut String, n: i64)
    ensures
        final(s)@ == old(s)@ + decimal(n as int),
{
    if n < 0 {
        push_char(s, '-');
        let magnitude: u64 = (0i128 - n as i128) as u64;
        push_unsigned(s, magnitude);
        assert(final(s)@ =~= old(s)@ + decimal(n as int));
    } else {
        push_unsigned(s, n as u64);
    }
}

/// Returns a new string holding the characters of `t`.
pub fn owned(t: &str) -> (s: String)
    ensures
        s@ == t@,
{
    let mut s = String::new();
    push_str(&mut s, t);
    assert(s@ =~= t@);
    s
}

} // verus!
