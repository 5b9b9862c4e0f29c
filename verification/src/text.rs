//! Character-level helpers on strings.

use vstd::prelude::*;
use vstd::string::StringExecFns;

verus! {

broadcast use vstd::string::group_string_axioms;

/// Calls `String::push` of std: appends `c` to `s`.
#[verifier::external_body]
pub(crate) fn push_char(s: &mut String, c: char)
    ensures
        final(s)@ == old(s)@.push(c),
{
    s.push(c);
}

/// Appends `t` to `s`.
pub(crate) fn push_str(s: &mut String, t: &str)
    ensures
        final(s)@ == old(s)@ + t@,
{
    s.append(t);
}

/// The characters of `s`, in order.
pub fn chars_of(s: &str) -> (chars: Vec<char>)
    ensures
        chars@ == s@,
{
    let mut chars: Vec<char> = Vec::new();
    for c in it: s.chars()
        invariant
            it.seq() == s@,
            chars@ == it.seq().take(it.index() as int),
    {
        chars.push(c);
        proof {
            assert(it.seq().take(it.index() + 1) =~= it.seq().take(it.index() as int).push(c));
        }
    }
    assert(s@.take(s@.len() as int) =~= s@);
    chars
}


/// `s` without any occurrence of `c`.
pub open spec fn without_char(s: Seq<char>, c: char) -> Seq<char>
    decreases s.len(),
{
    if s.len() == 0 {
        s
    } else if s.last() == c {
        without_char(s.drop_last(), c)
    } else {
        without_char(s.drop_last(), c).push(s.last())
    }
}

/// A copy of `s` without the occurrences of `c`
/// (what `s.replace(c, "")` gives).
pub fn remove_char(s: &str, c: char) -> (r: String)
    ensures
        r@ == without_char(s@, c),
{
    let chars = chars_of(s);
    let mut r = String::new();
    let mut i: usize = 0;
    while i < chars.len()
        invariant
            chars@ == s@,
            i <= chars.len(),
            r@ == without_char(s@.take(i as int), c),
        decreases chars.len() - i,
    {
        let d = chars[i];
        proof {
            assert(s@.take(i + 1).drop_last() =~= s@.take(i as int));
        }
        if d != c {
            push_char(&mut r, d);
        }
        i = i + 1;
    }
    assert(s@.take(s@.len() as int) =~= s@);
    r
}

/// The ASCII lower-case form of `c`; other characters are unchanged.
pub open spec fn ascii_lower(c: char) -> char {
    if 'A' <= c && c <= 'Z' {
        ((c as u32) + 32) as char
    } else {
        c
    }
}

/// `s` with ASCII upper-case letters made lower-case.
pub open spec fn ascii_lowercase(s: Seq<char>) -> Seq<char> {
    s.map_values(|c: char| ascii_lower(c))
}

/// The ASCII lower-case form of `c` (what `char::to_ascii_lowercase` gives).
pub fn lower_char(c: char) -> (d: char)
    ensures
        d == ascii_lower(c),
{
    if 'A' <= c && c <= 'Z' {
        let code: u8 = (c as u8) + 32;
        code as char
    } else {
        c
    }
}

/// `s` with ASCII upper-case letters made lower-case
/// (what `str::to_ascii_lowercase` gives).
pub fn to_ascii_lowercase(s: &str) -> (r: String)
    ensures
        r@ == ascii_lowercase(s@),
{
    let chars = chars_of(s);
    let mut r = String::new();
    let mut i: usize = 0;
    while i < chars.len()
        invariant
            chars@ == s@,
            i <= chars.len(),
            r@ =~= ascii_lowercase(s@.take(i as int)),
        decreases chars.len() - i,
    {
        let d = lower_char(chars[i]);
        push_char(&mut r, d);
        i = i + 1;
        proof {
            assert(s@.take(i as int) =~= s@.take(i - 1).push(s@[i - 1]));
        }
    }
    assert(s@.take(s@.len() as int) =~= s@);
    r
}

/// `s` with every trailing `c` removed.
pub open spec fn trim_end_char(s: Seq<char>, c: char) -> Seq<char>
    decreases s.len(),
{
    if s.len() > 0 && s.last() == c {
        trim_end_char(s.drop_last(), c)
    } else {
        s
    }
}

/// `s` with every trailing `c` removed (what `str::trim_end_matches(c)` gives).
pub fn trim_end_matches(s: &str, c: char) -> (r: String)
    ensures
        r@ == trim_end_char(s@, c),
{
    let chars = chars_of(s);
    let mut n: usize = chars.len();
    assert(s@.take(n as int) =~= s@);
    while n > 0 && chars[n - 1] == c
        invariant
            chars@ == s@,
            n <= chars.len(),
            trim_end_char(s@, c) == trim_end_char(s@.take(n as int), c),
        decreases n,
    {
        proof {
            assert(s@.take(n as int).drop_last() =~= s@.take(n - 1));
        }
        n = n - 1;
    }
    proof {
        if n > 0 {
            assert(s@.take(n as int).last() == chars@[n - 1]);
        }
        assert(trim_end_char(s@.take(n as int), c) == s@.take(n as int));
    }
    let mut r = String::new();
    let mut i: usize = 0;
    while i < n
        invariant
            chars@ == s@,
            n <= chars.len(),
            i <= n,
            r@ =~= s@.take(i as int),
        decreases n - i,
    {
        push_char(&mut r, chars[i]);
        i = i + 1;
    }
    assert(s@.take(s@.len() as int) =~= s@);
    r
}

/// Whether `s` begins with `prefix`.
pub open spec fn has_prefix(s: Seq<char>, prefix: Seq<char>) -> bool {
    prefix.len() <= s.len() && s.take(prefix.len() as int) == prefix
}

/// Whether `s` begins with `prefix` (what `str::starts_with` gives).
pub fn starts_with(s: &str, prefix: &str) -> (b: bool)
    ensures
        b == has_prefix(s@, prefix@),
{
    let a = chars_of(s);
    let p = chars_of(prefix);
    if p.len() > a.len() {
        return false;
    }
    let mut i: usize = 0;
    while i < p.len()
        invariant
            a@ == s@,
            p@ == prefix@,
            p.len() <= a.len(),
            i <= p.len(),
            forall|k: int| 0 <= k < i ==> a@[k] == p@[k],
        decreases p.len() - i,
    {
        if a[i] != p[i] {
            assert(s@.take(prefix@.len() as int)[i as int] != prefix@[i as int]);
            return false;
        }
        i = i + 1;
    }
    assert(s@.take(prefix@.len() as int) =~= prefix@);
    true
}

/// Whether `needle` occurs in `s` at position `i`.
pub open spec fn occurs_at(s: Seq<char>, needle: Seq<char>, i: int) -> bool {
    0 <= i && i + needle.len() <= s.len() && s.subrange(i, i + needle.len()) == needle
}

/// The first position, from `i` on, where `needle` occurs in `s`.
pub open spec fn find_from(s: Seq<char>, needle: Seq<char>, i: int) -> Option<int>
    decreases s.len() + 1 - i,
{
    if i < 0 || i + needle.len() > s.len() {
        None
    } else if occurs_at(s, needle, i) {
        Some(i)
    } else {
        find_from(s, needle, i + 1)
    }
}

/// The first position where `needle` occurs in `s` (what `str::find` gives,
/// counted in characters).
pub open spec fn first_occurrence(s: Seq<char>, needle: Seq<char>) -> Option<int> {
    find_from(s, needle, 0)
}

/// The first occurrence found is one, and none comes before it; without
/// one found, `needle` occurs nowhere.
pub proof fn lemma_first_occurrence(s: Seq<char>, needle: Seq<char>, i: int)
    requires
        0 <= i,
    ensures
        find_from(s, needle, i) matches Some(k) ==> i <= k && occurs_at(s, needle, k)
            && forall|j: int| i <= j < k ==> !#[trigger] occurs_at(s, needle, j),
        find_from(s, needle, i) is None ==> forall|j: int| i <= j ==> !#[trigger] occurs_at(s, needle, j),
    decreases s.len() + 1 - i,
{
    if i + needle.len() <= s.len() && !occurs_at(s, needle, i) {
        lemma_first_occurrence(s, needle, i + 1);
    }
}

/// Whether `needle` occurs at position `i` of `s`.
fn occurs_at_exec(s: &Vec<char>, needle: &Vec<char>, i: usize) -> (b: bool)
    requires
        i + needle.len() <= s.len(),
    ensures
        b == occurs_at(s@, needle@, i as int),
{
    let mut k: usize = 0;
    while k < needle.len()
        invariant
            i + needle.len() <= s.len(),
            k <= needle.len(),
            forall|m: int| 0 <= m < k ==> s@[i + m] == needle@[m],
        decreases needle.len() - k,
    {
        if s[i + k] != needle[k] {
            assert(s@.subrange(i as int, i + needle.len())[k as int] != needle@[k as int]);
            return false;
        }
        k = k + 1;
    }
    assert(s@.subrange(i as int, i + needle.len()) =~= needle@);
    true
}

/// The first position where `needle` occurs in `s`, in characters.
pub fn find_chars(s: &Vec<char>, needle: &Vec<char>) -> (r: Option<usize>)
    ensures
        r matches Some(k) ==> first_occurrence(s@, needle@) == Some(k as int),
        r is None ==> first_occurrence(s@, needle@) is None,
{
    if needle.len() > s.len() {
        return None;
    }
    let last = s.len() - needle.len();
    let mut i: usize = 0;
    loop
        invariant
            last + needle.len() == s.len(),
            i <= last,
            find_from(s@, needle@, 0) == find_from(s@, needle@, i as int),
        decreases last - i,
    {
        if occurs_at_exec(s, needle, i) {
            return Some(i);
        }
        if i == last {
            return None;
        }
        i = i + 1;
    }
}

/// The first `n` characters of `chars`, as a string.
pub fn string_of_prefix(chars: &Vec<char>, n: usize) -> (r: String)
    requires
        n <= chars.len(),
    ensures
        r@ == chars@.take(n as int),
{
    let mut r = String::new();
    let mut i: usize = 0;
    while i < n
        invariant
            n <= chars.len(),
            i <= n,
            r@ =~= chars@.take(i as int),
        decreases n - i,
    {
        push_char(&mut r, chars[i]);
        i = i + 1;
    }
    r
}

/// Whether `c` is alphabetic or numeric, as `char::is_alphanumeric` of std
/// tells (the Unicode Alphabetic and numeric categories).
pub uninterp spec fn alphanumeric(c: char) -> bool;

/// Whether `c` has the Unicode `White_Space` property (what
/// `char::is_whitespace` of std tells): the control characters tab to
/// carriage return, space, next line, no-break space, ogham space mark, the
/// spaces from en quad to hair space, the line and paragraph separators,
/// narrow no-break space, medium mathematical space and ideographic space.
pub open spec fn whitespace(c: char) -> bool {
    ('\u{9}' <= c && c <= '\u{d}') || c == '\u{20}' || c == '\u{85}' || c == '\u{a0}'
        || c == '\u{1680}' || ('\u{2000}' <= c && c <= '\u{200a}') || c == '\u{2028}'
        || c == '\u{2029}' || c == '\u{202f}' || c == '\u{205f}' || c == '\u{3000}'
}

/// Calls `char::is_alphanumeric` of std. Claimed: its answer is a function
/// of `c` alone, named `alphanumeric`; the Unicode tables behind it are not
/// written out here.
#[verifier::external_body]
fn is_alphanumeric(c: char) -> (b: bool)
    ensures
        b == alphanumeric(c),
{
    c.is_alphanumeric()
}

/// Whether `c` has the Unicode `White_Space` property.
fn is_whitespace(c: char) -> (b: bool)
    ensures
        b == whitespace(c),
{
    ('\u{9}' <= c && c <= '\u{d}') || c == '\u{20}' || c == '\u{85}' || c == '\u{a0}'
        || c == '\u{1680}' || ('\u{2000}' <= c && c <= '\u{200a}') || c == '\u{2028}'
        || c == '\u{2029}' || c == '\u{202f}' || c == '\u{205f}' || c == '\u{3000}'
}

/// Whether a display name keeps `c` when printed on an image.
pub open spec fn kept_in_name(c: char) -> bool {
    alphanumeric(c) || whitespace(c)
}

/// `s` with only the characters that a name printed on an image keeps.
pub open spec fn printable_name(s: Seq<char>) -> Seq<char>
    decreases s.len(),
{
    if s.len() == 0 {
        s
    } else if kept_in_name(s.last()) {
        printable_name(s.drop_last()).push(s.last())
    } else {
        printable_name(s.drop_last())
    }
}

/// `name` without the characters that are neither alphanumeric nor
/// whitespace, as the cards and the kill feed print names.
pub fn strip_symbols(name: &str) -> (r: String)
    ensures
        r@ == printable_name(name@),
{
    let chars = chars_of(name);
    let mut r = String::new();
    let mut i: usize = 0;
    while i < chars.len()
        invariant
            chars@ == name@,
            i <= chars.len(),
            r@ == printable_name(name@.take(i as int)),
        decreases chars.len() - i,
    {
        let c = chars[i];
        proof {
            assert(name@.take(i + 1).drop_last() =~= name@.take(i as int));
            assert(name@.take(i + 1).last() == c);
        }
        if is_alphanumeric(c) || is_whitespace(c) {
            push_char(&mut r, c);
        }
        i = i + 1;
    }
    assert(name@.take(chars.len() as int) =~= name@);
    r
}

/// `items` joined with `sep` between them (what `[String]::join` gives).
pub open spec fn joined(items: Seq<Seq<char>>, sep: Seq<char>) -> Seq<char>
    decreases items.len(),
{
    if items.len() == 0 {
        seq![]
    } else if items.len() == 1 {
        items[0]
    } else {
        joined(items.drop_last(), sep) + sep + items.last()
    }
}

/// `items` joined with `sep` between them.
pub fn join(items: &Vec<String>, sep: &str) -> (text: String)
    ensures
        text@ == joined(items@.map_values(|s: String| s@), sep@),
{
    let ghost v = items@.map_values(|s: String| s@);
    let mut text = String::new();
    let mut i: usize = 0;
    while i < items.len()
        invariant
            i <= items.len(),
            v == items@.map_values(|s: String| s@),
            text@ == joined(v.take(i as int), sep@),
        decreases items.len() - i,
    {
        proof {
            assert(v.take(i + 1).drop_last() =~= v.take(i as int));
            assert(v.take(i + 1).last() == v[i as int]);
        }
        if i > 0 {
            push_str(&mut text, sep);
        } else {
            assert(v.take(1) =~= seq![v[0]]);
        }
        push_str(&mut text, items[i].as_str());
        i = i + 1;
    }
    assert(v.take(items.len() as int) =~= v);
    text
}

/// Whether `a` and `b` hold the same text.
pub fn same_text(a: &str, b: &str) -> (r: bool)
    ensures
        r == (a@ == b@),
{
    let x = chars_of(a);
    let y = chars_of(b);
    if x.len() != y.len() {
        return false;
    }
    let mut i: usize = 0;
    while i < x.len()
        invariant
            x@ == a@,
            y@ == b@,
            x.len() == y.len(),
            i <= x.len(),
            forall|k: int| 0 <= k < i ==> x@[k] == y@[k],
        decreases x.len() - i,
    {
        if x[i] != y[i] {
            return false;
        }
        i = i + 1;
    }
    assert(x@ =~= y@);
    true
}

} // verus!
