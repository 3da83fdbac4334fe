//! Text as sequences of characters: order, prefixes, whitespace and case.

use vstd::prelude::*;

verus! {

/// `a` and `b` agree on their first `i` characters, and at `i` the order falls to `a`: it
/// ends there, or it has the smaller character.
pub open spec fn parts_below(a: Seq<char>, b: Seq<char>, i: int) -> bool {
    &&& 0 <= i <= a.len()
    &&& i < b.len()
    &&& forall|j: int| 0 <= j < i ==> a[j] == b[j]
    &&& i == a.len() || a[i] < b[i]
}

/// The order of strings: by code point, from the front, a prefix before what it begins.
pub open spec fn precedes(a: Seq<char>, b: Seq<char>) -> bool {
    exists|i: int| parts_below(a, b, i)
}

/// Each string comes before the ones that follow it, so none occurs twice.
pub open spec fn ascending(keys: Seq<Seq<char>>) -> bool {
    forall|i: int, j: int| 0 <= i < j < keys.len() ==> precedes(#[trigger] keys[i], #[trigger] keys[j])
}

/// No string comes before itself.
pub proof fn lemma_precedes_irreflexive(a: Seq<char>)
    ensures
        !precedes(a, a),
{
}

/// The order of strings is transitive.
pub proof fn lemma_precedes_transitive(a: Seq<char>, b: Seq<char>, c: Seq<char>)
    requires
        precedes(a, b),
        precedes(b, c),
    ensures
        precedes(a, c),
{
    let i = choose|i: int| parts_below(a, b, i);
    let j = choose|j: int| parts_below(b, c, j);
    if i <= j {
        assert(parts_below(a, c, i));
    } else {
        assert(parts_below(a, c, j));
    }
}

/// The characters of a string.
pub fn chars_of(s: &str) -> (chars: Vec<char>)
    ensures
        chars@ == s@,
{
    let mut chars: Vec<char> = Vec::new();
    for c in it: s.chars()
        invariant
            it.seq() == s@,
            chars@ == it.seq().take(it.index() as int),
    {
        chars.push(c);
        assert(it.seq().take(it.index() + 1) =~= it.seq().take(it.index() as int).push(c));
    }
    assert(s@.take(s@.len() as int) =~= s@);
    chars
}

/// Whether two strings hold the same characters.
pub fn same(a: &str, b: &str) -> (equal: bool)
    ensures
        equal == (a@ == b@),
{
    let x = chars_of(a);
    let y = chars_of(b);
    if x.len() != y.len() {
        return false;
    }
    let mut i: usize = 0;
    while i < x.len()
        invariant
            x@ == a@,
            y@ == b@,
            x.len() == y.len(),
            i <= x.len(),
            forall|j: int| 0 <= j < i ==> x@[j] == y@[j],
        decreases x.len() - i,
    {
        if x[i] != y[i] {
            return false;
        }
        i += 1;
    }
    assert(a@ =~= b@);
    true
}

/// Whether `a` comes before `b`.
pub fn before(a: &str, b: &str) -> (less: bool)
    ensures
        less == precedes(a@, b@),
        !less && a@ != b@ ==> precedes(b@, a@),
{
    let x = chars_of(a);
    let y = chars_of(b);
    let mut i: usize = 0;
    while i < x.len() && i < y.len() && x[i] == y[i]
        invariant
            x@ == a@,
            y@ == b@,
            i <= x.len(),
            i <= y.len(),
            forall|j: int| 0 <= j < i ==> x@[j] == y@[j],
        decreases x.len() - i,
    {
        i += 1;
    }
    if i == y.len() {
        assert forall|k: int| !parts_below(a@, b@, k) by {
            if parts_below(a@, b@, k) {
                assert(x@[k] == y@[k]);
            }
        }
        if i < x.len() {
            assert(parts_below(b@, a@, i as int));
        } else {
            assert(a@ =~= b@);
        }
        false
    } else if i == x.len() || x[i] < y[i] {
        assert(parts_below(a@, b@, i as int));
        true
    } else {
        assert(parts_below(b@, a@, i as int));
        assert forall|k: int| !parts_below(a@, b@, k) by {
            if parts_below(a@, b@, k) {
                if k < i {
                    assert(x@[k] == y@[k]);
                } else if k > i {
                    assert(a@[i as int] == b@[i as int]);
                }
            }
        }
        false
    }
}

/// Whether `c` occurs in a string.
pub fn contains_char(s: &str, c: char) -> (found: bool)
    ensures
        found == s@.contains(c),
{
    let chars = chars_of(s);
    let mut i: usize = 0;
    while i < chars.len()
        invariant
            chars@ == s@,
            i <= chars.len(),
            forall|j: int| 0 <= j < i ==> chars@[j] != c,
        decreases chars.len() - i,
    {
        if chars[i] == c {
            assert(s@[i as int] == c);
            return true;
        }
        i += 1;
    }
    false
}

/// Whether a string begins with `prefix`.
pub fn begins_with(s: &str, prefix: &str) -> (begins: bool)
    ensures
        begins == prefix@.is_prefix_of(s@),
{
    let x = chars_of(s);
    let y = chars_of(prefix);
    if y.len() > x.len() {
        return false;
    }
    let mut i: usize = 0;
    while i < y.len()
        invariant
            x@ == s@,
            y@ == prefix@,
            y.len() <= x.len(),
            i <= y.len(),
            forall|j: int| 0 <= j < i ==> x@[j] == y@[j],
        decreases y.len() - i,
    {
        if x[i] != y[i] {
            assert(s@.subrange(0, prefix@.len() as int)[i as int] != prefix@[i as int]);
            return false;
        }
        i += 1;
    }
    assert(s@.subrange(0, prefix@.len() as int) =~= prefix@);
    true
}

/// The rest of a string behind `prefix`, where it begins with that.
pub fn strip_prefix(s: &str, prefix: &str) -> (rest: Option<String>)
    ensures
        match rest {
            Some(r) => s@ == prefix@ + r@,
            None => !prefix@.is_prefix_of(s@),
        },
{
    if begins_with(s, prefix) {
        let from = prefix.unicode_len();
        let to = s.unicode_len();
        let rest = s.substring_char(from, to).to_string();
        assert(s@ =~= prefix@ + rest@);
        Some(rest)
    } else {
        None
    }
}

/// The characters that count as white space: those of the Unicode property `White_Space`.
pub open spec fn white(c: char) -> bool {
    ||| '\u{9}' <= c <= '\u{d}'
    ||| c == ' '
    ||| c == '\u{85}'
    ||| c == '\u{a0}'
    ||| c == '\u{1680}'
    ||| '\u{2000}' <= c <= '\u{200a}'
    ||| c == '\u{2028}'
    ||| c == '\u{2029}'
    ||| c == '\u{202f}'
    ||| c == '\u{205f}'
    ||| c == '\u{3000}'
}

/// Whether a character is white space.
pub fn is_white(c: char) -> (yes: bool)
    ensures
        yes == white(c),
{
    ('\u{9}' <= c && c <= '\u{d}') || c == ' ' || c == '\u{85}' || c == '\u{a0}' || c == '\u{1680}'
        || ('\u{2000}' <= c && c <= '\u{200a}') || c == '\u{2028}' || c == '\u{2029}'
        || c == '\u{202f}' || c == '\u{205f}' || c == '\u{3000}'
}

/// A text without the white space at its start.
pub open spec fn trim_start(s: Seq<char>) -> Seq<char>
    decreases s.len(),
{
    if s.len() > 0 && white(s[0]) {
        trim_start(s.drop_first())
    } else {
        s
    }
}

/// A text without the white space at its end.
pub open spec fn trim_end(s: Seq<char>) -> Seq<char>
    decreases s.len(),
{
    if s.len() > 0 && white(s.last()) {
        trim_end(s.drop_last())
    } else {
        s
    }
}

/// A text without the white space at its two ends.
pub open spec fn trimmed(s: Seq<char>) -> Seq<char> {
    trim_end(trim_start(s))
}

/// A string without the white space at its two ends.
pub fn trim(s: &str) -> (inner: String)
    ensures
        inner@ == trimmed(s@),
{
    let chars = chars_of(s);
    let mut from: usize = 0;
    assert(s@.skip(0) =~= s@);
    while from < chars.len() && is_white(chars[from])
        invariant
            chars@ == s@,
            from <= chars.len(),
            trim_start(s@) == trim_start(s@.skip(from as int)),
        decreases chars.len() - from,
    {
        assert(s@.skip(from as int).drop_first() =~= s@.skip(from + 1));
        from += 1;
    }
    let mut to: usize = chars.len();
    assert(s@.subrange(from as int, to as int) =~= s@.skip(from as int));
    while from < to && is_white(chars[to - 1])
        invariant
            chars@ == s@,
            from <= to <= chars.len(),
            trimmed(s@) == trim_end(s@.subrange(from as int, to as int)),
        decreases to - from,
    {
        assert(s@.subrange(from as int, to as int).drop_last() =~= s@.subrange(from as int, to - 1));
        to -= 1;
    }
    s.substring_char(from, to).to_string()
}

/// A text without the slashes at its end.
pub open spec fn without_end_slashes(s: Seq<char>) -> Seq<char>
    decreases s.len(),
{
    if s.len() > 0 && s.last() == '/' {
        without_end_slashes(s.drop_last())
    } else {
        s
    }
}

/// A string without the slashes at its end.
pub fn trim_end_slashes(s: &str) -> (inner: String)
    ensures
        inner@ == without_end_slashes(s@),
{
    let chars = chars_of(s);
    let mut to: usize = chars.len();
    assert(s@.take(to as int) =~= s@);
    while 0 < to && chars[to - 1] == '/'
        invariant
            chars@ == s@,
            to <= chars.len(),
            without_end_slashes(s@) == without_end_slashes(s@.take(to as int)),
        decreases to,
    {
        assert(s@.take(to as int).drop_last() =~= s@.take(to - 1));
        to -= 1;
    }
    assert(s@.subrange(0, to as int) =~= s@.take(to as int));
    s.substring_char(0, to).to_string()
}

/// One string behind another.
pub fn concat(a: &str, b: &str) -> (all: String)
    ensures
        all@ == a@ + b@,
{
    let mut all = a.to_string();
    all.append(b);
    all
}

/// A small ASCII letter for its capital, and every other character for itself.
pub open spec fn lower(c: char) -> char {
    if 'A' <= c <= 'Z' {
        (c as u32 + 32) as char
    } else {
        c
    }
}

/// A text with its capital ASCII letters made small.
pub open spec fn lowered(s: Seq<char>) -> Seq<char> {
    s.map_values(|c: char| lower(c))
}

/// The characters of a string, with capital ASCII letters made small.
pub fn lower_chars(s: &str) -> (chars: Vec<char>)
    ensures
        chars@ == lowered(s@),
{
    let mut chars: Vec<char> = Vec::new();
    for c in it: s.chars()
        invariant
            it.seq() == s@,
            chars@ == lowered(it.seq().take(it.index() as int)),
    {
        let small = if 'A' <= c && c <= 'Z' {
            (c as u8 + 32) as char
        } else {
            c
        };
        chars.push(small);
        assert(chars@ =~= lowered(it.seq().take(it.index() + 1)));
    }
    assert(s@.take(s@.len() as int) =~= s@);
    chars
}

/// Trimming leaves a part of the text that has no white space at its ends, and trimming again
/// changes nothing.
pub proof fn law_trimmed_has_no_white_ends(s: Seq<char>)
    ensures
        trimmed(s).len() > 0 ==> !white(trimmed(s)[0]) && !white(trimmed(s).last()),
        trimmed(trimmed(s)) == trimmed(s),
{
    lemma_trim_start(s);
    let inner = trim_start(s);
    lemma_trim_end(inner);
    let t = trimmed(s);
    if t.len() > 0 {
        assert(t[0] == inner[0]);
    }
}

/// Nothing white is left at the start.
proof fn lemma_trim_start(s: Seq<char>)
    ensures
        trim_start(s).len() > 0 ==> !white(trim_start(s)[0]),
    decreases s.len(),
{
    if s.len() > 0 && white(s[0]) {
        lemma_trim_start(s.drop_first());
    }
}

/// Nothing white is left at the end, and the start stays.
proof fn lemma_trim_end(s: Seq<char>)
    ensures
        trim_end(s).len() > 0 ==> !white(trim_end(s).last()) && trim_end(s)[0] == s[0],
    decreases s.len(),
{
    if s.len() > 0 && white(s.last()) {
        lemma_trim_end(s.drop_last());
    }
}

/// What is left without the slashes at the end does not end in one, and begins the text.
pub proof fn law_no_slash_at_end(s: Seq<char>)
    ensures
        without_end_slashes(s).len() > 0 ==> without_end_slashes(s).last() != '/',
        without_end_slashes(s).is_prefix_of(s),
    decreases s.len(),
{
    if s.len() > 0 && s.last() == '/' {
        law_no_slash_at_end(s.drop_last());
        let inner = without_end_slashes(s);
        assert(s.subrange(0, inner.len() as int) =~= s.drop_last().subrange(
            0,
            inner.len() as int,
        ));
    } else {
        assert(s.subrange(0, s.len() as int) =~= s);
    }
}

/// Trimming cuts white space only: what is left is a part of the text, and everything before and
/// behind that part is white.
pub proof fn law_trimming_cuts_white_space_only(s: Seq<char>)
    ensures
        exists|from: int, to: int|
            #![trigger s.subrange(from, to)]
            0 <= from <= to <= s.len() && trimmed(s) == s.subrange(from, to) && (forall|k: int|
                0 <= k < from || to <= k < s.len() ==> white(#[trigger] s[k])),
{
    let inner = trim_start(s);
    let from = s.len() - inner.len();
    let to = from + trimmed(s).len();
    lemma_trim_start_cuts(s);
    lemma_trim_end_cuts(inner);
    assert(trimmed(s) =~= s.subrange(from, to));
    assert forall|k: int| 0 <= k < from || to <= k < s.len() implies white(#[trigger] s[k]) by {
        if k >= to {
            assert(inner[k - from] == s[k]);
        }
    }
}

/// What is cut at the start is white, and the rest stays.
proof fn lemma_trim_start_cuts(s: Seq<char>)
    ensures
        trim_start(s).len() <= s.len(),
        trim_start(s) == s.skip(s.len() - trim_start(s).len()),
        forall|k: int| 0 <= k < s.len() - trim_start(s).len() ==> white(#[trigger] s[k]),
    decreases s.len(),
{
    if s.len() > 0 && white(s[0]) {
        let rest = s.drop_first();
        lemma_trim_start_cuts(rest);
        let cut = s.len() - trim_start(s).len();
        assert(s.skip(cut) =~= rest.skip(cut - 1));
        assert forall|k: int| 0 <= k < cut implies white(#[trigger] s[k]) by {
            if k > 0 {
                assert(rest[k - 1] == s[k]);
            }
        }
    } else {
        assert(s.skip(0) =~= s);
    }
}

/// What is cut at the end is white, and the rest stays.
proof fn lemma_trim_end_cuts(s: Seq<char>)
    ensures
        trim_end(s).len() <= s.len(),
        trim_end(s) == s.take(trim_end(s).len() as int),
        forall|k: int| trim_end(s).len() <= k < s.len() ==> white(#[trigger] s[k]),
    decreases s.len(),
{
    if s.len() > 0 && white(s.last()) {
        let rest = s.drop_last();
        lemma_trim_end_cuts(rest);
        let left = trim_end(s).len() as int;
        assert(s.take(left) =~= rest.take(left));
        assert forall|k: int| left <= k < s.len() implies white(#[trigger] s[k]) by {
            if k < rest.len() {
                assert(rest[k] == s[k]);
            }
        }
    } else {
        assert(s.take(s.len() as int) =~= s);
    }
}

/// Only slashes are cut at the end.
pub proof fn law_only_slashes_are_cut(s: Seq<char>)
    ensures
        without_end_slashes(s).len() <= s.len(),
        forall|k: int| without_end_slashes(s).len() <= k < s.len() ==> #[trigger] s[k] == '/',
    decreases s.len(),
{
    if s.len() > 0 && s.last() == '/' {
        let rest = s.drop_last();
        law_only_slashes_are_cut(rest);
        assert forall|k: int| without_end_slashes(s).len() <= k < s.len() implies #[trigger] s[k]
            == '/' by {
            if k < rest.len() {
                assert(rest[k] == s[k]);
            }
        }
    }
}

/// Two characters that are the same, or one ASCII letter in its two cases.
pub open spec fn same_but_case(a: char, b: char) -> bool {
    ||| a == b
    ||| 'A' <= a <= 'Z' && b as int == a as int + 32
    ||| 'A' <= b <= 'Z' && a as int == b as int + 32
}

/// Made small, two texts are the same exactly when they differ in nothing but the case of ASCII
/// letters. No capital is left, and a text without capitals stays as it is.
pub proof fn law_small_letters(s: Seq<char>, t: Seq<char>)
    ensures
        lowered(s) == lowered(t) <==> s.len() == t.len() && forall|i: int|
            0 <= i < s.len() ==> same_but_case(#[trigger] s[i], t[i]),
        forall|i: int| 0 <= i < s.len() ==> !('A' <= #[trigger] lowered(s)[i] <= 'Z'),
        (forall|i: int| 0 <= i < s.len() ==> !('A' <= #[trigger] s[i] <= 'Z')) ==> lowered(s) == s,
{
    if lowered(s) == lowered(t) {
        assert(lowered(s).len() == s.len() && lowered(t).len() == t.len());
        assert forall|i: int| 0 <= i < s.len() implies same_but_case(#[trigger] s[i], t[i]) by {
            assert(lowered(s)[i] == lower(s[i]));
            assert(lowered(t)[i] == lower(t[i]));
        }
    }
    if s.len() == t.len() && forall|i: int|
        0 <= i < s.len() ==> same_but_case(#[trigger] s[i], t[i]) {
        assert forall|i: int| 0 <= i < s.len() implies lowered(s)[i] == lowered(t)[i] by {
            assert(same_but_case(s[i], t[i]));
        }
        assert(lowered(s) =~= lowered(t));
    }
    if forall|i: int| 0 <= i < s.len() ==> !('A' <= #[trigger] s[i] <= 'Z') {
        assert(lowered(s) =~= s);
    }
}

/// The first character in which two strings differ decides their order, and the beginning of a
/// longer string comes before it.
pub proof fn law_first_difference_decides(a: Seq<char>, b: Seq<char>, i: int)
    requires
        0 <= i <= a.len(),
        i <= b.len(),
        a.take(i) == b.take(i),
    ensures
        i < a.len() && i < b.len() && a[i] < b[i] ==> precedes(a, b) && !precedes(b, a),
        i == a.len() && i < b.len() ==> precedes(a, b) && !precedes(b, a),
        i == a.len() && i == b.len() ==> !precedes(a, b) && !precedes(b, a),
{
    assert forall|j: int| 0 <= j < i implies a[j] == b[j] by {
        assert(a.take(i)[j] == a[j] && b.take(i)[j] == b[j]);
    }
    if i < b.len() && (i == a.len() || a[i] < b[i]) {
        assert(parts_below(a, b, i));
        lemma_precedes_irreflexive(a);
        if precedes(b, a) {
            lemma_precedes_transitive(a, b, a);
        }
    }
    if i == a.len() && i == b.len() {
        assert(a =~= b);
        lemma_precedes_irreflexive(a);
    }
}

} // verus!
