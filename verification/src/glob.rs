//! Patterns in which `*` stands for any run of characters.

use vstd::prelude::*;

use crate::text::{law_small_letters, lower_chars, lowered, same_but_case};

verus! {

/// Whether a text fits a pattern: `*` takes any run of characters, also an empty one, and
/// every other character takes itself.
pub open spec fn fits(pattern: Seq<char>, text: Seq<char>) -> bool
    decreases pattern.len(),
{
    if pattern.len() == 0 {
        text.len() == 0
    } else if pattern[0] == '*' {
        exists|k: int| 0 <= k <= text.len() && fits(pattern.skip(1), #[trigger] text.skip(k))
    } else {
        text.len() > 0 && text[0] == pattern[0] && fits(pattern.skip(1), text.skip(1))
    }
}

/// Whether a text fits a pattern when capital ASCII letters count as small ones.
pub open spec fn fits_any_case(pattern: Seq<char>, text: Seq<char>) -> bool {
    fits(lowered(pattern), lowered(text))
}

/// The part of the pattern from `from` to `to` holds no `*`.
spec fn plain(pattern: Seq<char>, from: int, to: int) -> bool {
    forall|j: int| from <= j < to ==> pattern[j] != '*'
}

/// The text holds, from `at`, the part of the pattern from `from` to `to`.
spec fn holds_at(pattern: Seq<char>, from: int, to: int, text: Seq<char>, at: int) -> bool {
    &&& 0 <= at
    &&& at + (to - from) <= text.len()
    &&& forall|j: int| from <= j < to ==> pattern[j] == text[at + (j - from)]
}

/// A part of the pattern without `*` takes exactly its own characters.
proof fn lemma_plain_part(pattern: Seq<char>, from: int, to: int, text: Seq<char>, at: int)
    requires
        0 <= from <= to <= pattern.len(),
        0 <= at <= text.len(),
        plain(pattern, from, to),
    ensures
        fits(pattern.skip(from), text.skip(at)) == (holds_at(pattern, from, to, text, at) && fits(
            pattern.skip(to),
            text.skip(at + (to - from)),
        )),
    decreases to - from,
{
    if from < to {
        let p = pattern.skip(from);
        let t = text.skip(at);
        assert(p[0] == pattern[from]);
        assert(p.skip(1) =~= pattern.skip(from + 1));
        if at < text.len() {
            assert(t[0] == text[at]);
            assert(t.skip(1) =~= text.skip(at + 1));
            lemma_plain_part(pattern, from + 1, to, text, at + 1);
            if holds_at(pattern, from, to, text, at) {
                assert(pattern[from] == text[at + (from - from)]);
                assert forall|j: int| from + 1 <= j < to implies pattern[j] == text[at + 1 + (j - (
                from + 1))] by {
                    assert(pattern[j] == text[at + (j - from)]);
                }
                assert(holds_at(pattern, from + 1, to, text, at + 1));
            }
            if text[at] == pattern[from] && holds_at(pattern, from + 1, to, text, at + 1) {
                assert forall|j: int| from <= j < to implies pattern[j] == text[at + (j - from)] by {
                    if j > from {
                        assert(pattern[j] == text[at + 1 + (j - (from + 1))]);
                    }
                }
            }
        }
    }
}

/// What a pattern that begins with `*` takes of a text's end, it takes of a longer one too.
proof fn lemma_star_takes_more(pattern: Seq<char>, text: Seq<char>, early: int, late: int)
    requires
        pattern.len() > 0,
        pattern[0] == '*',
        0 <= early <= late <= text.len(),
        fits(pattern, text.skip(late)),
    ensures
        fits(pattern, text.skip(early)),
{
    let t = text.skip(late);
    let k = choose|k: int| 0 <= k <= t.len() && fits(pattern.skip(1), #[trigger] t.skip(k));
    let k2 = k + (late - early);
    assert(text.skip(early).skip(k2) =~= t.skip(k));
}

/// A pattern of `*` and a last part without `*` fits the texts that end in that part.
proof fn lemma_last_part(pattern: Seq<char>, star: int, text: Seq<char>, at: int)
    requires
        0 <= star < pattern.len(),
        pattern[star] == '*',
        plain(pattern, star + 1, pattern.len() as int),
        0 <= at <= text.len(),
    ensures
        fits(pattern.skip(star), text.skip(at)) == (at <= text.len() - (pattern.len() - (star + 1))
            && holds_at(
            pattern,
            star + 1,
            pattern.len() as int,
            text,
            text.len() - (pattern.len() - (star + 1)),
        )),
{
    let p = pattern.skip(star);
    let t = text.skip(at);
    let end = pattern.len() as int;
    let size = end - (star + 1);
    assert(p[0] == '*');
    assert(p.skip(1) =~= pattern.skip(star + 1));
    if fits(p, t) {
        let k = choose|k: int| 0 <= k <= t.len() && fits(p.skip(1), #[trigger] t.skip(k));
        assert(t.skip(k) =~= text.skip(at + k));
        lemma_plain_part(pattern, star + 1, end, text, at + k);
        assert(text.skip(at + k + size).len() == 0);
    }
    if at <= text.len() - size && holds_at(pattern, star + 1, end, text, text.len() - size) {
        let k = text.len() - size - at;
        lemma_plain_part(pattern, star + 1, end, text, at + k);
        assert(t.skip(k) =~= text.skip(at + k));
        assert(fits(p.skip(1), t.skip(k)));
    }
}

/// Where a part without `*` stands between two `*`, taking its first occurrence loses nothing.
proof fn lemma_middle_part(
    pattern: Seq<char>,
    star: int,
    next: int,
    text: Seq<char>,
    at: int,
    first: int,
)
    requires
        0 <= star < next < pattern.len(),
        pattern[star] == '*',
        pattern[next] == '*',
        plain(pattern, star + 1, next),
        0 <= at <= first <= text.len(),
        holds_at(pattern, star + 1, next, text, first),
        forall|i: int| at <= i < first ==> !#[trigger] holds_at(pattern, star + 1, next, text, i),
    ensures
        fits(pattern.skip(star), text.skip(at)) == fits(
            pattern.skip(next),
            text.skip(first + (next - (star + 1))),
        ),
{
    let p = pattern.skip(star);
    let t = text.skip(at);
    let size = next - (star + 1);
    assert(p[0] == '*');
    assert(p.skip(1) =~= pattern.skip(star + 1));
    if fits(p, t) {
        let k = choose|k: int| 0 <= k <= t.len() && fits(p.skip(1), #[trigger] t.skip(k));
        assert(t.skip(k) =~= text.skip(at + k));
        lemma_plain_part(pattern, star + 1, next, text, at + k);
        assert(first <= at + k);
        assert(pattern.skip(next)[0] == '*');
        lemma_star_takes_more(pattern.skip(next), text, first + size, at + k + size);
    }
    if fits(pattern.skip(next), text.skip(first + size)) {
        lemma_plain_part(pattern, star + 1, next, text, first);
        assert(t.skip(first - at) =~= text.skip(first));
        assert(fits(p.skip(1), t.skip(first - at)));
    }
}

/// Where a part without `*` behind a `*` occurs nowhere, nothing fits.
proof fn lemma_missing_part(pattern: Seq<char>, star: int, next: int, text: Seq<char>, at: int)
    requires
        0 <= star < next <= pattern.len(),
        pattern[star] == '*',
        plain(pattern, star + 1, next),
        0 <= at <= text.len(),
        forall|i: int| at <= i <= text.len() ==> !#[trigger] holds_at(pattern, star + 1, next, text, i),
    ensures
        !fits(pattern.skip(star), text.skip(at)),
{
    let p = pattern.skip(star);
    let t = text.skip(at);
    assert(p[0] == '*');
    assert(p.skip(1) =~= pattern.skip(star + 1));
    if fits(p, t) {
        let k = choose|k: int| 0 <= k <= t.len() && fits(p.skip(1), #[trigger] t.skip(k));
        assert(t.skip(k) =~= text.skip(at + k));
        lemma_plain_part(pattern, star + 1, next, text, at + k);
    }
}

/// The place of the next `*` in a pattern, or its length.
fn next_star(pattern: &Vec<char>, from: usize) -> (at: usize)
    requires
        from <= pattern.len(),
    ensures
        from <= at <= pattern.len(),
        plain(pattern@, from as int, at as int),
        at < pattern.len() ==> pattern@[at as int] == '*',
{
    let mut at: usize = from;
    while at < pattern.len() && pattern[at] != '*'
        invariant
            from <= at <= pattern.len(),
            plain(pattern@, from as int, at as int),
        decreases pattern.len() - at,
    {
        at += 1;
    }
    at
}

/// Whether the text holds, from `at`, a part of the pattern.
fn part_at(pattern: &Vec<char>, from: usize, to: usize, text: &Vec<char>, at: usize) -> (held: bool)
    requires
        from <= to <= pattern.len(),
        at <= text.len(),
    ensures
        held == holds_at(pattern@, from as int, to as int, text@, at as int),
{
    if text.len() - at < to - from {
        return false;
    }
    let mut i: usize = 0;
    while i < to - from
        invariant
            from <= to <= pattern.len(),
            at <= text.len(),
            to - from <= text.len() - at,
            i <= to - from,
            forall|j: int| from <= j < from + i ==> pattern@[j] == text@[at + (j - from)],
        decreases (to - from) - i,
    {
        if pattern[from + i] != text[at + i] {
            assert(pattern@[from + i] != text@[at + ((from + i) - from)]);
            return false;
        }
        i += 1;
    }
    true
}

/// Where a part of the pattern first occurs in the text, from `at` on.
fn find_part(pattern: &Vec<char>, from: usize, to: usize, text: &Vec<char>, at: usize) -> (first: Option<
    usize,
>)
    requires
        from <= to <= pattern.len(),
        at <= text.len(),
    ensures
        match first {
            Some(f) => {
                &&& at <= f <= text.len()
                &&& holds_at(pattern@, from as int, to as int, text@, f as int)
                &&& forall|i: int|
                    at <= i < f ==> !#[trigger] holds_at(pattern@, from as int, to as int, text@, i)
            },
            None => forall|i: int|
                at <= i <= text.len() ==> !#[trigger] holds_at(
                    pattern@,
                    from as int,
                    to as int,
                    text@,
                    i,
                ),
        },
{
    let mut f: usize = at;
    while f < text.len()
        invariant
            from <= to <= pattern.len(),
            at <= f <= text.len(),
            forall|i: int|
                at <= i < f ==> !#[trigger] holds_at(pattern@, from as int, to as int, text@, i),
        decreases text.len() - f,
    {
        if part_at(pattern, from, to, text, f) {
            return Some(f);
        }
        f += 1;
    }
    if part_at(pattern, from, to, text, f) {
        Some(f)
    } else {
        None
    }
}

/// Whether a text fits a pattern in which `*` takes any run of characters. Capital and small
/// ASCII letters count as the same.
///
/// The part before the first `*` has to begin the text, the part behind the last has to end
/// it, and each part between takes its first occurrence behind the one before it.
pub fn glob_match(pattern: &str, text: &str) -> (fit: bool)
    ensures
        fit == fits_any_case(pattern@, text@),
{
    let p = lower_chars(pattern);
    let t = lower_chars(text);
    let mut star: usize = next_star(&p, 0);
    let mut at: usize = star;
    proof {
        assert(p@.skip(0) =~= p@);
        assert(t@.skip(0) =~= t@);
        lemma_plain_part(p@, 0, star as int, t@, 0);
    }
    if !part_at(&p, 0, star, &t, 0) {
        return false;
    }
    if star == p.len() {
        return t.len() == star;
    }
    loop
        invariant
            star < p.len(),
            p@[star as int] == '*',
            at <= t.len(),
            fits(p@, t@) == fits(p@.skip(star as int), t@.skip(at as int)),
            p@ == lowered(pattern@),
            t@ == lowered(text@),
        decreases p.len() - star,
    {
        let next = next_star(&p, star + 1);
        if next == p.len() {
            let size = next - (star + 1);
            proof {
                lemma_last_part(p@, star as int, t@, at as int);
            }
            return t.len() - at >= size && part_at(&p, star + 1, next, &t, t.len() - size);
        }
        match find_part(&p, star + 1, next, &t, at) {
            Some(first) => {
                proof {
                    lemma_middle_part(
                        p@,
                        star as int,
                        next as int,
                        t@,
                        at as int,
                        first as int,
                    );
                }
                at = first + (next - (star + 1));
                star = next;
            },
            None => {
                proof {
                    lemma_missing_part(p@, star as int, next as int, t@, at as int);
                }
                return false;
            },
        }
    }
}

/// A text holds `part` from `at`.
pub open spec fn occurs_at(part: Seq<char>, text: Seq<char>, at: int) -> bool {
    0 <= at <= text.len() - part.len() && text.subrange(at, at + part.len()) == part
}

/// The whole of a part, at a place of the text.
proof fn lemma_holds_is_occurs(pattern: Seq<char>, from: int, to: int, text: Seq<char>, at: int)
    requires
        0 <= from <= to <= pattern.len(),
    ensures
        holds_at(pattern, from, to, text, at) == occurs_at(pattern.subrange(from, to), text, at),
{
    let part = pattern.subrange(from, to);
    if holds_at(pattern, from, to, text, at) {
        assert forall|i: int| 0 <= i < part.len() implies text.subrange(at, at + part.len())[i]
            == part[i] by {
            assert(pattern[from + i] == text[at + ((from + i) - from)]);
        }
        assert(text.subrange(at, at + part.len()) =~= part);
    }
    if occurs_at(part, text, at) {
        assert forall|j: int| from <= j < to implies pattern[j] == text[at + (j - from)] by {
            assert(text.subrange(at, at + part.len())[j - from] == part[j - from]);
        }
    }
}

/// `*` alone fits every text.
pub proof fn law_star_fits_everything(text: Seq<char>)
    ensures
        fits(seq!['*'], text),
{
    assert(text.skip(text.len() as int).len() == 0);
    assert(seq!['*'].skip(1).len() == 0);
    assert(fits(seq!['*'].skip(1), text.skip(text.len() as int)));
}

/// A pattern without `*` fits itself and nothing else.
pub proof fn law_without_star_is_exact(pattern: Seq<char>, text: Seq<char>)
    requires
        !pattern.contains('*'),
    ensures
        fits(pattern, text) == (pattern == text),
{
    let end = pattern.len() as int;
    assert(pattern.skip(0) =~= pattern);
    assert(text.skip(0) =~= text);
    lemma_plain_part(pattern, 0, end, text, 0);
    lemma_holds_is_occurs(pattern, 0, end, text, 0);
    assert(pattern.subrange(0, end) =~= pattern);
    if fits(pattern, text) {
        assert(text.skip(end).len() == 0);
        assert(text.subrange(0, end) =~= text);
    }
    if pattern == text {
        assert(text.subrange(0, end) =~= text);
        assert(text.skip(end).len() == 0);
    }
}

/// A part with `*` behind it fits the texts that begin with the part.
pub proof fn law_star_at_end_fits_beginnings(part: Seq<char>, text: Seq<char>)
    requires
        !part.contains('*'),
    ensures
        fits(part.push('*'), text) == part.is_prefix_of(text),
{
    let pattern = part.push('*');
    let n = part.len() as int;
    assert(pattern.skip(0) =~= pattern);
    assert(text.skip(0) =~= text);
    assert forall|j: int| 0 <= j < n implies pattern[j] != '*' by {
        assert(part.contains(part[j]));
    }
    lemma_plain_part(pattern, 0, n, text, 0);
    lemma_holds_is_occurs(pattern, 0, n, text, 0);
    assert(pattern.subrange(0, n) =~= part);
    assert(pattern.skip(n) =~= seq!['*']);
    law_star_fits_everything(text.skip(n));
}

/// A part with `*` before it fits the texts that end in the part.
pub proof fn law_star_at_start_fits_endings(part: Seq<char>, text: Seq<char>)
    requires
        !part.contains('*'),
    ensures
        fits(seq!['*'] + part, text) == part.is_suffix_of(text),
{
    let pattern = seq!['*'] + part;
    let n = part.len() as int;
    assert(pattern.skip(0) =~= pattern);
    assert(text.skip(0) =~= text);
    assert forall|j: int| 1 <= j < n + 1 implies pattern[j] != '*' by {
        assert(part.contains(part[j - 1]));
    }
    lemma_last_part(pattern, 0, text, 0);
    lemma_holds_is_occurs(pattern, 1, n + 1, text, text.len() - n);
    assert(pattern.subrange(1, n + 1) =~= part);
}

/// A part with `*` on both sides fits the texts in which the part occurs.
pub proof fn law_star_on_both_sides_fits_occurrences(part: Seq<char>, text: Seq<char>)
    requires
        !part.contains('*'),
    ensures
        fits((seq!['*'] + part).push('*'), text) == exists|at: int| occurs_at(part, text, at),
{
    let pattern = (seq!['*'] + part).push('*');
    let n = part.len() as int;
    assert(pattern.skip(0) =~= pattern);
    assert(text.skip(0) =~= text);
    assert forall|j: int| 1 <= j < n + 1 implies pattern[j] != '*' by {
        assert(part.contains(part[j - 1]));
    }
    assert(pattern.subrange(1, n + 1) =~= part);
    assert(pattern.skip(n + 1) =~= seq!['*']);
    assert(pattern.skip(1) =~= pattern.skip(0).skip(1));
    if fits(pattern, text) {
        let k = choose|k: int| 0 <= k <= text.len() && fits(pattern.skip(1), #[trigger] text.skip(k));
        lemma_plain_part(pattern, 1, n + 1, text, k);
        lemma_holds_is_occurs(pattern, 1, n + 1, text, k);
        assert(occurs_at(part, text, k));
    }
    if exists|at: int| occurs_at(part, text, at) {
        let at = choose|at: int| occurs_at(part, text, at);
        lemma_plain_part(pattern, 1, n + 1, text, at);
        lemma_holds_is_occurs(pattern, 1, n + 1, text, at);
        law_star_fits_everything(text.skip(at + n));
        assert(fits(pattern.skip(1), text.skip(at)));
    }
}

/// Patterns and texts that differ only in the case of ASCII letters are treated alike.
pub proof fn law_case_makes_no_difference(
    pattern: Seq<char>,
    other_pattern: Seq<char>,
    text: Seq<char>,
    other_text: Seq<char>,
)
    requires
        lowered(pattern) == lowered(other_pattern),
        lowered(text) == lowered(other_text),
    ensures
        fits_any_case(pattern, text) == fits_any_case(other_pattern, other_text),
{
}

/// A pattern made of two parts fits exactly the texts that fall into two pieces, of which the
/// first fits the first part and the second the second.
pub proof fn law_patterns_compose(first: Seq<char>, second: Seq<char>, text: Seq<char>)
    ensures
        fits(first + second, text) == exists|k: int|
            0 <= k <= text.len() && fits(first, #[trigger] text.take(k)) && fits(
                second,
                text.skip(k),
            ),
    decreases first.len(),
{
    let whole = first + second;
    if first.len() == 0 {
        assert(whole =~= second);
        assert(text.skip(0) =~= text);
        assert(text.take(0).len() == 0);
        if fits(whole, text) {
            assert(fits(first, text.take(0)) && fits(second, text.skip(0)));
        }
    } else {
        let rest = first.skip(1);
        assert(whole.skip(1) =~= rest + second);
        assert(whole[0] == first[0]);
        if first[0] == '*' {
            if fits(whole, text) {
                let j = choose|j: int|
                    0 <= j <= text.len() && fits(whole.skip(1), #[trigger] text.skip(j));
                let t = text.skip(j);
                law_patterns_compose(rest, second, t);
                let k = choose|k: int|
                    0 <= k <= t.len() && fits(rest, #[trigger] t.take(k)) && fits(
                        second,
                        t.skip(k),
                    );
                assert(text.take(j + k).skip(j) =~= t.take(k));
                assert(text.skip(j + k) =~= t.skip(k));
                assert(fits(first, text.take(j + k)));
            }
            if exists|k: int|
                0 <= k <= text.len() && fits(first, #[trigger] text.take(k)) && fits(
                    second,
                    text.skip(k),
                ) {
                let k = choose|k: int|
                    0 <= k <= text.len() && fits(first, #[trigger] text.take(k)) && fits(
                        second,
                        text.skip(k),
                    );
                let head = text.take(k);
                let j = choose|j: int|
                    0 <= j <= head.len() && fits(rest, #[trigger] head.skip(j));
                let t = text.skip(j);
                assert(t.take(k - j) =~= head.skip(j));
                assert(t.skip(k - j) =~= text.skip(k));
                law_patterns_compose(rest, second, t);
                assert(fits(whole.skip(1), text.skip(j)));
            }
        } else {
            let t = text.skip(1);
            if text.len() > 0 {
                law_patterns_compose(rest, second, t);
            }
            if fits(whole, text) {
                let k = choose|k: int|
                    0 <= k <= t.len() && fits(rest, #[trigger] t.take(k)) && fits(
                        second,
                        t.skip(k),
                    );
                assert(text.take(k + 1).skip(1) =~= t.take(k));
                assert(text.skip(k + 1) =~= t.skip(k));
                assert(fits(first, text.take(k + 1)));
            }
            if exists|k: int|
                0 <= k <= text.len() && fits(first, #[trigger] text.take(k)) && fits(
                    second,
                    text.skip(k),
                ) {
                let k = choose|k: int|
                    0 <= k <= text.len() && fits(first, #[trigger] text.take(k)) && fits(
                        second,
                        text.skip(k),
                    );
                assert(text.take(k).skip(1) =~= t.take(k - 1));
                assert(t.skip(k - 1) =~= text.skip(k));
                assert(fits(rest, t.take(k - 1)) && fits(second, t.skip(k - 1)));
                assert(text.take(k)[0] == text[0]);
            }
        }
    }
}

/// Case is the one thing that patterns and texts may differ in: a text fits in any case exactly
/// when writings of the pattern and of the text fit that hold no capital ASCII letter.
pub proof fn law_case_is_all_that_is_ignored(
    pattern: Seq<char>,
    text: Seq<char>,
    small_pattern: Seq<char>,
    small_text: Seq<char>,
)
    requires
        small_pattern.len() == pattern.len(),
        small_text.len() == text.len(),
        forall|i: int|
            0 <= i < pattern.len() ==> same_but_case(#[trigger] pattern[i], small_pattern[i])
                && !('A' <= small_pattern[i] <= 'Z'),
        forall|i: int|
            0 <= i < text.len() ==> same_but_case(#[trigger] text[i], small_text[i]) && !('A'
                <= small_text[i] <= 'Z'),
    ensures
        fits_any_case(pattern, text) == fits(small_pattern, small_text),
{
    law_small_letters(pattern, small_pattern);
    law_small_letters(text, small_text);
    assert forall|i: int| 0 <= i < small_pattern.len() implies !('A' <= #[trigger] small_pattern[i]
        <= 'Z') by {
        assert(same_but_case(pattern[i], small_pattern[i]));
    }
    assert forall|i: int| 0 <= i < small_text.len() implies !('A' <= #[trigger] small_text[i]
        <= 'Z') by {
        assert(same_but_case(text[i], small_text[i]));
    }
    law_small_letters(small_pattern, small_pattern);
    law_small_letters(small_text, small_text);
}

} // verus!
