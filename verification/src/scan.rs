//! Searching a sequence of characters: prefixes, first occurrences, lines.

use vstd::prelude::*;

verus! {

/// Whether `needle` stands in `hay` at position `i`.
pub open spec fn occurs_at(hay: Seq<char>, needle: Seq<char>, i: int) -> bool {
    &&& 0 <= i
    &&& i + needle.len() <= hay.len()
    &&& hay.subrange(i, i + needle.len()) == needle
}

/// The least position at which `needle` stands in `hay`, if there is one.
pub open spec fn first_occurrence(hay: Seq<char>, needle: Seq<char>) -> Option<int> {
    if exists|i: int| occurs_at(hay, needle, i) {
        Some(choose|i: int| is_first_occurrence(hay, needle, i))
    } else {
        None
    }
}

/// Whether `needle` stands in `hay` at `i` and at no position before `i`.
pub open spec fn is_first_occurrence(hay: Seq<char>, needle: Seq<char>, i: int) -> bool {
    &&& occurs_at(hay, needle, i)
    &&& forall|j: int| 0 <= j < i ==> !occurs_at(hay, needle, j)
}

/// Among the positions at which `needle` stands in `hay`, one is the least.
proof fn lemma_least_occurrence(hay: Seq<char>, needle: Seq<char>, i: int) -> (k: int)
    requires
        occurs_at(hay, needle, i),
    ensures
        0 <= k <= i,
        is_first_occurrence(hay, needle, k),
    decreases i,
{
    if exists|j: int| 0 <= j < i && occurs_at(hay, needle, j) {
        let j = choose|j: int| 0 <= j < i && occurs_at(hay, needle, j);
        lemma_least_occurrence(hay, needle, j)
    } else {
        i
    }
}

/// `first_occurrence` is `Some(i)` exactly for the least position `i` at which
/// `needle` stands, and `None` exactly when it stands nowhere.
pub proof fn lemma_first_occurrence(hay: Seq<char>, needle: Seq<char>)
    ensures
        match first_occurrence(hay, needle) {
            Some(i) => is_first_occurrence(hay, needle, i),
            None => forall|j: int| !occurs_at(hay, needle, j),
        },
        forall|i: int|
            is_first_occurrence(hay, needle, i) ==> first_occurrence(hay, needle) == Some(i),
{
    if exists|i: int| occurs_at(hay, needle, i) {
        let w = choose|i: int| occurs_at(hay, needle, i);
        let k = lemma_least_occurrence(hay, needle, w);
        let c = choose|i: int| is_first_occurrence(hay, needle, i);
        assert(is_first_occurrence(hay, needle, c));
        assert forall|i: int| is_first_occurrence(hay, needle, i) implies i == c by {
            if i < c {
                assert(!occurs_at(hay, needle, i));
            } else if c < i {
                assert(!occurs_at(hay, needle, c));
            }
        }
    }
}

/// Whether `hay[at..end]` starts with `needle`.
pub(crate) fn starts_with(hay: &Vec<char>, at: usize, end: usize, needle: &Vec<char>) -> (found: bool)
    requires
        at <= end <= hay.len(),
    ensures
        found == needle@.is_prefix_of(hay@.subrange(at as int, end as int)),
{
    let n = needle.len();
    let ghost window = hay@.subrange(at as int, end as int);
    if n > end - at {
        return false;
    }
    let mut k: usize = 0;
    while k < n
        invariant
            at <= end <= hay.len(),
            n == needle.len(),
            n <= end - at,
            k <= n,
            window == hay@.subrange(at as int, end as int),
            forall|j: int| 0 <= j < k ==> window[j] == needle@[j],
        decreases n - k,
    {
        if hay[at + k] != needle[k] {
            proof {
                assert(window.subrange(0, n as int)[k as int] == window[k as int]);
            }
            return false;
        }
        k += 1;
    }
    proof {
        assert(window.subrange(0, n as int) =~= needle@);
    }
    true
}

/// The least position in `hay[from..end]`, counted from `from`, at which
/// `needle` stands.
pub(crate) fn find(hay: &Vec<char>, from: usize, end: usize, needle: &Vec<char>) -> (found: Option<usize>)
    requires
        from <= end <= hay.len(),
    ensures
        match found {
            Some(i) => first_occurrence(hay@.subrange(from as int, end as int), needle@) == Some(
                i as int,
            ),
            None => first_occurrence(hay@.subrange(from as int, end as int), needle@) is None,
        },
{
    let ghost window = hay@.subrange(from as int, end as int);
    proof {
        lemma_first_occurrence(window, needle@);
    }
    let n = needle.len();
    if n > end - from {
        proof {
            assert forall|j: int| !occurs_at(window, needle@, j) by {}
        }
        return None;
    }
    let last: usize = end - n;
    let mut i: usize = from;
    loop
        invariant
            from <= i <= last,
            last + n == end,
            n == needle.len(),
            end <= hay.len(),
            window == hay@.subrange(from as int, end as int),
            forall|j: int| 0 <= j < i - from ==> !occurs_at(window, needle@, j),
            forall|k: int|
                is_first_occurrence(window, needle@, k) ==> first_occurrence(window, needle@)
                    == Some(k),
        decreases last - i,
    {
        let hit = starts_with(hay, i, end, needle);
        proof {
            let rel = i - from;
            assert(hay@.subrange(i as int, end as int).subrange(0, n as int) =~= window.subrange(
                rel,
                rel + n,
            ));
            assert(hit == occurs_at(window, needle@, rel));
            if hit {
                assert(is_first_occurrence(window, needle@, rel));
            }
        }
        if hit {
            return Some(i - from);
        }
        if i == last {
            proof {
                assert forall|j: int| !occurs_at(window, needle@, j) by {
                    if occurs_at(window, needle@, j) {
                        assert(j <= last - from);
                    }
                }
            }
            return None;
        }
        i += 1;
    }
}

/// The length of the longest prefix of `s` that does not hold `c`: where the
/// first `c` stands, or the length of `s` if it holds none.
pub open spec fn span_without(s: Seq<char>, c: char) -> nat
    decreases s.len(),
{
    if s.len() == 0 || s[0] == c {
        0
    } else {
        1 + span_without(s.drop_first(), c)
    }
}

/// `line` without its last character, if that is a carriage return.
pub open spec fn without_cr(line: Seq<char>) -> Seq<char> {
    if line.len() > 0 && line.last() == '\r' {
        line.drop_last()
    } else {
        line
    }
}

/// The lines of `s`. A line ends at a line feed, which is not part of it, nor
/// is a carriage return directly before that line feed. What follows the last
/// line feed is a line of its own unless it is empty.
pub open spec fn lines(s: Seq<char>) -> Seq<Seq<char>>
    decreases s.len(),
{
    if s.len() == 0 {
        Seq::empty()
    } else {
        let n = span_without(s, '\n') as int;
        if n >= s.len() {
            seq![s]
        } else {
            seq![without_cr(s.take(n))] + lines(s.skip(n + 1))
        }
    }
}

/// `span_without(s, c)` is the one position `n` before which `s` holds no
/// `c` and at which it holds one or ends.
pub proof fn lemma_span_without(s: Seq<char>, c: char, n: int)
    requires
        0 <= n <= s.len(),
        forall|j: int| 0 <= j < n ==> s[j] != c,
        n < s.len() ==> s[n] == c,
    ensures
        span_without(s, c) == n,
    decreases s.len(),
{
    if s.len() == 0 || s[0] == c {
    } else {
        let rest = s.drop_first();
        assert forall|j: int| 0 <= j < n - 1 implies rest[j] != c by {
            assert(rest[j] == s[j + 1]);
        }
        lemma_span_without(rest, c, n - 1);
    }
}

/// What `span_without` gives: a position in `s` before which no `c` stands
/// and at which one stands unless `s` ends there.
pub proof fn lemma_span_without_bounds(s: Seq<char>, c: char)
    ensures
        span_without(s, c) <= s.len(),
        forall|j: int| 0 <= j < span_without(s, c) ==> s[j] != c,
        span_without(s, c) < s.len() ==> s[span_without(s, c) as int] == c,
    decreases s.len(),
{
    if s.len() == 0 || s[0] == c {
    } else {
        let rest = s.drop_first();
        lemma_span_without_bounds(rest, c);
        assert forall|j: int| 0 <= j < span_without(s, c) implies s[j] != c by {
            if j > 0 {
                assert(rest[j - 1] == s[j]);
            }
        }
    }
}

/// A sequence that holds no `c`, followed by one that starts with `c`: the
/// first `c` stands where the second begins.
pub proof fn lemma_span_to(head: Seq<char>, rest: Seq<char>, c: char)
    requires
        !head.contains(c),
        rest.len() > 0,
        rest[0] == c,
    ensures
        span_without(head + rest, c) == head.len(),
{
    let s = head + rest;
    assert forall|j: int| 0 <= j < head.len() implies s[j] != c by {
        assert(head.contains(head[j]));
    }
    lemma_span_without(s, c, head.len() as int);
}

/// What stands behind a prefix, and the prefix itself.
pub proof fn lemma_prefix_then(head: Seq<char>, rest: Seq<char>)
    ensures
        head.is_prefix_of(head + rest),
        (head + rest).skip(head.len() as int) == rest,
        (head + rest).take(head.len() as int) == head,
{
    let s = head + rest;
    assert(s.subrange(0, head.len() as int) =~= head);
    assert(s.skip(head.len() as int) =~= rest);
    assert(s.take(head.len() as int) =~= head);
}

/// The first position at or behind `start` at which `text` holds `c`, or the
/// length of `text` if there is none.
pub(crate) fn skip_to(text: &Vec<char>, start: usize, c: char) -> (at: usize)
    requires
        start <= text.len(),
    ensures
        start <= at <= text.len(),
        at == start + span_without(text@.skip(start as int), c),
{
    let len = text.len();
    let mut i: usize = start;
    while i < len && text[i] != c
        invariant
            start <= i <= len,
            len == text.len(),
            forall|j: int| start <= j < i ==> text@[j] != c,
        decreases len - i,
    {
        i += 1;
    }
    proof {
        lemma_span_without(text@.skip(start as int), c, i - start);
    }
    i
}

/// The bounds of the line of `text` that starts at `start`: where the line
/// ends and where the next one starts. The next line starts behind the first
/// line feed; the line ends before that line feed, or before a carriage
/// return that stands directly before it. Without line feed both are the end
/// of `text`.
pub(crate) fn next_line(text: &Vec<char>, start: usize) -> (bounds: (usize, usize))
    requires
        start < text.len(),
    ensures
        start <= bounds.0 <= bounds.1 <= text.len(),
        start < bounds.1,
        ({
            let feed = start + span_without(text@.skip(start as int), '\n');
            &&& bounds.1 == if feed < text.len() {
                feed + 1
            } else {
                feed
            }
            &&& bounds.0 == if feed < text.len() && start < feed && text@[feed - 1] == '\r' {
                feed - 1
            } else {
                feed
            }
        }),
        lines(text@.skip(start as int)) == seq![
            text@.subrange(start as int, bounds.0 as int),
        ] + lines(text@.skip(bounds.1 as int)),
{
    let len = text.len();
    let ghost rest = text@.skip(start as int);
    let i = skip_to(text, start, '\n');
    if i == len {
        proof {
            assert(text@.subrange(start as int, len as int) =~= rest);
            assert(text@.skip(len as int).len() == 0);
            assert(lines(rest) =~= seq![rest] + lines(text@.skip(len as int)));
        }
        (len, len)
    } else {
        let end: usize = if i > start && text[i - 1] == '\r' {
            i - 1
        } else {
            i
        };
        proof {
            let n = i - start;
            assert(rest.take(n) =~= text@.subrange(start as int, i as int));
            assert(rest.skip(n + 1) =~= text@.skip(i + 1));
            assert(without_cr(rest.take(n)) =~= text@.subrange(start as int, end as int));
        }
        (end, i + 1)
    }
}

} // verus!
