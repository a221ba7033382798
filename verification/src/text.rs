//! Character-level building blocks: strings are modelled as `Seq<char>`,
//! read through a `Vec<char>` and written into a `String`.

use vstd::prelude::*;

verus! {

/// The parts one after the other, with nothing between them.
pub open spec fn concat(parts: Seq<Seq<char>>) -> Seq<char>
    decreases parts.len(),
{
    if parts.len() == 0 {
        Seq::empty()
    } else {
        concat(parts.drop_last()) + parts.last()
    }
}

/// The first part can be taken off the front.
pub proof fn lemma_concat_first(parts: Seq<Seq<char>>)
    requires
        parts.len() > 0,
    ensures
        concat(parts) == parts.first() + concat(parts.drop_first()),
    decreases parts.len(),
{
    if parts.len() == 1 {
        assert(parts.drop_last() =~= Seq::<Seq<char>>::empty());
        assert(parts.drop_first() =~= Seq::<Seq<char>>::empty());
        assert(concat(parts) =~= parts.first() + concat(parts.drop_first()));
    } else {
        let front = parts.drop_last();
        lemma_concat_first(front);
        assert(front.drop_first() =~= parts.drop_first().drop_last());
        assert(front.first() == parts.first());
        assert(parts.drop_first().last() == parts.last());
        assert(concat(parts) =~= parts.first() + concat(parts.drop_first()));
    }
}

/// Appends the character `c` to `out`.
///
/// Trusted: this is `String::push` of the standard library, which adds exactly
/// the given character at the end of the string and leaves the rest untouched.
#[verifier::external_body]
pub(crate) fn push_char(out: &mut String, c: char)
    ensures
        final(out)@ == old(out)@.push(c),
{
    out.push(c);
}

/// The characters of `s`, in order.
pub(crate) fn chars_of(s: &str) -> (chars: Vec<char>)
    ensures
        chars@ == s@,
{
    let mut chars: Vec<char> = Vec::new();
    let it = s.chars();
    for c in iter: it
        invariant
            iter.seq() == s@,
            chars@ == s@.take(iter.index()),
    {
        chars.push(c);
    }
    chars
}

/// Appends `chars[from..to]` to `out`.
pub(crate) fn push_range(out: &mut String, chars: &Vec<char>, from: usize, to: usize)
    requires
        from <= to <= chars.len(),
    ensures
        final(out)@ == old(out)@ + chars@.subrange(from as int, to as int),
{
    let mut i: usize = from;
    while i < to
        invariant
            from <= i <= to <= chars.len(),
            out@ == old(out)@ + chars@.subrange(from as int, i as int),
        decreases to - i,
    {
        push_char(out, chars[i]);
        i += 1;
    }
}

} // verus!
