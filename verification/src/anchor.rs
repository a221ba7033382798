//! Anchor names: how an article is addressed inside the content document.

use vstd::prelude::*;
use crate::decimal::{decimal, digit_of, is_decimal, is_digit, lemma_decimal_injective,
    lemma_decimal_number, lemma_decimal_shape, lemma_number_decimal, number, parse_decimal,
    push_decimal};
use crate::text::{chars_of, push_char};

verus! {

/// `s` with every space replaced by an underscore.
pub open spec fn underscored(s: Seq<char>) -> Seq<char> {
    Seq::new(s.len(), |i: int| if s[i] == ' ' { '_' } else { s[i] })
}

/// The anchor name of the article with the given title at position `index`:
/// the title with underscores for spaces, an underscore, and the position in
/// decimal notation.
pub open spec fn anchor_id(title: Seq<char>, index: nat) -> Seq<char> {
    underscored(title).push('_') + decimal(index)
}

/// Appends the anchor name for `title` and `index` to `out`.
pub(crate) fn push_anchor(out: &mut String, title: &Vec<char>, index: usize)
    ensures
        final(out)@ == old(out)@ + anchor_id(title@, index as nat),
{
    let n = title.len();
    let mut i: usize = 0;
    while i < n
        invariant
            i <= n,
            n == title.len(),
            out@ == old(out)@ + underscored(title@).take(i as int),
        decreases n - i,
    {
        let c = title[i];
        if c == ' ' {
            push_char(out, '_');
        } else {
            push_char(out, c);
        }
        proof {
            assert(underscored(title@).take(i + 1) =~= underscored(title@).take(i as int).push(
                underscored(title@)[i as int],
            ));
        }
        i += 1;
    }
    proof {
        assert(underscored(title@).take(n as int) =~= underscored(title@));
    }
    push_char(out, '_');
    push_decimal(out, index);
    proof {
        assert(out@ =~= old(out)@ + anchor_id(title@, index as nat));
    }
}

/// The anchor name of the article titled `s` at position `idx`.
pub fn make_name(s: &str, idx: usize) -> (name: String)
    ensures
        name@ == anchor_id(s@, idx as nat),
{
    let title = chars_of(s);
    let mut name = String::new();
    push_anchor(&mut name, &title, idx);
    name
}

/// Whether `anchor` ends in an underscore and the decimal notation of
/// `index`: whether it can be the anchor name of an article at that position.
pub open spec fn names_index(anchor: Seq<char>, index: nat) -> bool {
    let digits = decimal(index);
    &&& digits.len() < anchor.len()
    &&& anchor.skip(anchor.len() - digits.len()) == digits
    &&& anchor[anchor.len() - digits.len() - 1] == '_'
}

/// The position that `anchor` names, if it names one.
pub open spec fn anchor_index(anchor: Seq<char>) -> Option<nat> {
    if exists|i: nat| names_index(anchor, i) {
        Some(choose|i: nat| names_index(anchor, i))
    } else {
        None
    }
}

/// An underscore is no digit.
proof fn lemma_underscore_is_no_digit()
    ensures
        !is_digit('_'),
{
}

/// Where the digits at the end of an anchor start: if `anchor` names `index`
/// and `start` is where its last run of digits begins, then an underscore
/// stands before `start` and the run is the notation of `index`.
pub proof fn lemma_names_index_run(anchor: Seq<char>, index: nat, start: int)
    requires
        names_index(anchor, index),
        0 <= start <= anchor.len(),
        forall|j: int| start <= j < anchor.len() ==> is_digit(#[trigger] anchor[j]),
        start > 0 ==> !is_digit(anchor[start - 1]),
    ensures
        start >= 1,
        anchor[start - 1] == '_',
        anchor.skip(start) == decimal(index),
{
    let digits = decimal(index);
    let at = anchor.len() - digits.len();
    lemma_decimal_shape(index);
    lemma_underscore_is_no_digit();
    if start < at {
        assert(is_digit(anchor[at - 1]));
    } else if at < start {
        assert(anchor.skip(at)[start - 1 - at] == anchor[start - 1]);
        assert(is_digit(digits[start - 1 - at]));
    }
}

/// An anchor names at most one position.
pub proof fn lemma_names_one_index(anchor: Seq<char>, i: nat, j: nat)
    requires
        names_index(anchor, i),
        names_index(anchor, j),
    ensures
        i == j,
{
    let di = decimal(i);
    let dj = decimal(j);
    lemma_decimal_shape(i);
    lemma_decimal_shape(j);
    lemma_underscore_is_no_digit();
    let ai = anchor.len() - di.len();
    let aj = anchor.len() - dj.len();
    if ai < aj {
        assert(anchor.skip(ai)[aj - 1 - ai] == anchor[aj - 1]);
        assert(is_digit(di[aj - 1 - ai]));
    } else if aj < ai {
        assert(anchor.skip(aj)[ai - 1 - aj] == anchor[ai - 1]);
        assert(is_digit(dj[ai - 1 - aj]));
    } else {
        lemma_decimal_injective(i, j);
    }
}

/// The anchor name made for a position names that position and no other.
pub proof fn lemma_anchor_index(title: Seq<char>, index: nat)
    ensures
        names_index(anchor_id(title, index), index),
        anchor_index(anchor_id(title, index)) == Some(index),
{
    let anchor = anchor_id(title, index);
    let digits = decimal(index);
    assert(anchor.skip(anchor.len() - digits.len()) =~= digits);
    assert(anchor[anchor.len() - digits.len() - 1] == '_');
    assert(names_index(anchor, index));
    let chosen = choose|i: nat| names_index(anchor, i);
    lemma_names_one_index(anchor, chosen, index);
}

/// Anchor names do not collide: articles at different positions get
/// different anchor names, whatever their titles are.
pub proof fn lemma_anchors_distinct(title_a: Seq<char>, a: nat, title_b: Seq<char>, b: nat)
    requires
        a != b,
    ensures
        anchor_id(title_a, a) != anchor_id(title_b, b),
{
    lemma_anchor_index(title_a, a);
    lemma_anchor_index(title_b, b);
}

/// The position that the anchor name `anchor` names: the number behind its
/// last underscore, if it ends in an underscore and a decimal notation.
/// `None` too where that number is beyond `usize::MAX`.
pub fn anchor_position(anchor: &str) -> (r: Option<usize>)
    ensures
        match anchor_index(anchor@) {
            Some(i) => if i <= usize::MAX {
                r == Some(i as usize)
            } else {
                r is None
            },
            None => r is None,
        },
{
    let chars = chars_of(anchor);
    let len = chars.len();
    let mut start: usize = len;
    while start > 0 && digit_of(chars[start - 1]).is_some()
        invariant
            start <= len,
            len == chars.len(),
            forall|j: int| start <= j < len ==> is_digit(#[trigger] chars@[j]),
        decreases start,
    {
        start -= 1;
    }
    let ghost run = chars@.subrange(start as int, len as int);
    proof {
        assert(run =~= chars@.skip(start as int));
        assert forall|i: nat| names_index(anchor@, i) implies start >= 1 && chars@[start - 1]
            == '_' && run == decimal(i) by {
            lemma_names_index_run(anchor@, i, start as int);
        }
    }
    if start == 0 || chars[start - 1] != '_' {
        return None;
    }
    let parsed = parse_decimal(&chars, start, len);
    proof {
        if is_decimal(run) {
            let n = number(run);
            lemma_number_decimal(run);
            assert(names_index(anchor@, n));
            let chosen = choose|i: nat| names_index(anchor@, i);
            lemma_names_one_index(anchor@, chosen, n);
        } else {
            assert forall|i: nat| !names_index(anchor@, i) by {
                if names_index(anchor@, i) {
                    lemma_decimal_number(i);
                }
            }
        }
    }
    parsed
}

} // verus!
