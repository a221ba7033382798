//! The edition selector: which articles belong to the most recent edition.
//!
//! The identifiers of one edition share their first characters. The most
//! recent article names the edition; the pattern made from its identifier
//! selects the articles of that edition from the table.

use vstd::prelude::*;
use crate::error::SourceError;
use crate::text::{chars_of, push_char, push_range};

verus! {

/// Number of leading characters of an identifier that name its edition.
pub const PREFIX_LEN: usize = 6;

/// The pattern that the identifiers of the edition of `refid` match: the
/// first `PREFIX_LEN` characters, then `%` for any run of characters.
pub open spec fn edition_pattern(refid: Seq<char>) -> Seq<char> {
    refid.take(PREFIX_LEN as int).push('%')
}

/// The pattern for the edition named by the latest identifier, where the
/// table has one and it is long enough.
pub open spec fn pattern_of(latest: Option<Seq<char>>) -> Result<Seq<char>, SourceError> {
    match latest {
        None => Err(SourceError::EmptyEdition),
        Some(refid) => if refid.len() < PREFIX_LEN {
            Err(SourceError::MalformedIdentifier)
        } else {
            Ok(edition_pattern(refid))
        },
    }
}

/// Two identifiers select the same edition exactly when they agree on their
/// first `PREFIX_LEN` characters.
pub proof fn lemma_same_prefix_same_pattern(a: Seq<char>, b: Seq<char>)
    requires
        a.len() >= PREFIX_LEN,
        b.len() >= PREFIX_LEN,
    ensures
        edition_pattern(a) == edition_pattern(b) <==> a.take(PREFIX_LEN as int) == b.take(
            PREFIX_LEN as int,
        ),
        edition_pattern(a).len() == PREFIX_LEN + 1,
        edition_pattern(a).last() == '%',
{
    if edition_pattern(a) == edition_pattern(b) {
        assert(edition_pattern(a).drop_last() =~= a.take(PREFIX_LEN as int));
        assert(edition_pattern(b).drop_last() =~= b.take(PREFIX_LEN as int));
    }
}

/// The pattern that selects the articles of the most recent edition, given
/// the identifier that the latest-identifier query returned, if it returned a
/// row. No row means an empty table; an identifier of fewer than
/// `PREFIX_LEN` characters is rejected.
pub fn refid_pattern(latest: Option<&str>) -> (r: Result<String, SourceError>)
    ensures
        match pattern_of(
            match latest {
                Some(refid) => Some(refid@),
                None => None,
            },
        ) {
            Ok(p) => r is Ok && r->Ok_0@ == p,
            Err(e) => r == Err::<String, SourceError>(e),
        },
{
    match latest {
        None => Err(SourceError::EmptyEdition),
        Some(refid) => {
            let chars = chars_of(refid);
            if chars.len() < PREFIX_LEN {
                Err(SourceError::MalformedIdentifier)
            } else {
                let mut pattern = String::new();
                push_range(&mut pattern, &chars, 0, PREFIX_LEN);
                push_char(&mut pattern, '%');
                proof {
                    assert(pattern@ =~= edition_pattern(refid@));
                }
                Ok(pattern)
            }
        },
    }
}

} // verus!
