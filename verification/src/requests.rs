//! Per-request operations.
//!
//! Each request carries a content text, optional extra filter terms to add
//! and optional terms to exclude for this request only. The base vocabulary
//! is shared and never changed: the deltas are applied to a derived
//! vocabulary that lives for one request, so concurrent requests stay
//! isolated from each other.

use vstd::prelude::*;

use crate::laws::lemma_no_match_identity;
use crate::matcher::censor;
use crate::matcher::censor_spec;
use crate::matcher::contains_profanity;
use crate::matcher::has_match;
use crate::matcher::replace;
use crate::matcher::replace_spec;
use crate::vocab::terms_set;
use crate::vocab::Vocabulary;

verus! {

/// The effective vocabulary of one request: the base vocabulary's terms plus
/// the request's extra filters, minus everything the base or the request
/// excludes.
pub open spec fn request_vocab(base: Vocabulary, extra: Seq<String>, excludes: Seq<String>) -> Set<
    Seq<char>,
> {
    base.base_terms().union(base.added_terms()).union(terms_set(extra)).difference(
        base.excluded_terms().union(terms_set(excludes)),
    )
}

/// The vocabulary for one request, derived from the shared base without
/// changing it.
fn derive_vocab(base: &Vocabulary, extra: &Vec<String>, excludes: &Vec<String>) -> (v: Vocabulary)
    ensures
        v.effective() == request_vocab(*base, extra@, excludes@),
{
    let v = base.with_additions(extra).with_exclusions(excludes);
    proof {
        assert(v.effective() =~= request_vocab(*base, extra@, excludes@));
    }
    v
}

/// Whether the content holds a disallowed term, once the request's extra
/// filters and excludes are applied to the base vocabulary.
pub fn check_text(
    content: &str,
    extra_filters: &Vec<String>,
    excludes: &Vec<String>,
    base: &Vocabulary,
) -> (r: bool)
    ensures
        r == has_match(content@, request_vocab(*base, extra_filters@, excludes@)),
{
    let v = derive_vocab(base, extra_filters, excludes);
    contains_profanity(content, &v)
}

/// The content with every disallowed term masked by one `'*'` per character;
/// a content without a match is returned unchanged.
pub fn censor_text(
    content: &str,
    extra_filters: &Vec<String>,
    excludes: &Vec<String>,
    base: &Vocabulary,
) -> (r: String)
    ensures
        r@ == censor_spec(content@, request_vocab(*base, extra_filters@, excludes@)),
        !has_match(content@, request_vocab(*base, extra_filters@, excludes@)) ==> r@ == content@,
{
    let v = derive_vocab(base, extra_filters, excludes);
    if contains_profanity(content, &v) {
        censor(content, &v)
    } else {
        proof {
            lemma_no_match_identity(content@, v.effective());
        }
        content.to_owned()
    }
}

/// The content with every disallowed term replaced by one literal copy of
/// `grawlix`; a content without a match is returned unchanged.
pub fn replace_text(
    content: &str,
    extra_filters: &Vec<String>,
    excludes: &Vec<String>,
    grawlix: &str,
    base: &Vocabulary,
) -> (r: String)
    ensures
        r@ == replace_spec(content@, request_vocab(*base, extra_filters@, excludes@), grawlix@),
        !has_match(content@, request_vocab(*base, extra_filters@, excludes@)) ==> r@ == content@,
{
    let v = derive_vocab(base, extra_filters, excludes);
    if contains_profanity(content, &v) {
        replace(content, &v, grawlix)
    } else {
        proof {
            lemma_no_match_identity(content@, v.effective());
        }
        content.to_owned()
    }
}

} // verus!
