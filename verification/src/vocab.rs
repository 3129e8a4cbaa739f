//! The vocabulary of disallowed terms.
//!
//! A [`Vocabulary`] carries an immutable base set of terms and two
//! per-request deltas: added terms and excluded terms. A term is effectively
//! disallowed when it is in the base or among the additions, and not among
//! the exclusions -- so an exclusion always wins, whichever order the deltas
//! were applied in. Deriving a new vocabulary never changes the receiver.
//! All terms are held case-folded, which makes membership case-insensitive.

use vstd::prelude::*;

use crate::chars::lower_seq;
use crate::chars::lower_term;
use crate::chars::seq_eq;

verus! {

/// The set of the views of the character vectors in `list`.
pub open spec fn set_of(list: Seq<Vec<char>>) -> Set<Seq<char>> {
    Set::new(|w: Seq<char>| exists|i: int| 0 <= i < list.len() && list[i]@ == w)
}

/// The case-folded forms of the strings in `ts`, as a set.
pub open spec fn terms_set(ts: Seq<String>) -> Set<Seq<char>> {
    Set::new(|w: Seq<char>| exists|i: int| 0 <= i < ts.len() && lower_seq(ts[i]@) == w)
}

/// Folds every string of `terms` to lowercase character vectors.
fn fold_terms(terms: &Vec<String>) -> (r: Vec<Vec<char>>)
    ensures
        r@.len() == terms@.len(),
        forall|i: int| 0 <= i < terms@.len() ==> (#[trigger] r@[i])@ == lower_seq(terms@[i]@),
{
    let n = terms.len();
    let mut r: Vec<Vec<char>> = Vec::new();
    let mut i: usize = 0;
    while i < n
        invariant
            i <= n,
            n == terms@.len(),
            r@.len() == i,
            forall|j: int| 0 <= j < i ==> (#[trigger] r@[j])@ == lower_seq(terms@[j]@),
        decreases n - i,
    {
        let t = lower_term(terms[i].as_str());
        r.push(t);
        i += 1;
    }
    r
}

/// Copies a list of terms.
fn copy_terms(list: &Vec<Vec<char>>) -> (r: Vec<Vec<char>>)
    ensures
        r@.len() == list@.len(),
        forall|i: int| 0 <= i < list@.len() ==> (#[trigger] r@[i])@ == list@[i]@,
{
    let n = list.len();
    let mut r: Vec<Vec<char>> = Vec::new();
    let mut i: usize = 0;
    while i < n
        invariant
            i <= n,
            n == list@.len(),
            r@.len() == i,
            forall|j: int| 0 <= j < i ==> (#[trigger] r@[j])@ == list@[j]@,
        decreases n - i,
    {
        let t = copy_chars(&list[i]);
        r.push(t);
        i += 1;
    }
    r
}

/// Copies one character vector.
fn copy_chars(v: &Vec<char>) -> (r: Vec<char>)
    ensures
        r@ == v@,
{
    let n = v.len();
    let mut r: Vec<char> = Vec::new();
    let mut i: usize = 0;
    while i < n
        invariant
            i <= n,
            n == v@.len(),
            r@ == v@.take(i as int),
        decreases n - i,
    {
        r.push(v[i]);
        proof {
            assert(v@.take(i + 1 as int) =~= v@.take(i as int).push(v@[i as int]));
        }
        i += 1;
    }
    proof {
        assert(v@.take(n as int) =~= v@);
    }
    r
}

/// Whether the view of `t` is among the views of `list`.
fn in_list(list: &Vec<Vec<char>>, t: &Vec<char>) -> (r: bool)
    ensures
        r == set_of(list@).contains(t@),
{
    let n = list.len();
    let mut i: usize = 0;
    while i < n
        invariant
            i <= n,
            n == list@.len(),
            forall|j: int| 0 <= j < i ==> (#[trigger] list@[j])@ != t@,
        decreases n - i,
    {
        if seq_eq(&list[i], t) {
            return true;
        }
        i += 1;
    }
    false
}

/// Appends the case-folded strings of `terms` to `list`.
fn extend_folded(list: &mut Vec<Vec<char>>, terms: &Vec<String>)
    ensures
        final(list)@.len() == old(list)@.len() + terms@.len(),
        forall|i: int| 0 <= i < old(list)@.len() ==> (#[trigger] final(list)@[i])@ == old(
            list,
        )@[i]@,
        forall|i: int|
            0 <= i < terms@.len() ==> (#[trigger] final(list)@[old(list)@.len() + i])@ == lower_seq(
                terms@[i]@,
            ),
{
    let n = terms.len();
    let mut i: usize = 0;
    while i < n
        invariant
            i <= n,
            n == terms@.len(),
            list@.len() == old(list)@.len() + i,
            forall|j: int| 0 <= j < old(list)@.len() ==> (#[trigger] list@[j])@ == old(list)@[j]@,
            forall|j: int|
                0 <= j < i ==> (#[trigger] list@[old(list)@.len() + j])@ == lower_seq(terms@[j]@),
        decreases n - i,
    {
        let t = lower_term(terms[i].as_str());
        list.push(t);
        i += 1;
    }
}

/// A base set of disallowed terms plus per-request added and excluded terms.
pub struct Vocabulary {
    base: Vec<Vec<char>>,
    additions: Vec<Vec<char>>,
    exclusions: Vec<Vec<char>>,
}

impl Vocabulary {
    /// The case-folded base terms.
    pub closed spec fn base_terms(self) -> Set<Seq<char>> {
        set_of(self.base@)
    }

    /// The case-folded added terms.
    pub closed spec fn added_terms(self) -> Set<Seq<char>> {
        set_of(self.additions@)
    }

    /// The case-folded excluded terms.
    pub closed spec fn excluded_terms(self) -> Set<Seq<char>> {
        set_of(self.exclusions@)
    }

    /// Effective membership: in the base or added, and not excluded.
    pub open spec fn effective(self) -> Set<Seq<char>> {
        self.base_terms().union(self.added_terms()).difference(self.excluded_terms())
    }

    /// A vocabulary with the given base terms and no deltas.
    pub fn new(terms: &Vec<String>) -> (v: Vocabulary)
        ensures
            v.base_terms() == terms_set(terms@),
            v.added_terms() == Set::<Seq<char>>::empty(),
            v.excluded_terms() == Set::<Seq<char>>::empty(),
    {
        let base = fold_terms(terms);
        let v = Vocabulary { base, additions: Vec::new(), exclusions: Vec::new() };
        proof {
            lemma_set_of_folded(v.base@, terms@);
            assert(v.added_terms() =~= Set::<Seq<char>>::empty());
            assert(v.excluded_terms() =~= Set::<Seq<char>>::empty());
        }
        v
    }

    /// A vocabulary that additionally disallows `terms`. The receiver is not
    /// changed, and exclusions still win over the new additions.
    pub fn with_additions(&self, terms: &Vec<String>) -> (v: Vocabulary)
        ensures
            v.base_terms() == self.base_terms(),
            v.added_terms() == self.added_terms().union(terms_set(terms@)),
            v.excluded_terms() == self.excluded_terms(),
    {
        let base = copy_terms(&self.base);
        let mut additions = copy_terms(&self.additions);
        let exclusions = copy_terms(&self.exclusions);
        extend_folded(&mut additions, terms);
        let v = Vocabulary { base, additions, exclusions };
        proof {
            lemma_set_of_copy(v.base@, self.base@);
            lemma_set_of_copy(v.exclusions@, self.exclusions@);
            lemma_set_of_extended(v.additions@, self.additions@, terms@);
        }
        v
    }

    /// A vocabulary that no longer matches any of `terms`, even if they are
    /// in the base or among the additions. The receiver is not changed.
    pub fn with_exclusions(&self, terms: &Vec<String>) -> (v: Vocabulary)
        ensures
            v.base_terms() == self.base_terms(),
            v.added_terms() == self.added_terms(),
            v.excluded_terms() == self.excluded_terms().union(terms_set(terms@)),
    {
        let base = copy_terms(&self.base);
        let additions = copy_terms(&self.additions);
        let mut exclusions = copy_terms(&self.exclusions);
        extend_folded(&mut exclusions, terms);
        let v = Vocabulary { base, additions, exclusions };
        proof {
            lemma_set_of_copy(v.base@, self.base@);
            lemma_set_of_copy(v.additions@, self.additions@);
            lemma_set_of_extended(v.exclusions@, self.exclusions@, terms@);
        }
        v
    }

    /// Whether `term`, case-folded, is effectively disallowed.
    pub fn contains(&self, term: &str) -> (r: bool)
        ensures
            r == self.effective().contains(lower_seq(term@)),
    {
        let t = lower_term(term);
        self.contains_folded(&t)
    }

    /// Whether the already case-folded term `t` is effectively disallowed.
    pub(crate) fn contains_folded(&self, t: &Vec<char>) -> (r: bool)
        ensures
            r == self.effective().contains(t@),
    {
        let in_base = in_list(&self.base, t);
        let in_added = in_list(&self.additions, t);
        let in_excluded = in_list(&self.exclusions, t);
        (in_base || in_added) && !in_excluded
    }
}

/// The views of the strings in `ts`, as a set.
pub open spec fn views_of(ts: Seq<String>) -> Set<Seq<char>> {
    Set::new(|w: Seq<char>| exists|i: int| 0 <= i < ts.len() && ts[i]@ == w)
}

/// The censor crate's standard word set: its fifteen standard profanities.
pub open spec fn standard_terms() -> Set<Seq<char>> {
    set![
        "ass"@,
        "asshole"@,
        "bitch"@,
        "cock"@,
        "cunt"@,
        "fag"@,
        "fagot"@,
        "faggot"@,
        "fuck"@,
        "nigger"@,
        "piss"@,
        "pussy"@,
        "shit"@,
        "twat"@,
        "whore"@,
    ]
}

/// Relies on censor::Censor::set: for `Censor::Standard` it hands back the
/// crate's built-in standard word set -- exactly the fifteen words of
/// [`standard_terms`], each made of ASCII lowercase letters only.
#[verifier::external_body]
fn standard_word_list() -> (r: Vec<String>)
    ensures
        views_of(r@) == standard_terms(),
        forall|i: int, j: int|
            0 <= i < r@.len() && 0 <= j < r@[i]@.len() ==> 'a' <= #[trigger] r@[i]@[j] && r@[i]@[j]
                <= 'z',
{
    let mut out: Vec<String> = Vec::new();
    for word in censor::Censor::Standard.set().iter() {
        out.push(word.clone());
    }
    out
}

impl Vocabulary {
    /// The standard base vocabulary: exactly the censor crate's standard
    /// word set as its base terms, with no additions and no exclusions.
    pub fn standard() -> (v: Vocabulary)
        ensures
            v.base_terms() == standard_terms(),
            v.added_terms() == Set::<Seq<char>>::empty(),
            v.excluded_terms() == Set::<Seq<char>>::empty(),
    {
        let words = standard_word_list();
        let v = Vocabulary::new(&words);
        proof {
            assert forall|w: Seq<char>| terms_set(words@).contains(w) implies standard_terms()
                .contains(w) by {
                let i = choose|i: int|
                    0 <= i < words@.len() && lower_seq((#[trigger] words@[i])@) == w;
                assert(lower_seq(words@[i]@) =~= words@[i]@);
                assert(views_of(words@).contains(words@[i]@));
            }
            assert forall|w: Seq<char>| standard_terms().contains(w) implies terms_set(
                words@,
            ).contains(w) by {
                assert(views_of(words@).contains(w));
                let i = choose|i: int| 0 <= i < words@.len() && (#[trigger] words@[i])@ == w;
                assert(lower_seq(words@[i]@) =~= words@[i]@);
            }
            assert(terms_set(words@) =~= standard_terms());
        }
        v
    }
}

/// The folded copy of `terms` holds exactly their case-folded forms.
proof fn lemma_set_of_folded(list: Seq<Vec<char>>, terms: Seq<String>)
    requires
        list.len() == terms.len(),
        forall|i: int| 0 <= i < terms.len() ==> (#[trigger] list[i])@ == lower_seq(terms[i]@),
    ensures
        set_of(list) == terms_set(terms),
{
    assert forall|w: Seq<char>| set_of(list).contains(w) implies terms_set(terms).contains(w) by {
        let i = choose|i: int| 0 <= i < list.len() && (#[trigger] list[i])@ == w;
        assert(lower_seq(terms[i]@) == w);
    }
    assert forall|w: Seq<char>| terms_set(terms).contains(w) implies set_of(list).contains(w) by {
        let i = choose|i: int| 0 <= i < terms.len() && lower_seq((#[trigger] terms[i])@) == w;
        assert(list[i]@ == w);
    }
    assert(set_of(list) =~= terms_set(terms));
}

/// A copy with the same views holds the same set of terms.
proof fn lemma_set_of_copy(list: Seq<Vec<char>>, orig: Seq<Vec<char>>)
    requires
        list.len() == orig.len(),
        forall|i: int| 0 <= i < orig.len() ==> (#[trigger] list[i])@ == orig[i]@,
    ensures
        set_of(list) == set_of(orig),
{
    assert forall|w: Seq<char>| set_of(list).contains(w) implies set_of(orig).contains(w) by {
        let i = choose|i: int| 0 <= i < list.len() && (#[trigger] list[i])@ == w;
        assert(orig[i]@ == w);
    }
    assert forall|w: Seq<char>| set_of(orig).contains(w) implies set_of(list).contains(w) by {
        let i = choose|i: int| 0 <= i < orig.len() && (#[trigger] orig[i])@ == w;
        assert(list[i]@ == w);
    }
    assert(set_of(list) =~= set_of(orig));
}

/// Extending a list by the folded `terms` unions their set in.
proof fn lemma_set_of_extended(list: Seq<Vec<char>>, orig: Seq<Vec<char>>, terms: Seq<String>)
    requires
        list.len() == orig.len() + terms.len(),
        forall|i: int| 0 <= i < orig.len() ==> (#[trigger] list[i])@ == orig[i]@,
        forall|i: int|
            0 <= i < terms.len() ==> (#[trigger] list[orig.len() + i])@ == lower_seq(terms[i]@),
    ensures
        set_of(list) == set_of(orig).union(terms_set(terms)),
{
    assert forall|w: Seq<char>| set_of(list).contains(w) implies set_of(orig).union(
        terms_set(terms),
    ).contains(w) by {
        let i = choose|i: int| 0 <= i < list.len() && (#[trigger] list[i])@ == w;
        if i < orig.len() {
            assert(orig[i]@ == w);
        } else {
            assert(list[orig.len() + (i - orig.len())]@ == w);
            assert(lower_seq(terms[i - orig.len()]@) == w);
        }
    }
    assert forall|w: Seq<char>| set_of(orig).union(terms_set(terms)).contains(w) implies set_of(
        list,
    ).contains(w) by {
        if set_of(orig).contains(w) {
            let i = choose|i: int| 0 <= i < orig.len() && (#[trigger] orig[i])@ == w;
            assert(list[i]@ == w);
        } else {
            let i = choose|i: int| 0 <= i < terms.len() && lower_seq((#[trigger] terms[i])@) == w;
            assert(list[orig.len() + i]@ == w);
        }
    }
    assert(set_of(list) =~= set_of(orig).union(terms_set(terms)));
}

} // verus!

