//! The library's general guarantees, stated and proved once.
//!
//! Each proof function here is a law that holds for every input its
//! `requires` admits: texts without a match are returned unchanged, matching
//! is case-insensitive, additions to a vocabulary take effect, exclusions win
//! over the base and over additions, and the censor mask is one `'*'` per
//! character of each matched token.

use vstd::prelude::*;

use crate::chars::is_word_char;
use crate::chars::lemma_lower_char;
use crate::chars::lower_char;
use crate::chars::lower_seq;
use crate::matcher::censor_spec;
use crate::matcher::has_match;
use crate::matcher::lemma_has_match_tokens;
use crate::matcher::lemma_word_prefix_len;
use crate::matcher::mask_of;
use crate::matcher::replace_spec;
use crate::matcher::token_seq;
use crate::matcher::transform;
use crate::matcher::word_prefix_len;
use crate::requests::request_vocab;
use crate::vocab::terms_set;
use crate::vocab::Vocabulary;

verus! {

/// A text without a match is unchanged by a transform, whatever the policy.
proof fn lemma_no_match_transform(text: Seq<char>, vocab: Set<Seq<char>>, repl: Option<Seq<char>>)
    requires
        !has_match(text, vocab),
    ensures
        transform(text, vocab, repl) == text,
    decreases text.len(),
{
    if text.len() == 0 {
        assert(transform(text, vocab, repl) =~= text);
    } else if !is_word_char(text[0]) {
        lemma_no_match_transform(text.skip(1), vocab, repl);
        assert(seq![text[0]] + text.skip(1) =~= text);
    } else {
        let k = word_prefix_len(text) as int;
        lemma_word_prefix_len(text);
        lemma_no_match_transform(text.skip(k), vocab, repl);
        assert(text.take(k) + text.skip(k) =~= text);
    }
}

/// A text with no effectively disallowed token is returned unchanged, by the
/// censor transform and by the replace transform for every grawlix.
pub proof fn lemma_no_match_identity(text: Seq<char>, vocab: Set<Seq<char>>)
    requires
        !has_match(text, vocab),
    ensures
        censor_spec(text, vocab) == text,
        forall|g: Seq<char>| #[trigger] replace_spec(text, vocab, g) == text,
{
    lemma_no_match_transform(text, vocab, Option::None);
    assert forall|g: Seq<char>| #[trigger] replace_spec(text, vocab, g) == text by {
        lemma_no_match_transform(text, vocab, Option::Some(g));
    }
}

/// A text that is one single token matches exactly when its case folding is
/// in the vocabulary.
pub proof fn lemma_single_token(text: Seq<char>, vocab: Set<Seq<char>>)
    requires
        text.len() > 0,
        forall|i: int| 0 <= i < text.len() ==> is_word_char(#[trigger] text[i]),
    ensures
        has_match(text, vocab) == vocab.contains(lower_seq(text)),
{
    lemma_whole_token(text);
    assert(text.take(text.len() as int) =~= text);
    assert(text.skip(text.len() as int) =~= Seq::<char>::empty());
    assert(has_match(Seq::<char>::empty(), vocab) == false);
}

/// A text of word characters only is one single token.
proof fn lemma_whole_token(text: Seq<char>)
    requires
        text.len() > 0,
        forall|i: int| 0 <= i < text.len() ==> is_word_char(#[trigger] text[i]),
    ensures
        word_prefix_len(text) == text.len(),
{
    lemma_word_prefix_len(text);
    assert(is_word_char(text[0]));
    if word_prefix_len(text) < text.len() {
        assert(is_word_char(text[word_prefix_len(text) as int]));
    }
}

/// A matched single-token text becomes exactly the mask of its own length
/// under the censor transform, and exactly the grawlix under the replace
/// transform, whatever the token's length or casing.
pub proof fn lemma_single_token_transform(text: Seq<char>, vocab: Set<Seq<char>>, g: Seq<char>)
    requires
        text.len() > 0,
        forall|i: int| 0 <= i < text.len() ==> is_word_char(#[trigger] text[i]),
        vocab.contains(lower_seq(text)),
    ensures
        censor_spec(text, vocab) == mask_of(text.len()),
        replace_spec(text, vocab, g) == g,
{
    lemma_whole_token(text);
    assert(is_word_char(text[0]));
    let k = word_prefix_len(text) as int;
    assert(text.take(k) =~= text);
    let tail = text.skip(k);
    assert(tail =~= Seq::<char>::empty());
    assert(transform(tail, vocab, Option::None) == Seq::<char>::empty());
    assert(transform(tail, vocab, Option::Some(g)) == Seq::<char>::empty());
    assert(censor_spec(text, vocab) == mask_of(k as nat) + Seq::<char>::empty());
    assert(replace_spec(text, vocab, g) == g + Seq::<char>::empty());
    assert(mask_of(text.len()) + Seq::<char>::empty() =~= mask_of(text.len()));
    assert(g + Seq::<char>::empty() =~= g);
}

/// A term carried by the base or the additions, and not excluded, is matched
/// when it stands as a single-token text.
pub proof fn lemma_additions_take_effect(v: Vocabulary, term: Seq<char>)
    requires
        term.len() > 0,
        forall|i: int| 0 <= i < term.len() ==> is_word_char(#[trigger] term[i]),
        v.base_terms().contains(lower_seq(term)) || v.added_terms().contains(lower_seq(term)),
        !v.excluded_terms().contains(lower_seq(term)),
    ensures
        has_match(term, v.effective()),
{
    lemma_single_token(term, v.effective());
}

/// Exclusions override the base and the additions: when every token of the
/// text that the base or added terms contain is the excluded term `t`, the
/// text matches nothing.
pub proof fn lemma_exclusions_override(v: Vocabulary, text: Seq<char>, t: Seq<char>)
    requires
        v.excluded_terms().contains(lower_seq(t)),
        forall|i: int|
            0 <= i < token_seq(text).len() && v.base_terms().union(v.added_terms()).contains(
                #[trigger] token_seq(text)[i],
            ) ==> token_seq(text)[i] == lower_seq(t),
    ensures
        !has_match(text, v.effective()),
{
    lemma_has_match_tokens(text, v.effective());
    if has_match(text, v.effective()) {
        let i = choose|i: int|
            0 <= i < token_seq(text).len() && v.effective().contains(#[trigger] token_seq(text)[i]);
        assert(v.base_terms().union(v.added_terms()).contains(token_seq(text)[i]));
        assert(token_seq(text)[i] == lower_seq(t));
    }
}

/// A term both among a request's extra filters and among its excludes is
/// never effectively disallowed, and as a single-token text it is not
/// matched: the exclusion beats the addition.
pub proof fn lemma_exclusion_beats_addition(
    base: Vocabulary,
    extra: Seq<String>,
    excludes: Seq<String>,
    j: int,
    k: int,
)
    requires
        0 <= j < extra.len(),
        0 <= k < excludes.len(),
        lower_seq(extra[j]@) == lower_seq(excludes[k]@),
    ensures
        !request_vocab(base, extra, excludes).contains(lower_seq(extra[j]@)),
        extra[j]@.len() > 0 && (forall|i: int|
            0 <= i < extra[j]@.len() ==> is_word_char(#[trigger] extra[j]@[i])) ==> !has_match(
            extra[j]@,
            request_vocab(base, extra, excludes),
        ),
{
    assert(terms_set(excludes).contains(lower_seq(extra[j]@)));
    if extra[j]@.len() > 0 && (forall|i: int|
        0 <= i < extra[j]@.len() ==> is_word_char(#[trigger] extra[j]@[i])) {
        lemma_single_token(extra[j]@, request_vocab(base, extra, excludes));
    }
}

/// Texts of the same length whose characters fold alike have the same
/// maximal word-character prefix.
proof fn lemma_word_prefix_len_case(a: Seq<char>, b: Seq<char>)
    requires
        a.len() == b.len(),
        forall|i: int| 0 <= i < a.len() ==> lower_char(#[trigger] a[i]) == lower_char(b[i]),
    ensures
        word_prefix_len(a) == word_prefix_len(b),
    decreases a.len(),
{
    if a.len() == 0 {
    } else {
        lemma_lower_char(a[0], b[0]);
        assert forall|i: int| 0 <= i < a.skip(1).len() implies lower_char(#[trigger] a.skip(1)[i])
            == lower_char(b.skip(1)[i]) by {
            assert(a.skip(1)[i] == a[i + 1]);
            assert(b.skip(1)[i] == b[i + 1]);
        }
        if is_word_char(a[0]) {
            lemma_word_prefix_len_case(a.skip(1), b.skip(1));
        }
    }
}

/// Case insensitivity: two texts of the same length whose characters fold
/// alike -- one being the other with letter cases changed -- match the same.
pub proof fn lemma_case_insensitive(a: Seq<char>, b: Seq<char>, vocab: Set<Seq<char>>)
    requires
        a.len() == b.len(),
        forall|i: int| 0 <= i < a.len() ==> lower_char(#[trigger] a[i]) == lower_char(b[i]),
    ensures
        has_match(a, vocab) == has_match(b, vocab),
    decreases a.len(),
{
    if a.len() == 0 {
    } else {
        lemma_lower_char(a[0], b[0]);
        lemma_word_prefix_len_case(a, b);
        if !is_word_char(a[0]) {
            assert forall|i: int| 0 <= i < a.skip(1).len() implies lower_char(
                #[trigger] a.skip(1)[i],
            ) == lower_char(b.skip(1)[i]) by {
                assert(a.skip(1)[i] == a[i + 1]);
                assert(b.skip(1)[i] == b[i + 1]);
            }
            lemma_case_insensitive(a.skip(1), b.skip(1), vocab);
        } else {
            let k = word_prefix_len(a) as int;
            lemma_word_prefix_len(a);
            lemma_word_prefix_len(b);
            assert(lower_seq(a.take(k)) =~= lower_seq(b.take(k)));
            assert forall|i: int| 0 <= i < a.skip(k).len() implies lower_char(
                #[trigger] a.skip(k)[i],
            ) == lower_char(b.skip(k)[i]) by {
                assert(a.skip(k)[i] == a[i + k]);
                assert(b.skip(k)[i] == b[i + k]);
            }
            lemma_case_insensitive(a.skip(k), b.skip(k), vocab);
        }
    }
}

/// Folding the whole input text to lowercase does not change the verdict.
pub proof fn lemma_fold_input(text: Seq<char>, vocab: Set<Seq<char>>)
    ensures
        has_match(lower_seq(text), vocab) == has_match(text, vocab),
{
    assert forall|i: int| 0 <= i < lower_seq(text).len() implies lower_char(
        #[trigger] lower_seq(text)[i],
    ) == lower_char(text[i]) by {
        lemma_lower_char(text[i], text[i]);
    }
    lemma_case_insensitive(lower_seq(text), text, vocab);
}

/// The censor transform masks consistently: the output has exactly the length
/// of the input, and each output character is the input character or the one
/// mask character `'*'`.
pub proof fn lemma_censor_masking(text: Seq<char>, vocab: Set<Seq<char>>)
    ensures
        censor_spec(text, vocab).len() == text.len(),
        forall|i: int|
            0 <= i < text.len() ==> censor_spec(text, vocab)[i] == text[i] || censor_spec(
                text,
                vocab,
            )[i] == '*',
    decreases text.len(),
{
    let out = censor_spec(text, vocab);
    if text.len() == 0 {
    } else if !is_word_char(text[0]) {
        lemma_censor_masking(text.skip(1), vocab);
        let rest = censor_spec(text.skip(1), vocab);
        assert(out == seq![text[0]] + rest);
        assert forall|i: int| 0 <= i < text.len() implies out[i] == text[i] || out[i] == '*' by {
            if i >= 1 {
                assert(out[i] == rest[i - 1]);
                assert(text.skip(1)[i - 1] == text[i]);
            }
        }
    } else {
        let k = word_prefix_len(text) as int;
        lemma_word_prefix_len(text);
        lemma_censor_masking(text.skip(k), vocab);
        let rest = censor_spec(text.skip(k), vocab);
        let tok = text.take(k);
        let rep = if vocab.contains(lower_seq(tok)) {
            mask_of(k as nat)
        } else {
            tok
        };
        assert(out == rep + rest);
        assert forall|i: int| 0 <= i < text.len() implies out[i] == text[i] || out[i] == '*' by {
            if i < k {
                assert(out[i] == rep[i]);
            } else {
                assert(out[i] == rest[i - k]);
                assert(text.skip(k)[i - k] == text[i]);
            }
        }
    }
}

} // verus!
