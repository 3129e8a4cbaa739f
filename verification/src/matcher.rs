//! The matching and substitution engine.
//!
//! A token is a maximal run of word characters (see [`crate::chars`]). A
//! token matches when its case folding is a member of the effective
//! vocabulary; matching is therefore whole-word and case-insensitive, and a
//! term never matches inside a longer word. The two transforms rebuild the
//! text left to right, keeping every unmatched character byte-for-byte and
//! substituting each matched token: the censor transform masks it with one
//! `'*'` per character, the replace transform inserts the grawlix literally.

use vstd::prelude::*;

use crate::chars::is_word_char;
use crate::chars::lower_char;
use crate::chars::lower_seq;
use crate::chars::str_chars;
use crate::chars::to_lower;
use crate::chars::word_char;
use crate::vocab::Vocabulary;

verus! {

/// Relies on std's String::push: it appends the character to the string.
pub assume_specification[ String::push ](s: &mut String, c: char)
    ensures
        final(s)@ == old(s)@.push(c),
;

/// Length of the maximal word-character prefix of `s`.
pub open spec fn word_prefix_len(s: Seq<char>) -> nat
    decreases s.len(),
{
    if s.len() == 0 || !is_word_char(s[0]) {
        0
    } else {
        1 + word_prefix_len(s.skip(1))
    }
}

/// The word-character prefix is a run of word characters that is maximal and
/// no longer than `s` itself.
pub proof fn lemma_word_prefix_len(s: Seq<char>)
    ensures
        word_prefix_len(s) <= s.len(),
        s.len() > 0 && is_word_char(s[0]) ==> 1 <= word_prefix_len(s),
        forall|i: int| 0 <= i < word_prefix_len(s) ==> is_word_char(#[trigger] s[i]),
        word_prefix_len(s) < s.len() ==> !is_word_char(s[word_prefix_len(s) as int]),
    decreases s.len(),
{
    if s.len() == 0 || !is_word_char(s[0]) {
    } else {
        lemma_word_prefix_len(s.skip(1));
        assert forall|i: int| 0 <= i < word_prefix_len(s) implies is_word_char(#[trigger] s[i]) by {
            if i >= 1 {
                assert(s.skip(1)[i - 1] == s[i]);
            }
        }
        if word_prefix_len(s) < s.len() {
            assert(s.skip(1)[word_prefix_len(s) as int - 1] == s[word_prefix_len(s) as int]);
        }
    }
}

/// Whether some token of `text`, case-folded, is a member of `vocab`.
pub open spec fn has_match(text: Seq<char>, vocab: Set<Seq<char>>) -> bool
    decreases text.len(),
    via has_match_decreases
{
    if text.len() == 0 {
        false
    } else if !is_word_char(text[0]) {
        has_match(text.skip(1), vocab)
    } else {
        let k = word_prefix_len(text) as int;
        vocab.contains(lower_seq(text.take(k))) || has_match(text.skip(k), vocab)
    }
}

#[via_fn]
proof fn has_match_decreases(text: Seq<char>, vocab: Set<Seq<char>>) {
    lemma_word_prefix_len(text);
}

/// The mask put in place of a matched token: one `'*'` per character.
pub open spec fn mask_of(len: nat) -> Seq<char> {
    Seq::new(len, |i: int| '*')
}

/// One pass over `text`: every token whose case folding is in `vocab` is
/// substituted -- masked to its own length when `repl` is `None`, replaced by
/// the literal `repl` sequence otherwise -- and every other character is kept.
pub open spec fn transform(
    text: Seq<char>,
    vocab: Set<Seq<char>>,
    repl: Option<Seq<char>>,
) -> Seq<char>
    decreases text.len(),
    via transform_decreases
{
    if text.len() == 0 {
        Seq::<char>::empty()
    } else if !is_word_char(text[0]) {
        seq![text[0]] + transform(text.skip(1), vocab, repl)
    } else {
        let k = word_prefix_len(text) as int;
        let tok = text.take(k);
        let rep = if vocab.contains(lower_seq(tok)) {
            match repl {
                Option::None => mask_of(k as nat),
                Option::Some(g) => g,
            }
        } else {
            tok
        };
        rep + transform(text.skip(k), vocab, repl)
    }
}

#[via_fn]
proof fn transform_decreases(text: Seq<char>, vocab: Set<Seq<char>>, repl: Option<Seq<char>>) {
    lemma_word_prefix_len(text);
}

/// The censored form of `text`: matched tokens masked with `'*'`.
pub open spec fn censor_spec(text: Seq<char>, vocab: Set<Seq<char>>) -> Seq<char> {
    transform(text, vocab, Option::None)
}

/// The replaced form of `text`: matched tokens replaced by `grawlix`.
pub open spec fn replace_spec(text: Seq<char>, vocab: Set<Seq<char>>, grawlix: Seq<char>) -> Seq<
    char,
> {
    transform(text, vocab, Option::Some(grawlix))
}

/// The case-folded tokens of `text`, in order.
pub open spec fn token_seq(text: Seq<char>) -> Seq<Seq<char>>
    decreases text.len(),
    via token_seq_decreases
{
    if text.len() == 0 {
        Seq::<Seq<char>>::empty()
    } else if !is_word_char(text[0]) {
        token_seq(text.skip(1))
    } else {
        let k = word_prefix_len(text) as int;
        seq![lower_seq(text.take(k))] + token_seq(text.skip(k))
    }
}

#[via_fn]
proof fn token_seq_decreases(text: Seq<char>) {
    lemma_word_prefix_len(text);
}

/// A text matches exactly when one of its case-folded tokens is in the
/// vocabulary.
pub proof fn lemma_has_match_tokens(text: Seq<char>, vocab: Set<Seq<char>>)
    ensures
        has_match(text, vocab) <==> exists|i: int|
            0 <= i < token_seq(text).len() && vocab.contains(#[trigger] token_seq(text)[i]),
    decreases text.len(),
{
    if text.len() == 0 {
    } else if !is_word_char(text[0]) {
        lemma_has_match_tokens(text.skip(1), vocab);
        assert(token_seq(text) == token_seq(text.skip(1)));
        assert(has_match(text, vocab) == has_match(text.skip(1), vocab));
    } else {
        let k = word_prefix_len(text) as int;
        lemma_word_prefix_len(text);
        lemma_has_match_tokens(text.skip(k), vocab);
        let ts = token_seq(text);
        let rest = token_seq(text.skip(k));
        assert(ts == seq![lower_seq(text.take(k))] + rest);
        if has_match(text, vocab) {
            if vocab.contains(lower_seq(text.take(k))) {
                assert(ts[0] == lower_seq(text.take(k)));
            } else {
                let j = choose|j: int| 0 <= j < rest.len() && vocab.contains(#[trigger] rest[j]);
                assert(ts[j + 1] == rest[j]);
            }
        }
        if exists|i: int| 0 <= i < ts.len() && vocab.contains(#[trigger] ts[i]) {
            let i = choose|i: int| 0 <= i < ts.len() && vocab.contains(#[trigger] ts[i]);
            if i > 0 {
                assert(ts[i] == rest[i - 1]);
            }
        }
    }
}

/// Index of the first non-word character at or after `start`.
fn find_token_end(chars: &Vec<char>, start: usize) -> (end: usize)
    requires
        start <= chars@.len(),
    ensures
        start <= end <= chars@.len(),
        end - start == word_prefix_len(chars@.skip(start as int)),
{
    let n = chars.len();
    let mut i = start;
    while i < n && word_char(chars[i])
        invariant
            start <= i <= n,
            n == chars@.len(),
            word_prefix_len(chars@.skip(start as int)) == (i - start) + word_prefix_len(
                chars@.skip(i as int),
            ),
        decreases n - i,
    {
        proof {
            assert(chars@.skip(i as int)[0] == chars@[i as int]);
            assert(chars@.skip(i as int).skip(1) =~= chars@.skip(i + 1 as int));
        }
        i += 1;
    }
    proof {
        assert(chars@.skip(i as int).len() == n - i);
        if i < n {
            assert(chars@.skip(i as int)[0] == chars@[i as int]);
        }
        assert(word_prefix_len(chars@.skip(i as int)) == 0);
    }
    i
}

/// The case-folded characters of `chars[from..to]`.
fn lower_range(chars: &Vec<char>, from: usize, to: usize) -> (r: Vec<char>)
    requires
        from <= to <= chars@.len(),
    ensures
        r@ == lower_seq(chars@.subrange(from as int, to as int)),
{
    let mut r: Vec<char> = Vec::new();
    let mut j = from;
    while j < to
        invariant
            from <= j <= to,
            to <= chars@.len(),
            r@ == lower_seq(chars@.subrange(from as int, j as int)),
        decreases to - j,
    {
        let c = to_lower(chars[j]);
        r.push(c);
        proof {
            assert(chars@.subrange(from as int, j + 1 as int) =~= chars@.subrange(
                from as int,
                j as int,
            ).push(chars@[j as int]));
            assert(lower_seq(chars@.subrange(from as int, j as int).push(chars@[j as int]))
                =~= lower_seq(chars@.subrange(from as int, j as int)).push(
                lower_char(chars@[j as int]),
            ));
        }
        j += 1;
    }
    proof {
        assert(lower_seq(chars@.subrange(from as int, from as int)) =~= Seq::<char>::empty());
    }
    r
}

/// Appends `k` mask characters to `out`.
fn push_mask(out: &mut String, k: usize)
    ensures
        final(out)@ == old(out)@ + mask_of(k as nat),
{
    let mut j: usize = 0;
    proof {
        assert(old(out)@ + mask_of(0nat) =~= old(out)@);
    }
    while j < k
        invariant
            j <= k,
            out@ == old(out)@ + mask_of(j as nat),
        decreases k - j,
    {
        out.push('*');
        proof {
            assert(old(out)@ + mask_of((j + 1) as nat) =~= (old(out)@ + mask_of(j as nat)).push(
                '*',
            ));
        }
        j += 1;
    }
}

/// Appends `chars[from..to]` to `out`.
fn push_range(out: &mut String, chars: &Vec<char>, from: usize, to: usize)
    requires
        from <= to <= chars@.len(),
    ensures
        final(out)@ == old(out)@ + chars@.subrange(from as int, to as int),
{
    let mut j = from;
    proof {
        assert(old(out)@ + chars@.subrange(from as int, from as int) =~= old(out)@);
    }
    while j < to
        invariant
            from <= j <= to,
            to <= chars@.len(),
            out@ == old(out)@ + chars@.subrange(from as int, j as int),
        decreases to - j,
    {
        out.push(chars[j]);
        proof {
            assert(old(out)@ + chars@.subrange(from as int, j + 1 as int) =~= (old(out)@
                + chars@.subrange(from as int, j as int)).push(chars@[j as int]));
        }
        j += 1;
    }
}

/// The view of an optional grawlix vector.
spec fn opt_view(g: Option<&Vec<char>>) -> Option<Seq<char>> {
    match g {
        Option::Some(v) => Option::Some(v@),
        Option::None => Option::None,
    }
}

/// One transform pass over `chars`, masking (`grawlix` absent) or replacing
/// (`grawlix` given) every matched token.
fn transform_chars(chars: &Vec<char>, vocab: &Vocabulary, grawlix: Option<&Vec<char>>) -> (r:
    String)
    ensures
        r@ == transform(chars@, vocab.effective(), opt_view(grawlix)),
{
    let ghost eff = vocab.effective();
    let ghost gv = opt_view(grawlix);
    let n = chars.len();
    let mut out = String::new();
    let mut i: usize = 0;
    proof {
        assert(chars@.skip(0) =~= chars@);
    }
    while i < n
        invariant
            i <= n,
            n == chars@.len(),
            eff == vocab.effective(),
            gv == opt_view(grawlix),
            out@ + transform(chars@.skip(i as int), eff, gv) == transform(chars@, eff, gv),
        decreases n - i,
    {
        let ghost out_pre = out@;
        let ghost suffix = chars@.skip(i as int);
        if !word_char(chars[i]) {
            out.push(chars[i]);
            proof {
                assert(suffix[0] == chars@[i as int]);
                assert(suffix.skip(1) =~= chars@.skip(i + 1 as int));
                assert(transform(suffix, eff, gv) == seq![chars@[i as int]] + transform(
                    chars@.skip(i + 1 as int),
                    eff,
                    gv,
                ));
                assert(out@ + transform(chars@.skip(i + 1 as int), eff, gv) =~= out_pre + transform(
                    suffix,
                    eff,
                    gv,
                ));
            }
            i += 1;
        } else {
            let end = find_token_end(chars, i);
            proof {
                assert(suffix[0] == chars@[i as int]);
                lemma_word_prefix_len(suffix);
            }
            let tok_folded = lower_range(chars, i, end);
            proof {
                assert(suffix.take((end - i) as int) =~= chars@.subrange(i as int, end as int));
                assert(suffix.skip((end - i) as int) =~= chars@.skip(end as int));
                assert(tok_folded@ == lower_seq(suffix.take((end - i) as int)));
            }
            let matched = vocab.contains_folded(&tok_folded);
            let ghost rep: Seq<char> = if matched {
                match gv {
                    Option::None => mask_of((end - i) as nat),
                    Option::Some(g) => g,
                }
            } else {
                suffix.take((end - i) as int)
            };
            proof {
                assert(transform(suffix, eff, gv) == rep + transform(
                    chars@.skip(end as int),
                    eff,
                    gv,
                ));
            }
            if matched {
                match grawlix {
                    Option::None => push_mask(&mut out, end - i),
                    Option::Some(g) => {
                        push_range(&mut out, g, 0, g.len());
                        proof {
                            assert(g@.subrange(0, g@.len() as int) =~= g@);
                        }
                    },
                }
            } else {
                push_range(&mut out, chars, i, end);
            }
            proof {
                assert(out@ =~= out_pre + rep);
                assert(out@ + transform(chars@.skip(end as int), eff, gv) =~= out_pre + transform(
                    suffix,
                    eff,
                    gv,
                ));
            }
            i = end;
        }
    }
    proof {
        assert(chars@.skip(n as int) =~= Seq::<char>::empty());
        assert(out@ + transform(Seq::<char>::empty(), eff, gv) =~= out@);
    }
    out
}

/// Whether any token of `text` is effectively disallowed by `vocab`.
pub fn contains_profanity(text: &str, vocab: &Vocabulary) -> (r: bool)
    ensures
        r == has_match(text@, vocab.effective()),
{
    let ghost eff = vocab.effective();
    let chars = str_chars(text);
    let n = chars.len();
    let mut i: usize = 0;
    proof {
        assert(chars@.skip(0) =~= chars@);
    }
    while i < n
        invariant
            i <= n,
            n == chars@.len(),
            chars@ == text@,
            eff == vocab.effective(),
            has_match(text@, eff) == has_match(chars@.skip(i as int), eff),
        decreases n - i,
    {
        let ghost suffix = chars@.skip(i as int);
        if !word_char(chars[i]) {
            proof {
                assert(suffix[0] == chars@[i as int]);
                assert(suffix.skip(1) =~= chars@.skip(i + 1 as int));
            }
            i += 1;
        } else {
            let end = find_token_end(&chars, i);
            proof {
                assert(suffix[0] == chars@[i as int]);
                lemma_word_prefix_len(suffix);
            }
            let tok_folded = lower_range(&chars, i, end);
            proof {
                assert(suffix.take((end - i) as int) =~= chars@.subrange(i as int, end as int));
                assert(suffix.skip((end - i) as int) =~= chars@.skip(end as int));
            }
            if vocab.contains_folded(&tok_folded) {
                return true;
            }
            i = end;
        }
    }
    proof {
        assert(chars@.skip(n as int) =~= Seq::<char>::empty());
    }
    false
}

/// The censored form of `text`: every token disallowed by `vocab` is masked
/// with one `'*'` per character; everything else is kept unchanged.
pub fn censor(text: &str, vocab: &Vocabulary) -> (r: String)
    ensures
        r@ == censor_spec(text@, vocab.effective()),
{
    let chars = str_chars(text);
    transform_chars(&chars, vocab, Option::None)
}

/// The replaced form of `text`: every token disallowed by `vocab` becomes one
/// literal copy of `grawlix`; everything else is kept unchanged.
pub fn replace(text: &str, vocab: &Vocabulary, grawlix: &str) -> (r: String)
    ensures
        r@ == replace_spec(text@, vocab.effective(), grawlix@),
{
    let chars = str_chars(text);
    let g = str_chars(grawlix);
    transform_chars(&chars, vocab, Option::Some(&g))
}

} // verus!
