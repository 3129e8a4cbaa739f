use profanity_filter::matcher::censor;
use profanity_filter::matcher::contains_profanity;
use profanity_filter::matcher::replace;
use profanity_filter::vocab::Vocabulary;

fn base_of(words: &[&str]) -> Vocabulary {
    let terms: Vec<String> = words.iter().map(|w| w.to_string()).collect();
    Vocabulary::new(&terms)
}

#[test]
fn badword_scenario() {
    let v = base_of(&["badword"]);
    let text = "this is a badword example";
    assert!(contains_profanity(text, &v));
    assert_eq!(censor(text, &v), "this is a ******* example");
    assert_eq!(replace(text, &v, "@!#"), "this is a @!# example");
}

#[test]
fn clean_scenario() {
    let v = base_of(&["badword"]);
    let text = "this is clean";
    assert!(!contains_profanity(text, &v));
    assert_eq!(censor(text, &v), text);
    assert_eq!(replace(text, &v, "@!#"), text);
}

#[test]
fn no_match_identity_with_punctuation() {
    let v = base_of(&["badword"]);
    let text = "  Nothing to see here: move along, please!  ";
    assert_eq!(censor(text, &v), text);
    assert_eq!(replace(text, &v, "####"), text);
    assert_eq!(replace(text, &v, ""), text);
}

#[test]
fn case_insensitive_matching() {
    let v = base_of(&["badword"]);
    assert!(contains_profanity("BadWord", &v));
    assert!(contains_profanity("BADWORD!", &v));
    assert!(contains_profanity("so much badWORD here", &v));
    assert_eq!(censor("A BadWord Appears", &v), "A ******* Appears");
}

#[test]
fn uppercase_vocabulary_terms_are_folded() {
    let v = base_of(&["BadWord"]);
    assert!(contains_profanity("badword", &v));
    assert!(contains_profanity("BADWORD", &v));
}

#[test]
fn whole_word_matching_only() {
    let v = base_of(&["ass"]);
    assert!(!contains_profanity("a class act", &v));
    assert!(contains_profanity("a class act, my ass", &v));
    assert_eq!(censor("a class act, my ass!", &v), "a class act, my ***!");
    assert_eq!(censor("assassin", &v), "assassin");
}

#[test]
fn digits_are_word_characters() {
    let v = base_of(&["badword"]);
    assert!(!contains_profanity("bad1word", &v));
    assert!(!contains_profanity("badword2", &v));
    assert!(contains_profanity("badword 2", &v));
}

#[test]
fn masking_is_per_character() {
    let v = base_of(&["bad", "terrible"]);
    assert_eq!(censor("bad and terrible", &v), "*** and ********");
    assert_eq!(censor("bad.terrible", &v), "***.********");
}

#[test]
fn replacement_is_literal() {
    let v = base_of(&["bad", "terrible"]);
    assert_eq!(replace("bad and terrible", &v, "####"), "#### and ####");
    assert_eq!(replace("So BAD", &v, "[redacted]"), "So [redacted]");
    assert_eq!(replace("bad", &v, ""), "");
}

#[test]
fn empty_text() {
    let v = base_of(&["badword"]);
    assert!(!contains_profanity("", &v));
    assert_eq!(censor("", &v), "");
    assert_eq!(replace("", &v, "###"), "");
}

#[test]
fn non_ascii_characters_are_boundaries() {
    let v = base_of(&["bad"]);
    assert!(contains_profanity("héllo bad wörld", &v));
    assert_eq!(censor("héllo bad wörld", &v), "héllo *** wörld");
    assert!(contains_profanity("ábad", &v));
    assert_eq!(censor("ábad", &v), "á***");
}

#[test]
fn adjacent_tokens_each_masked() {
    let v = base_of(&["bad"]);
    assert_eq!(censor("bad,bad bad", &v), "***,*** ***");
    assert_eq!(replace("bad,bad bad", &v, "?"), "?,? ?");
}
