use profanity_filter::matcher::contains_profanity;
use profanity_filter::vocab::Vocabulary;

fn strings(words: &[&str]) -> Vec<String> {
    words.iter().map(|w| w.to_string()).collect()
}

#[test]
fn additions_take_effect() {
    let v = Vocabulary::new(&strings(&[]));
    let extended = v.with_additions(&strings(&["xyzzy"]));
    assert!(contains_profanity("xyzzy", &extended));
    assert!(extended.contains("xyzzy"));
    assert!(!contains_profanity("xyzzy", &v));
}

#[test]
fn exclusions_override_base() {
    let v = Vocabulary::new(&strings(&["badword"]));
    let reduced = v.with_exclusions(&strings(&["badword"]));
    assert!(!contains_profanity("this is a badword", &reduced));
    assert!(!reduced.contains("badword"));
    assert!(contains_profanity("this is a badword", &v));
}

#[test]
fn exclusion_beats_addition_in_either_order() {
    let v = Vocabulary::new(&strings(&[]));
    let first = v.with_additions(&strings(&["zork"])).with_exclusions(&strings(&["zork"]));
    assert!(!contains_profanity("zork", &first));
    let second = v.with_exclusions(&strings(&["zork"])).with_additions(&strings(&["zork"]));
    assert!(!contains_profanity("zork", &second));
}

#[test]
fn membership_is_case_insensitive() {
    let v = Vocabulary::new(&strings(&["BadWord"]));
    assert!(v.contains("badword"));
    assert!(v.contains("BADWORD"));
    assert!(!v.contains("goodword"));
    let extended = v.with_additions(&strings(&["Xyzzy"]));
    assert!(extended.contains("xyzzy"));
    assert!(extended.contains("XYZZY"));
}

#[test]
fn deriving_does_not_change_the_receiver() {
    let v = Vocabulary::new(&strings(&["badword"]));
    let extended = v.with_additions(&strings(&["clean"]));
    let reduced = v.with_exclusions(&strings(&["badword"]));
    assert!(contains_profanity("clean", &extended));
    assert!(!contains_profanity("badword", &reduced));
    assert!(!contains_profanity("clean", &v));
    assert!(contains_profanity("badword", &v));
}

#[test]
fn empty_terms_never_match() {
    let v = Vocabulary::new(&strings(&[""]));
    assert!(!contains_profanity("anything at all", &v));
    let extended = v.with_additions(&strings(&[""]));
    assert!(!contains_profanity("anything at all", &extended));
}

#[test]
fn standard_vocabulary_flags_standard_words() {
    let v = Vocabulary::standard();
    assert!(v.contains("shit"));
    assert!(v.contains("ASS"));
    assert!(!v.contains("hello"));
    assert!(contains_profanity("oh shit", &v));
    assert!(!contains_profanity("a class act", &v));
}
