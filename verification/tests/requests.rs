use profanity_filter::requests::censor_text;
use profanity_filter::requests::check_text;
use profanity_filter::requests::replace_text;
use profanity_filter::vocab::Vocabulary;

fn strings(words: &[&str]) -> Vec<String> {
    words.iter().map(|w| w.to_string()).collect()
}

#[test]
fn check_censor_replace_on_one_request() {
    let base = Vocabulary::new(&strings(&["badword"]));
    let none = strings(&[]);
    let text = "this is a badword example";
    assert!(check_text(text, &none, &none, &base));
    assert_eq!(censor_text(text, &none, &none, &base), "this is a ******* example");
    assert_eq!(replace_text(text, &none, &none, "@!#", &base), "this is a @!# example");
}

#[test]
fn clean_request_returns_text_verbatim() {
    let base = Vocabulary::new(&strings(&["badword"]));
    let none = strings(&[]);
    let text = "this is clean";
    assert!(!check_text(text, &none, &none, &base));
    assert_eq!(censor_text(text, &none, &none, &base), text);
    assert_eq!(replace_text(text, &none, &none, "@!#", &base), text);
}

#[test]
fn extra_filters_apply_to_one_request_only() {
    let base = Vocabulary::new(&strings(&["badword"]));
    let none = strings(&[]);
    let extra = strings(&["clean"]);
    let text = "this is clean";
    assert!(check_text(text, &extra, &none, &base));
    assert_eq!(censor_text(text, &extra, &none, &base), "this is *****");
    assert!(!check_text(text, &none, &none, &base));
    assert_eq!(censor_text(text, &none, &none, &base), text);
}

#[test]
fn excludes_apply_to_one_request_only() {
    let base = Vocabulary::new(&strings(&["badword"]));
    let none = strings(&[]);
    let excludes = strings(&["badword"]);
    let text = "a badword here";
    assert!(!check_text(text, &none, &excludes, &base));
    assert_eq!(censor_text(text, &none, &excludes, &base), text);
    assert!(check_text(text, &none, &none, &base));
}

#[test]
fn term_added_and_excluded_in_same_request_never_matches() {
    let base = Vocabulary::new(&strings(&["badword"]));
    let both = strings(&["clean"]);
    assert!(!check_text("clean", &both, &both, &base));
    assert_eq!(censor_text("clean", &both, &both, &base), "clean");
    assert_eq!(replace_text("clean", &both, &both, "###", &base), "clean");
}

#[test]
fn grawlix_is_inserted_literally_per_span() {
    let base = Vocabulary::new(&strings(&["bad", "awful"]));
    let none = strings(&[]);
    assert_eq!(
        replace_text("bad text, awful text", &none, &none, "####", &base),
        "#### text, #### text"
    );
}

#[test]
fn standard_base_request() {
    let base = Vocabulary::standard();
    let none = strings(&[]);
    assert!(check_text("what the fuck", &none, &none, &base));
    assert_eq!(censor_text("what the fuck", &none, &none, &base), "what the ****");
    assert!(!check_text("what the heck", &none, &none, &base));
}
