use meddl_translate::punct::{split_token, translate_punctuation};
use meddl_translate::table::RuleTable;

fn words(v: &[&str]) -> Vec<String> {
    v.iter().map(|s| s.to_string()).collect()
}

fn empty_table() -> RuleTable {
    RuleTable {
        dictionary: Vec::new(),
        suffix_rewrites: Vec::new(),
        substring_twists: Vec::new(),
        prefix_rewrites: Vec::new(),
        ignored_words: Vec::new(),
        dot_pool: Vec::new(),
        exclamation_pool: Vec::new(),
        question_pool: Vec::new(),
        quotation_mark: String::new(),
        interlude: None,
    }
}

#[test]
fn should_translate_punctuation_dot() {
    let mut t = empty_table();
    t.dot_pool = words(&[" dot suffix."]);
    assert_eq!(translate_punctuation(".", &t), " dot suffix.");
}

#[test]
fn should_translation_punctuation_exclamation_mark() {
    let mut t = empty_table();
    t.exclamation_pool = words(&[" exclamation mark suffix!"]);
    assert_eq!(translate_punctuation("!", &t), " exclamation mark suffix!");
}

#[test]
fn should_translate_punctuation_question_mark() {
    let mut t = empty_table();
    t.question_pool = words(&[" question mark suffix?"]);
    assert_eq!(translate_punctuation("?", &t), " question mark suffix?");
}

#[test]
fn should_translate_punctuation_return_anything_else() {
    let t = empty_table();
    assert_eq!(translate_punctuation("~", &t), "~");
}

#[test]
fn empty_mark_passes_through() {
    let t = empty_table();
    assert_eq!(translate_punctuation("", &t), "");
}

#[test]
fn splits_first_punctuation_mark_and_strips_its_occurrences() {
    let (body, mark) = split_token("ab.cd.");
    assert_eq!(body, "abcd");
    assert_eq!(mark, ".");
}

#[test]
fn split_keeps_other_punctuation_characters_in_the_body() {
    let (body, mark) = split_token("a-b.c");
    assert_eq!(body, "ab.c");
    assert_eq!(mark, "-");
}

#[test]
fn split_falls_back_to_the_whole_token_for_lone_punctuation() {
    let (body, mark) = split_token("&");
    assert_eq!(body, "&");
    assert_eq!(mark, "");
}

#[test]
fn split_reports_no_mark_without_punctuation() {
    let (body, mark) = split_token("wort");
    assert_eq!(body, "wort");
    assert_eq!(mark, "");
}
