use meddl_translate::table::RuleTable;
use meddl_translate::translate;

fn pairs(v: &[(&str, &str)]) -> Vec<(String, String)> {
    v.iter().map(|(a, b)| (a.to_string(), b.to_string())).collect()
}

fn words(v: &[&str]) -> Vec<String> {
    v.iter().map(|s| s.to_string()).collect()
}

/// A table that passes validation: every pool non-empty, no rules.
fn base_table() -> RuleTable {
    RuleTable {
        dictionary: Vec::new(),
        suffix_rewrites: Vec::new(),
        substring_twists: Vec::new(),
        prefix_rewrites: Vec::new(),
        ignored_words: Vec::new(),
        dot_pool: words(&["."]),
        exclamation_pool: words(&["!"]),
        question_pool: words(&["?"]),
        quotation_mark: String::from("\""),
        interlude: None,
    }
}

#[test]
fn should_translate_everything() {
    let mut t = base_table();
    t.substring_twists = pairs(&[("t", "d"), ("p", "b")]);
    assert_eq!(
        translate("Der Meddltranslator wurde in Rust programmiert", &t),
        "Der Meddldranslador wurde in Rusd brogrammierd"
    );
}

#[test]
fn should_return_empty_string_on_empty_string_on_input() {
    let t = base_table();
    assert_eq!(translate("", &t), "");
}

#[test]
fn should_work_with_single_punctuation() {
    let t = base_table();
    assert_eq!(translate(".", &t), ".");
    assert_eq!(translate("you & me", &t), "you & me");
}

#[test]
fn keeps_empty_tokens_from_double_spaces() {
    let t = base_table();
    assert_eq!(translate("a  b", &t), "a  b");
}

#[test]
fn ignored_word_survives_whole_pipeline_case_insensitively() {
    let mut t = base_table();
    t.ignored_words = words(&["graupe"]);
    t.dictionary = vec![("Graupe".to_string(), words(&["oger"]))];
    t.substring_twists = pairs(&[("p", "b")]);
    assert_eq!(translate("Graupe", &t), "Graupe");
}

#[test]
fn keeps_token_count_and_order() {
    let t = base_table();
    let out = translate("Hallo du schoene Welt", &t);
    let toks: Vec<&str> = out.split(' ').collect();
    assert_eq!(toks, vec!["Hallo", "du", "schoene", "Welt"]);
}

#[test]
fn punctuation_pool_engaged_for_trailing_dot() {
    let mut t = base_table();
    t.dot_pool = words(&[" dot suffix."]);
    assert_eq!(translate("Hi.", &t), "Hi dot suffix.");
}

#[test]
fn dictionary_and_punctuation_work_together() {
    let mut t = base_table();
    t.dictionary = vec![("Hallo".to_string(), words(&["Servus"]))];
    t.exclamation_pool = words(&[" mark!"]);
    assert_eq!(translate("Hallo!", &t), "Servus mark!");
}

#[test]
fn interlude_absent_when_not_configured() {
    let t = base_table();
    for _ in 0..200 {
        assert_eq!(translate("wort", &t), "wort");
    }
}

#[test]
fn interlude_appends_the_fragment_or_nothing() {
    let mut t = base_table();
    t.interlude = Some(String::from("-meddl"));
    for _ in 0..300 {
        let out = translate("wort", &t);
        assert!(out == "wort" || out == "wort-meddl");
    }
}
