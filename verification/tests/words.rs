use meddl_translate::table::RuleTable;
use meddl_translate::word::{
    translate_beginning, translate_quotation_marks, translate_word, twist_chars, twist_en,
};

fn pairs(v: &[(&str, &str)]) -> Vec<(String, String)> {
    v.iter().map(|(a, b)| (a.to_string(), b.to_string())).collect()
}

fn words(v: &[&str]) -> Vec<String> {
    v.iter().map(|s| s.to_string()).collect()
}

fn empty_table() -> RuleTable {
    RuleTable {
        dictionary: Vec::new(),
        suffix_rewrites: Vec::new(),
        substring_twists: Vec::new(),
        prefix_rewrites: Vec::new(),
        ignored_words: Vec::new(),
        dot_pool: Vec::new(),
        exclamation_pool: Vec::new(),
        question_pool: Vec::new(),
        quotation_mark: String::new(),
        interlude: None,
    }
}

#[test]
fn should_ignore_word() {
    let mut t = empty_table();
    t.ignored_words = words(&["whatever"]);
    t.dictionary = vec![("whatever".to_string(), words(&["something"]))];
    assert_eq!(translate_word("whatever", &t), "whatever");
}

#[test]
fn should_translate_word() {
    let mut t = empty_table();
    t.dictionary = vec![("Whatever".to_string(), words(&["Something"]))];
    assert_eq!(translate_word("Whatever", &t), "Something");
}

#[test]
fn should_translate_nn_correctly() {
    let mut t = empty_table();
    t.dictionary = vec![("wenn".to_string(), words(&["wen"]))];
    assert_eq!(translate_word("wenn", &t), "wen");
}

#[test]
fn should_twist_chars() {
    let mut t = empty_table();
    t.substring_twists = pairs(&[("ck", "gg")]);
    assert_eq!(twist_chars("wicked", &t), "wigged");
}

#[test]
fn should_twist_multiple_chars() {
    let mut t = empty_table();
    t.substring_twists = pairs(&[("z", "ds"), ("p", "b")]);
    assert_eq!(twist_chars("pommespanzer", &t), "bommesbandser");
}

#[test]
fn should_twist_en_end_of_word() {
    let mut t = empty_table();
    t.suffix_rewrites = pairs(&[("en!", "ne!")]);
    assert_eq!(twist_en("laufen!", &t), "laufne!");
}

#[test]
fn should_twist_en_ignore_char_within() {
    let mut t = empty_table();
    t.suffix_rewrites = pairs(&[("en", "ne")]);
    assert_eq!(twist_en("denken", &t), "denkne");
}

#[test]
fn applies_every_matching_suffix_rule_in_order() {
    let mut t = empty_table();
    t.suffix_rewrites = pairs(&[("en", "ne"), ("n", "m")]);
    assert_eq!(twist_en("laufen", &t), "laufnm");
}

#[test]
fn should_translate_quotation_marks() {
    let mut t = empty_table();
    t.quotation_mark = String::from("I cite: \"");
    assert_eq!(translate_quotation_marks("\"word\"", &t), "I cite: \"word\"");
}

#[test]
fn should_translate_st() {
    let mut t = empty_table();
    t.prefix_rewrites = pairs(&[("st", "schd")]);
    assert_eq!(translate_beginning("stein", &t), "schdein");
}

#[test]
fn should_translate_sp() {
    let mut t = empty_table();
    t.prefix_rewrites = pairs(&[("sp", "schb")]);
    assert_eq!(translate_beginning("spinne", &t), "schbinne");
}

#[test]
fn should_ignore_anything_else() {
    let mut t = empty_table();
    t.prefix_rewrites = pairs(&[("sp", "schb")]);
    assert_eq!(translate_beginning("hallo", &t), "hallo");
}

#[test]
fn applies_only_the_first_matching_prefix_rule() {
    let mut t = empty_table();
    t.prefix_rewrites = pairs(&[("st", "schd"), ("s", "x")]);
    assert_eq!(translate_beginning("stein", &t), "schdein");
}

#[test]
fn prefix_rule_order_decides_which_one_fires() {
    let mut t = empty_table();
    t.prefix_rewrites = pairs(&[("s", "x"), ("st", "schd")]);
    assert_eq!(translate_beginning("stein", &t), "xtein");
}

#[test]
fn restores_capitalization_after_rewrites() {
    let mut t = empty_table();
    t.prefix_rewrites = pairs(&[("st", "schd")]);
    assert_eq!(translate_word("Stein", &t), "Schdein");
    assert_eq!(translate_word("stein", &t), "schdein");
}

#[test]
fn lower_cases_the_whole_word() {
    let t = empty_table();
    assert_eq!(translate_word("HALLO", &t), "Hallo");
}

#[test]
fn twist_replacement_value_is_lower_cased() {
    let mut t = empty_table();
    t.substring_twists = pairs(&[("a", "B")]);
    assert_eq!(twist_chars("haus", &t), "hbus");
}

#[test]
fn suffix_rules_stay_total_when_earlier_rules_shrink_the_word() {
    let mut t = empty_table();
    t.suffix_rewrites = pairs(&[("en", ""), ("n", "m")]);
    assert_eq!(twist_en("laufen", &t), "lauf");
}

#[test]
fn quotation_replacement_runs_through_the_chain() {
    let mut t = empty_table();
    t.quotation_mark = String::from("Zitat: \"");
    assert_eq!(translate_word("\"Hallo", &t), "zitat: \"hallo");
}
