use meddl_translate::punct::translate_punctuation;
use meddl_translate::table::RuleTable;
use meddl_translate::word::translate_word;

fn words(v: &[&str]) -> Vec<String> {
    v.iter().map(|s| s.to_string()).collect()
}

fn empty_table() -> RuleTable {
    RuleTable {
        dictionary: Vec::new(),
        suffix_rewrites: Vec::new(),
        substring_twists: Vec::new(),
        prefix_rewrites: Vec::new(),
        ignored_words: Vec::new(),
        dot_pool: Vec::new(),
        exclamation_pool: Vec::new(),
        question_pool: Vec::new(),
        quotation_mark: String::new(),
        interlude: None,
    }
}

#[test]
fn dictionary_selection_reaches_every_candidate() {
    let mut t = empty_table();
    t.dictionary = vec![("wort".to_string(), words(&["eins", "zwei", "drei"]))];
    let mut seen = [false; 3];
    for _ in 0..400 {
        let out = translate_word("wort", &t);
        match out.as_str() {
            "eins" => seen[0] = true,
            "zwei" => seen[1] = true,
            "drei" => seen[2] = true,
            other => panic!("unexpected candidate: {}", other),
        }
    }
    assert!(seen[0] && seen[1] && seen[2]);
}

#[test]
fn dot_pool_selection_reaches_every_entry() {
    let mut t = empty_table();
    t.dot_pool = words(&[" a.", " b."]);
    let mut seen = [false; 2];
    for _ in 0..300 {
        let out = translate_punctuation(".", &t);
        match out.as_str() {
            " a." => seen[0] = true,
            " b." => seen[1] = true,
            other => panic!("unexpected pool entry: {}", other),
        }
    }
    assert!(seen[0] && seen[1]);
}

#[test]
fn exclamation_pool_selection_reaches_every_entry() {
    let mut t = empty_table();
    t.exclamation_pool = words(&["!a", "!b"]);
    let mut seen = [false; 2];
    for _ in 0..300 {
        let out = translate_punctuation("!", &t);
        match out.as_str() {
            "!a" => seen[0] = true,
            "!b" => seen[1] = true,
            other => panic!("unexpected pool entry: {}", other),
        }
    }
    assert!(seen[0] && seen[1]);
}

#[test]
fn question_pool_selection_reaches_every_entry() {
    let mut t = empty_table();
    t.question_pool = words(&["?a", "?b"]);
    let mut seen = [false; 2];
    for _ in 0..300 {
        let out = translate_punctuation("?", &t);
        match out.as_str() {
            "?a" => seen[0] = true,
            "?b" => seen[1] = true,
            other => panic!("unexpected pool entry: {}", other),
        }
    }
    assert!(seen[0] && seen[1]);
}
