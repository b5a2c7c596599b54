use meddl_translate::capitalize_word;

#[test]
fn should_capitalize_umlaut_correctly() {
    assert_eq!(capitalize_word("österreich"), "Österreich");
}

#[test]
fn should_capitalize_another_umlaut_correctly() {
    assert_eq!(capitalize_word("ätzend"), "Ätzend");
}

#[test]
fn should_capitalize_correctly() {
    assert_eq!(capitalize_word("doppelhaushälfte"), "Doppelhaushälfte");
}

#[test]
fn capitalizes_a_ligature_to_several_characters() {
    assert_eq!(capitalize_word("straße"), "Straße");
    assert_eq!(capitalize_word("ßtraße"), "SStraße");
}
