use random_word_demo::model::GrammaticalType;
use random_word_demo::model::LanguageCode;
use random_word_demo::model::Word;

#[test]
fn grammatical_type_names() {
    assert_eq!(GrammaticalType::Random.name(), "Random");
    assert_eq!(GrammaticalType::Noun.name(), "Noun");
    assert_eq!(GrammaticalType::Verb.name(), "Verb");
    assert_eq!(GrammaticalType::Adjective.name(), "Adjective");
    assert_eq!(GrammaticalType::Adverb.name(), "Adverb");
}

#[test]
fn grammatical_type_api_names() {
    assert_eq!(GrammaticalType::Random.api_name(), "random");
    assert_eq!(GrammaticalType::Noun.api_name(), "noun");
    assert_eq!(GrammaticalType::Verb.api_name(), "verb");
    assert_eq!(GrammaticalType::Adjective.api_name(), "adjective");
    assert_eq!(GrammaticalType::Adverb.api_name(), "adverb");
}

#[test]
fn grammatical_type_all_in_declaration_order() {
    let all = GrammaticalType::all();
    assert_eq!(all.len(), 5);
    assert_eq!(all[0], GrammaticalType::Random);
    assert_eq!(all[1], GrammaticalType::Noun);
    assert_eq!(all[2], GrammaticalType::Verb);
    assert_eq!(all[3], GrammaticalType::Adjective);
    assert_eq!(all[4], GrammaticalType::Adverb);
}

#[test]
fn api_identifiers_are_lowercase_constants() {
    for g in GrammaticalType::all() {
        let api = g.api_name();
        assert_eq!(api, api.to_lowercase());
        assert!(api.chars().all(|c| c.is_ascii_lowercase()));
        assert_eq!(api, g.name().to_lowercase());
    }
    for l in LanguageCode::all() {
        assert!(l.code().chars().all(|c| c.is_ascii_lowercase()));
        assert!(l.flag_code().chars().all(|c| c.is_ascii_lowercase()));
    }
}

#[test]
fn language_code_identifiers() {
    assert_eq!(LanguageCode::English.code(), "en");
    assert_eq!(LanguageCode::English.name(), "English");
    assert_eq!(LanguageCode::English.flag_code(), "us");
}

#[test]
fn language_code_all() {
    let all = LanguageCode::all();
    assert_eq!(all.len(), 1);
    assert_eq!(all[0], LanguageCode::English);
}

#[test]
fn word_default_is_empty() {
    let w = Word::default();
    assert_eq!(w.word, "");
    assert_eq!(w.definition, "");
    assert_eq!(w.pronunciation, "");
}
