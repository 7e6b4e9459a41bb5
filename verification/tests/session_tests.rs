use random_word_demo::model::GrammaticalType;
use random_word_demo::model::LanguageCode;
use random_word_demo::model::Word;
use random_word_demo::session::request_url;
use random_word_demo::session::ResultState;
use random_word_demo::session::Selection;
use random_word_demo::session::Session;

fn sample_word(text: &str) -> Word {
    Word {
        word: text.to_string(),
        definition: "a definition".to_string(),
        pronunciation: "/x/".to_string(),
    }
}

#[test]
fn fresh_session_defaults() {
    let s = Session::new();
    assert_eq!(s.selection.grammatical_type, GrammaticalType::Random);
    assert_eq!(s.selection.language, LanguageCode::English);
    assert!(matches!(s.result, ResultState::NoResult));
}

#[test]
fn request_url_joins_base_and_identifiers() {
    let sel = Selection::new();
    assert_eq!(request_url("http://localhost:3000", &sel), "http://localhost:3000/en/random");
}

#[test]
fn request_url_follows_the_selection() {
    let mut s = Session::new();
    s.set_grammatical_type(GrammaticalType::Noun);
    let url = s.begin_fetch("http://localhost:3000");
    assert_eq!(url, "http://localhost:3000/en/noun");
}

#[test]
fn begin_fetch_clears_a_previous_error() {
    let mut s = Session::new();
    s.resolve_fetch(Err("boom".to_string()));
    assert!(matches!(s.result, ResultState::HasError(_)));
    s.begin_fetch("http://localhost:3000");
    assert!(matches!(s.result, ResultState::NoResult));
}

#[test]
fn begin_fetch_keeps_a_previous_word() {
    let mut s = Session::new();
    s.resolve_fetch(Ok(sample_word("cat")));
    s.begin_fetch("http://localhost:3000");
    match &s.result {
        ResultState::HasWord(w) => assert_eq!(w.word, "cat"),
        _ => panic!("the previous word should stay until the fetch resolves"),
    }
}

#[test]
fn overlapping_fetches_last_resolution_wins() {
    let mut s = Session::new();
    s.begin_fetch("http://localhost:3000");
    s.begin_fetch("http://localhost:3000");
    s.resolve_fetch(Err("first fetch failed".to_string()));
    s.resolve_fetch(Ok(sample_word("late")));
    match &s.result {
        ResultState::HasWord(w) => assert_eq!(w.word, "late"),
        _ => panic!("a stale error must not survive a later successful resolution"),
    }
}

#[test]
fn overlapping_fetches_last_error_wins() {
    let mut s = Session::new();
    s.begin_fetch("http://localhost:3000");
    s.begin_fetch("http://localhost:3000");
    s.resolve_fetch(Ok(sample_word("early")));
    s.resolve_fetch(Err("second fetch failed".to_string()));
    match &s.result {
        ResultState::HasError(e) => assert_eq!(e, "second fetch failed"),
        _ => panic!("the last resolution should win"),
    }
}

#[test]
fn setters_leave_the_result_alone() {
    let mut s = Session::new();
    s.resolve_fetch(Ok(sample_word("kept")));
    s.set_language(LanguageCode::English);
    s.set_grammatical_type(GrammaticalType::Adverb);
    assert_eq!(s.selection.grammatical_type, GrammaticalType::Adverb);
    match &s.result {
        ResultState::HasWord(w) => assert_eq!(w.word, "kept"),
        _ => panic!("changing the selection must not touch the result"),
    }
}
