use random_word_demo::session::interpret_response;
use random_word_demo::wire::decode_word_list;

#[test]
fn single_word_response() {
    let body = r#"[{"word":"cat","definition":"a feline","pronunciation":"/kæt/"}]"#;
    let w = interpret_response(body).expect("a word");
    assert_eq!(w.word, "cat");
    assert_eq!(w.definition, "a feline");
    assert_eq!(w.pronunciation, "/kæt/");
}

#[test]
fn empty_array_reports_no_words() {
    let r = interpret_response("[]");
    assert_eq!(r.unwrap_err(), "No words found in response");
}

#[test]
fn non_json_body_reports_decode_error() {
    let r = interpret_response("this is not json");
    let e = r.unwrap_err();
    assert!(e.starts_with("Failed to parse JSON"));
}

#[test]
fn empty_body_reports_decode_error() {
    assert!(interpret_response("").is_err());
}

#[test]
fn first_of_several_words_is_taken() {
    let body = r#"[
        {"word":"sun","definition":"a star","pronunciation":"/sʌn/"},
        {"word":"moon","definition":"a satellite","pronunciation":"/muːn/"}
    ]"#;
    let w = interpret_response(body).expect("a word");
    assert_eq!(w.word, "sun");
    let words = decode_word_list(body).expect("a list");
    assert_eq!(words.len(), 2);
    assert_eq!(words[1].word, "moon");
}

#[test]
fn whitespace_is_tolerated() {
    let body = " [ { \"word\" : \"a\" ,\t\"definition\" :\n\"b\" , \"pronunciation\" : \"c\" } ] ";
    let w = interpret_response(body).expect("a word");
    assert_eq!(w.word, "a");
    assert_eq!(w.definition, "b");
    assert_eq!(w.pronunciation, "c");
}

#[test]
fn member_order_does_not_matter() {
    let body = r#"[{"pronunciation":"/p/","word":"w","definition":"d"}]"#;
    let w = interpret_response(body).expect("a word");
    assert_eq!(w.word, "w");
    assert_eq!(w.definition, "d");
    assert_eq!(w.pronunciation, "/p/");
}

#[test]
fn string_escapes_are_decoded() {
    let body = r#"[{"word":"\u0061\n","definition":"quote \" and backslash \\","pronunciation":"\t\/\r"}]"#;
    let w = interpret_response(body).expect("a word");
    assert_eq!(w.word, "a\n");
    assert_eq!(w.definition, "quote \" and backslash \\");
    assert_eq!(w.pronunciation, "\t/\r");
}

#[test]
fn unknown_members_are_ignored() {
    let body = r#"[{"id": 17, "word":"w", "definition":"d", "seen": true, "note": null, "pronunciation":"p", "extra":"x", "score": -1.5e+2}]"#;
    let w = interpret_response(body).expect("a word");
    assert_eq!(w.word, "w");
    assert_eq!(w.definition, "d");
    assert_eq!(w.pronunciation, "p");
}

#[test]
fn missing_field_is_refused() {
    let body = r#"[{"word":"w","definition":"d"}]"#;
    assert!(decode_word_list(body).is_none());
}

#[test]
fn duplicate_required_field_is_refused() {
    let body = r#"[{"word":"w","word":"x","definition":"d","pronunciation":"p"}]"#;
    assert!(decode_word_list(body).is_none());
}

#[test]
fn non_string_required_field_is_refused() {
    let body = r#"[{"word":7,"definition":"d","pronunciation":"p"}]"#;
    assert!(decode_word_list(body).is_none());
}

#[test]
fn trailing_garbage_is_refused() {
    let body = r#"[{"word":"w","definition":"d","pronunciation":"p"}] tail"#;
    assert!(decode_word_list(body).is_none());
}

#[test]
fn empty_object_is_refused() {
    assert!(decode_word_list("[{}]").is_none());
}

#[test]
fn bare_array_of_strings_is_refused() {
    assert!(decode_word_list(r#"["cat"]"#).is_none());
}

#[test]
fn malformed_number_member_is_refused() {
    let body = r#"[{"n": 01, "word":"w","definition":"d","pronunciation":"p"}]"#;
    assert!(decode_word_list(body).is_none());
}

#[test]
fn surrogate_escape_is_refused() {
    let body = r#"[{"word":"\ud834","definition":"d","pronunciation":"p"}]"#;
    assert!(decode_word_list(body).is_none());
}

#[test]
fn unescaped_control_character_is_refused() {
    let body = "[{\"word\":\"a\u{0001}b\",\"definition\":\"d\",\"pronunciation\":\"p\"}]";
    assert!(decode_word_list(body).is_none());
}

#[test]
fn unterminated_string_is_refused() {
    assert!(decode_word_list(r#"[{"word":"w]"#).is_none());
}

#[test]
fn empty_word_list_decodes_to_empty_vec() {
    let words = decode_word_list("  [ ]  ").expect("a list");
    assert!(words.is_empty());
}
