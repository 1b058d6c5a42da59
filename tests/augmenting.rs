use vocab_review::augment::{add_translations, batch_query, decode_hints, distinct_words, merge_translations, AugmentError};
use vocab_review::inventory::{inventory_of, FetchError, VocabResponse, VocabWord};

fn word(word: Option<&str>) -> VocabWord {
    VocabWord {
        strength_bars: Some(2),
        infinitive: None,
        normalized_string: None,
        pos: Some("Noun".to_string()),
        last_practiced_ms: Some(7),
        skill: None,
        related_lexemes: None,
        last_practiced: None,
        strength: Some(400_000),
        skill_url_title: None,
        gender: None,
        id: Some("x1".to_string()),
        lexeme_id: None,
        word_string: word.map(|w| w.to_string()),
        translation: None,
    }
}

fn strings(v: &[&str]) -> Vec<String> {
    v.iter().map(|s| s.to_string()).collect()
}

#[test]
fn duplicates_are_batched_once() {
    let inv = vec![
        word(Some("sol")),
        word(Some("luna")),
        word(Some("sol")),
        word(Some("mar")),
        word(Some("luna")),
    ];
    assert_eq!(distinct_words(&inv), strings(&["sol", "luna", "mar"]));
}

#[test]
fn case_matters_for_distinct_words() {
    let inv = vec![word(Some("Sol")), word(None), word(Some("sol"))];
    assert_eq!(distinct_words(&inv), strings(&["Sol", "sol"]));
}

#[test]
fn batch_query_is_a_json_list() {
    let inv = vec![word(Some("sol")), word(Some("mar")), word(Some("sol"))];
    assert_eq!(batch_query(&inv), "[\"sol\",\"mar\"]");
}

#[test]
fn batch_query_escapes_quotes() {
    let inv = vec![word(Some("a\"b")), word(Some("c\nd"))];
    assert_eq!(batch_query(&inv), "[\"a\\\"b\",\"c\\nd\"]");
}

#[test]
fn undecodable_body_is_an_error() {
    assert_eq!(decode_hints("not json").unwrap_err(), AugmentError::Decode);
    let mut inv = vec![word(Some("sol"))];
    assert_eq!(add_translations(&mut inv, "[1, 2]"), Err(AugmentError::Decode));
    assert_eq!(inv[0].translation, None);
}

#[test]
fn hints_decode_in_key_order() {
    let rows = decode_hints("{\"sol\": [\"sun\"], \"mar\": null, \"luna\": []}").unwrap();
    assert_eq!(
        rows,
        vec![
            ("luna".to_string(), Some(vec![])),
            ("mar".to_string(), None),
            ("sol".to_string(), Some(strings(&["sun"]))),
        ]
    );
}

#[test]
fn missing_word_gets_empty_translation() {
    let mut inv = vec![word(Some("sol")), word(Some("nube")), word(Some("mar")), word(None), word(Some("nube"))];
    add_translations(&mut inv, "{\"sol\": [\"sun\", \"sunshine\"], \"mar\": null}").unwrap();
    assert_eq!(inv[0].translation, Some(strings(&["sun", "sunshine"])));
    assert_eq!(inv[1].translation, Some(vec![]));
    assert_eq!(inv[2].translation, Some(vec![]));
    assert_eq!(inv[3].translation, Some(vec![]));
    assert_eq!(inv[4].translation, Some(vec![]));
    assert_eq!(inv[0].id, Some("x1".to_string()));
    assert_eq!(inv[0].strength, Some(400_000));
}

#[test]
fn augmenting_twice_changes_nothing() {
    let body = "{\"sol\": [\"sun\"], \"luna\": [\"moon\"]}";
    let mut once = vec![word(Some("sol")), word(Some("luna")), word(Some("sol"))];
    add_translations(&mut once, body).unwrap();
    let first: Vec<Option<Vec<String>>> = once.iter().map(|w| w.translation.clone()).collect();
    add_translations(&mut once, body).unwrap();
    let second: Vec<Option<Vec<String>>> = once.iter().map(|w| w.translation.clone()).collect();
    assert_eq!(first, second);
    let mut fresh = vec![word(Some("sol")), word(Some("luna")), word(Some("sol"))];
    add_translations(&mut fresh, body).unwrap();
    let third: Vec<Option<Vec<String>>> = fresh.iter().map(|w| w.translation.clone()).collect();
    assert_eq!(first, third);
}

#[test]
fn first_row_wins_in_merge() {
    let mut inv = vec![word(Some("sol"))];
    let hints = vec![
        ("sol".to_string(), Some(strings(&["sun"]))),
        ("sol".to_string(), Some(strings(&["star"]))),
    ];
    merge_translations(&mut inv, &hints);
    assert_eq!(inv[0].translation, Some(strings(&["sun"])));
}

#[test]
fn missing_inventory_field_is_empty_error() {
    let resp = VocabResponse {
        language_string: "Spanish".to_string(),
        learning_language: Some("es".to_string()),
        from_language: Some("en".to_string()),
        language_information: None,
        vocab_overview: None,
    };
    assert_eq!(inventory_of(resp).unwrap_err(), FetchError::Empty);
    let resp = VocabResponse {
        language_string: "Spanish".to_string(),
        learning_language: None,
        from_language: None,
        language_information: None,
        vocab_overview: Some(vec![]),
    };
    assert_eq!(inventory_of(resp).unwrap().len(), 0);
}
