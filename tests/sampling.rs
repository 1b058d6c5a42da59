use vocab_review::inventory::VocabWord;
use vocab_review::order::stable_order;
use vocab_review::sampler::{picks_from, sample, weak_pool, SampleError};

fn entry(word: &str, strength: Option<u32>, translation: Option<Vec<&str>>) -> VocabWord {
    VocabWord {
        strength_bars: None,
        infinitive: None,
        normalized_string: None,
        pos: None,
        last_practiced_ms: None,
        skill: None,
        related_lexemes: None,
        last_practiced: None,
        strength,
        skill_url_title: None,
        gender: None,
        id: None,
        lexeme_id: None,
        word_string: Some(word.to_string()),
        translation: translation.map(|t| t.iter().map(|s| s.to_string()).collect()),
    }
}

fn animals() -> Vec<VocabWord> {
    vec![
        entry("perro", Some(100_000), Some(vec!["dog"])),
        entry("gato", Some(900_000), Some(vec!["cat"])),
        entry("sol", Some(300_000), Some(vec!["sun"])),
    ]
}

#[test]
fn three_words_pool_is_weakest_one() {
    assert_eq!(weak_pool(&animals()), vec![0]);
}

#[test]
fn three_words_sample_repeats_single_pool_entry() {
    let sel = sample(&animals(), 2).unwrap();
    let perro = ("perro".to_string(), vec!["dog".to_string()]);
    assert_eq!(sel, vec![perro.clone(), perro]);
}

#[test]
fn no_strength_means_empty_pool() {
    let inv = vec![entry("perro", None, None), entry("gato", None, None)];
    assert_eq!(sample(&inv, 3), Err(SampleError::EmptyPool));
    assert_eq!(sample(&Vec::new(), 1), Err(SampleError::EmptyPool));
}

#[test]
fn count_larger_than_pool_is_filled() {
    let sel = sample(&animals(), 10).unwrap();
    assert_eq!(sel.len(), 10);
    assert!(sel.iter().all(|p| p.0 == "perro"));
}

#[test]
fn unrated_entries_never_selected() {
    let inv = vec![
        entry("agua", None, None),
        entry("luna", Some(500_000), None),
        entry("mar", Some(200_000), None),
        entry("", Some(0), None),
    ];
    assert_eq!(weak_pool(&inv), vec![2, 1]);
    for _ in 0..20 {
        let sel = sample(&inv, 5).unwrap();
        assert_eq!(sel.len(), 5);
        assert!(sel.iter().all(|p| p.0 == "luna" || p.0 == "mar"));
        assert!(sel.iter().all(|p| p.1.is_empty()));
    }
}

#[test]
fn six_words_pool_is_weakest_third() {
    let inv = vec![
        entry("a", Some(600), None),
        entry("b", Some(100), None),
        entry("c", Some(500), None),
        entry("d", Some(100), None),
        entry("e", Some(900), None),
        entry("f", Some(50), None),
    ];
    assert_eq!(weak_pool(&inv), vec![5, 1]);
}

#[test]
fn two_words_pool_is_everything() {
    let inv = vec![entry("a", Some(700), None), entry("b", Some(200), None)];
    assert_eq!(weak_pool(&inv), vec![1, 0]);
}

#[test]
fn ties_keep_inventory_order() {
    assert_eq!(stable_order(&vec![5, 3, 5, 3, 1]), vec![4, 1, 3, 0, 2]);
    assert_eq!(stable_order(&vec![]), Vec::<usize>::new());
}

#[test]
fn picks_follow_the_draws() {
    let inv = animals();
    let sel = picks_from(&inv, &vec![2, 0], &vec![1, 0, 1]);
    let names: Vec<&str> = sel.iter().map(|p| p.0.as_str()).collect();
    assert_eq!(names, vec!["perro", "sol", "perro"]);
    assert_eq!(sel[1].1, vec!["sun".to_string()]);
}
