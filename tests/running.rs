use vocab_review::augment::AugmentError;
use vocab_review::inventory::{FetchError, VocabWord};
use vocab_review::layout::{display_lines, join_translations};
use vocab_review::pipeline::{bearer_credential, start_run, step, AuthError, Event, Failure, RenderError, Run};
use vocab_review::sampler::SampleError;
use vocab_review::scheduler::{on_run_end, on_tick, Phase, TickAction};

fn entry(word: &str, strength: Option<u32>) -> VocabWord {
    VocabWord {
        strength_bars: None,
        infinitive: None,
        normalized_string: None,
        pos: None,
        last_practiced_ms: None,
        skill: None,
        related_lexemes: None,
        last_practiced: None,
        strength,
        skill_url_title: None,
        gender: None,
        id: None,
        lexeme_id: None,
        word_string: Some(word.to_string()),
        translation: None,
    }
}

fn animals() -> Vec<VocabWord> {
    vec![entry("perro", Some(100_000)), entry("gato", Some(900_000)), entry("sol", Some(300_000))]
}

const HINTS: &str = "{\"perro\": [\"dog\"], \"gato\": [\"cat\"], \"sol\": [\"sun\"]}";

fn finished_with(run: &Run) -> Option<&Result<(), Failure>> {
    match run {
        Run::Finished { result } => Some(result),
        _ => None,
    }
}

#[test]
fn full_run_renders_weakest_word() {
    let run = start_run();
    let run = step(run, Event::LoggedIn(Ok("tok".to_string())), 2);
    assert!(matches!(&run, Run::Fetching { token } if token == "tok"));
    let run = step(run, Event::Fetched(Ok(animals())), 2);
    match &run {
        Run::LookingUp { token, inventory, query } => {
            assert_eq!(token, "tok");
            assert_eq!(inventory.len(), 3);
            assert_eq!(query, "[\"perro\",\"gato\",\"sol\"]");
        }
        other => panic!("unexpected {:?}", other),
    }
    let run = step(run, Event::LookedUp(Ok(HINTS.to_string())), 2);
    match &run {
        Run::Rendering { selection } => {
            let perro = ("perro".to_string(), vec!["dog".to_string()]);
            assert_eq!(selection, &vec![perro.clone(), perro]);
        }
        other => panic!("unexpected {:?}", other),
    }
    let run = step(run, Event::Displayed(Ok(())), 2);
    assert_eq!(finished_with(&run), Some(&Ok(())));
}

#[test]
fn each_stage_failure_ends_the_run() {
    let run = step(start_run(), Event::LoggedIn(Err(AuthError)), 4);
    assert_eq!(finished_with(&run), Some(&Err(Failure::Auth(AuthError))));
    let run = step(Run::Fetching { token: "t".to_string() }, Event::Fetched(Err(FetchError::Decode)), 4);
    assert_eq!(finished_with(&run), Some(&Err(Failure::Fetch(FetchError::Decode))));
    let looking = || Run::LookingUp { token: "t".to_string(), inventory: animals(), query: String::new() };
    let run = step(looking(), Event::LookedUp(Err(AugmentError::Network)), 4);
    assert_eq!(finished_with(&run), Some(&Err(Failure::Augment(AugmentError::Network))));
    let run = step(looking(), Event::LookedUp(Ok("oops".to_string())), 4);
    assert_eq!(finished_with(&run), Some(&Err(Failure::Augment(AugmentError::Decode))));
    let unrated = Run::LookingUp { token: "t".to_string(), inventory: vec![entry("agua", None)], query: String::new() };
    let run = step(unrated, Event::LookedUp(Ok("{}".to_string())), 4);
    assert_eq!(finished_with(&run), Some(&Err(Failure::Sample(SampleError::EmptyPool))));
    let run = step(Run::Rendering { selection: vec![] }, Event::Displayed(Err(RenderError)), 4);
    assert_eq!(finished_with(&run), Some(&Err(Failure::Render(RenderError))));
}

#[test]
fn unrelated_event_leaves_run_alone() {
    let run = step(start_run(), Event::Displayed(Ok(())), 1);
    assert!(matches!(run, Run::LoggingIn));
    let run = step(Run::Finished { result: Ok(()) }, Event::LoggedIn(Ok("t".to_string())), 1);
    assert_eq!(finished_with(&run), Some(&Ok(())));
}

#[test]
fn failed_fetch_does_not_block_next_tick() {
    let (phase, action) = on_tick(Phase::Idle);
    assert_eq!((phase, action), (Phase::Running, TickAction::StartRun));
    let run = step(start_run(), Event::LoggedIn(Ok("t".to_string())), 1);
    let run = step(run, Event::Fetched(Err(FetchError::Network)), 1);
    let result = match run {
        Run::Finished { result } => result,
        other => panic!("unexpected {:?}", other),
    };
    assert_eq!(result, Err(Failure::Fetch(FetchError::Network)));
    let phase = on_run_end(phase, &result);
    assert_eq!(phase, Phase::Idle);
    let (phase, action) = on_tick(phase);
    assert_eq!((phase, action), (Phase::Running, TickAction::StartRun));
    let run = step(start_run(), Event::LoggedIn(Ok("t".to_string())), 1);
    let run = step(run, Event::Fetched(Ok(animals())), 1);
    let run = step(run, Event::LookedUp(Ok(HINTS.to_string())), 1);
    let run = step(run, Event::Displayed(Ok(())), 1);
    assert_eq!(finished_with(&run), Some(&Ok(())));
}

#[test]
fn tick_during_run_is_dropped() {
    assert_eq!(on_tick(Phase::Running), (Phase::Running, TickAction::Skip));
    assert_eq!(on_run_end(Phase::Running, &Ok(())), Phase::Idle);
}

#[test]
fn translations_join_with_commas() {
    let parts = vec!["dog".to_string(), "hound".to_string(), "mutt".to_string()];
    assert_eq!(join_translations(&parts), "dog, hound, mutt");
    assert_eq!(join_translations(&vec!["sun".to_string()]), "sun");
    assert_eq!(join_translations(&vec![]), "");
}

#[test]
fn lines_stack_words_over_translations() {
    let sel = vec![
        ("perro".to_string(), vec!["dog".to_string(), "hound".to_string()]),
        ("sol".to_string(), vec![]),
    ];
    let lines = display_lines(&sel);
    assert_eq!(lines.len(), 4);
    assert_eq!((lines[0].text.as_str(), lines[0].x, lines[0].y, lines[0].bold), ("perro", 0, 0, true));
    assert_eq!((lines[1].text.as_str(), lines[1].x, lines[1].y, lines[1].bold), ("dog, hound", 0, 19, false));
    assert_eq!((lines[2].text.as_str(), lines[2].y, lines[2].bold), ("sol", 31, true));
    assert_eq!((lines[3].text.as_str(), lines[3].y, lines[3].bold), ("", 50, false));
}

#[test]
fn bearer_prefixes_token() {
    assert_eq!(bearer_credential("abc.def"), "Bearer abc.def");
}
