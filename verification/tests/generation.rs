use talklike::model::ChainModel;
use talklike::sample::{
    fits, generate, generate_accepted, generate_tokens, replay, select, step, Replay,
    SystemVariates, VariateSource,
};
use talklike::token::tokenize;

fn words(items: &[&str]) -> Vec<String> {
    items.iter().map(|w| w.to_string()).collect()
}

fn word(w: &str) -> Option<String> {
    Some(w.to_string())
}

fn fixture() -> ChainModel {
    let mut model = ChainModel::new(1);
    model.train(&words(&["the", "cat", "sat", "on", "the", "mat"]));
    model
}

#[test]
fn golden_text_of_the_first_option() {
    let model = fixture();
    let mut rng = Replay::new(vec![0]);
    assert_eq!(generate(&model, &mut rng, 10), "the cat sat on the cat sat on the cat");
    assert_eq!(generate(&model, &mut rng, 10), "the cat sat on the cat sat on the cat");
    assert_eq!(generate(&model, &mut rng, 3), "the cat sat");
}

#[test]
fn golden_text_of_the_second_option() {
    let model = fixture();
    let mut rng = Replay::new(vec![1]);
    assert_eq!(generate(&model, &mut rng, 10), "the mat");
}

#[test]
fn golden_text_of_a_fixed_sequence() {
    let model = fixture();
    let mut rng = Replay::new(vec![0, 0, 0, 0, 0, 1, 0]);
    assert_eq!(generate(&model, &mut rng, 50), "the cat sat on the mat");
    let whole = words(&["the", "cat", "sat", "on", "the", "mat"]);
    assert_eq!(replay(&model, &vec![0, 0, 0, 0, 0, 1, 0]), whole);
    assert_eq!(replay(&model, &vec![0, 0, 0, 0, 0, 1]), whole);
    assert_eq!(replay(&model, &vec![0, 3, 0]), words(&["the", "mat"]));
    assert_eq!(replay(&model, &vec![5, 2]), words(&["the", "cat"]));
    assert!(replay(&model, &vec![]).is_empty());
}

#[test]
fn generation_stops_at_the_bound_on_a_cycle() {
    let mut model = ChainModel::new(1);
    model.train(&tokenize("a b a b a b"));
    let mut always_first = Replay::new(vec![0]);
    let tokens = generate_tokens(&model, &mut always_first, 25);
    assert_eq!(tokens.len(), 25);
    for (i, token) in tokens.iter().enumerate() {
        assert_eq!(token, if i % 2 == 0 { "a" } else { "b" });
    }
    let mut rng = SystemVariates::new();
    for bound in [0usize, 1, 2, 7, 40] {
        for _ in 0..50 {
            let tokens = generate_tokens(&model, &mut rng, bound);
            assert!(tokens.len() <= bound);
            let text = generate(&model, &mut rng, bound);
            assert!(tokenize(&text).len() <= bound);
        }
    }
}

#[test]
fn generation_draws_one_variate_for_each_step() {
    let model = fixture();
    let mut rng = Replay::new(vec![0]);
    assert_eq!(generate_tokens(&model, &mut rng, 4).len(), 4);
    assert_eq!(rng.draws(), 4);
    let mut rng = Replay::new(vec![1]);
    assert_eq!(generate(&model, &mut rng, 100), "the mat");
    assert_eq!(rng.draws(), 3);
    let mut rng = Replay::new(vec![9]);
    assert_eq!(generate(&model, &mut rng, 0), "");
    assert_eq!(rng.draws(), 0);
}

#[test]
fn generation_from_an_empty_chain_is_empty() {
    let model = ChainModel::new(2);
    let mut rng = Replay::new(vec![3, 1, 4]);
    assert_eq!(generate(&model, &mut rng, 10), "");
    assert!(generate_tokens(&model, &mut rng, 10).is_empty());
    assert!(replay(&model, &vec![1, 2, 3]).is_empty());
    let mut rng = Replay::new(vec![0]);
    assert_eq!(generate(&model, &mut rng, 10), "");
    assert_eq!(rng.draws(), 0);
}

#[test]
fn generation_ends_behind_a_prefix_without_a_row() {
    let record = (
        1u64,
        vec![(vec![None], vec![(word("a"), 1)]), (vec![word("a")], vec![(word("b"), 1)])],
    );
    let model = talklike::record::from_record(1, &record).unwrap();
    let mut rng = Replay::new(vec![7]);
    assert_eq!(generate(&model, &mut rng, 10), "a b");
    assert_eq!(rng.draws(), 2);
    assert_eq!(replay(&model, &vec![7, 7, 7, 7]), words(&["a", "b"]));
}

#[test]
fn an_unknown_prefix_ends_the_walk() {
    let model = fixture();
    assert_eq!(step(&model, &vec![word("dog")], 0), None);
    assert_eq!(step(&model, &vec![word("the"), word("cat")], 0), None);
    assert_eq!(step(&model, &vec![word("mat")], 0), None);
    assert_eq!(step(&model, &vec![None], 12345), Some(&"the".to_string()));
}

#[test]
fn draws_choose_in_proportion_to_the_counts() {
    let mut model = ChainModel::new(1);
    model.train(&words(&["a", "b"]));
    model.train(&words(&["a", "b"]));
    model.train(&words(&["a", "c"]));
    let a = vec![word("a")];
    assert_eq!(step(&model, &a, 0), Some(&"b".to_string()));
    assert_eq!(step(&model, &a, 1), Some(&"b".to_string()));
    assert_eq!(step(&model, &a, 2), Some(&"c".to_string()));
    assert_eq!(step(&model, &a, 3), Some(&"b".to_string()));
    assert_eq!(step(&model, &a, 5), Some(&"c".to_string()));
    assert_eq!(step(&model, &a, u64::MAX), Some(&"b".to_string()));
    let entry = model.row(&a).unwrap();
    assert_eq!(select(entry, 4), Some(&"b".to_string()));
    assert_eq!(select(entry, 8), Some(&"c".to_string()));
    assert_eq!(entry.pick(0), Some(&"b".to_string()));
    assert_eq!(entry.pick(2), Some(&"c".to_string()));
    assert_eq!(entry.pick(3), None);
    let mut seen_b = 0;
    for v in 0..300u64 {
        if step(&model, &a, v) == Some(&"b".to_string()) {
            seen_b += 1;
        }
    }
    assert_eq!(seen_b, 200);
}

#[test]
fn order_two_generation_follows_both_symbols() {
    let mut model = ChainModel::new(2);
    model.train(&words(&["a", "b", "c"]));
    model.train(&words(&["x", "b", "d"]));
    let mut first = Replay::new(vec![0]);
    assert_eq!(generate(&model, &mut first, 10), "a b c");
    let mut second = Replay::new(vec![1, 0, 0, 0]);
    assert_eq!(generate(&model, &mut second, 10), "x b d");
}

#[test]
fn replay_hands_out_its_list_over_and_over() {
    let mut source = Replay::new(vec![4, 5, 6]);
    let drawn: Vec<u64> = (0..7).map(|_| source.next()).collect();
    assert_eq!(drawn, vec![4, 5, 6, 4, 5, 6, 4]);
    let mut empty = Replay::new(vec![]);
    assert_eq!(empty.next(), 0);
    assert_eq!(empty.draw(), 0);
}

#[test]
fn replay_draws_what_next_hands_out() {
    let mut source = Replay::new(vec![7, 8]);
    assert_eq!(source.draw(), 7);
    assert_eq!(source.next(), 8);
    assert_eq!(source.draw(), 7);
    assert_eq!(source.draw(), 8);
    assert_eq!(source.draw(), 7);
}

#[test]
fn system_variates_differ() {
    let mut rng = SystemVariates::new();
    let first = rng.draw();
    let mut differs = false;
    for _ in 0..64 {
        if rng.draw() != first {
            differs = true;
        }
    }
    assert!(differs);
}

#[test]
fn fits_wants_a_character_and_fewer_than_the_limit() {
    assert!(!fits("", 2000));
    assert!(fits("a", 2000));
    assert!(fits(&"x".repeat(1999), 2000));
    assert!(!fits(&"x".repeat(2000), 2000));
    assert!(!fits(&"x".repeat(2001), 2000));
    assert!(!fits("a", 1));
    assert!(!fits("a", 0));
    assert!(fits("a", 2));
}

#[test]
fn fits_counts_characters_not_bytes() {
    let text = "\u{e9}".repeat(1500);
    assert_eq!(text.len(), 3000);
    assert!(fits(&text, 2000));
    assert!(!fits(&text, 1500));
    assert!(fits(&text, 1501));
}

#[test]
fn the_first_accepted_text_is_returned() {
    let model = fixture();
    let mut rng = Replay::new(vec![0, 0, 0, 0, 1, 0]);
    let outcome = generate_accepted(&model, &mut rng, 3, 5, |text: &str| text.ends_with("mat"));
    assert_eq!(outcome.ok(), Some("the mat".to_string()));
    assert_eq!(rng.draws(), 6);
    assert_eq!(rng.next(), 0);
    assert_eq!(rng.next(), 0);
    assert_eq!(rng.next(), 0);
    assert_eq!(rng.next(), 0);
    assert_eq!(rng.next(), 1);
    let mut rng = Replay::new(vec![0]);
    let outcome = generate_accepted(&model, &mut rng, 4, 5, |text: &str| fits(text, 2000));
    assert_eq!(outcome.ok(), Some("the cat sat on".to_string()));
}

#[test]
fn rejection_comes_after_all_attempts() {
    let model = fixture();
    let mut rng = Replay::new(vec![1]);
    let outcome = generate_accepted(&model, &mut rng, 10, 7, |_text: &str| false);
    match outcome {
        Ok(text) => panic!("accepted {:?}", text),
        Err(rejected) => assert_eq!(rejected.attempts, 7),
    }
    assert_eq!(rng.draws(), 21);
}

#[test]
fn no_attempt_means_rejection() {
    let model = fixture();
    let mut rng = Replay::new(vec![0]);
    let outcome = generate_accepted(&model, &mut rng, 10, 0, |_text: &str| true);
    assert!(outcome.is_err());
    assert_eq!(rng.draws(), 0);
}

#[test]
fn too_long_texts_are_rejected() {
    let mut model = ChainModel::new(1);
    model.train(&tokenize("a b a b"));
    let mut rng = Replay::new(vec![0]);
    let outcome = generate_accepted(&model, &mut rng, 100, 3, |text: &str| fits(text, 20));
    assert!(outcome.is_err());
    let outcome = generate_accepted(&model, &mut rng, 10, 3, |text: &str| fits(text, 20));
    assert_eq!(outcome.ok(), Some("a b a b a b a b a b".to_string()));
}

#[test]
fn a_replay_counts_its_draws() {
    let mut source = Replay::new(vec![1, 2, 3]);
    assert_eq!(source.draws(), 0);
    source.draw();
    source.next();
    assert_eq!(source.draws(), 2);
    let mut empty = Replay::new(vec![]);
    empty.draw();
    assert_eq!(empty.draws(), 1);
}

#[test]
fn no_text_is_generated_after_the_accepted_one() {
    let model = fixture();
    let mut rng = Replay::new(vec![1]);
    let outcome = generate_accepted(&model, &mut rng, 10, 5, |text: &str| text == "the mat");
    assert_eq!(outcome.ok(), Some("the mat".to_string()));
    assert_eq!(rng.draws(), 3);
    let mut rng = Replay::new(vec![0, 0, 0, 0, 0, 0, 0, 1, 0]);
    let outcome = generate_accepted(&model, &mut rng, 3, 5, |text: &str| text == "the mat");
    assert_eq!(outcome.ok(), Some("the mat".to_string()));
    assert_eq!(rng.draws(), 9);
}
