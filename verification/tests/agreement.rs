use std::collections::HashMap;

use lmarkov::Chain;
use talklike::model::ChainModel;
use talklike::sample::{generate, SystemVariates};
use talklike::token::tokenize;

type Counts = HashMap<(Vec<Option<String>>, Option<String>), u64>;

/// The transitions of an `lmarkov` chain, read from its JSON form: the keys
/// are prefixes with a line feed for the sentinel, the values the words
/// that followed, each as often as it was seen.
fn counts_of(chain: &Chain) -> Counts {
    let json = chain.to_json().unwrap();
    let value: serde_json::Value = serde_json::from_str(&json).unwrap();
    let mut counts = Counts::new();
    for (key, nexts) in value["map"].as_object().unwrap() {
        let prefix: Vec<Option<String>> = key
            .split(' ')
            .map(|w| if w == "\n" { None } else { Some(w.to_string()) })
            .collect();
        for next in nexts.as_array().unwrap() {
            let next = next.as_str().map(|w| w.to_string());
            *counts.entry((prefix.clone(), next)).or_insert(0) += 1;
        }
    }
    counts
}

fn counts_of_model(model: &ChainModel) -> Counts {
    let mut counts = Counts::new();
    for i in 0..model.len() {
        let entry = model.entry(i);
        for k in 0..entry.len() {
            counts.insert((entry.prefix().clone(), entry.next_at(k).clone()), entry.count_at(k));
        }
    }
    counts
}

const TEXTS: [&str; 6] = [
    "Hello there! I like cheese.",
    "Hello there! The day is very nice, like a good knive.",
    "a b a b a b",
    "one",
    "  spaced\tout \n words  and words and words ",
    "the cat sat on the mat the cat ran",
];

#[test]
fn training_counts_what_lmarkov_counts() {
    for order in 1..4usize {
        let mut theirs = Chain::new(order);
        let mut ours = ChainModel::new(order);
        for text in TEXTS {
            theirs.train(text);
            assert!(ours.train(&tokenize(text)));
            let expected = counts_of(&theirs);
            assert_eq!(counts_of_model(&ours), expected, "order {} after {:?}", order, text);
            assert_eq!(ours.total_weight(), expected.values().sum::<u64>());
        }
    }
}

#[test]
fn generation_without_a_choice_gives_what_lmarkov_gives() {
    for order in 1..3usize {
        for text in ["the quick brown fox", "solo", "jumps over a lazy dog ."] {
            let mut theirs = Chain::new(order);
            let mut ours = ChainModel::new(order);
            theirs.train(text);
            ours.train(&tokenize(text));
            let mut rng = SystemVariates::new();
            for _ in 0..5 {
                assert_eq!(Some(generate(&ours, &mut rng, 100)), theirs.generate());
            }
        }
    }
}
