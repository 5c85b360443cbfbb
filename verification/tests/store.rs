use talklike::store::ChainStore;

fn word(w: &str) -> Option<String> {
    Some(w.to_string())
}

#[test]
fn a_new_store_has_no_chains() {
    let store = ChainStore::new(2);
    assert_eq!(store.order(), 2);
    assert_eq!(store.len(), 0);
    assert!(store.get(1).is_none());
    assert!(!store.contains(1));
    assert!(store.users().is_empty());
}

#[test]
fn get_or_create_makes_an_empty_chain_of_the_stores_order() {
    let mut store = ChainStore::new(2);
    {
        let handle = store.get_or_create(42);
        assert!(handle.is_empty());
        assert_eq!(handle.order(), 2);
    }
    assert!(store.contains(42));
    assert_eq!(store.len(), 1);
    let model = store.get(42).unwrap();
    assert!(model.is_empty());
    assert_eq!(model.order(), 2);
}

#[test]
fn get_or_create_hands_out_the_chain_that_is_there() {
    let mut store = ChainStore::new(1);
    store.get_or_create(42).train(&vec!["hi".to_string(), "there".to_string()]);
    let handle = store.get_or_create(42);
    assert_eq!(handle.total_weight(), 3);
    handle.train(&vec!["hi".to_string()]);
    assert_eq!(store.get(42).unwrap().count(&vec![None], &word("hi")), 2);
    assert_eq!(store.len(), 1);
}

#[test]
fn get_tells_no_chain_from_an_empty_chain() {
    let mut store = ChainStore::new(1);
    assert!(store.get(5).is_none());
    store.get_or_create(5);
    assert!(store.get(5).is_some());
    assert!(store.get(5).unwrap().is_empty());
    assert!(store.get(6).is_none());
}

#[test]
fn learn_trains_the_chain_of_the_user() {
    let mut store = ChainStore::new(1);
    assert!(store.learn(1, "the cat sat"));
    assert!(store.learn(2, "the dog"));
    assert!(store.learn(1, "the cat ran"));
    let one = store.get(1).unwrap();
    assert_eq!(one.count(&vec![word("the")], &word("cat")), 2);
    assert_eq!(one.count(&vec![word("cat")], &word("sat")), 1);
    assert_eq!(one.count(&vec![word("cat")], &word("ran")), 1);
    assert_eq!(one.count(&vec![word("the")], &word("dog")), 0);
    assert_eq!(one.total_weight(), 8);
    let two = store.get(2).unwrap();
    assert_eq!(two.count(&vec![word("the")], &word("dog")), 1);
    assert_eq!(two.total_weight(), 3);
}

#[test]
fn learn_from_blank_text_creates_an_empty_chain() {
    let mut store = ChainStore::new(1);
    assert!(store.learn(3, "   "));
    assert!(store.get(3).unwrap().is_empty());
}

#[test]
fn clear_empties_one_chain_and_keeps_it() {
    let mut store = ChainStore::new(2);
    store.learn(1, "one two three");
    store.learn(2, "four five six");
    store.clear(1);
    let cleared = store.get(1).unwrap();
    assert!(cleared.is_empty());
    assert_eq!(cleared.order(), 2);
    assert_eq!(cleared.total_weight(), 0);
    assert_eq!(store.get(2).unwrap().total_weight(), 4);
    assert_eq!(store.get(2).unwrap().count(&vec![None, None], &word("four")), 1);
    assert_eq!(store.len(), 2);
}

#[test]
fn clear_of_an_unknown_user_creates_an_empty_chain() {
    let mut store = ChainStore::new(1);
    store.clear(9);
    assert!(store.contains(9));
    assert!(store.get(9).unwrap().is_empty());
}

#[test]
fn users_lists_each_user_once() {
    let mut store = ChainStore::new(1);
    store.learn(30, "a");
    store.learn(10, "b");
    store.learn(20, "c");
    store.learn(10, "d");
    let mut users = store.users();
    users.sort();
    assert_eq!(users, vec![10, 20, 30]);
}

#[test]
fn put_replaces_a_chain() {
    let mut store = ChainStore::new(1);
    store.learn(1, "old words");
    let mut model = talklike::model::ChainModel::new(1);
    model.train(&vec!["new".to_string()]);
    store.put(1, model);
    assert_eq!(store.get(1).unwrap().total_weight(), 2);
    assert_eq!(store.get(1).unwrap().count(&vec![None], &word("new")), 1);
}
