use talklike::model::ChainModel;
use talklike::persist::{
    absorb, export, import, load, load_named, save, save_each, UserRecord, LoadIssue,
};
use talklike::record::{from_record, to_record, Fault, ModelRecord};
use talklike::store::ChainStore;

fn word(w: &str) -> Option<String> {
    Some(w.to_string())
}

fn sample_store() -> ChainStore {
    let mut store = ChainStore::new(1);
    store.learn(7, "the cat sat on the mat");
    store.learn(7, "the cat ran");
    store.learn(99, "hello there \"quoted\" back\\slash caf\u{e9}");
    store.clear(1000);
    store
}

fn same_chain(a: &ChainModel, b: &ChainModel) {
    assert_eq!(a.order(), b.order());
    assert_eq!(a.len(), b.len());
    assert_eq!(a.total_weight(), b.total_weight());
    for i in 0..a.len() {
        let entry = a.entry(i);
        let other = b.row(entry.prefix()).expect("row");
        assert_eq!(entry.len(), other.len());
        for k in 0..entry.len() {
            assert_eq!(other.count(entry.next_at(k)), entry.count_at(k));
        }
    }
}

fn same_store(a: &ChainStore, b: &ChainStore) {
    assert_eq!(a.order(), b.order());
    let mut users = a.users();
    users.sort();
    let mut others = b.users();
    others.sort();
    assert_eq!(users, others);
    for user in users {
        same_chain(a.get(user).unwrap(), b.get(user).unwrap());
    }
}

#[test]
fn a_record_holds_order_rows_and_counts() {
    let mut model = ChainModel::new(1);
    model.train(&vec!["a".to_string(), "b".to_string(), "a".to_string()]);
    let record = to_record(&model);
    let expected: ModelRecord = (
        1,
        vec![
            (vec![None], vec![(word("a"), 1)]),
            (vec![word("a")], vec![(word("b"), 1), (None, 1)]),
            (vec![word("b")], vec![(word("a"), 1)]),
        ],
    );
    assert_eq!(record, expected);
}

#[test]
fn a_record_is_read_back_as_the_same_chain() {
    let mut model = ChainModel::new(2);
    model.train(&vec!["x".to_string(), "y".to_string(), "x".to_string(), "y".to_string()]);
    model.train(&vec!["x".to_string()]);
    let record = to_record(&model);
    let back = from_record(2, &record).unwrap();
    same_chain(&model, &back);
    assert_eq!(to_record(&back), record);
    let empty = ChainModel::new(3);
    let back = from_record(3, &to_record(&empty)).unwrap();
    assert!(back.is_empty());
    assert_eq!(back.order(), 3);
}

#[test]
fn a_record_of_another_order_is_not_taken() {
    let mut model = ChainModel::new(2);
    model.train(&vec!["x".to_string()]);
    let record = to_record(&model);
    assert_eq!(from_record(1, &record).err(), Some(Fault::WrongOrder));
    assert_eq!(from_record(3, &record).err(), Some(Fault::WrongOrder));
    assert!(from_record(2, &record).is_ok());
}

#[test]
fn a_malformed_record_is_not_taken() {
    let no_followers: ModelRecord = (1, vec![(vec![None], vec![])]);
    assert_eq!(from_record(1, &no_followers).err(), Some(Fault::Malformed));
    let zero_count: ModelRecord = (1, vec![(vec![None], vec![(word("a"), 0)])]);
    assert_eq!(from_record(1, &zero_count).err(), Some(Fault::Malformed));
    let later_zero: ModelRecord = (1, vec![(vec![None], vec![(word("a"), 1), (word("b"), 0)])]);
    assert_eq!(from_record(1, &later_zero).err(), Some(Fault::Malformed));
    let twice_next: ModelRecord = (1, vec![(vec![None], vec![(word("a"), 1), (word("a"), 2)])]);
    assert_eq!(from_record(1, &twice_next).err(), Some(Fault::Malformed));
    let twice_end: ModelRecord =
        (1, vec![(vec![None], vec![(None, 1), (word("a"), 2), (None, 1)])]);
    assert_eq!(from_record(1, &twice_end).err(), Some(Fault::Malformed));
    let twice_prefix: ModelRecord = (
        1,
        vec![(vec![word("a")], vec![(word("b"), 1)]), (vec![word("a")], vec![(word("c"), 1)])],
    );
    assert_eq!(from_record(1, &twice_prefix).err(), Some(Fault::Malformed));
    let short_prefix: ModelRecord = (2, vec![(vec![None], vec![(word("a"), 1)])]);
    assert_eq!(from_record(2, &short_prefix).err(), Some(Fault::Malformed));
    let long_prefix: ModelRecord = (1, vec![(vec![None, None], vec![(word("a"), 1)])]);
    assert_eq!(from_record(1, &long_prefix).err(), Some(Fault::Malformed));
}

#[test]
fn a_record_heavier_than_the_largest_weight_is_not_taken() {
    let in_one_row: ModelRecord =
        (1, vec![(vec![None], vec![(word("a"), u64::MAX), (word("b"), 1)])]);
    assert_eq!(from_record(1, &in_one_row).err(), Some(Fault::Malformed));
    let over_rows: ModelRecord = (
        1,
        vec![(vec![None], vec![(word("a"), u64::MAX)]), (vec![word("a")], vec![(None, 1)])],
    );
    assert_eq!(from_record(1, &over_rows).err(), Some(Fault::Malformed));
    let just_fits: ModelRecord = (
        1,
        vec![(vec![None], vec![(word("a"), u64::MAX - 1)]), (vec![word("a")], vec![(None, 1)])],
    );
    let model = from_record(1, &just_fits).unwrap();
    assert_eq!(model.total_weight(), u64::MAX);
}

#[test]
fn the_wrong_order_is_named_before_other_faults() {
    let both: ModelRecord = (2, vec![(vec![None], vec![])]);
    assert_eq!(from_record(1, &both).err(), Some(Fault::WrongOrder));
}

#[test]
fn export_shows_every_user_once() {
    let store = sample_store();
    let doc = export(&store);
    let mut users: Vec<u64> = doc.iter().map(|entry| entry.0).collect();
    users.sort();
    assert_eq!(users, vec![7, 99, 1000]);
    for (user, record) in &doc {
        assert_eq!(record, &to_record(store.get(*user).unwrap()));
    }
}

#[test]
fn import_of_export_gives_the_store_back() {
    let store = sample_store();
    let (back, issues) = import(1, &export(&store));
    assert!(issues.is_empty());
    same_store(&store, &back);
    assert!(back.get(1000).unwrap().is_empty());
    assert_eq!(back.get(7).unwrap().count(&vec![word("the")], &word("cat")), 2);
}

#[test]
fn load_of_save_gives_the_store_back() {
    let store = sample_store();
    let text = save(&store).unwrap();
    let (back, issues) = load(1, &vec![text]);
    assert!(issues.is_empty());
    same_store(&store, &back);
    assert_eq!(back.get(99).unwrap().count(&vec![word("there")], &word("\"quoted\"")), 1);
    assert_eq!(back.get(99).unwrap().count(&vec![word("back\\slash")], &word("caf\u{e9}")), 1);
    let empty = ChainStore::new(4);
    let (back, issues) = load(4, &vec![save(&empty).unwrap()]);
    assert!(issues.is_empty());
    assert_eq!(back.len(), 0);
    assert_eq!(back.order(), 4);
}

#[test]
fn the_saved_text_is_json() {
    let mut store = ChainStore::new(1);
    store.learn(42, "hi hi");
    assert_eq!(
        save(&store).unwrap(),
        "[[42,[1,[[[null],[[\"hi\",1]]],[[\"hi\"],[[\"hi\",1],[null,1]]]]]]]"
    );
    assert_eq!(save(&ChainStore::new(1)).unwrap(), "[]");
}

#[test]
fn json_written_by_hand_is_loaded() {
    let text = " [ [5, [2, [ [[null, null], [[\"a\", 3]]], [[null, \"a\"], [[null, 3]]] ]]] ] ";
    let (store, issues) = load(2, &vec![text.to_string()]);
    assert!(issues.is_empty());
    let model = store.get(5).unwrap();
    assert_eq!(model.total_weight(), 6);
    assert_eq!(model.count(&vec![None, None], &word("a")), 3);
    assert_eq!(model.count(&vec![None, word("a")], &None), 3);
}

#[test]
fn loading_from_nothing_gives_an_empty_store() {
    let (store, issues) = load(2, &vec![]);
    assert_eq!(store.len(), 0);
    assert_eq!(store.order(), 2);
    assert!(issues.is_empty());
    let (store, issues) = load_named(2, &vec![]);
    assert_eq!(store.len(), 0);
    assert!(issues.is_empty());
}

#[test]
fn a_corrupt_text_gives_an_empty_store_and_a_report() {
    let texts = [
        "",
        "not json",
        "{\"7\": 1}",
        "[[7,[1,[[[null],[[\"a\",1]]]]]]",
        "[[7,[1,[]]]] x",
        "[[-7,[1,[]]]]",
        "[[7,[1,[[[null],[[\"a\",1.5]]]]]]]",
    ];
    for text in texts {
        let (store, issues) = load(1, &vec![text.to_string()]);
        assert_eq!(store.len(), 0, "text {:?}", text);
        assert_eq!(issues, vec![LoadIssue::Unreadable { part: 0 }], "text {:?}", text);
    }
}

#[test]
fn a_corrupt_text_does_not_stop_the_loading_of_the_rest() {
    let mut first = ChainStore::new(1);
    first.learn(1, "one");
    let mut third = ChainStore::new(1);
    third.learn(3, "three");
    let parts = vec![save(&first).unwrap(), "garbage".to_string(), save(&third).unwrap()];
    let (store, issues) = load(1, &parts);
    assert_eq!(issues, vec![LoadIssue::Unreadable { part: 1 }]);
    let mut users = store.users();
    users.sort();
    assert_eq!(users, vec![1, 3]);
    assert_eq!(store.get(3).unwrap().count(&vec![None], &word("three")), 1);
}

#[test]
fn a_faulty_entry_is_left_out_and_reported() {
    let doc: Vec<UserRecord> = vec![
        (1, (1, vec![(vec![None], vec![(word("a"), 1)]), (vec![word("a")], vec![(None, 1)])])),
        (2, (2, vec![])),
        (3, (1, vec![(vec![None], vec![(word("a"), 0)])])),
        (1, (1, vec![])),
        (4, (1, vec![])),
    ];
    let (store, issues) = import(1, &doc);
    assert_eq!(
        issues,
        vec![
            LoadIssue::Rejected { part: 0, entry: 1, user: 2, fault: Fault::WrongOrder },
            LoadIssue::Rejected { part: 0, entry: 2, user: 3, fault: Fault::Malformed },
            LoadIssue::Rejected { part: 0, entry: 3, user: 1, fault: Fault::Duplicate },
        ]
    );
    let mut users = store.users();
    users.sort();
    assert_eq!(users, vec![1, 4]);
    assert_eq!(store.get(1).unwrap().total_weight(), 2);
    assert!(store.get(4).unwrap().is_empty());
}

#[test]
fn the_first_entry_of_a_user_wins_over_later_texts() {
    let mut early = ChainStore::new(1);
    early.learn(1, "early");
    let mut late = ChainStore::new(1);
    late.learn(1, "late");
    late.learn(2, "other");
    let (store, issues) = load(1, &vec![save(&early).unwrap(), save(&late).unwrap()]);
    assert_eq!(issues.len(), 1);
    assert!(matches!(
        issues[0],
        LoadIssue::Rejected { part: 1, entry: _, user: 1, fault: Fault::Duplicate }
    ));
    assert_eq!(store.get(1).unwrap().count(&vec![None], &word("early")), 1);
    assert_eq!(store.get(1).unwrap().count(&vec![None], &word("late")), 0);
    assert_eq!(store.get(2).unwrap().count(&vec![None], &word("other")), 1);
}

#[test]
fn absorb_adds_to_a_store_and_to_the_issues() {
    let mut store = ChainStore::new(1);
    store.learn(1, "kept");
    let mut issues = vec![LoadIssue::Unreadable { part: 0 }];
    let doc: Vec<UserRecord> = vec![(1, (1, vec![])), (2, (1, vec![])), (3, (1, vec![]))];
    absorb(&mut store, &doc, Some(2), 4, &mut issues);
    assert_eq!(
        issues,
        vec![
            LoadIssue::Unreadable { part: 0 },
            LoadIssue::Rejected { part: 4, entry: 0, user: 1, fault: Fault::Misfiled },
            LoadIssue::Rejected { part: 4, entry: 2, user: 3, fault: Fault::Misfiled },
        ]
    );
    assert_eq!(store.len(), 2);
    assert_eq!(store.get(1).unwrap().total_weight(), 2);
    assert!(store.get(2).unwrap().is_empty());
}

#[test]
fn each_user_is_saved_in_a_text_of_their_own() {
    let store = sample_store();
    let artifacts = save_each(&store);
    let mut users: Vec<u64> = artifacts.iter().map(|a| a.0).collect();
    users.sort();
    assert_eq!(users, vec![7, 99, 1000]);
    for (user, text) in &artifacts {
        let text = text.as_ref().ok().unwrap();
        let (one, issues) = load(1, &vec![text.clone()]);
        assert!(issues.is_empty());
        assert_eq!(one.users(), vec![*user]);
        same_chain(one.get(*user).unwrap(), store.get(*user).unwrap());
    }
    let cleared = artifacts.iter().find(|a| a.0 == 1000).unwrap();
    assert_eq!(cleared.1.as_ref().ok().unwrap(), "[[1000,[1,[]]]]");
}

#[test]
fn named_texts_are_loaded_for_the_users_they_name() {
    let store = sample_store();
    let files: Vec<(String, String)> = save_each(&store)
        .into_iter()
        .map(|(user, text)| (talklike::numeral::artifact_name(user), text.ok().unwrap()))
        .collect();
    let (back, issues) = load_named(1, &files);
    assert!(issues.is_empty());
    same_store(&store, &back);
}

#[test]
fn named_texts_with_faults_are_reported() {
    let mut seven = ChainStore::new(1);
    seven.learn(7, "seven");
    let seven = save(&seven).unwrap();
    let files = vec![
        ("notes.chain".to_string(), seven.clone()),
        ("8.chain".to_string(), seven.clone()),
        ("7.chain".to_string(), "][".to_string()),
        ("007.chain".to_string(), seven.clone()),
        ("7.chain".to_string(), seven.clone()),
        ("7".to_string(), seven.clone()),
    ];
    let (store, issues) = load_named(1, &files);
    assert_eq!(
        issues,
        vec![
            LoadIssue::Misnamed { part: 0 },
            LoadIssue::Rejected { part: 1, entry: 0, user: 7, fault: Fault::Misfiled },
            LoadIssue::Ownerless { part: 1 },
            LoadIssue::Unreadable { part: 2 },
            LoadIssue::Rejected { part: 4, entry: 0, user: 7, fault: Fault::Duplicate },
            LoadIssue::Rejected { part: 5, entry: 0, user: 7, fault: Fault::Duplicate },
        ]
    );
    assert_eq!(store.users(), vec![7]);
    assert_eq!(store.get(7).unwrap().count(&vec![None], &word("seven")), 1);
}

#[test]
fn a_named_text_without_an_entry_of_its_owner_is_reported() {
    let mut others = ChainStore::new(1);
    others.learn(8, "eight");
    others.learn(9, "nine");
    let others = save(&others).unwrap();
    let files = vec![
        ("7.chain".to_string(), "[]".to_string()),
        ("8.chain".to_string(), others.clone()),
        ("10.chain".to_string(), others),
    ];
    let (store, issues) = load_named(1, &files);
    assert_eq!(issues.len(), 5);
    assert_eq!(issues[4], LoadIssue::Ownerless { part: 2 });
    assert_eq!(issues[0], LoadIssue::Ownerless { part: 0 });
    assert!(matches!(
        issues[1],
        LoadIssue::Rejected { part: 1, entry: _, user: 9, fault: Fault::Misfiled }
    ));
    assert!(matches!(issues[2], LoadIssue::Rejected { part: 2, fault: Fault::Misfiled, .. }));
    assert!(matches!(issues[3], LoadIssue::Rejected { part: 2, fault: Fault::Misfiled, .. }));
    assert_eq!(store.users(), vec![8]);
}

#[test]
fn an_empty_document_without_a_name_raises_no_issue() {
    let (store, issues) = load(1, &vec!["[]".to_string()]);
    assert_eq!(store.len(), 0);
    assert!(issues.is_empty());
}

#[test]
fn names_with_any_extension_are_loaded() {
    let mut seven = ChainStore::new(1);
    seven.learn(7, "seven");
    let mut eight = ChainStore::new(1);
    eight.learn(8, "eight");
    let files = vec![
        ("7".to_string(), save(&seven).unwrap()),
        ("8.bak".to_string(), save(&eight).unwrap()),
    ];
    let (store, issues) = load_named(1, &files);
    assert!(issues.is_empty());
    let mut users = store.users();
    users.sort();
    assert_eq!(users, vec![7, 8]);
}
