//! Saving a store and loading it back.
//!
//! A store is saved as a document: a list of entries, each a user and the
//! record of the user's chain. The text of a document is JSON. A store is
//! loaded from any number of such texts, so that one text may hold all
//! users or each user may have a text of their own; what cannot be read is
//! left out and reported, and the rest is loaded.

use crate::numeral::{artifact_user, file_owner};
use crate::record::{fault_of, from_record, noted_table, to_record, Fault, ModelNote, ModelRecord};
use crate::store::ChainStore;
use crate::table::Table;
use vstd::prelude::*;

verus! {

/// One entry of a document: a user and the record of the user's chain.
pub type UserRecord = (u64, ModelRecord);

/// What an entry says.
pub type UserNote = (u64, ModelNote);

/// What went wrong while loading, and where. The rest was loaded all the
/// same.
#[derive(Clone, Copy, Debug, PartialEq, Eq, Structural)]
pub enum LoadIssue {
    /// The name of the text at position `part` is of no user's file.
    Misnamed { part: usize },
    /// The text at position `part` is no document.
    Unreadable { part: usize },
    /// The document at position `part` holds no entry of the user that its
    /// name names.
    Ownerless { part: usize },
    /// The entry at position `entry` of the document at position `part` was
    /// not taken.
    Rejected { part: usize, entry: usize, user: u64, fault: Fault },
}

/// The text of a document could not be written.
#[derive(Clone, Copy, Debug, PartialEq, Eq, Structural)]
pub struct EncodeError;

/// The error type of the JSON library.
#[verifier::external_type_specification]
#[verifier::external_body]
pub struct ExJsonError(serde_json::Error);

/// The JSON text that `serde_json::to_string` gives for a document, or
/// `None` where it gives an error.
pub uninterp spec fn json_text(doc: Seq<UserNote>) -> Option<Seq<char>>;

/// The document that `serde_json::from_str` reads from a text, or `None`
/// where it gives an error.
pub uninterp spec fn json_document(text: Seq<char>) -> Option<Seq<UserNote>>;

/// Calls `serde_json::to_string` on a document. The contract gives the
/// outcome its name, `json_text`, and claims nothing else of it.
#[verifier::external_body]
fn encode_document(doc: &Vec<UserRecord>) -> (outcome: Result<String, serde_json::Error>)
    ensures
        match outcome {
            Ok(text) => json_text(doc.deep_view()) == Some(text@),
            Err(_) => json_text(doc.deep_view()) is None,
        },
{
    serde_json::to_string(doc)
}

/// Calls `serde_json::from_str` on a text, for a document. The contract
/// gives the outcome its name, `json_document`, and claims nothing else of
/// it.
#[verifier::external_body]
fn decode_document(text: &str) -> (outcome: Result<Vec<UserRecord>, serde_json::Error>)
    ensures
        match outcome {
            Ok(doc) => json_document(text@) == Some(doc.deep_view()),
            Err(_) => json_document(text@) is None,
        },
{
    serde_json::from_str(text)
}

/// Whether a document shows the chains of a store: every entry is the table
/// of its user, no user has two entries, and every user has one.
pub open spec fn depicts(doc: Seq<UserNote>, chains: Map<u64, Table>) -> bool {
    &&& forall|i: int|
        0 <= i < doc.len() ==> chains.contains_key((#[trigger] doc[i]).0) && noted_table(doc[i].1)
            == chains[doc[i].0]
    &&& forall|i: int, j: int|
        0 <= i < j < doc.len() ==> (#[trigger] doc[i]).0 != (#[trigger] doc[j]).0
    &&& forall|user: u64| #[trigger]
        chains.contains_key(user) ==> exists|i: int|
            0 <= i < doc.len() && (#[trigger] doc[i]).0 == user
}

/// Why an entry is not taken into chains of the given order, if it is not:
/// its record has a fault, or its text is named for another user, or its
/// user has a chain already. A text without a name has no `owner`.
pub open spec fn entry_fault(
    order: nat,
    have: Map<u64, Table>,
    owner: Option<u64>,
    entry: UserNote,
) -> Option<Fault> {
    match fault_of(order, entry.1) {
        Some(fault) => Some(fault),
        None => if owner is Some && owner != Some(entry.0) {
            Some(Fault::Misfiled)
        } else if have.contains_key(entry.0) {
            Some(Fault::Duplicate)
        } else {
            None
        },
    }
}

/// The chains after a document has been taken in, entry by entry: an entry
/// without fault adds the table of its user, any other changes nothing.
pub open spec fn absorbed(
    order: nat,
    have: Map<u64, Table>,
    owner: Option<u64>,
    doc: Seq<UserNote>,
) -> Map<u64, Table>
    decreases doc.len(),
{
    if doc.len() == 0 {
        have
    } else {
        let before = absorbed(order, have, owner, doc.drop_last());
        let entry = doc.last();
        if entry_fault(order, before, owner, entry) is None {
            before.insert(entry.0, noted_table(entry.1))
        } else {
            before
        }
    }
}

/// The issues that taking in a document raises: one for each entry with a
/// fault, in the order of the entries.
pub open spec fn complaints(
    order: nat,
    have: Map<u64, Table>,
    owner: Option<u64>,
    doc: Seq<UserNote>,
    part: usize,
) -> Seq<LoadIssue>
    decreases doc.len(),
{
    if doc.len() == 0 {
        Seq::empty()
    } else {
        let earlier = complaints(order, have, owner, doc.drop_last(), part);
        let before = absorbed(order, have, owner, doc.drop_last());
        let entry = doc.last();
        match entry_fault(order, before, owner, entry) {
            None => earlier,
            Some(fault) => earlier.push(
                LoadIssue::Rejected {
                    part,
                    entry: (doc.len() - 1) as usize,
                    user: entry.0,
                    fault,
                },
            ),
        }
    }
}

/// The chains that are loaded from texts, one after the other: a text that
/// is a document is taken in, any other changes nothing.
pub open spec fn loaded(order: nat, parts: Seq<Seq<char>>) -> Map<u64, Table>
    decreases parts.len(),
{
    if parts.len() == 0 {
        Map::empty()
    } else {
        let before = loaded(order, parts.drop_last());
        match json_document(parts.last()) {
            None => before,
            Some(doc) => absorbed(order, before, None, doc),
        }
    }
}

/// The issues that loading from texts raises, in the order of the texts.
pub open spec fn load_issues(order: nat, parts: Seq<Seq<char>>) -> Seq<LoadIssue>
    decreases parts.len(),
{
    if parts.len() == 0 {
        Seq::empty()
    } else {
        let earlier = load_issues(order, parts.drop_last());
        let before = loaded(order, parts.drop_last());
        let part = (parts.len() - 1) as usize;
        match json_document(parts.last()) {
            None => earlier.push(LoadIssue::Unreadable { part }),
            Some(doc) => earlier + complaints(order, before, None, doc, part),
        }
    }
}

/// Whether a document holds an entry of the user.
pub open spec fn holds_entry_of(doc: Seq<UserNote>, user: u64) -> bool {
    exists|i: int| 0 <= i < doc.len() && (#[trigger] doc[i]).0 == user
}

/// The issue that a named document raises as a whole: it is ownerless where
/// it holds no entry of the user that its name names.
pub open spec fn want_of_owner(doc: Seq<UserNote>, user: u64, part: usize) -> Seq<LoadIssue> {
    if holds_entry_of(doc, user) {
        Seq::empty()
    } else {
        seq![LoadIssue::Ownerless { part }]
    }
}

/// The chains that are loaded from named texts, one after the other: each
/// is a pair of a name and a text. A text whose name is that of a user's
/// file and that is a document is taken in for that user, any other changes
/// nothing.
pub open spec fn loaded_named(order: nat, files: Seq<(Seq<char>, Seq<char>)>) -> Map<u64, Table>
    decreases files.len(),
{
    if files.len() == 0 {
        Map::empty()
    } else {
        let before = loaded_named(order, files.drop_last());
        match (file_owner(files.last().0), json_document(files.last().1)) {
            (Some(user), Some(doc)) => absorbed(order, before, Some(user), doc),
            _ => before,
        }
    }
}

/// The issues that loading from named texts raises, in the order of the
/// texts: for each document the issues of its entries, and then the issue
/// of the document as a whole.
pub open spec fn load_named_issues(
    order: nat,
    files: Seq<(Seq<char>, Seq<char>)>,
) -> Seq<LoadIssue>
    decreases files.len(),
{
    if files.len() == 0 {
        Seq::empty()
    } else {
        let earlier = load_named_issues(order, files.drop_last());
        let before = loaded_named(order, files.drop_last());
        let part = (files.len() - 1) as usize;
        match file_owner(files.last().0) {
            None => earlier.push(LoadIssue::Misnamed { part }),
            Some(user) => match json_document(files.last().1) {
                None => earlier.push(LoadIssue::Unreadable { part }),
                Some(doc) => earlier + complaints(order, before, Some(user), doc, part)
                    + want_of_owner(doc, user, part),
            },
        }
    }
}

/// Writes a store down as a document. The entries come in no particular
/// order.
pub fn export(store: &ChainStore) -> (doc: Vec<UserRecord>)
    requires
        store.wf(),
    ensures
        depicts(doc.deep_view(), store@),
{
    let users = store.users();
    let mut doc: Vec<UserRecord> = Vec::new();
    let mut i: usize = 0;
    while i < users.len()
        invariant
            i <= users.len(),
            store.wf(),
            users@.no_duplicates(),
            users@.to_set() == store@.dom(),
            doc.len() == i,
            forall|j: int|
                0 <= j < i ==> (#[trigger] doc@[j]).0 == users@[j] && noted_table(
                    doc@[j].1.deep_view(),
                ) == store@[users@[j]],
        decreases users.len() - i,
    {
        let user: u64 = users[i];
        let model = store.get(user).unwrap();
        doc.push((user, to_record(model)));
        i += 1;
    }
    proof {
        let note = doc.deep_view();
        assert forall|user: u64| #[trigger] store@.contains_key(user) implies exists|j: int|
            0 <= j < note.len() && (#[trigger] note[j]).0 == user by {
            let j = choose|j: int| 0 <= j < users@.len() && users@[j] == user;
            assert(note[j] == doc@[j].deep_view());
        }
    }
    doc
}

/// Takes a document into a store, entry by entry. An entry whose record has
/// a fault, or that is of another user than `owner` where there is one, or
/// whose user has a chain already, is left out and reported in `issues`,
/// under the position `part` of its document.
pub fn absorb(
    store: &mut ChainStore,
    doc: &Vec<UserRecord>,
    owner: Option<u64>,
    part: usize,
    issues: &mut Vec<LoadIssue>,
)
    requires
        old(store).wf(),
    ensures
        final(store).wf(),
        final(store).chain_order() == old(store).chain_order(),
        final(store)@ == absorbed(old(store).chain_order(), old(store)@, owner, doc.deep_view()),
        final(issues)@ == old(issues)@ + complaints(
            old(store).chain_order(),
            old(store)@,
            owner,
            doc.deep_view(),
            part,
        ),
{
    let ghost order = store.chain_order();
    let ghost start = store@;
    let ghost note = doc.deep_view();
    let ghost reported = issues@;
    let mut i: usize = 0;
    while i < doc.len()
        invariant
            i <= doc.len(),
            note == doc.deep_view(),
            store.wf(),
            store.chain_order() == order,
            store@ == absorbed(order, start, owner, note.take(i as int)),
            issues@ == reported + complaints(order, start, owner, note.take(i as int), part),
        decreases doc.len() - i,
    {
        let entry = &doc[i];
        let user: u64 = entry.0;
        proof {
            let upto = note.take(i as int + 1);
            assert(upto.drop_last() =~= note.take(i as int));
        }
        let ghost earlier = complaints(order, start, owner, note.take(i as int), part);
        match from_record(store.order(), &entry.1) {
            Err(fault) => {
                issues.push(LoadIssue::Rejected { part, entry: i, user, fault });
            },
            Ok(model) => {
                let misfiled = match owner {
                    Some(o) => o != user,
                    None => false,
                };
                if misfiled || store.contains(user) {
                    let fault = if misfiled {
                        Fault::Misfiled
                    } else {
                        Fault::Duplicate
                    };
                    issues.push(LoadIssue::Rejected { part, entry: i, user, fault });
                    proof {
                        let issue = LoadIssue::Rejected { part, entry: i, user, fault };
                        assert(reported + earlier.push(issue) =~= (reported + earlier).push(
                            issue,
                        ));
                    }
                } else {
                    store.put(user, model);
                }
            },
        }
        i += 1;
    }
    proof {
        assert(note.take(doc.len() as int) =~= note);
    }
}

/// Loads a store of the given order from one document.
pub fn import(order: usize, doc: &Vec<UserRecord>) -> (outcome: (ChainStore, Vec<LoadIssue>))
    ensures
        outcome.0.wf(),
        outcome.0.chain_order() == order,
        outcome.0@ == absorbed(order as nat, Map::empty(), None, doc.deep_view()),
        outcome.1@ == complaints(order as nat, Map::empty(), None, doc.deep_view(), 0),
{
    let mut store = ChainStore::new(order);
    let mut issues: Vec<LoadIssue> = Vec::new();
    absorb(&mut store, doc, None, 0, &mut issues);
    (store, issues)
}

/// Writes a store down as JSON text: the text that the JSON library gives
/// for a document of the store.
pub fn save(store: &ChainStore) -> (artifact: Result<String, EncodeError>)
    requires
        store.wf(),
    ensures
        exists|doc: Seq<UserNote>|
            #![trigger depicts(doc, store@)]
            depicts(doc, store@) && match artifact {
                Ok(text) => json_text(doc) == Some(text@),
                Err(_) => json_text(doc) is None,
            },
{
    let doc = export(store);
    let artifact = match encode_document(&doc) {
        Ok(text) => Ok(text),
        Err(_) => Err(EncodeError),
    };
    artifact
}

/// Loads a store of the given order from texts, one after the other.
///
/// No text at all gives an empty store. A text that is no document is
/// reported and changes nothing. Of a document, every entry is taken whose
/// record is sound and of the given order and whose user has no chain yet;
/// every other entry is reported and left out.
pub fn load(order: usize, parts: &Vec<String>) -> (outcome: (ChainStore, Vec<LoadIssue>))
    ensures
        outcome.0.wf(),
        outcome.0.chain_order() == order,
        outcome.0@ == loaded(order as nat, parts.deep_view()),
        outcome.1@ == load_issues(order as nat, parts.deep_view()),
{
    let ghost texts = parts.deep_view();
    let mut store = ChainStore::new(order);
    let mut issues: Vec<LoadIssue> = Vec::new();
    let mut p: usize = 0;
    while p < parts.len()
        invariant
            p <= parts.len(),
            texts == parts.deep_view(),
            store.wf(),
            store.chain_order() == order,
            store@ == loaded(order as nat, texts.take(p as int)),
            issues@ == load_issues(order as nat, texts.take(p as int)),
        decreases parts.len() - p,
    {
        proof {
            let upto = texts.take(p as int + 1);
            assert(upto.drop_last() =~= texts.take(p as int));
        }
        match decode_document(parts[p].as_str()) {
            Err(_) => {
                issues.push(LoadIssue::Unreadable { part: p });
            },
            Ok(doc) => {
                absorb(&mut store, &doc, None, p, &mut issues);
            },
        }
        p += 1;
    }
    proof {
        assert(texts.take(parts.len() as int) =~= texts);
    }
    (store, issues)
}

/// Whether a pair of a user and a text is what is written for that user of
/// the chains: the JSON text of a document that holds the entry of the user
/// and no other, or the report that the JSON library gave none.
pub open spec fn is_artifact_of(
    chains: Map<u64, Table>,
    artifact: (u64, Result<String, EncodeError>),
) -> bool {
    exists|note: ModelNote|
        {
            &&& chains.contains_key(artifact.0)
            &&& #[trigger] noted_table(note) == chains[artifact.0]
            &&& match artifact.1 {
                Ok(text) => json_text(seq![(artifact.0, note)]) == Some(text@),
                Err(_) => json_text(seq![(artifact.0, note)]) is None,
            }
        }
}

/// Writes a store down user by user: for each user a text of their own.
/// The users come in no particular order, each once.
pub fn save_each(store: &ChainStore) -> (artifacts: Vec<(u64, Result<String, EncodeError>)>)
    requires
        store.wf(),
    ensures
        forall|i: int, j: int|
            0 <= i < j < artifacts.len() ==> (#[trigger] artifacts[i]).0 != (
            #[trigger] artifacts[j]).0,
        forall|user: u64| #[trigger]
            store@.contains_key(user) ==> exists|i: int|
                0 <= i < artifacts.len() && (#[trigger] artifacts[i]).0 == user,
        forall|i: int| 0 <= i < artifacts.len() ==> is_artifact_of(store@, #[trigger] artifacts[i]),
{
    let users = store.users();
    let mut artifacts: Vec<(u64, Result<String, EncodeError>)> = Vec::new();
    let mut i: usize = 0;
    while i < users.len()
        invariant
            i <= users.len(),
            store.wf(),
            users@.no_duplicates(),
            users@.to_set() == store@.dom(),
            artifacts.len() == i,
            forall|j: int| 0 <= j < i ==> (#[trigger] artifacts[j]).0 == users@[j],
            forall|j: int| 0 <= j < i ==> is_artifact_of(store@, #[trigger] artifacts[j]),
        decreases users.len() - i,
    {
        let user: u64 = users[i];
        let model = store.get(user).unwrap();
        let mut doc: Vec<UserRecord> = Vec::new();
        doc.push((user, to_record(model)));
        let artifact = match encode_document(&doc) {
            Ok(text) => Ok(text),
            Err(_) => Err(EncodeError),
        };
        proof {
            let note = doc@[0].1.deep_view();
            assert(doc.deep_view() =~= seq![(user, note)]);
        }
        artifacts.push((user, artifact));
        i += 1;
    }
    proof {
        assert forall|user: u64| #[trigger] store@.contains_key(user) implies exists|j: int|
            0 <= j < artifacts.len() && (#[trigger] artifacts[j]).0 == user by {
            let j = choose|j: int| 0 <= j < users@.len() && users@[j] == user;
            assert(artifacts[j].0 == user);
        }
    }
    artifacts
}

/// Whether a document holds an entry of the user.
fn holds(doc: &Vec<UserRecord>, user: u64) -> (found: bool)
    ensures
        found == holds_entry_of(doc.deep_view(), user),
{
    let mut i: usize = 0;
    while i < doc.len()
        invariant
            i <= doc.len(),
            forall|j: int| 0 <= j < i ==> (#[trigger] doc.deep_view()[j]).0 != user,
        decreases doc.len() - i,
    {
        if doc[i].0 == user {
            assert(doc.deep_view()[i as int].0 == user);
            return true;
        }
        assert(doc.deep_view()[i as int].0 == doc@[i as int].0);
        i += 1;
    }
    false
}

/// Loads a store of the given order from named texts, one after the other:
/// each is a pair of a name and a text, and the name is that of the file of
/// the user whose entry the text holds.
///
/// A text whose name is of no user's file is reported and changes nothing,
/// and so is one that is no document. Of a document, every entry is taken
/// that is of the named user, whose record is sound and of the given order,
/// and whose user has no chain yet; every other entry is reported and left
/// out. A document that holds no entry of the named user is reported too.
pub fn load_named(
    order: usize,
    files: &Vec<(String, String)>,
) -> (outcome: (ChainStore, Vec<LoadIssue>))
    ensures
        outcome.0.wf(),
        outcome.0.chain_order() == order,
        outcome.0@ == loaded_named(order as nat, files.deep_view()),
        outcome.1@ == load_named_issues(order as nat, files.deep_view()),
{
    let ghost named = files.deep_view();
    let mut store = ChainStore::new(order);
    let mut issues: Vec<LoadIssue> = Vec::new();
    let mut p: usize = 0;
    while p < files.len()
        invariant
            p <= files.len(),
            named == files.deep_view(),
            store.wf(),
            store.chain_order() == order,
            store@ == loaded_named(order as nat, named.take(p as int)),
            issues@ == load_named_issues(order as nat, named.take(p as int)),
        decreases files.len() - p,
    {
        let file = &files[p];
        proof {
            let upto = named.take(p as int + 1);
            assert(upto.drop_last() =~= named.take(p as int));
        }
        match artifact_user(file.0.as_str()) {
            None => {
                issues.push(LoadIssue::Misnamed { part: p });
            },
            Some(user) => match decode_document(file.1.as_str()) {
                Err(_) => {
                    issues.push(LoadIssue::Unreadable { part: p });
                },
                Ok(doc) => {
                    let ghost raised = issues@;
                    absorb(&mut store, &doc, Some(user), p, &mut issues);
                    if !holds(&doc, user) {
                        issues.push(LoadIssue::Ownerless { part: p });
                    }
                    proof {
                        let found = complaints(
                            order as nat,
                            loaded_named(order as nat, named.take(p as int)),
                            Some(user),
                            doc.deep_view(),
                            p,
                        );
                        let whole = want_of_owner(doc.deep_view(), user, p);
                        assert(issues@ =~= raised + found + whole);
                    }
                },
            },
        }
        p += 1;
    }
    proof {
        assert(named.take(files.len() as int) =~= named);
    }
    (store, issues)
}

} // verus!
