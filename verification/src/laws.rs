//! What holds of training, generation, clearing and loading, whatever the
//! inputs.

use crate::numeral::{
    digits_of, file_name_of, file_owner, lemma_digits_name, lemma_file_name_owner, named_user,
};
use crate::persist::{
    absorbed, complaints, depicts, entry_fault, holds_entry_of, json_document, load_issues,
    load_named_issues, loaded, loaded_named, LoadIssue, UserNote,
};
use crate::record::{fault_of, noted_table};
use crate::request::has_no_data;
use crate::sample::{
    is_generated_text, is_generation, is_run, lemma_run_len, lemma_walk_words, walk,
};
use crate::store::ChainStore;
use crate::table::{
    blank, lemma_fed_count, lemma_fed_words, lemma_trained, sightings, Symbol, Table,
};
use crate::token::{joined, lemma_tokens_are_words, lemma_tokens_of_joined, tokens_of};
use vstd::prelude::*;

verus! {

/// Training an empty chain of any order on a sequence of `L` tokens, `L`
/// not zero, gives a table of weight `L + 1`: one sighting for each token
/// and one for the end. Every count in it is at least one.
pub proof fn law_fresh_training_weight(order: nat, tokens: Seq<Seq<char>>)
    requires
        tokens.len() > 0,
    ensures
        Table::empty(order).trained(tokens).weight() == tokens.len() + 1,
        forall|i: int, k: int|
            #![trigger Table::empty(order).trained(tokens).rows[i].followers[k]]
            0 <= i < Table::empty(order).trained(tokens).rows.len() && 0 <= k
                < Table::empty(order).trained(tokens).rows[i].followers.len()
                ==> Table::empty(order).trained(tokens).rows[i].followers[k].count >= 1,
{
    let fresh = Table::empty(order);
    lemma_trained(fresh, tokens);
}

/// Training a well-formed table on any sequence keeps it well formed and
/// of its order, and adds to its weight one for each token and one for the
/// end, or nothing where the sequence is empty.
pub proof fn law_training_weight(table: Table, tokens: Seq<Seq<char>>)
    requires
        table.wf(),
    ensures
        table.trained(tokens).wf(),
        table.trained(tokens).order == table.order,
        table.trained(tokens).weight() == table.weight() + if tokens.len() == 0 {
            0
        } else {
            tokens.len() + 1
        },
{
    lemma_trained(table, tokens);
}

/// Training adds to the count of each transition the number of times the
/// window met it, and takes nothing away: behind the prefix `p`, the symbol
/// `n` has been seen as often as before and once more for every position at
/// which the window stood at `p` with `n` behind it.
pub proof fn law_training_counts(table: Table, tokens: Seq<Seq<char>>, p: Seq<Symbol>, n: Symbol)
    requires
        table.wf(),
    ensures
        table.trained(tokens).count(p, n) >= table.count(p, n),
        table.trained(tokens).count(p, n) == table.count(p, n) + if tokens.len() == 0 {
            0
        } else {
            sightings(blank(table.order), tokens, p, n)
        },
{
    if tokens.len() > 0 {
        lemma_fed_count(table, blank(table.order), tokens, p, n);
    }
}

/// A generation never has more than `max_tokens` tokens, whatever the table
/// holds and whatever was drawn.
pub proof fn law_generation_bounded(table: Table, max_tokens: nat, tokens: Seq<Seq<char>>)
    requires
        is_generation(table, max_tokens, tokens),
    ensures
        tokens.len() <= max_tokens,
{
    let draws = choose|draws: Seq<u64>|
        #[trigger] is_run(table, blank(table.order), draws, max_tokens) && tokens == walk(
            table,
            blank(table.order),
            draws,
        );
    lemma_run_len(table, blank(table.order), draws, max_tokens);
}

/// A generated text is at most `max_tokens` tokens set side by side.
pub proof fn law_generated_text_bounded(table: Table, max_tokens: nat, text: Seq<char>)
    requires
        is_generated_text(table, max_tokens, text),
    ensures
        exists|tokens: Seq<Seq<char>>|
            tokens.len() <= max_tokens && text == #[trigger] joined(tokens),
{
    let tokens = choose|tokens: Seq<Seq<char>>|
        tokens.len() <= max_tokens && #[trigger] is_generation(table, max_tokens, tokens) && text
            == joined(tokens);
}

/// A table that holds words only still does after it has learned from a
/// text: the tokens of a text are words.
pub proof fn law_learning_keeps_words(table: Table, text: Seq<char>)
    requires
        table.words_only(),
    ensures
        table.trained(tokens_of(text)).words_only(),
{
    let tokens = tokens_of(text);
    lemma_tokens_are_words(text);
    if tokens.len() > 0 {
        lemma_fed_words(table, blank(table.order), tokens);
    }
}

/// A text that was generated from a table of words splits into the tokens
/// that were generated, and so into no more than `max_tokens`.
pub proof fn law_generated_text_splits(table: Table, max_tokens: nat, text: Seq<char>)
    requires
        table.words_only(),
        is_generated_text(table, max_tokens, text),
    ensures
        tokens_of(text).len() <= max_tokens,
        is_generation(table, max_tokens, tokens_of(text)),
{
    let tokens = choose|tokens: Seq<Seq<char>>|
        tokens.len() <= max_tokens && #[trigger] is_generation(table, max_tokens, tokens) && text
            == joined(tokens);
    let draws = choose|draws: Seq<u64>|
        #[trigger] is_run(table, blank(table.order), draws, max_tokens) && tokens == walk(
            table,
            blank(table.order),
            draws,
        );
    lemma_walk_words(table, blank(table.order), draws);
    lemma_tokens_of_joined(tokens);
}

/// Nothing is recorded for a user whose chain has just been cleared: a
/// request in that user's style is answered with `NoData`.
pub proof fn law_cleared_user_has_no_data(before: &ChainStore, after: &ChainStore, user: u64)
    requires
        after.chain_order() == before.chain_order(),
        after@ == before@.insert(user, Table::empty(before.chain_order())),
    ensures
        has_no_data(after, user),
{
}

/// Nothing is recorded for any user in a store without chains.
pub proof fn law_empty_store_has_no_data(store: &ChainStore, user: u64)
    requires
        store@ == Map::<u64, Table>::empty(),
    ensures
        has_no_data(store, user),
{
}

/// The numeral of a user names that user.
pub proof fn law_numeral_round_trip(user: u64)
    ensures
        named_user(digits_of(user as nat)) == Some(user),
{
    lemma_digits_name(user as nat);
}

/// The name of a user's file names that user.
pub proof fn law_file_name_round_trip(user: u64)
    ensures
        file_owner(file_name_of(user)) == Some(user),
{
    lemma_file_name_owner(user);
}

/// The chains that the first entries of a document show, where the document
/// shows `chains`.
pub open spec fn shown(chains: Map<u64, Table>, doc: Seq<UserNote>) -> Map<u64, Table> {
    Map::new(
        |user: u64| exists|i: int| 0 <= i < doc.len() && (#[trigger] doc[i]).0 == user,
        |user: u64| chains[user],
    )
}

proof fn lemma_absorb_shown(order: nat, chains: Map<u64, Table>, doc: Seq<UserNote>, part: usize)
    requires
        forall|i: int|
            0 <= i < doc.len() ==> chains.contains_key((#[trigger] doc[i]).0) && noted_table(
                doc[i].1,
            ) == chains[doc[i].0],
        forall|i: int, j: int|
            0 <= i < j < doc.len() ==> (#[trigger] doc[i]).0 != (#[trigger] doc[j]).0,
        forall|user: u64| #[trigger]
            chains.contains_key(user) ==> chains[user].wf() && chains[user].order == order
                && chains[user].weight() <= u64::MAX,
    ensures
        absorbed(order, Map::empty(), None, doc) == shown(chains, doc),
        complaints(order, Map::empty(), None, doc, part) == Seq::<LoadIssue>::empty(),
    decreases doc.len(),
{
    if doc.len() > 0 {
        let front = doc.drop_last();
        let entry = doc.last();
        let before = absorbed(order, Map::empty(), None, front);
        lemma_absorb_shown(order, chains, front, part);
        assert(!before.contains_key(entry.0));
        assert(before.insert(entry.0, noted_table(entry.1)) =~= shown(chains, doc)) by {
            assert forall|user: u64| shown(chains, doc).contains_key(user) implies before.insert(
                entry.0,
                noted_table(entry.1),
            ).contains_key(user) by {
                let i = choose|i: int| 0 <= i < doc.len() && (#[trigger] doc[i]).0 == user;
                if i < front.len() {
                    assert(front[i] == doc[i]);
                }
            }
        }
    }
}

/// Loading what was written gives the store back: a document that shows
/// the chains of a well-formed store is taken in without an issue, and the
/// chains that come of it are those of the store, user for user, prefix for
/// prefix, count for count.
pub proof fn law_document_round_trip(store: &ChainStore, doc: Seq<UserNote>, part: usize)
    requires
        store.wf(),
        depicts(doc, store@),
    ensures
        absorbed(store.chain_order(), Map::empty(), None, doc) == store@,
        complaints(store.chain_order(), Map::empty(), None, doc, part) == Seq::<LoadIssue>::empty(),
{
    store.lemma_tables();
    lemma_absorb_shown(store.chain_order(), store@, doc, part);
}

/// Whether each text is the file of the entry at its position: it has the
/// name of the file of the entry's user, and the JSON library reads it as
/// the document that holds this entry and no other.
pub open spec fn are_files_of(files: Seq<(Seq<char>, Seq<char>)>, docs: Seq<UserNote>) -> bool {
    &&& files.len() == docs.len()
    &&& forall|i: int|
        0 <= i < files.len() ==> (#[trigger] files[i]).0 == file_name_of(docs[i].0)
            && json_document(files[i].1) == Some(seq![docs[i]])
}

proof fn lemma_files_shown(
    order: nat,
    chains: Map<u64, Table>,
    docs: Seq<UserNote>,
    files: Seq<(Seq<char>, Seq<char>)>,
)
    requires
        forall|i: int|
            0 <= i < docs.len() ==> chains.contains_key((#[trigger] docs[i]).0) && noted_table(
                docs[i].1,
            ) == chains[docs[i].0],
        forall|i: int, j: int|
            0 <= i < j < docs.len() ==> (#[trigger] docs[i]).0 != (#[trigger] docs[j]).0,
        forall|user: u64| #[trigger]
            chains.contains_key(user) ==> chains[user].wf() && chains[user].order == order
                && chains[user].weight() <= u64::MAX,
        are_files_of(files, docs),
    ensures
        loaded_named(order, files) == shown(chains, docs),
        load_named_issues(order, files) == Seq::<LoadIssue>::empty(),
    decreases docs.len(),
{
    if docs.len() == 0 {
        assert(shown(chains, docs) =~= Map::<u64, Table>::empty());
    } else {
        let front = docs.drop_last();
        let entry = docs.last();
        let user = entry.0;
        let earlier = files.drop_last();
        let file = files.last();
        let doc = seq![entry];
        let none = Seq::<UserNote>::empty();
        assert forall|i: int| 0 <= i < earlier.len() implies (#[trigger] earlier[i]).0
            == file_name_of(front[i].0) && json_document(earlier[i].1) == Some(
            seq![front[i]],
        ) by {
            assert(earlier[i] == files[i]);
            assert(front[i] == docs[i]);
        }
        assert forall|i: int| 0 <= i < front.len() implies chains.contains_key(
            (#[trigger] front[i]).0,
        ) && noted_table(front[i].1) == chains[front[i].0] by {
            assert(front[i] == docs[i]);
        }
        assert forall|i: int, j: int| 0 <= i < j < front.len() implies (#[trigger] front[i]).0
            != (#[trigger] front[j]).0 by {
            assert(front[i] == docs[i]);
            assert(front[j] == docs[j]);
        }
        lemma_files_shown(order, chains, front, earlier);
        let before = loaded_named(order, earlier);
        assert(file == files[files.len() - 1]);
        assert(entry == docs[docs.len() - 1]);
        lemma_file_name_owner(user);
        assert(file_owner(file.0) == Some(user));
        assert(json_document(file.1) == Some(doc));
        assert(!before.contains_key(user)) by {
            if before.contains_key(user) {
                let i = choose|i: int| 0 <= i < front.len() && (#[trigger] front[i]).0 == user;
                assert(front[i] == docs[i]);
            }
        }
        assert(doc.drop_last() =~= none);
        assert(doc.last() == entry);
        assert(absorbed(order, before, Some(user), none) == before);
        assert(complaints(order, before, Some(user), none, (files.len() - 1) as usize)
            == Seq::<LoadIssue>::empty());
        assert(fault_of(order, entry.1) is None);
        assert(entry_fault(order, before, Some(user), entry) is None);
        assert(absorbed(order, before, Some(user), doc) == before.insert(
            user,
            noted_table(entry.1),
        ));
        assert(doc[0].0 == user);
        assert(holds_entry_of(doc, user));
        assert(before.insert(user, noted_table(entry.1)) =~= shown(chains, docs)) by {
            assert forall|other: u64| shown(chains, docs).contains_key(other) implies before.insert(
                user,
                noted_table(entry.1),
            ).contains_key(other) by {
                let i = choose|i: int| 0 <= i < docs.len() && (#[trigger] docs[i]).0 == other;
                if i < front.len() {
                    assert(front[i] == docs[i]);
                }
            }
            assert forall|other: u64|
                before.insert(user, noted_table(entry.1)).contains_key(
                    other,
                ) implies shown(chains, docs).contains_key(other) by {
                if other == user {
                    assert(docs[docs.len() - 1].0 == other);
                } else {
                    let i = choose|i: int| 0 <= i < front.len() && (#[trigger] front[i]).0 == other;
                    assert(docs[i].0 == other);
                }
            }
        }
        assert(Seq::<LoadIssue>::empty() + Seq::<LoadIssue>::empty() + Seq::<LoadIssue>::empty()
            =~= Seq::<LoadIssue>::empty());
    }
}

/// Loading the files that were written user by user gives the store back,
/// where the JSON library reads each file as the document that was given
/// for it: with one file for each entry of a document that shows the store,
/// all files are taken in without an issue, and the chains that come of
/// them are those of the store. Of the JSON library itself nothing is
/// proved here.
pub proof fn law_files_round_trip(
    store: &ChainStore,
    docs: Seq<UserNote>,
    files: Seq<(Seq<char>, Seq<char>)>,
)
    requires
        store.wf(),
        depicts(docs, store@),
    ensures
        are_files_of(files, docs) ==> {
            &&& loaded_named(store.chain_order(), files) == store@
            &&& load_named_issues(store.chain_order(), files) == Seq::<LoadIssue>::empty()
        },
{
    if are_files_of(files, docs) {
        store.lemma_tables();
        lemma_files_shown(store.chain_order(), store@, docs, files);
        assert(shown(store@, docs) =~= store@);
    }
}

/// Loading a text gives the store back, where the JSON library reads the
/// text as a document that shows the store. Of the JSON library itself
/// nothing is proved here: that it reads its own text back as the document
/// it was given is what this law leaves to it.
pub proof fn law_loading_a_depiction(store: &ChainStore, text: Seq<char>)
    requires
        store.wf(),
    ensures
        json_document(text) is Some && depicts(json_document(text)->0, store@) ==> {
            &&& loaded(store.chain_order(), seq![text]) == store@
            &&& load_issues(store.chain_order(), seq![text]) == Seq::<LoadIssue>::empty()
        },
{
    if json_document(text) is Some && depicts(json_document(text)->0, store@) {
        let doc = json_document(text)->0;
        let order = store.chain_order();
        let parts = seq![text];
        law_document_round_trip(store, doc, 0);
        assert(loaded(order, parts.drop_last()) == Map::<u64, Table>::empty());
        assert(load_issues(order, parts.drop_last()) == Seq::<LoadIssue>::empty());
    }
}

} // verus!
