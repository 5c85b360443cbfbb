//! A chain written down in plain values, and read back.
//!
//! A record holds the order of a chain and its rows: each row a prefix and
//! the transitions behind it, each transition a symbol and a count. Reading
//! a record back checks everything that a chain relies on.

use crate::model::{ChainModel, Entry};
use crate::table::{
    lemma_mass_push, lemma_mass_take, lemma_weight_push, lemma_weight_take, mass, row_wf, Row,
    Symbol, Table, Transition,
};
use crate::window::{copy_prefix, copy_symbol};
use vstd::prelude::*;

verus! {

/// A row as a record holds it.
pub type RowRecord = (Vec<Option<String>>, Vec<(Option<String>, u64)>);

/// A chain as a record holds it: the order, then the rows.
pub type ModelRecord = (u64, Vec<RowRecord>);

/// What a row record says.
pub type RowNote = (Seq<Symbol>, Seq<(Symbol, u64)>);

/// What a chain record says.
pub type ModelNote = (u64, Seq<RowNote>);

/// The transition that a pair of a record stands for.
pub open spec fn noted_transition(pair: (Symbol, u64)) -> Transition {
    Transition { next: pair.0, count: pair.1 as nat }
}

/// The row that a row record stands for.
pub open spec fn noted_row(note: RowNote) -> Row {
    Row {
        prefix: note.0,
        followers: note.1.map_values(|pair: (Symbol, u64)| noted_transition(pair)),
    }
}

/// The table that a chain record stands for.
pub open spec fn noted_table(note: ModelNote) -> Table {
    Table { order: note.0 as nat, rows: note.1.map_values(|row: RowNote| noted_row(row)) }
}

/// Why a record is not taken.
#[derive(Clone, Copy, Debug, PartialEq, Eq, Structural)]
pub enum Fault {
    /// The record is of another order than the one asked for.
    WrongOrder,
    /// The table of the record is not well formed, or its weight is beyond
    /// `u64::MAX`.
    Malformed,
    /// The record is sound, but it stands in a text that is named for
    /// another user.
    Misfiled,
    /// The record is sound, but its user has a chain already.
    Duplicate,
}

/// The fault of a record that is read as a chain of the given order, if it
/// has one.
pub open spec fn fault_of(order: nat, note: ModelNote) -> Option<Fault> {
    if note.0 != order {
        Some(Fault::WrongOrder)
    } else if !(noted_table(note).wf() && noted_table(note).weight() <= u64::MAX) {
        Some(Fault::Malformed)
    } else {
        None
    }
}

/// Writes a chain down.
pub fn to_record(model: &ChainModel) -> (record: ModelRecord)
    requires
        model.wf(),
    ensures
        noted_table(record.deep_view()) == model@,
{
    let mut rows: Vec<RowRecord> = Vec::new();
    let mut i: usize = 0;
    while i < model.len()
        invariant
            i <= model@.rows.len(),
            model.wf(),
            rows.len() == i,
            forall|j: int|
                0 <= j < i ==> noted_row(#[trigger] rows@[j].deep_view()) == model@.rows[j],
        decreases model@.rows.len() - i,
    {
        let entry = model.entry(i);
        let mut followers: Vec<(Option<String>, u64)> = Vec::new();
        let mut k: usize = 0;
        while k < entry.len()
            invariant
                k <= entry@.followers.len(),
                followers.len() == k,
                forall|j: int|
                    0 <= j < k ==> noted_transition(#[trigger] followers@[j].deep_view())
                        == entry@.followers[j],
            decreases entry@.followers.len() - k,
        {
            let pair = (copy_symbol(entry.next_at(k)), entry.count_at(k));
            followers.push(pair);
            k += 1;
        }
        let row = (copy_prefix(entry.prefix()), followers);
        proof {
            assert(noted_row(row.deep_view()).followers =~= entry@.followers);
        }
        rows.push(row);
        i += 1;
    }
    let record = (model.order() as u64, rows);
    proof {
        assert(noted_table(record.deep_view()).rows =~= model@.rows);
    }
    record
}

/// Reads one row of a record: the row as a chain keeps it, where it is well
/// formed for the order and its mass is at most `room`.
fn entry_of(row: &RowRecord, order: usize, room: u64) -> (outcome: Option<Entry>)
    ensures
        match outcome {
            Some(entry) => {
                &&& entry.wf()
                &&& entry@ == noted_row(row.deep_view())
                &&& row_wf(entry@, order as nat)
                &&& mass(entry@.followers) <= room
            },
            None => !row_wf(noted_row(row.deep_view()), order as nat) || mass(
                noted_row(row.deep_view()).followers,
            ) > room,
        },
{
    let ghost noted = noted_row(row.deep_view());
    let ghost all = noted.followers;
    let pairs = &row.1;
    if row.0.len() != order || pairs.len() == 0 {
        return None;
    }
    let first = &pairs[0];
    proof {
        lemma_mass_push(Seq::<Transition>::empty(), all[0]);
        lemma_mass_take(all, 1);
    }
    if first.1 == 0 || first.1 > room {
        return None;
    }
    let mut entry = Entry::new(copy_prefix(&row.0), copy_symbol(&first.0), first.1);
    let mut k: usize = 1;
    proof {
        assert(entry@.followers =~= all.take(1));
    }
    while k < pairs.len()
        invariant
            1 <= k <= pairs.len(),
            pairs == &row.1,
            noted == noted_row(row.deep_view()),
            all == noted.followers,
            all.len() == pairs.len(),
            forall|j: int| 0 <= j < pairs.len() ==> all[j] == noted_transition(
                #[trigger] pairs@[j].deep_view(),
            ),
            entry.wf(),
            entry@ == (Row { prefix: noted.prefix, followers: all.take(k as int) }),
            row_wf(entry@, order as nat),
            mass(entry@.followers) <= room,
        decreases pairs.len() - k,
    {
        let pair = &pairs[k];
        let ghost sym = pair.0.deep_view();
        proof {
            assert(all.take(k as int + 1) =~= all.take(k as int).push(all[k as int]));
            lemma_mass_push(all.take(k as int), all[k as int]);
            lemma_mass_take(all, k as int + 1);
        }
        if pair.1 == 0 {
            return None;
        }
        if entry.leads_to(&pair.0) {
            proof {
                let j = choose|j: int|
                    0 <= j < all.take(k as int).len() && (#[trigger] all.take(k as int)[j]).next
                        == sym;
            }
            return None;
        }
        if pair.1 > room - entry.total() {
            return None;
        }
        entry.add(copy_symbol(&pair.0), pair.1);
        k += 1;
    }
    proof {
        assert(all.take(pairs.len() as int) =~= all);
    }
    Some(entry)
}

/// Reads a record back as a chain of the given order. The outcome is the
/// chain that the record stands for, or the fault of the record.
pub fn from_record(order: usize, record: &ModelRecord) -> (outcome: Result<ChainModel, Fault>)
    ensures
        match outcome {
            Ok(model) => {
                &&& model.wf()
                &&& model@ == noted_table(record.deep_view())
                &&& fault_of(order as nat, record.deep_view()) is None
            },
            Err(fault) => fault_of(order as nat, record.deep_view()) == Some(fault),
        },
{
    let ghost note = record.deep_view();
    let ghost full = noted_table(note);
    if record.0 != order as u64 {
        return Err(Fault::WrongOrder);
    }
    let rows = &record.1;
    let mut model = ChainModel::new(order);
    let mut i: usize = 0;
    proof {
        assert(model@.rows =~= full.rows.take(0));
    }
    while i < rows.len()
        invariant
            i <= rows.len(),
            rows == &record.1,
            note == record.deep_view(),
            full == noted_table(note),
            full.order == order,
            full.rows.len() == rows.len(),
            model.wf(),
            model@ == (Table { order: order as nat, rows: full.rows.take(i as int) }),
        decreases rows.len() - i,
    {
        let row = &rows[i];
        proof {
            model.lemma_table_wf();
            assert(full.rows.take(i as int + 1) =~= full.rows.take(i as int).push(
                full.rows[i as int],
            ));
            lemma_weight_push(full.rows.take(i as int), full.rows[i as int]);
            lemma_weight_take(full.rows, i as int + 1);
        }
        let room: u64 = u64::MAX - model.total_weight();
        let entry = match entry_of(row, order, room) {
            Some(entry) => entry,
            None => {
                return Err(Fault::Malformed);
            },
        };
        if model.row(&row.0).is_some() {
            return Err(Fault::Malformed);
        }
        model.push_row(entry);
        i += 1;
    }
    proof {
        assert(full.rows.take(rows.len() as int) =~= full.rows);
        model.lemma_table_wf();
    }
    Ok(model)
}

} // verus!
