//! One user's chain: the executable table, and training.

use crate::table::{
    blank, bumped, chosen, has_next, lemma_bumped, lemma_mass_bounds, lemma_mass_push,
    lemma_observed, lemma_weight_bounds, lemma_weight_push, mass, next_at, row_wf, tally, Row,
    Table, Transition,
};
use crate::window::{advance, blank_prefix, copy_prefix, copy_symbol, same_prefix, same_symbol};
use vstd::prelude::*;

verus! {

/// One transition as the chain stores it.
struct Follower {
    next: Option<String>,
    count: u64,
}

impl View for Follower {
    type V = Transition;

    closed spec fn view(&self) -> Transition {
        Transition { next: self.next.deep_view(), count: self.count as nat }
    }
}

/// The transitions that a list of followers stands for.
spec fn transitions(followers: Seq<Follower>) -> Seq<Transition> {
    followers.map_values(|f: Follower| f@)
}

/// One row as the chain stores it, with the sum of its counts.
pub struct Entry {
    prefix: Vec<Option<String>>,
    followers: Vec<Follower>,
    total: u64,
}

impl View for Entry {
    type V = Row;

    closed spec fn view(&self) -> Row {
        Row { prefix: self.prefix.deep_view(), followers: transitions(self.followers@) }
    }
}

impl Entry {
    /// The stored sum is the mass of the row.
    pub closed spec fn wf(&self) -> bool {
        self.total as nat == mass(self@.followers)
    }

    /// A row of one transition.
    pub fn new(prefix: Vec<Option<String>>, next: Option<String>, count: u64) -> (entry: Entry)
        requires
            count >= 1,
        ensures
            entry.wf(),
            entry@ == (Row {
                prefix: prefix.deep_view(),
                followers: seq![Transition { next: next.deep_view(), count: count as nat }],
            }),
    {
        let mut followers: Vec<Follower> = Vec::new();
        followers.push(Follower { next, count });
        let entry = Entry { prefix, followers, total: count };
        proof {
            let t = Transition { next: next.deep_view(), count: count as nat };
            assert(entry@.followers =~= seq![t]);
            lemma_mass_push(Seq::<Transition>::empty(), t);
        }
        entry
    }

    /// Sets one more transition at the end of the row.
    pub fn add(&mut self, next: Option<String>, count: u64)
        requires
            old(self).wf(),
            mass(old(self)@.followers) + count <= u64::MAX,
        ensures
            final(self).wf(),
            final(self)@ == (Row {
                prefix: old(self)@.prefix,
                followers: old(self)@.followers.push(
                    Transition { next: next.deep_view(), count: count as nat },
                ),
            }),
    {
        let ghost before = self@.followers;
        let ghost t = Transition { next: next.deep_view(), count: count as nat };
        proof {
            lemma_mass_push(before, t);
        }
        self.followers.push(Follower { next, count });
        self.total = self.total + count;
        assert(self@.followers =~= before.push(t));
    }

    /// The prefix of this row.
    pub fn prefix(&self) -> (prefix: &Vec<Option<String>>)
        ensures
            prefix.deep_view() == self@.prefix,
    {
        &self.prefix
    }

    /// The number of transitions of this row.
    pub fn len(&self) -> (n: usize)
        ensures
            n == self@.followers.len(),
    {
        self.followers.len()
    }

    /// The symbol of the transition at position `k`.
    pub fn next_at(&self, k: usize) -> (next: &Option<String>)
        requires
            k < self@.followers.len(),
        ensures
            next.deep_view() == self@.followers[k as int].next,
    {
        &self.followers[k].next
    }

    /// The count of the transition at position `k`.
    pub fn count_at(&self, k: usize) -> (count: u64)
        requires
            k < self@.followers.len(),
        ensures
            count == self@.followers[k as int].count,
    {
        self.followers[k].count
    }

    /// Whether a transition of this row leads to `next`.
    pub fn leads_to(&self, next: &Option<String>) -> (found: bool)
        ensures
            found == has_next(self@.followers, next.deep_view()),
    {
        let ghost sym = next.deep_view();
        let mut k: usize = 0;
        while k < self.followers.len()
            invariant
                k <= self.followers.len(),
                sym == next.deep_view(),
                forall|j: int| 0 <= j < k ==> (#[trigger] self@.followers[j]).next != sym,
            decreases self.followers.len() - k,
        {
            if same_symbol(&self.followers[k].next, next) {
                assert(self@.followers[k as int].next == sym);
                return true;
            }
            k += 1;
        }
        false
    }

    /// Counts one more sighting of `next` in this row.
    fn bump(&mut self, next: &Option<String>)
        requires
            old(self).wf(),
            row_wf(old(self)@, old(self)@.prefix.len()),
            mass(old(self)@.followers) < u64::MAX,
        ensures
            final(self).wf(),
            final(self)@ == (Row {
                prefix: old(self)@.prefix,
                followers: bumped(old(self)@.followers, next.deep_view()),
            }),
    {
        let ghost before = self@.followers;
        let ghost sym = next.deep_view();
        let mut k: usize = 0;
        while k < self.followers.len()
            invariant
                k <= self.followers.len(),
                *self == *old(self),
                self.wf(),
                row_wf(self@, self@.prefix.len()),
                mass(self@.followers) < u64::MAX,
                before == self@.followers,
                sym == next.deep_view(),
                forall|j: int| 0 <= j < k ==> (#[trigger] before[j]).next != sym,
            decreases self.followers.len() - k,
        {
            if same_symbol(&self.followers[k].next, next) {
                proof {
                    assert(before[k as int].next == sym);
                    lemma_mass_bounds(before, k as int);
                    lemma_bumped(self@, self@.prefix.len(), sym);
                }
                self.followers[k].count = self.followers[k].count + 1;
                self.total = self.total + 1;
                assert(self@.followers =~= bumped(before, sym));
                return;
            }
            k += 1;
        }
        proof {
            lemma_bumped(self@, self@.prefix.len(), sym);
        }
        self.followers.push(Follower { next: copy_symbol(next), count: 1 });
        self.total = self.total + 1;
        assert(self@.followers =~= bumped(before, sym));
    }

    /// The sum of the counts of this row.
    pub fn total(&self) -> (total: u64)
        requires
            self.wf(),
        ensures
            total == mass(self@.followers),
    {
        self.total
    }

    /// How often `next` was seen in this row.
    pub fn count(&self, next: &Option<String>) -> (count: u64)
        requires
            row_wf(self@, self@.prefix.len()),
        ensures
            count == tally(self@.followers, next.deep_view()),
    {
        let ghost sym = next.deep_view();
        let mut k: usize = 0;
        while k < self.followers.len()
            invariant
                k <= self.followers.len(),
                row_wf(self@, self@.prefix.len()),
                sym == next.deep_view(),
                forall|j: int| 0 <= j < k ==> (#[trigger] self@.followers[j]).next != sym,
            decreases self.followers.len() - k,
        {
            if same_symbol(&self.followers[k].next, next) {
                proof {
                    assert(self@.followers[k as int].next == sym);
                }
                return self.followers[k].count;
            }
            k += 1;
        }
        0
    }

    /// The symbol that the position `target` selects from this row.
    pub fn pick(&self, target: u64) -> (next: Option<&String>)
        ensures
            next.deep_view() == chosen(self@.followers, target as nat),
    {
        let ghost all = self@.followers;
        let mut left: u64 = target;
        let mut k: usize = 0;
        assert(all.skip(0) =~= all);
        while k < self.followers.len()
            invariant
                k <= self.followers.len(),
                all == self@.followers,
                chosen(all, target as nat) == chosen(all.skip(k as int), left as nat),
            decreases self.followers.len() - k,
        {
            proof {
                assert(all.skip(k as int).drop_first() =~= all.skip(k as int + 1));
            }
            let f = &self.followers[k];
            if left < f.count {
                return match &f.next {
                    Some(word) => Some(word),
                    None => None,
                };
            }
            left = left - f.count;
            k += 1;
        }
        None
    }
}

/// A chain of a fixed order.
pub struct ChainModel {
    order: usize,
    entries: Vec<Entry>,
    weight: u64,
}

impl View for ChainModel {
    type V = Table;

    closed spec fn view(&self) -> Table {
        Table { order: self.order as nat, rows: self.entries@.map_values(|e: Entry| e@) }
    }
}

impl ChainModel {
    /// The table is well formed, and the stored sums are those of the table.
    pub closed spec fn wf(&self) -> bool {
        &&& self@.wf()
        &&& self.weight as nat == self@.weight()
        &&& forall|i: int| 0 <= i < self.entries.len() ==> (#[trigger] self.entries[i]).wf()
    }

    /// The table of a well-formed chain is well formed, and its weight fits
    /// in a `u64`.
    pub proof fn lemma_table_wf(&self)
        requires
            self.wf(),
        ensures
            self@.wf(),
            self@.weight() <= u64::MAX,
    {
    }

    /// An empty chain of the given order.
    pub fn new(order: usize) -> (model: ChainModel)
        ensures
            model.wf(),
            model@ == Table::empty(order as nat),
    {
        let model = ChainModel { order, entries: Vec::new(), weight: 0 };
        assert(model@.rows =~= Seq::<Row>::empty());
        model
    }

    /// The number of symbols in each prefix.
    pub fn order(&self) -> (order: usize)
        ensures
            order == self@.order,
    {
        self.order
    }

    /// Whether the chain has seen nothing.
    pub fn is_empty(&self) -> (empty: bool)
        ensures
            empty == (self@.rows.len() == 0),
    {
        self.entries.len() == 0
    }

    /// The sum of all counts.
    pub fn total_weight(&self) -> (total: u64)
        requires
            self.wf(),
        ensures
            total == self@.weight(),
    {
        self.weight
    }

    /// The number of rows.
    pub fn len(&self) -> (n: usize)
        ensures
            n == self@.rows.len(),
    {
        self.entries.len()
    }

    /// The row at position `i`.
    pub fn entry(&self, i: usize) -> (entry: &Entry)
        requires
            self.wf(),
            i < self@.rows.len(),
        ensures
            entry.wf(),
            entry@ == self@.rows[i as int],
            row_wf(entry@, self@.order),
    {
        assert(self.entries[i as int]@ == self@.rows[i as int]);
        &self.entries[i]
    }

    /// Sets a row at the end of the table.
    pub fn push_row(&mut self, entry: Entry)
        requires
            old(self).wf(),
            entry.wf(),
            row_wf(entry@, old(self)@.order),
            !old(self)@.has_row(entry@.prefix),
            old(self)@.weight() + mass(entry@.followers) <= u64::MAX,
        ensures
            final(self).wf(),
            final(self)@ == (Table { order: old(self)@.order, rows: old(self)@.rows.push(entry@) }),
    {
        let ghost before = self@;
        let total: u64 = entry.total();
        proof {
            lemma_weight_push(before.rows, entry@);
        }
        self.entries.push(entry);
        self.weight = self.weight + total;
        proof {
            assert(self@.rows =~= before.rows.push(entry@));
        }
    }

    /// The row of `prefix`, where the chain has one.
    pub fn row(&self, prefix: &Vec<Option<String>>) -> (found: Option<&Entry>)
        requires
            self.wf(),
        ensures
            found is Some <==> self@.has_row(prefix.deep_view()),
            found matches Some(entry) ==> {
                &&& entry.wf()
                &&& row_wf(entry@, self@.order)
                &&& entry@ == self@.rows[self@.row_at(prefix.deep_view())]
            },
    {
        match self.position(prefix) {
            Some(i) => Some(&self.entries[i]),
            None => None,
        }
    }

    /// How often `next` was seen after `prefix`.
    pub fn count(&self, prefix: &Vec<Option<String>>, next: &Option<String>) -> (count: u64)
        requires
            self.wf(),
        ensures
            count == self@.count(prefix.deep_view(), next.deep_view()),
    {
        match self.row(prefix) {
            Some(entry) => entry.count(next),
            None => 0,
        }
    }

    /// Trains the chain on a token sequence: a window of `order` symbols
    /// moves over the sequence, and each token is counted once behind the
    /// window that stands before it, the end sentinel behind the last one.
    ///
    /// An empty sequence changes nothing. A sequence whose sightings would
    /// take the sum of all counts beyond `u64::MAX` is refused whole: the
    /// chain stays as it was and the result is `false`.
    pub fn train(&mut self, tokens: &Vec<String>) -> (trained: bool)
        requires
            old(self).wf(),
        ensures
            final(self).wf(),
            final(self)@.order == old(self)@.order,
            trained <==> (tokens.len() == 0 || old(self)@.weight() + tokens.len() + 1
                <= u64::MAX),
            trained ==> final(self)@ == old(self)@.trained(tokens.deep_view()),
            !trained ==> final(self)@ == old(self)@,
    {
        let n: usize = tokens.len();
        if n == 0 {
            return true;
        }
        if n as u64 >= u64::MAX - self.weight {
            return false;
        }
        let ghost toks = tokens.deep_view();
        let ghost start = self@;
        let mut cursor = blank_prefix(self.order);
        let mut i: usize = 0;
        proof {
            assert(toks.skip(0) =~= toks);
        }
        while i < n
            invariant
                i <= n,
                n == tokens.len(),
                toks == tokens.deep_view(),
                self.wf(),
                self@.order == start.order,
                cursor.deep_view().len() == self@.order,
                self@.weight() + (n - i) + 1 <= u64::MAX,
                start.fed(blank(start.order), toks) == self@.fed(
                    cursor.deep_view(),
                    toks.skip(i as int),
                ),
            decreases n - i,
        {
            let next = Some(tokens[i].clone());
            proof {
                let rest = toks.skip(i as int);
                assert(rest.drop_first() =~= toks.skip(i as int + 1));
                lemma_observed(self@, cursor.deep_view(), next.deep_view());
            }
            self.observe(&cursor, &next);
            advance(&mut cursor, next);
            i += 1;
        }
        self.observe(&cursor, &None);
        true
    }

    /// The position of the row of `prefix`.
    fn position(&self, prefix: &Vec<Option<String>>) -> (found: Option<usize>)
        requires
            self.wf(),
        ensures
            found is Some <==> self@.has_row(prefix.deep_view()),
            found matches Some(i) ==> i < self.entries.len() && i == self@.row_at(
                prefix.deep_view(),
            ),
    {
        let ghost p = prefix.deep_view();
        let mut i: usize = 0;
        while i < self.entries.len()
            invariant
                i <= self.entries.len(),
                self.wf(),
                p == prefix.deep_view(),
                forall|j: int| 0 <= j < i ==> (#[trigger] self@.rows[j]).prefix != p,
            decreases self.entries.len() - i,
        {
            if same_prefix(&self.entries[i].prefix, prefix) {
                proof {
                    assert(self@.rows[i as int].prefix == p);
                }
                return Some(i);
            }
            i += 1;
        }
        None
    }

    /// Counts one sighting of `next` behind `prefix`.
    fn observe(&mut self, prefix: &Vec<Option<String>>, next: &Option<String>)
        requires
            old(self).wf(),
            prefix.len() == old(self)@.order,
            old(self)@.weight() < u64::MAX,
        ensures
            final(self).wf(),
            final(self)@ == old(self)@.observed(prefix.deep_view(), next.deep_view()),
    {
        let ghost before = self@;
        let ghost p = prefix.deep_view();
        let ghost sym = next.deep_view();
        proof {
            lemma_observed(before, p, sym);
        }
        match self.position(prefix) {
            Some(i) => {
                proof {
                    lemma_weight_bounds(before.rows, i as int);
                }
                self.entries[i].bump(next);
                self.weight = self.weight + 1;
                proof {
                    assert(self@.rows =~= before.observed(p, sym).rows);
                }
            },
            None => {
                let entry = Entry::new(copy_prefix(prefix), copy_symbol(next), 1);
                self.entries.push(entry);
                self.weight = self.weight + 1;
                proof {
                    assert(self@.rows =~= before.observed(p, sym).rows);
                }
            },
        }
    }
}

} // verus!
