//! The mathematical model of a chain: an ordered table of weighted
//! transitions, with the functions that say what training does to it.

use crate::token::is_word;
use vstd::prelude::*;

verus! {

/// A position of a prefix, or what follows a prefix. `None` stands for the
/// sentinel: the start of a sequence inside a prefix, the end of a sequence
/// as a follower.
pub type Symbol = Option<Seq<char>>;

/// One weighted transition of a row: the symbol that followed, and how often.
pub struct Transition {
    pub next: Symbol,
    pub count: nat,
}

/// One row of the table: a prefix and the transitions seen after it, in the
/// order in which they were first seen.
pub struct Row {
    pub prefix: Seq<Symbol>,
    pub followers: Seq<Transition>,
}

/// A chain of a fixed order: its rows, in the order in which their prefixes
/// were first seen.
pub struct Table {
    pub order: nat,
    pub rows: Seq<Row>,
}

/// The prefix that stands before the first token of a sequence.
pub open spec fn blank(order: nat) -> Seq<Symbol> {
    Seq::new(order, |i: int| None)
}

/// The window moved one position on: the oldest symbol leaves, `next` enters.
pub open spec fn slide(prefix: Seq<Symbol>, next: Symbol) -> Seq<Symbol> {
    if prefix.len() == 0 {
        prefix
    } else {
        prefix.drop_first().push(next)
    }
}

/// Whether some transition of the row leads to `next`.
pub open spec fn has_next(followers: Seq<Transition>, next: Symbol) -> bool {
    exists|k: int| 0 <= k < followers.len() && (#[trigger] followers[k]).next == next
}

/// The position of the transition to `next`, where there is one.
pub open spec fn next_at(followers: Seq<Transition>, next: Symbol) -> int {
    choose|k: int| 0 <= k < followers.len() && (#[trigger] followers[k]).next == next
}

/// How often `next` was seen in a row: the count of its transition, or zero
/// where the row has none to it.
pub open spec fn tally(followers: Seq<Transition>, next: Symbol) -> nat {
    if has_next(followers, next) {
        followers[next_at(followers, next)].count
    } else {
        0
    }
}

/// The sum of the counts of a row.
pub open spec fn mass(followers: Seq<Transition>) -> nat
    decreases followers.len(),
{
    if followers.len() == 0 {
        0
    } else {
        mass(followers.drop_last()) + followers.last().count
    }
}

/// The sum of the counts of all rows.
pub open spec fn weight(rows: Seq<Row>) -> nat
    decreases rows.len(),
{
    if rows.len() == 0 {
        0
    } else {
        weight(rows.drop_last()) + mass(rows.last().followers)
    }
}

/// The symbol that a draw selects from a row. The transitions lie side by
/// side, each as wide as its count, in the order of the row; `target` is a
/// position on that line, and the transition that covers it is taken. A
/// position beyond the line selects the end sentinel.
pub open spec fn chosen(followers: Seq<Transition>, target: nat) -> Symbol
    decreases followers.len(),
{
    if followers.len() == 0 {
        None
    } else if target < followers[0].count {
        followers[0].next
    } else {
        chosen(followers.drop_first(), (target - followers[0].count) as nat)
    }
}

/// The row with one more sighting of `next`: its count grows by one, or it
/// enters at the end with count one.
pub open spec fn bumped(followers: Seq<Transition>, next: Symbol) -> Seq<Transition> {
    if has_next(followers, next) {
        let k = next_at(followers, next);
        followers.update(k, Transition { next, count: followers[k].count + 1 })
    } else {
        followers.push(Transition { next, count: 1 })
    }
}

/// A row as the table keeps it: not empty, every count positive, no symbol
/// twice.
pub open spec fn row_wf(row: Row, order: nat) -> bool {
    &&& row.prefix.len() == order
    &&& row.followers.len() > 0
    &&& forall|k: int| 0 <= k < row.followers.len() ==> (#[trigger] row.followers[k]).count >= 1
    &&& forall|k: int, l: int|
        0 <= k < row.followers.len() && 0 <= l < row.followers.len() && k != l ==> (
        #[trigger] row.followers[k]).next != (#[trigger] row.followers[l]).next
}

/// Whether a symbol is the sentinel or a word.
pub open spec fn is_word_or_end(symbol: Symbol) -> bool {
    match symbol {
        Some(token) => is_word(token),
        None => true,
    }
}

/// How often the window stands at `prefix` with `next` behind it, while it
/// moves from `cursor` over `tokens` and meets the end behind the last of
/// them.
pub open spec fn sightings(
    cursor: Seq<Symbol>,
    tokens: Seq<Seq<char>>,
    prefix: Seq<Symbol>,
    next: Symbol,
) -> nat
    decreases tokens.len(),
{
    if tokens.len() == 0 {
        if cursor == prefix && next == None::<Seq<char>> {
            1
        } else {
            0
        }
    } else {
        let here: nat = if cursor == prefix && next == Some(tokens[0]) {
            1
        } else {
            0
        };
        here + sightings(slide(cursor, Some(tokens[0])), tokens.drop_first(), prefix, next)
    }
}

impl Table {
    /// The table of a chain that has seen nothing.
    pub open spec fn empty(order: nat) -> Table {
        Table { order, rows: Seq::empty() }
    }

    /// Whether the table has a row for `prefix`.
    pub open spec fn has_row(self, prefix: Seq<Symbol>) -> bool {
        exists|i: int| 0 <= i < self.rows.len() && (#[trigger] self.rows[i]).prefix == prefix
    }

    /// The position of the row for `prefix`, where there is one.
    pub open spec fn row_at(self, prefix: Seq<Symbol>) -> int {
        choose|i: int| 0 <= i < self.rows.len() && (#[trigger] self.rows[i]).prefix == prefix
    }

    /// The transitions seen after `prefix`; none where the prefix is unknown.
    pub open spec fn followers(self, prefix: Seq<Symbol>) -> Seq<Transition> {
        if self.has_row(prefix) {
            self.rows[self.row_at(prefix)].followers
        } else {
            Seq::empty()
        }
    }

    /// How often `next` was seen after `prefix`.
    pub open spec fn count(self, prefix: Seq<Symbol>, next: Symbol) -> nat {
        tally(self.followers(prefix), next)
    }

    /// The sum of all counts.
    pub open spec fn weight(self) -> nat {
        weight(self.rows)
    }

    /// The invariant of a table: every prefix has `order` symbols and occurs
    /// once, and every row is well formed.
    pub open spec fn wf(self) -> bool {
        &&& forall|i: int| 0 <= i < self.rows.len() ==> row_wf(#[trigger] self.rows[i], self.order)
        &&& forall|i: int, j: int|
            0 <= i < self.rows.len() && 0 <= j < self.rows.len() && i != j ==> (
            #[trigger] self.rows[i]).prefix != (#[trigger] self.rows[j]).prefix
    }

    /// Whether every token that a transition leads to is a word: not empty,
    /// and free of separators.
    pub open spec fn words_only(self) -> bool {
        forall|i: int, k: int|
            0 <= i < self.rows.len() && 0 <= k < self.rows[i].followers.len()
                ==> is_word_or_end(#[trigger] self.rows[i].followers[k].next)
    }

    /// The table after one more sighting of `next` behind `prefix`.
    pub open spec fn observed(self, prefix: Seq<Symbol>, next: Symbol) -> Table {
        if self.has_row(prefix) {
            let i = self.row_at(prefix);
            Table {
                order: self.order,
                rows: self.rows.update(
                    i,
                    Row { prefix, followers: bumped(self.rows[i].followers, next) },
                ),
            }
        } else {
            Table {
                order: self.order,
                rows: self.rows.push(
                    Row { prefix, followers: seq![Transition { next, count: 1 }] },
                ),
            }
        }
    }

    /// The table after the window `cursor` has been moved over `tokens`: each
    /// token is sighted behind the window before it, and the end sentinel
    /// behind the last window.
    pub open spec fn fed(self, cursor: Seq<Symbol>, tokens: Seq<Seq<char>>) -> Table
        decreases tokens.len(),
    {
        if tokens.len() == 0 {
            self.observed(cursor, None)
        } else {
            self.observed(cursor, Some(tokens[0])).fed(
                slide(cursor, Some(tokens[0])),
                tokens.drop_first(),
            )
        }
    }

    /// The table after training on `tokens`. An empty sequence changes
    /// nothing; any other is fed through a window that starts blank.
    pub open spec fn trained(self, tokens: Seq<Seq<char>>) -> Table {
        if tokens.len() == 0 {
            self
        } else {
            self.fed(blank(self.order), tokens)
        }
    }
}

/// A transition set at the end of a row adds its count to the mass.
pub proof fn lemma_mass_push(followers: Seq<Transition>, t: Transition)
    ensures
        mass(followers.push(t)) == mass(followers) + t.count,
{
    assert(followers.push(t).drop_last() =~= followers);
}

/// A transition set in place of another changes the mass by the difference
/// of their counts.
pub proof fn lemma_mass_update(followers: Seq<Transition>, k: int, t: Transition)
    requires
        0 <= k < followers.len(),
    ensures
        mass(followers.update(k, t)) + followers[k].count == mass(followers) + t.count,
    decreases followers.len(),
{
    let updated = followers.update(k, t);
    if k == followers.len() - 1 {
        assert(updated.drop_last() =~= followers.drop_last());
    } else {
        lemma_mass_update(followers.drop_last(), k, t);
        assert(updated.drop_last() =~= followers.drop_last().update(k, t));
    }
}

/// A count is never more than the mass of its row.
pub proof fn lemma_mass_bounds(followers: Seq<Transition>, k: int)
    requires
        0 <= k < followers.len(),
    ensures
        followers[k].count <= mass(followers),
    decreases followers.len(),
{
    if k < followers.len() - 1 {
        lemma_mass_bounds(followers.drop_last(), k);
    }
}

/// The mass of the first `k` transitions is never more than that of all.
pub proof fn lemma_mass_take(followers: Seq<Transition>, k: int)
    requires
        0 <= k <= followers.len(),
    ensures
        mass(followers.take(k)) <= mass(followers),
    decreases followers.len(),
{
    if k == followers.len() {
        assert(followers.take(k) =~= followers);
    } else {
        lemma_mass_take(followers.drop_last(), k);
        assert(followers.drop_last().take(k) =~= followers.take(k));
    }
}

/// A row set at the end of a table adds its mass to the weight.
pub proof fn lemma_weight_push(rows: Seq<Row>, row: Row)
    ensures
        weight(rows.push(row)) == weight(rows) + mass(row.followers),
{
    assert(rows.push(row).drop_last() =~= rows);
}

/// A row set in place of another changes the weight by the difference of
/// their masses.
pub proof fn lemma_weight_update(rows: Seq<Row>, i: int, row: Row)
    requires
        0 <= i < rows.len(),
    ensures
        weight(rows.update(i, row)) + mass(rows[i].followers) == weight(rows) + mass(
            row.followers,
        ),
    decreases rows.len(),
{
    let updated = rows.update(i, row);
    if i == rows.len() - 1 {
        assert(updated.drop_last() =~= rows.drop_last());
    } else {
        lemma_weight_update(rows.drop_last(), i, row);
        assert(updated.drop_last() =~= rows.drop_last().update(i, row));
    }
}

/// The mass of a row is never more than the weight of its table.
pub proof fn lemma_weight_bounds(rows: Seq<Row>, i: int)
    requires
        0 <= i < rows.len(),
    ensures
        mass(rows[i].followers) <= weight(rows),
    decreases rows.len(),
{
    if i < rows.len() - 1 {
        lemma_weight_bounds(rows.drop_last(), i);
    }
}

/// The weight of the first `k` rows is never more than that of all.
pub proof fn lemma_weight_take(rows: Seq<Row>, k: int)
    requires
        0 <= k <= rows.len(),
    ensures
        weight(rows.take(k)) <= weight(rows),
    decreases rows.len(),
{
    if k == rows.len() {
        assert(rows.take(k) =~= rows);
    } else {
        lemma_weight_take(rows.drop_last(), k);
        assert(rows.drop_last().take(k) =~= rows.take(k));
    }
}

/// One sighting adds one to the mass of a row and keeps it well formed.
pub proof fn lemma_bumped(row: Row, order: nat, next: Symbol)
    requires
        row_wf(row, order),
    ensures
        row_wf(Row { prefix: row.prefix, followers: bumped(row.followers, next) }, order),
        mass(bumped(row.followers, next)) == mass(row.followers) + 1,
{
    let f = row.followers;
    if has_next(f, next) {
        let k = next_at(f, next);
        lemma_mass_update(f, k, Transition { next, count: f[k].count + 1 });
    } else {
        lemma_mass_push(f, Transition { next, count: 1 });
    }
}

/// One sighting adds one to the weight of a table and keeps it well formed.
pub proof fn lemma_observed(table: Table, prefix: Seq<Symbol>, next: Symbol)
    requires
        table.wf(),
        prefix.len() == table.order,
    ensures
        table.observed(prefix, next).wf(),
        table.observed(prefix, next).order == table.order,
        table.observed(prefix, next).weight() == table.weight() + 1,
{
    if table.has_row(prefix) {
        let i = table.row_at(prefix);
        let row = table.rows[i];
        lemma_bumped(row, table.order, next);
        let new_row = Row { prefix, followers: bumped(row.followers, next) };
        lemma_weight_update(table.rows, i, new_row);
    } else {
        let t = Transition { next, count: 1 };
        let new_row = Row { prefix, followers: seq![t] };
        lemma_weight_push(table.rows, new_row);
        lemma_mass_push(Seq::<Transition>::empty(), t);
    }
}

/// In a well-formed row, the transition to a symbol is found where it
/// stands.
pub proof fn lemma_next_at(row: Row, order: nat, k: int)
    requires
        row_wf(row, order),
        0 <= k < row.followers.len(),
    ensures
        has_next(row.followers, row.followers[k].next),
        next_at(row.followers, row.followers[k].next) == k,
{
}

/// In a well-formed table, the row of a prefix is found where it stands.
pub proof fn lemma_row_at(table: Table, i: int)
    requires
        table.wf(),
        0 <= i < table.rows.len(),
    ensures
        table.has_row(table.rows[i].prefix),
        table.row_at(table.rows[i].prefix) == i,
{
}

/// One sighting of `next` adds one to the tally of `next`, and nothing to
/// the tally of any other symbol.
pub proof fn lemma_bumped_tally(row: Row, order: nat, next: Symbol, other: Symbol)
    requires
        row_wf(row, order),
    ensures
        tally(bumped(row.followers, next), other) == tally(row.followers, other) + if other
            == next {
            1nat
        } else {
            0nat
        },
{
    let f = row.followers;
    let g = bumped(f, next);
    let after = Row { prefix: row.prefix, followers: g };
    lemma_bumped(row, order, next);
    if has_next(f, next) {
        let k = next_at(f, next);
        if other == next {
            lemma_next_at(after, order, k);
        } else if has_next(f, other) {
            let l = next_at(f, other);
            lemma_next_at(after, order, l);
        }
    } else {
        let last = f.len() as int;
        if other == next {
            lemma_next_at(after, order, last);
        } else if has_next(f, other) {
            let l = next_at(f, other);
            lemma_next_at(after, order, l);
        }
    }
}

/// One sighting of `next` behind `prefix` adds one to the count of that
/// transition, and nothing to the count of any other.
pub proof fn lemma_observed_count(
    table: Table,
    prefix: Seq<Symbol>,
    next: Symbol,
    p: Seq<Symbol>,
    n: Symbol,
)
    requires
        table.wf(),
        prefix.len() == table.order,
    ensures
        table.observed(prefix, next).count(p, n) == table.count(p, n) + if p == prefix && n
            == next {
            1nat
        } else {
            0nat
        },
{
    let after = table.observed(prefix, next);
    lemma_observed(table, prefix, next);
    if table.has_row(prefix) {
        let i = table.row_at(prefix);
        if p == prefix {
            lemma_row_at(after, i);
            lemma_bumped_tally(table.rows[i], table.order, next, n);
        } else if table.has_row(p) {
            let j = table.row_at(p);
            lemma_row_at(after, j);
        }
    } else {
        let last = table.rows.len() as int;
        if p == prefix {
            lemma_row_at(after, last);
            if n == next {
                lemma_next_at(after.rows[last], table.order, 0);
            }
        } else if table.has_row(p) {
            let j = table.row_at(p);
            lemma_row_at(after, j);
        }
    }
}

/// A sighting of a word or of the end keeps a table of words one.
pub proof fn lemma_observed_words(table: Table, prefix: Seq<Symbol>, next: Symbol)
    requires
        table.words_only(),
        is_word_or_end(next),
    ensures
        table.observed(prefix, next).words_only(),
{
}

/// Feeding words through a window keeps a table of words one.
pub proof fn lemma_fed_words(table: Table, cursor: Seq<Symbol>, tokens: Seq<Seq<char>>)
    requires
        table.words_only(),
        forall|i: int| 0 <= i < tokens.len() ==> is_word(#[trigger] tokens[i]),
    ensures
        table.fed(cursor, tokens).words_only(),
    decreases tokens.len(),
{
    if tokens.len() == 0 {
        lemma_observed_words(table, cursor, None);
    } else {
        let next = Some(tokens[0]);
        let rest = tokens.drop_first();
        lemma_observed_words(table, cursor, next);
        lemma_fed_words(table.observed(cursor, next), slide(cursor, next), rest);
    }
}

/// What a draw selects from a row is the end, or a symbol of the row.
pub proof fn lemma_chosen_member(followers: Seq<Transition>, target: nat)
    ensures
        chosen(followers, target) is None || has_next(followers, chosen(followers, target)),
    decreases followers.len(),
{
    if followers.len() > 0 && target >= followers[0].count {
        lemma_chosen_member(followers.drop_first(), (target - followers[0].count) as nat);
    }
}

/// Feeding `tokens` through a window adds to each count the sightings of
/// its transition.
pub proof fn lemma_fed_count(
    table: Table,
    cursor: Seq<Symbol>,
    tokens: Seq<Seq<char>>,
    p: Seq<Symbol>,
    n: Symbol,
)
    requires
        table.wf(),
        cursor.len() == table.order,
    ensures
        table.fed(cursor, tokens).count(p, n) == table.count(p, n) + sightings(
            cursor,
            tokens,
            p,
            n,
        ),
    decreases tokens.len(),
{
    if tokens.len() == 0 {
        lemma_observed_count(table, cursor, None, p, n);
    } else {
        let next = Some(tokens[0]);
        lemma_observed(table, cursor, next);
        lemma_observed_count(table, cursor, next, p, n);
        lemma_fed_count(
            table.observed(cursor, next),
            slide(cursor, next),
            tokens.drop_first(),
            p,
            n,
        );
    }
}

/// Feeding `tokens` through a window adds one sighting for each token and
/// one for the end.
pub proof fn lemma_fed(table: Table, cursor: Seq<Symbol>, tokens: Seq<Seq<char>>)
    requires
        table.wf(),
        cursor.len() == table.order,
    ensures
        table.fed(cursor, tokens).wf(),
        table.fed(cursor, tokens).order == table.order,
        table.fed(cursor, tokens).weight() == table.weight() + tokens.len() + 1,
    decreases tokens.len(),
{
    if tokens.len() == 0 {
        lemma_observed(table, cursor, None);
    } else {
        let next = Some(tokens[0]);
        lemma_observed(table, cursor, next);
        lemma_fed(table.observed(cursor, next), slide(cursor, next), tokens.drop_first());
    }
}

/// Training keeps a table well formed and of its order.
pub proof fn lemma_trained(table: Table, tokens: Seq<Seq<char>>)
    requires
        table.wf(),
    ensures
        table.trained(tokens).wf(),
        table.trained(tokens).order == table.order,
        tokens.len() > 0 ==> table.trained(tokens).weight() == table.weight() + tokens.len() + 1,
        tokens.len() == 0 ==> table.trained(tokens) == table,
{
    if tokens.len() > 0 {
        lemma_fed(table, blank(table.order), tokens);
    }
}

} // verus!
