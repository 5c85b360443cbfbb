//! Drawing new token sequences from a chain.

use crate::model::{ChainModel, Entry};
use crate::table::{
    blank, chosen, lemma_chosen_member, mass, slide, Symbol, Table, Transition,
};
use crate::token::{is_word, join, joined};
use crate::window::{advance, blank_prefix};
use vstd::prelude::*;

verus! {

/// A source of uniform variates. Generation takes its randomness from one
/// of these and from nowhere else, so a source that repeats itself gives
/// text that repeats itself.
///
/// A source keeps the record of what it has handed out, so that what was
/// made of its variates can be told from the record.
pub trait VariateSource {
    /// The variates that the source has handed out, the first one first.
    spec fn handed(&self) -> Seq<u64>;

    /// Hands out the next variate, uniform over `u64`, and sets it at the
    /// end of the record.
    fn draw(&mut self) -> (v: u64)
        ensures
            final(self).handed() == old(self).handed().push(v),
    ;
}

/// The record of a source that counts its variates.
struct Tally {
    count: usize,
    record: Ghost<Seq<u64>>,
}

impl Tally {
    #[verifier::type_invariant]
    spec fn counted(&self) -> bool {
        self.count == if self.record@.len() < usize::MAX {
            self.record@.len()
        } else {
            usize::MAX as nat
        }
    }

    /// The record with one more variate.
    fn with(&self, v: u64) -> (longer: Tally)
        ensures
            longer.record@ == self.record@.push(v),
    {
        proof {
            use_type_invariant(self);
        }
        let count: usize = if self.count < usize::MAX {
            self.count + 1
        } else {
            self.count
        };
        Tally { count, record: Ghost(self.record@.push(v)) }
    }
}

/// A source that hands out the variates of a list over and over, in the
/// order of the list. Generation from it can be told beforehand.
pub struct Replay {
    values: Vec<u64>,
    at: usize,
    tally: Tally,
}

impl View for Replay {
    type V = Seq<u64>;

    /// The variates of one round, the next one first.
    closed spec fn view(&self) -> Seq<u64> {
        self.values@.skip(self.at as int) + self.values@.take(self.at as int)
    }
}

impl Replay {
    #[verifier::type_invariant]
    spec fn in_bounds(&self) -> bool {
        self.at < self.values.len() || self.at == 0
    }

    /// The variates that the source has handed out, the first one first.
    pub closed spec fn record(&self) -> Seq<u64> {
        self.tally.record@
    }

    /// A source that starts with the first variate of `values`, and has
    /// handed out nothing yet.
    pub fn new(values: Vec<u64>) -> (source: Replay)
        ensures
            source@ == values@,
            source.record() == Seq::<u64>::empty(),
    {
        let tally = Tally { count: 0, record: Ghost(Seq::empty()) };
        let source = Replay { values, at: 0, tally };
        assert(source@ =~= values@);
        source
    }

    /// Hands out the next variate, and moves it to the end of the round. A
    /// source without variates hands out zero.
    pub fn next(&mut self) -> (v: u64)
        ensures
            old(self)@.len() == 0 ==> v == 0 && final(self)@ == old(self)@,
            old(self)@.len() > 0 ==> v == old(self)@[0] && final(self)@
                == old(self)@.drop_first().push(v),
            final(self).record() == old(self).record().push(v),
    {
        proof {
            use_type_invariant(&*self);
        }
        let ghost round = self@;
        let v: u64 = if self.values.len() == 0 {
            0
        } else {
            self.values[self.at]
        };
        if self.at + 1 < self.values.len() {
            self.at = self.at + 1;
        } else {
            self.at = 0;
        }
        self.tally = self.tally.with(v);
        proof {
            if round.len() > 0 {
                assert(self@ =~= round.drop_first().push(v));
            } else {
                assert(self@ =~= round);
            }
        }
        v
    }

    /// The number of variates that the source has handed out, or
    /// `usize::MAX` where they were more.
    pub fn draws(&self) -> (n: usize)
        ensures
            n == if self.record().len() < usize::MAX {
                self.record().len()
            } else {
                usize::MAX as nat
            },
    {
        proof {
            use_type_invariant(&self.tally);
        }
        self.tally.count
    }
}

impl VariateSource for Replay {
    open spec fn handed(&self) -> Seq<u64> {
        self.record()
    }

    /// Hands out the next variate of the round, as `next` does.
    fn draw(&mut self) -> (v: u64)
        ensures
            old(self)@.len() == 0 ==> v == 0 && final(self)@ == old(self)@,
            old(self)@.len() > 0 ==> v == old(self)@[0] && final(self)@
                == old(self)@.drop_first().push(v),
    {
        self.next()
    }
}

/// Calls `RngCore::try_fill_bytes` on `rand::rngs::OsRng` for eight bytes:
/// bytes from the random source of the system, which is waited for where
/// it is not ready yet. The result is the bytes read as a number, or `None`
/// where the source gave an error. Nothing is claimed of the number.
#[verifier::external_body]
fn system_variate() -> (v: Option<u64>) {
    let mut bytes = [0u8; 8];
    match rand::RngCore::try_fill_bytes(&mut rand::rngs::OsRng, &mut bytes) {
        Ok(()) => Some(u64::from_le_bytes(bytes)),
        Err(_) => None,
    }
}

/// The source of everyday use: the random source of the system. Where the
/// system gives no variate, the source hands out zero.
pub struct SystemVariates {
    record: Ghost<Seq<u64>>,
}

impl SystemVariates {
    /// The variates that the source has handed out, the first one first.
    pub closed spec fn record(&self) -> Seq<u64> {
        self.record@
    }

    /// A source that has handed out nothing yet.
    pub fn new() -> (source: SystemVariates)
        ensures
            source.record() == Seq::<u64>::empty(),
    {
        SystemVariates { record: Ghost(Seq::empty()) }
    }
}

impl VariateSource for SystemVariates {
    open spec fn handed(&self) -> Seq<u64> {
        self.record()
    }

    /// Hands out a variate of the system's source, or zero where the
    /// system gives none.
    fn draw(&mut self) -> (v: u64) {
        let v: u64 = match system_variate() {
            Some(v) => v,
            None => 0,
        };
        proof {
            self.record@ = self.record@.push(v);
        }
        v
    }
}

/// The symbol that the variate `v` selects from a row: the position `v`
/// modulo the mass of the row, on the line of its transitions. A row
/// without transitions gives the end sentinel.
pub open spec fn selected(followers: Seq<Transition>, v: u64) -> Symbol {
    if mass(followers) == 0 {
        None
    } else {
        chosen(followers, (v as nat) % mass(followers))
    }
}

/// The symbol that the variate `v` selects behind `cursor`. A prefix that
/// the table does not know is followed by the end sentinel.
pub open spec fn step_of(table: Table, cursor: Seq<Symbol>, v: u64) -> Symbol {
    selected(table.followers(cursor), v)
}

/// The tokens of the walk that starts behind `cursor` and spends one variate
/// on each step. The walk ends when a step selects the end sentinel, and at
/// the latest when the variates are spent.
pub open spec fn walk(table: Table, cursor: Seq<Symbol>, draws: Seq<u64>) -> Seq<Seq<char>>
    decreases draws.len(),
{
    if draws.len() == 0 {
        Seq::empty()
    } else {
        match step_of(table, cursor, draws[0]) {
            None => Seq::empty(),
            Some(word) => seq![word] + walk(
                table,
                slide(cursor, Some(word)),
                draws.drop_first(),
            ),
        }
    }
}

/// Whether `draws` are the variates of one whole generation behind
/// `cursor` that may give `budget` tokens: each variate is drawn behind a
/// prefix that the table knows and while tokens may still be given, and the
/// last one is drawn where the generation stops. It stops behind a prefix
/// that the table does not know, after the variate that selects the end
/// sentinel, and when no token may be given any more.
pub open spec fn is_run(table: Table, cursor: Seq<Symbol>, draws: Seq<u64>, budget: nat) -> bool
    decreases draws.len(),
{
    if budget == 0 || !table.has_row(cursor) {
        draws.len() == 0
    } else if draws.len() == 0 {
        false
    } else {
        match step_of(table, cursor, draws[0]) {
            None => draws.len() == 1,
            Some(word) => is_run(
                table,
                slide(cursor, Some(word)),
                draws.drop_first(),
                (budget - 1) as nat,
            ),
        }
    }
}

/// Whether `tokens` are a generation from the table under the bound
/// `max_tokens`: the tokens of the walk from the blank prefix with the
/// variates of some whole generation.
pub open spec fn is_generation(table: Table, max_tokens: nat, tokens: Seq<Seq<char>>) -> bool {
    exists|draws: Seq<u64>|
        #[trigger] is_run(table, blank(table.order), draws, max_tokens) && tokens == walk(
            table,
            blank(table.order),
            draws,
        )
}

/// The variates that a source has handed out since its record was
/// `before`, where it is `after` now.
pub open spec fn since(before: Seq<u64>, after: Seq<u64>) -> Seq<u64> {
    after.skip(before.len() as int)
}

/// A whole generation that may give `budget` tokens draws no more than
/// `budget` variates, and gives no more tokens than it draws.
pub proof fn lemma_run_len(table: Table, cursor: Seq<Symbol>, draws: Seq<u64>, budget: nat)
    requires
        is_run(table, cursor, draws, budget),
    ensures
        draws.len() <= budget,
        walk(table, cursor, draws).len() <= draws.len(),
    decreases draws.len(),
{
    lemma_walk_len(table, cursor, draws);
    if budget > 0 && table.has_row(cursor) && draws.len() > 0 {
        match step_of(table, cursor, draws[0]) {
            None => {},
            Some(word) => {
                lemma_run_len(
                    table,
                    slide(cursor, Some(word)),
                    draws.drop_first(),
                    (budget - 1) as nat,
                );
            },
        }
    }
}

/// A walk yields at most one token for each variate.
pub proof fn lemma_walk_len(table: Table, cursor: Seq<Symbol>, draws: Seq<u64>)
    ensures
        walk(table, cursor, draws).len() <= draws.len(),
    decreases draws.len(),
{
    if draws.len() > 0 {
        match step_of(table, cursor, draws[0]) {
            None => {},
            Some(word) => {
                lemma_walk_len(table, slide(cursor, Some(word)), draws.drop_first());
            },
        }
    }
}

/// A walk over a table of words yields words.
pub proof fn lemma_walk_words(table: Table, cursor: Seq<Symbol>, draws: Seq<u64>)
    requires
        table.words_only(),
    ensures
        forall|i: int|
            0 <= i < walk(table, cursor, draws).len() ==> is_word(
                #[trigger] walk(table, cursor, draws)[i],
            ),
    decreases draws.len(),
{
    if draws.len() > 0 {
        let followers = table.followers(cursor);
        match step_of(table, cursor, draws[0]) {
            None => {},
            Some(word) => {
                let rest = walk(table, slide(cursor, Some(word)), draws.drop_first());
                lemma_chosen_member(followers, (draws[0] as nat) % mass(followers));
                lemma_walk_words(table, slide(cursor, Some(word)), draws.drop_first());
                assert(walk(table, cursor, draws) == seq![word] + rest);
            },
        }
    }
}

/// The token that the variate `v` selects from a row, or `None` for the
/// end of the sequence.
pub fn select<'a>(entry: &'a Entry, v: u64) -> (next: Option<&'a String>)
    requires
        entry.wf(),
    ensures
        next.deep_view() == selected(entry@.followers, v),
{
    let total: u64 = entry.total();
    if total == 0 {
        None
    } else {
        entry.pick(v % total)
    }
}

/// The token that the variate `v` selects behind `cursor`, or `None` for
/// the end of the sequence.
pub fn step<'a>(
    model: &'a ChainModel,
    cursor: &Vec<Option<String>>,
    v: u64,
) -> (next: Option<&'a String>)
    requires
        model.wf(),
    ensures
        next.deep_view() == step_of(model@, cursor.deep_view(), v),
{
    match model.row(cursor) {
        None => None,
        Some(entry) => select(entry, v),
    }
}

/// Walks the chain from the blank prefix with the given variates, one for
/// each step.
pub fn replay(model: &ChainModel, draws: &Vec<u64>) -> (tokens: Vec<String>)
    requires
        model.wf(),
    ensures
        tokens.len() <= draws.len(),
        tokens.deep_view() == walk(model@, blank(model@.order), draws@),
{
    let ghost table = model@;
    let ghost start = blank(table.order);
    let mut cursor = blank_prefix(model.order());
    let mut tokens: Vec<String> = Vec::new();
    let mut i: usize = 0;
    let mut done = false;
    proof {
        assert(draws@.skip(0) =~= draws@);
    }
    while !done && i < draws.len()
        invariant
            i <= draws.len(),
            model.wf(),
            table == model@,
            done ==> walk(table, start, draws@) == tokens.deep_view(),
            !done ==> walk(table, start, draws@) == tokens.deep_view() + walk(
                table,
                cursor.deep_view(),
                draws@.skip(i as int),
            ),
        decreases (if done { 0int } else { 1int }) + draws.len() - i,
    {
        let ghost rest = draws@.skip(i as int);
        proof {
            assert(rest.drop_first() =~= draws@.skip(i as int + 1));
        }
        match step(model, &cursor, draws[i]) {
            None => {
                done = true;
            },
            Some(word) => {
                tokens.push(word.clone());
                advance(&mut cursor, Some(word.clone()));
                i += 1;
            },
        }
    }
    proof {
        lemma_walk_len(table, start, draws@);
    }
    tokens
}

/// Generates a token sequence: a walk from the blank prefix that draws one
/// variate from `rng` for each step behind a prefix that the chain knows,
/// and stops after `max_tokens` tokens at the latest, whether or not the
/// end sentinel was drawn.
///
/// The variates that `rng` hands out during the call are those of one
/// whole generation, and the tokens are those of the walk with them.
pub fn generate_tokens<R: VariateSource>(
    model: &ChainModel,
    rng: &mut R,
    max_tokens: usize,
) -> (tokens: Vec<String>)
    requires
        model.wf(),
    ensures
        tokens.len() <= max_tokens,
        final(rng).handed() == old(rng).handed() + since(old(rng).handed(), final(rng).handed()),
        is_run(
            model@,
            blank(model@.order),
            since(old(rng).handed(), final(rng).handed()),
            max_tokens as nat,
        ),
        tokens.deep_view() == walk(
            model@,
            blank(model@.order),
            since(old(rng).handed(), final(rng).handed()),
        ),
        is_generation(model@, max_tokens as nat, tokens.deep_view()),
{
    let ghost table = model@;
    let ghost start = blank(table.order);
    let ghost before = rng.handed();
    let ghost mut drawn: Seq<u64> = Seq::empty();
    let mut cursor = blank_prefix(model.order());
    let mut tokens: Vec<String> = Vec::new();
    let mut done = false;
    proof {
        assert(before + drawn =~= before);
        assert(tokens.deep_view() =~= Seq::<Seq<char>>::empty());
        assert forall|rest: Seq<u64>| #[trigger]
            walk(table, start, drawn + rest) == tokens.deep_view() + walk(
                table,
                cursor.deep_view(),
                rest,
            ) by {
            assert(drawn + rest =~= rest);
            assert(tokens.deep_view() + walk(table, start, rest) =~= walk(table, start, rest));
        }
        assert forall|rest: Seq<u64>| #[trigger]
            is_run(table, start, drawn + rest, max_tokens as nat) == is_run(
                table,
                cursor.deep_view(),
                rest,
                (max_tokens - tokens.len()) as nat,
            ) by {
            assert(drawn + rest =~= rest);
        }
    }
    while !done && tokens.len() < max_tokens
        invariant
            model.wf(),
            table == model@,
            start == blank(table.order),
            tokens.len() <= max_tokens,
            rng.handed() == before + drawn,
            done ==> is_run(table, start, drawn, max_tokens as nat),
            done ==> walk(table, start, drawn) == tokens.deep_view(),
            !done ==> forall|rest: Seq<u64>| #[trigger]
                walk(table, start, drawn + rest) == tokens.deep_view() + walk(
                    table,
                    cursor.deep_view(),
                    rest,
                ),
            !done ==> forall|rest: Seq<u64>| #[trigger]
                is_run(table, start, drawn + rest, max_tokens as nat) == is_run(
                    table,
                    cursor.deep_view(),
                    rest,
                    (max_tokens - tokens.len()) as nat,
                ),
        decreases (if done { 0int } else { 1int }) + max_tokens - tokens.len(),
    {
        let ghost earlier = drawn;
        let ghost so_far = tokens.deep_view();
        let ghost here = cursor.deep_view();
        let ghost room = (max_tokens - tokens.len()) as nat;
        let ghost none = Seq::<u64>::empty();
        match model.row(&cursor) {
            None => {
                proof {
                    assert(drawn + none =~= drawn);
                    assert(is_run(table, start, drawn + none, max_tokens as nat));
                    assert(walk(table, start, drawn + none) == so_far + walk(table, here, none));
                    assert(so_far + Seq::<Seq<char>>::empty() =~= so_far);
                }
                done = true;
            },
            Some(entry) => {
                let v: u64 = rng.draw();
                proof {
                    drawn = earlier.push(v);
                    assert(before + drawn =~= (before + earlier).push(v));
                }
                match select(entry, v) {
                    None => {
                        proof {
                            let last = seq![v];
                            assert(drawn =~= earlier + last);
                            assert(last.drop_first() =~= none);
                            assert(is_run(table, here, last, room));
                            assert(walk(table, start, earlier + last) == so_far + walk(
                                table,
                                here,
                                last,
                            ));
                            assert(so_far + Seq::<Seq<char>>::empty() =~= so_far);
                        }
                        done = true;
                    },
                    Some(word) => {
                        tokens.push(word.clone());
                        advance(&mut cursor, Some(word.clone()));
                        proof {
                            assert(tokens.deep_view() =~= so_far.push(word@));
                            assert forall|rest: Seq<u64>| #[trigger]
                                walk(table, start, drawn + rest) == tokens.deep_view() + walk(
                                    table,
                                    cursor.deep_view(),
                                    rest,
                                ) by {
                                let longer = seq![v] + rest;
                                let tail = walk(table, slide(here, Some(word@)), rest);
                                assert(drawn + rest =~= earlier + longer);
                                assert(longer.drop_first() =~= rest);
                                assert(so_far + (seq![word@] + tail) =~= so_far.push(word@) + tail);
                            }
                            assert forall|rest: Seq<u64>| #[trigger]
                                is_run(table, start, drawn + rest, max_tokens as nat) == is_run(
                                    table,
                                    cursor.deep_view(),
                                    rest,
                                    (max_tokens - tokens.len()) as nat,
                                ) by {
                                let longer = seq![v] + rest;
                                assert(drawn + rest =~= earlier + longer);
                                assert(longer.drop_first() =~= rest);
                                assert(is_run(table, start, earlier + longer, max_tokens as nat)
                                    == is_run(table, here, longer, room));
                            }
                        }
                    },
                }
            },
        }
    }
    proof {
        let none = Seq::<u64>::empty();
        if !done {
            assert(drawn + none =~= drawn);
            assert(is_run(table, start, drawn + none, max_tokens as nat));
            assert(walk(table, start, drawn + none) == tokens.deep_view() + walk(
                table,
                cursor.deep_view(),
                none,
            ));
            assert(tokens.deep_view() + Seq::<Seq<char>>::empty() =~= tokens.deep_view());
        }
        assert(since(before, rng.handed()) =~= drawn);
    }
    tokens
}

/// The text of the generation with these variates: its tokens, set side by
/// side.
pub open spec fn run_text(table: Table, draws: Seq<u64>) -> Seq<char> {
    joined(walk(table, blank(table.order), draws))
}

/// Whether `text` is the tokens of a generation, set side by side.
pub open spec fn is_generated_text(table: Table, max_tokens: nat, text: Seq<char>) -> bool {
    exists|tokens: Seq<Seq<char>>|
        tokens.len() <= max_tokens && #[trigger] is_generation(table, max_tokens, tokens) && text
            == joined(tokens)
}

/// Generates a text: the tokens of `generate_tokens`, one space between
/// neighbours.
pub fn generate<R: VariateSource>(
    model: &ChainModel,
    rng: &mut R,
    max_tokens: usize,
) -> (text: String)
    requires
        model.wf(),
    ensures
        final(rng).handed() == old(rng).handed() + since(old(rng).handed(), final(rng).handed()),
        is_run(
            model@,
            blank(model@.order),
            since(old(rng).handed(), final(rng).handed()),
            max_tokens as nat,
        ),
        text@ == run_text(model@, since(old(rng).handed(), final(rng).handed())),
        is_generated_text(model@, max_tokens as nat, text@),
{
    let tokens = generate_tokens(model, rng, max_tokens);
    let text = join(&tokens);
    proof {
        assert(is_generation(model@, max_tokens as nat, tokens.deep_view()));
        assert(tokens.deep_view().len() == tokens.len());
    }
    text
}

/// The outcome of a generation that found no acceptable text: every one of
/// the `attempts` texts was turned down.
pub struct Rejected {
    pub attempts: usize,
}

/// Whether a text has at least one character and fewer than `limit`.
pub open spec fn fits_within(text: Seq<char>, limit: nat) -> bool {
    0 < text.len() < limit
}

/// The usual test of a generated text: it is not empty, and it has fewer
/// than `limit` characters.
pub fn fits(text: &str, limit: usize) -> (ok: bool)
    ensures
        ok == fits_within(text@, limit as nat),
{
    let n: usize = text.unicode_len();
    0 < n && n < limit
}

/// Whether `accept` gave this verdict on the text.
pub open spec fn judged<P: Fn(&str) -> bool>(accept: P, text: Seq<char>, verdict: bool) -> bool {
    exists|candidate: &str|
        candidate@ == text && #[trigger] call_ensures(accept, (candidate,), verdict)
}

/// The variates of several generations, set end to end.
pub open spec fn flat(parts: Seq<Seq<u64>>) -> Seq<u64>
    decreases parts.len(),
{
    if parts.len() == 0 {
        Seq::empty()
    } else {
        flat(parts.drop_last()) + parts.last()
    }
}

/// Whether `parts` are the variates of the generations of one trial, one
/// part for each generation in turn, and `accepted` its outcome. Each part
/// is one whole generation. The text of every generation but the last was
/// turned down. Where a text was accepted, it is that of the last
/// generation, and no more than `attempts` were made; where none was, the
/// last text was turned down too, and exactly `attempts` were made.
pub open spec fn is_trial<P: Fn(&str) -> bool>(
    table: Table,
    max_tokens: nat,
    attempts: nat,
    accept: P,
    parts: Seq<Seq<u64>>,
    accepted: Option<Seq<char>>,
) -> bool {
    &&& forall|i: int|
        0 <= i < parts.len() ==> is_run(table, blank(table.order), #[trigger] parts[i], max_tokens)
    &&& forall|i: int|
        0 <= i < parts.len() - 1 ==> judged(accept, run_text(table, #[trigger] parts[i]), false)
    &&& match accepted {
        Some(text) => {
            &&& 0 < parts.len() <= attempts
            &&& text == run_text(table, parts.last())
            &&& judged(accept, text, true)
        },
        None => {
            &&& parts.len() == attempts
            &&& parts.len() > 0 ==> judged(accept, run_text(table, parts.last()), false)
        },
    }
}

/// Whether a source whose record went from `before` to `after` handed out
/// just the variates of one trial with this outcome: those of its
/// generations, set end to end.
pub open spec fn is_trial_between<P: Fn(&str) -> bool>(
    table: Table,
    max_tokens: nat,
    attempts: nat,
    accept: P,
    before: Seq<u64>,
    after: Seq<u64>,
    accepted: Option<Seq<char>>,
) -> bool {
    exists|parts: Seq<Seq<u64>>|
        after == before + flat(parts) && #[trigger] is_trial(
            table,
            max_tokens,
            attempts,
            accept,
            parts,
            accepted,
        )
}

/// The text that an outcome holds, if it holds one.
pub open spec fn accepted_text(outcome: Result<String, Rejected>) -> Option<Seq<char>> {
    match outcome {
        Ok(text) => Some(text@),
        Err(_) => None,
    }
}

/// Generates texts, one after the other, until `accept` takes one, and
/// returns that one. After `attempts` texts that were all turned down, or
/// where `attempts` is zero, the outcome is `Rejected`.
///
/// The variates that `rng` hands out during the call are those of the
/// generations, set end to end: every generated text is judged, and none
/// is generated after the one that is taken.
pub fn generate_accepted<R: VariateSource, P: Fn(&str) -> bool>(
    model: &ChainModel,
    rng: &mut R,
    max_tokens: usize,
    attempts: usize,
    accept: P,
) -> (outcome: Result<String, Rejected>)
    requires
        model.wf(),
        forall|candidate: &str| call_requires(accept, (candidate,)),
    ensures
        outcome matches Err(rejected) ==> rejected.attempts == attempts,
        outcome matches Ok(text) ==> is_generated_text(model@, max_tokens as nat, text@),
        is_trial_between(
            model@,
            max_tokens as nat,
            attempts as nat,
            accept,
            old(rng).handed(),
            final(rng).handed(),
            accepted_text(outcome),
        ),
{
    let ghost table = model@;
    let ghost before = rng.handed();
    let ghost mut parts: Seq<Seq<u64>> = Seq::empty();
    let mut tried: usize = 0;
    proof {
        assert(before + flat(parts) =~= before);
    }
    while tried < attempts
        invariant
            tried <= attempts,
            model.wf(),
            table == model@,
            forall|candidate: &str| call_requires(accept, (candidate,)),
            parts.len() == tried,
            before == old(rng).handed(),
            rng.handed() == before + flat(parts),
            forall|i: int|
                0 <= i < parts.len() ==> is_run(
                    table,
                    blank(table.order),
                    #[trigger] parts[i],
                    max_tokens as nat,
                ),
            forall|i: int|
                0 <= i < parts.len() ==> judged(accept, run_text(table, #[trigger] parts[i]), false),
        decreases attempts - tried,
    {
        let ghost earlier = parts;
        let ghost reached = rng.handed();
        let text = generate(model, rng, max_tokens);
        let candidate: &str = text.as_str();
        let taken = accept(candidate);
        proof {
            let part = since(reached, rng.handed());
            parts = earlier.push(part);
            assert(parts.drop_last() =~= earlier);
            assert(before + flat(parts) =~= (before + flat(earlier)) + part);
            assert(call_ensures(accept, (candidate,), taken));
            assert(judged(accept, run_text(table, part), taken));
            assert forall|i: int| 0 <= i < parts.len() implies is_run(
                table,
                blank(table.order),
                #[trigger] parts[i],
                max_tokens as nat,
            ) by {
                if i < earlier.len() {
                    assert(parts[i] == earlier[i]);
                }
            }
            assert forall|i: int| 0 <= i < parts.len() - 1 implies judged(
                accept,
                run_text(table, #[trigger] parts[i]),
                false,
            ) by {
                assert(parts[i] == earlier[i]);
            }
        }
        if taken {
            let outcome: Result<String, Rejected> = Ok(text);
            proof {
                assert(rng.handed() == before + flat(parts));
                assert(accepted_text(outcome) == Some(text@));
                assert(is_trial(
                    table,
                    max_tokens as nat,
                    attempts as nat,
                    accept,
                    parts,
                    accepted_text(outcome),
                ));
            }
            return outcome;
        }
        tried += 1;
    }
    proof {
        assert(is_trial(table, max_tokens as nat, attempts as nat, accept, parts, None));
    }
    Err(Rejected { attempts })
}

} // verus!
