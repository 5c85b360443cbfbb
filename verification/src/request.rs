//! Answering a request for text in a user's style.

use crate::sample::{
    accepted_text, fits, fits_within, flat, generate_accepted, is_generated_text, is_run,
    is_trial, judged, run_text, VariateSource,
};
use crate::store::ChainStore;
use crate::table::{blank, Table};
use crate::token::chars_of;
use vstd::prelude::*;

verus! {

/// The order of the chains where nothing else is configured.
pub const CHAIN_ORDER_DEFAULT: usize = 1;

/// The most texts that one request may ask for.
pub const MAX_GENERATE_MESSAGES: usize = 5;

/// The most attempts that are spent on one text.
pub const MAX_GENERATE_TRIES: usize = 10;

/// A text must have fewer characters than this.
pub const MAX_MESSAGE_CHARS: usize = 2000;

/// The most tokens of one text. A text of more tokens could not have fewer
/// than `MAX_MESSAGE_CHARS` characters.
pub const MAX_MESSAGE_TOKENS: usize = 1000;

/// The bounds under which a request is answered.
pub struct Limits {
    /// The most texts that one request may ask for.
    pub max_messages: usize,
    /// The most attempts that are spent on one text.
    pub max_tries: usize,
    /// A text must have fewer characters than this.
    pub max_chars: usize,
    /// The most tokens of one text.
    pub max_tokens: usize,
}

impl Default for Limits {
    fn default() -> (limits: Limits)
        ensures
            limits.max_messages == MAX_GENERATE_MESSAGES,
            limits.max_tries == MAX_GENERATE_TRIES,
            limits.max_chars == MAX_MESSAGE_CHARS,
            limits.max_tokens == MAX_MESSAGE_TOKENS,
    {
        Limits {
            max_messages: MAX_GENERATE_MESSAGES,
            max_tries: MAX_GENERATE_TRIES,
            max_chars: MAX_MESSAGE_CHARS,
            max_tokens: MAX_MESSAGE_TOKENS,
        }
    }
}

/// Whose style a request asks for.
#[derive(Clone, Copy, Debug, PartialEq, Eq, Structural)]
pub enum Target {
    /// The style of the user who asks.
    Me,
    /// The style of the named user.
    User(u64),
}

/// The user that a target names, seen from the user who asks.
pub open spec fn target_user(requester: u64, target: Target) -> u64 {
    match target {
        Target::Me => requester,
        Target::User(user) => user,
    }
}

/// The user that a target names, seen from the user who asks.
pub fn resolve_target(requester: u64, target: &Target) -> (user: u64)
    ensures
        user == target_user(requester, *target),
{
    match target {
        Target::Me => requester,
        Target::User(user) => *user,
    }
}

/// The word by which users ask for their own style.
pub open spec fn own_word() -> Seq<char> {
    seq!['m', 'e']
}

/// The target that a word names where it is no mention of a user: the word
/// `me` names the user who asks, any other word names nobody.
pub fn target_of_word(word: &str) -> (target: Option<Target>)
    ensures
        word@ == own_word() ==> target == Some(Target::Me),
        word@ != own_word() ==> target is None,
{
    let chars = chars_of(word);
    if chars.len() == 2 && chars[0] == 'm' && chars[1] == 'e' {
        assert(word@ =~= own_word());
        Some(Target::Me)
    } else {
        None
    }
}

/// What a request's count of texts comes to.
#[derive(PartialEq, Eq, Structural)]
pub enum CountChoice {
    /// So many texts are generated.
    Generate(usize),
    /// The request asked for no text.
    Zero,
    /// The request asked for more texts than are allowed.
    TooMany,
}

/// What a requested count comes to under the bound `max`: a request that
/// names no count asks for one text.
pub open spec fn count_choice(requested: Option<usize>, max: usize) -> CountChoice {
    match requested {
        None => CountChoice::Generate(1),
        Some(n) => if n == 0 {
            CountChoice::Zero
        } else if n <= max {
            CountChoice::Generate(n)
        } else {
            CountChoice::TooMany
        },
    }
}

/// What a requested count comes to under the bound `max`.
pub fn choose_count(requested: Option<usize>, max: usize) -> (choice: CountChoice)
    ensures
        choice == count_choice(requested, max),
{
    match requested {
        None => CountChoice::Generate(1),
        Some(n) => if n == 0 {
            CountChoice::Zero
        } else if n <= max {
            CountChoice::Generate(n)
        } else {
            CountChoice::TooMany
        },
    }
}

/// Whether nothing is recorded for a user: the user has no chain, or one
/// that has seen nothing.
pub open spec fn has_no_data(store: &ChainStore, user: u64) -> bool {
    store.table_of(user).rows.len() == 0
}

/// The answer to a request for one text.
pub enum Reply {
    /// A generated text within the bounds.
    Text(String),
    /// The user has no chain, or one that has seen nothing.
    NoData,
    /// Every attempt gave a text outside the bounds.
    Exhausted,
}

/// The text that a reply holds, if it holds one.
pub open spec fn reply_text(reply: Reply) -> Option<Seq<char>> {
    match reply {
        Reply::Text(text) => Some(text@),
        _ => None,
    }
}

/// Whether `parts` are the variates of the generations behind one reply,
/// one part for each generation in turn, and `text` the text of the reply.
/// Each part is one whole generation under `limits.max_tokens`. The text of
/// every generation but the last does not fit `limits.max_chars`. Where the
/// reply holds a text, it is that of the last generation and fits, and no
/// more than `limits.max_tries` generations were made; where it holds none,
/// the last text does not fit either, and exactly `limits.max_tries` were
/// made.
pub open spec fn is_fit_trial(
    table: Table,
    limits: &Limits,
    parts: Seq<Seq<u64>>,
    text: Option<Seq<char>>,
) -> bool {
    &&& forall|i: int|
        0 <= i < parts.len() ==> is_run(
            table,
            blank(table.order),
            #[trigger] parts[i],
            limits.max_tokens as nat,
        )
    &&& forall|i: int|
        0 <= i < parts.len() - 1 ==> !fits_within(
            run_text(table, #[trigger] parts[i]),
            limits.max_chars as nat,
        )
    &&& match text {
        Some(text) => {
            &&& 0 < parts.len() <= limits.max_tries
            &&& text == run_text(table, parts.last())
            &&& fits_within(text, limits.max_chars as nat)
        },
        None => {
            &&& parts.len() == limits.max_tries
            &&& parts.len() > 0 ==> !fits_within(
                run_text(table, parts.last()),
                limits.max_chars as nat,
            )
        },
    }
}

/// Whether a source whose record went from `before` to `after` handed out
/// just the variates behind one reply with this text: those of its
/// generations, set end to end.
pub open spec fn is_fit_trial_between(
    table: Table,
    limits: &Limits,
    before: Seq<u64>,
    after: Seq<u64>,
    text: Option<Seq<char>>,
) -> bool {
    exists|parts: Seq<Seq<u64>>|
        after == before + flat(parts) && #[trigger] is_fit_trial(table, limits, parts, text)
}

/// Generates one text in the style of `user`.
///
/// A user without a chain, or with an empty one, gets `NoData`, and no
/// variate is drawn for it. Any other user gets the first of up to
/// `limits.max_tries` generated texts that has at least one character and
/// fewer than `limits.max_chars`, or `Exhausted` where none has. The
/// variates that `rng` hands out during the call are those of these
/// generations, set end to end.
pub fn speak<R: VariateSource>(
    store: &ChainStore,
    user: u64,
    rng: &mut R,
    limits: &Limits,
) -> (reply: Reply)
    requires
        store.wf(),
    ensures
        reply is NoData <==> has_no_data(store, user),
        reply is NoData ==> *final(rng) == *old(rng),
        reply matches Reply::Text(text) ==> is_generated_text(
            store.table_of(user),
            limits.max_tokens as nat,
            text@,
        ),
        !(reply is NoData) ==> is_fit_trial_between(
            store.table_of(user),
            limits,
            old(rng).handed(),
            final(rng).handed(),
            reply_text(reply),
        ),
{
    match store.get(user) {
        None => Reply::NoData,
        Some(model) => {
            if model.is_empty() {
                return Reply::NoData;
            }
            let limit: usize = limits.max_chars;
            let accept = |candidate: &str| -> (ok: bool)
                ensures
                    ok == fits_within(candidate@, limit as nat),
                { fits(candidate, limit) };
            let ghost before = rng.handed();
            let outcome = generate_accepted(
                model,
                rng,
                limits.max_tokens,
                limits.max_tries,
                accept,
            );
            proof {
                let table = model@;
                let text = accepted_text(outcome);
                let parts = choose|parts: Seq<Seq<u64>>|
                    rng.handed() == before + flat(parts) && #[trigger] is_trial(
                        table,
                        limits.max_tokens as nat,
                        limits.max_tries as nat,
                        accept,
                        parts,
                        text,
                    );
                assert forall|i: int| 0 <= i < parts.len() - 1 implies !fits_within(
                    run_text(table, #[trigger] parts[i]),
                    limits.max_chars as nat,
                ) by {
                    assert(judged(accept, run_text(table, parts[i]), false));
                }
                if text is None && parts.len() > 0 {
                    assert(judged(accept, run_text(table, parts.last()), false));
                }
                if text is Some {
                    assert(judged(accept, text->0, true));
                }
                assert(is_fit_trial(table, limits, parts, text));
                assert(is_fit_trial_between(table, limits, before, rng.handed(), text));
            }
            match outcome {
                Ok(text) => Reply::Text(text),
                Err(_) => Reply::Exhausted,
            }
        },
    }
}

/// The variates of several trials, set end to end.
pub open spec fn flat_all(trials: Seq<Seq<Seq<u64>>>) -> Seq<u64>
    decreases trials.len(),
{
    if trials.len() == 0 {
        Seq::empty()
    } else {
        flat_all(trials.drop_last()) + flat(trials.last())
    }
}

/// Whether `trials` are the variates behind the replies, one trial for each
/// reply in turn: none of the replies is `NoData`, and each is the outcome
/// of its trial.
pub open spec fn are_replies(
    table: Table,
    limits: &Limits,
    trials: Seq<Seq<Seq<u64>>>,
    replies: Seq<Reply>,
) -> bool {
    &&& trials.len() == replies.len()
    &&& forall|k: int|
        0 <= k < replies.len() ==> !(#[trigger] replies[k] is NoData) && is_fit_trial(
            table,
            limits,
            trials[k],
            reply_text(replies[k]),
        )
}

/// Whether a source whose record went from `before` to `after` handed out
/// just the variates behind the replies: those of their trials, set end to
/// end.
pub open spec fn account_for(
    table: Table,
    limits: &Limits,
    before: Seq<u64>,
    after: Seq<u64>,
    replies: Seq<Reply>,
) -> bool {
    exists|trials: Seq<Seq<Seq<u64>>>|
        after == before + flat_all(trials) && #[trigger] are_replies(
            table,
            limits,
            trials,
            replies,
        )
}

/// The answer to a whole request.
pub enum Response {
    /// One reply for each text that was asked for.
    Replies(Vec<Reply>),
    /// Nothing is recorded for the user; `own` tells whether the user who
    /// asked is the one who was asked about.
    NoData { own: bool },
    /// The request asked for no text.
    ZeroRequested,
    /// The request asked for more texts than are allowed.
    TooManyRequested,
}

/// Answers a request of `requester` for `requested` texts in the style of
/// `target`.
///
/// The count is judged first, by `count_choice` under
/// `limits.max_messages`. Then a user without data gets one `NoData`, and
/// any other user one reply of `speak` for each text, in turn. The variates
/// that `rng` hands out during the call are those behind the replies, set
/// end to end.
pub fn respond<R: VariateSource>(
    store: &ChainStore,
    requester: u64,
    target: &Target,
    requested: Option<usize>,
    rng: &mut R,
    limits: &Limits,
) -> (response: Response)
    requires
        store.wf(),
    ensures
        response is ZeroRequested <==> count_choice(requested, limits.max_messages) is Zero,
        response is TooManyRequested <==> count_choice(requested, limits.max_messages)
            is TooMany,
        response is NoData <==> count_choice(requested, limits.max_messages) is Generate
            && has_no_data(store, target_user(requester, *target)),
        response matches Response::NoData { own } ==> own == (target_user(requester, *target)
            == requester),
        !(response is Replies) ==> *final(rng) == *old(rng),
        response matches Response::Replies(replies) ==> {
            &&& count_choice(requested, limits.max_messages) == CountChoice::Generate(
                replies.len(),
            )
            &&& account_for(
                store.table_of(target_user(requester, *target)),
                limits,
                old(rng).handed(),
                final(rng).handed(),
                replies@,
            )
        },
{
    let n: usize = match choose_count(requested, limits.max_messages) {
        CountChoice::Zero => {
            return Response::ZeroRequested;
        },
        CountChoice::TooMany => {
            return Response::TooManyRequested;
        },
        CountChoice::Generate(n) => n,
    };
    let user = resolve_target(requester, target);
    let known = match store.get(user) {
        None => false,
        Some(model) => !model.is_empty(),
    };
    if !known {
        return Response::NoData { own: user == requester };
    }
    let ghost table = store.table_of(user);
    let ghost before = rng.handed();
    let ghost mut trials: Seq<Seq<Seq<u64>>> = Seq::empty();
    let mut replies: Vec<Reply> = Vec::new();
    let mut k: usize = 0;
    proof {
        assert(before + flat_all(trials) =~= before);
    }
    while k < n
        invariant
            k <= n,
            store.wf(),
            !has_no_data(store, user),
            table == store.table_of(user),
            replies.len() == k,
            rng.handed() == before + flat_all(trials),
            are_replies(table, limits, trials, replies@),
        decreases n - k,
    {
        let ghost reached = rng.handed();
        let ghost earlier = trials;
        let ghost answered = replies@;
        let reply = speak(store, user, rng, limits);
        proof {
            let parts = choose|parts: Seq<Seq<u64>>|
                rng.handed() == reached + flat(parts) && #[trigger] is_fit_trial(
                    table,
                    limits,
                    parts,
                    reply_text(reply),
                );
            trials = earlier.push(parts);
            assert(trials.drop_last() =~= earlier);
            assert(before + flat_all(trials) =~= (before + flat_all(earlier)) + flat(parts));
        }
        replies.push(reply);
        proof {
            assert forall|j: int| 0 <= j < replies@.len() implies !(#[trigger] replies@[j]
                is NoData) && is_fit_trial(table, limits, trials[j], reply_text(replies@[j])) by {
                if j < answered.len() {
                    assert(replies@[j] == answered[j]);
                    assert(trials[j] == earlier[j]);
                }
            }
        }
        k += 1;
    }
    proof {
        assert(are_replies(table, limits, trials, replies@));
        assert(account_for(table, limits, before, rng.handed(), replies@));
    }
    Response::Replies(replies)
}

} // verus!
