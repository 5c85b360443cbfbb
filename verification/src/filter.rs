//! Which messages a chain learns from.

use crate::store::ChainStore;
use crate::token::{chars_of, tokens_of};
use vstd::prelude::*;

verus! {

/// Whether `text` begins with `prefix`.
pub fn starts_with(text: &str, prefix: &str) -> (found: bool)
    ensures
        found == prefix@.is_prefix_of(text@),
{
    let have = chars_of(text);
    let want = chars_of(prefix);
    if want.len() > have.len() {
        return false;
    }
    let mut i: usize = 0;
    while i < want.len()
        invariant
            i <= want.len() <= have.len(),
            have@ == text@,
            want@ == prefix@,
            forall|j: int| 0 <= j < i ==> have@[j] == want@[j],
        decreases want.len() - i,
    {
        if have[i] != want[i] {
            return false;
        }
        i += 1;
    }
    true
}

/// The rule by which messages are admitted to training. Each part may be
/// left out.
pub struct Eligibility {
    /// The author whose messages are never admitted: the account that
    /// answers.
    pub own: Option<u64>,
    /// Messages that begin with this are commands, and not admitted.
    pub command_prefix: Option<String>,
    /// Messages that begin with this address the account that answers, and
    /// are not admitted.
    pub mention: Option<String>,
}

/// Whether a text begins with a marker that is set.
pub open spec fn marked(marker: Option<String>, content: Seq<char>) -> bool {
    match marker {
        Some(m) => m@.is_prefix_of(content),
        None => false,
    }
}

impl Eligibility {
    /// Whether the rule admits a message of `author` with this content: the
    /// author is not the excluded one, and the content begins with neither
    /// marker.
    pub open spec fn allows(&self, author: u64, content: Seq<char>) -> bool {
        &&& self.own != Some(author)
        &&& !marked(self.command_prefix, content)
        &&& !marked(self.mention, content)
    }

    /// Whether the rule admits a message of `author` with this content.
    pub fn admits(&self, author: u64, content: &str) -> (admitted: bool)
        ensures
            admitted == self.allows(author, content@),
    {
        if let Some(own) = self.own {
            if own == author {
                return false;
            }
        }
        if let Some(prefix) = &self.command_prefix {
            if starts_with(content, prefix.as_str()) {
                return false;
            }
        }
        if let Some(mention) = &self.mention {
            if starts_with(content, mention.as_str()) {
                return false;
            }
        }
        true
    }
}

/// What became of a message.
#[derive(Clone, Copy, Debug, PartialEq, Eq, Structural)]
pub enum Intake {
    /// The rule did not admit the message; nothing was learned.
    Skipped,
    /// The chain of the author was trained on the message.
    Learned,
    /// The chain of the author has no room for the message; it stays as it
    /// was.
    Full,
}

/// Takes a message in: where the rule admits it, the chain of its author
/// learns from it, and is created for that where the author has none.
pub fn on_message(
    store: &mut ChainStore,
    rule: &Eligibility,
    author: u64,
    content: &str,
) -> (intake: Intake)
    requires
        old(store).wf(),
    ensures
        final(store).wf(),
        final(store).chain_order() == old(store).chain_order(),
        !rule.allows(author, content@) ==> intake == Intake::Skipped && final(store)@
            == old(store)@,
        rule.allows(author, content@) ==> {
            let before = old(store).table_of(author);
            let tokens = tokens_of(content@);
            let room = tokens.len() == 0 || before.weight() + tokens.len() + 1 <= u64::MAX;
            &&& intake == if room {
                Intake::Learned
            } else {
                Intake::Full
            }
            &&& final(store)@ == old(store)@.insert(
                author,
                if room {
                    before.trained(tokens)
                } else {
                    before
                },
            )
        },
{
    if !rule.admits(author, content) {
        return Intake::Skipped;
    }
    if store.learn(author, content) {
        Intake::Learned
    } else {
        Intake::Full
    }
}

} // verus!
