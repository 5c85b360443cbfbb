//! The decisions of the music module: what a chat message asks of it, and
//! when it leaves a voice channel. Playing and leaving are done elsewhere.

use crate::token::chars_of;
use vstd::prelude::*;

verus! {

/// The number of characters before the first space of a text, or the length
/// of the text where it has no space.
pub open spec fn until_space(text: Seq<char>) -> nat
    decreases text.len(),
{
    if text.len() == 0 || text[0] == ' ' {
        0
    } else {
        1 + until_space(text.drop_first())
    }
}

/// The first field of a text that is split at each space.
pub open spec fn first_field(text: Seq<char>) -> Seq<char> {
    text.take(until_space(text) as int)
}

/// What stands behind the first space of a text: nothing, where it has no
/// space.
pub open spec fn behind_first(text: Seq<char>) -> Seq<char> {
    if until_space(text) < text.len() {
        text.skip(until_space(text) as int + 1)
    } else {
        Seq::empty()
    }
}

/// The second field of a text that is split at each space: empty, where
/// the text has one field only.
pub open spec fn second_field(text: Seq<char>) -> Seq<char> {
    first_field(behind_first(text))
}

/// The code of a character, with the ASCII capitals taken as small letters.
pub open spec fn folded(c: char) -> u32 {
    if 'A' <= c <= 'Z' {
        (c as u32 + 32) as u32
    } else {
        c as u32
    }
}

/// Whether two texts are the same but for the case of ASCII letters.
pub open spec fn same_folded(a: Seq<char>, b: Seq<char>) -> bool {
    &&& a.len() == b.len()
    &&& forall|i: int| 0 <= i < a.len() ==> folded(#[trigger] a[i]) == folded(b[i])
}

/// What the module is asked to do.
pub enum DjAction {
    /// Nothing.
    Ignore,
    /// Stop what is playing.
    Stop,
    /// Leave the voice channel.
    Quit,
    /// Join the user's voice channel and play what the argument names.
    Play(String),
    /// Tell the user to join a voice channel first.
    Refuse,
}

/// What the module is asked to do, with the text of what to play.
pub enum Wish {
    /// Nothing.
    Ignore,
    /// Stop what is playing.
    Stop,
    /// Leave the voice channel.
    Quit,
    /// Play what the text names.
    Play(Seq<char>),
    /// Tell the user to join a voice channel first.
    Refuse,
}

impl View for DjAction {
    type V = Wish;

    open spec fn view(&self) -> Wish {
        match self {
            DjAction::Ignore => Wish::Ignore,
            DjAction::Stop => Wish::Stop,
            DjAction::Quit => Wish::Quit,
            DjAction::Play(what) => Wish::Play(what@),
            DjAction::Refuse => Wish::Refuse,
        }
    }
}

/// What a message asks of the module.
///
/// A message of the module's own, and one whose first field is not `!dj`
/// in any case of letters, asks nothing. After `!dj`, the second field is
/// `stop` or `quit`, which count only for a user in a voice channel, or it
/// names what to play, which is refused for a user in none.
pub open spec fn action_of(own: bool, in_voice: bool, content: Seq<char>) -> Wish {
    if own || !same_folded(first_field(content), seq!['!', 'd', 'j']) {
        Wish::Ignore
    } else if same_folded(second_field(content), seq!['s', 't', 'o', 'p']) {
        if in_voice {
            Wish::Stop
        } else {
            Wish::Ignore
        }
    } else if same_folded(second_field(content), seq!['q', 'u', 'i', 't']) {
        if in_voice {
            Wish::Quit
        } else {
            Wish::Ignore
        }
    } else if in_voice {
        Wish::Play(second_field(content))
    } else {
        Wish::Refuse
    }
}

/// The first space of a text is as far as the characters before it are no
/// spaces.
proof fn lemma_until_space_is(text: Seq<char>, m: int)
    requires
        0 <= m <= text.len(),
        forall|k: int| 0 <= k < m ==> #[trigger] text[k] != ' ',
        m < text.len() ==> text[m] == ' ',
    ensures
        until_space(text) == m,
    decreases text.len(),
{
    if m > 0 {
        let rest = text.drop_first();
        lemma_until_space_is(rest, m - 1);
    }
}

/// The position of the first space at or behind `from`, or the length.
fn field_end(chars: &Vec<char>, from: usize) -> (end: usize)
    requires
        from <= chars.len(),
    ensures
        from <= end <= chars.len(),
        end - from == until_space(chars@.skip(from as int)),
{
    let mut end: usize = from;
    while end < chars.len() && chars[end] != ' '
        invariant
            from <= end <= chars.len(),
            forall|k: int| from <= k < end ==> #[trigger] chars@[k] != ' ',
        decreases chars.len() - end,
    {
        end += 1;
    }
    proof {
        let tail = chars@.skip(from as int);
        lemma_until_space_is(tail, end - from);
    }
    end
}

/// The code of a character, with the ASCII capitals taken as small letters.
fn fold(c: char) -> (code: u32)
    ensures
        code == folded(c),
{
    if 'A' <= c && c <= 'Z' {
        c as u32 + 32
    } else {
        c as u32
    }
}

/// Whether the characters from `from` to `to` are `word` but for the case
/// of ASCII letters.
fn field_is(chars: &Vec<char>, from: usize, to: usize, word: &Vec<char>) -> (same: bool)
    requires
        from <= to <= chars.len(),
    ensures
        same == same_folded(chars@.subrange(from as int, to as int), word@),
{
    let ghost field = chars@.subrange(from as int, to as int);
    if to - from != word.len() {
        return false;
    }
    let mut i: usize = 0;
    while i < word.len()
        invariant
            i <= word.len(),
            from <= to <= chars.len(),
            to - from == word.len(),
            field == chars@.subrange(from as int, to as int),
            forall|k: int| 0 <= k < i ==> folded(#[trigger] field[k]) == folded(word@[k]),
        decreases word.len() - i,
    {
        if fold(chars[from + i]) != fold(word[i]) {
            assert(field[i as int] == chars@[from + i]);
            return false;
        }
        i += 1;
    }
    true
}

/// The music module.
#[derive(Debug)]
pub struct Dj;

impl Dj {
    /// The name by which the module is known among the modules.
    pub fn get_name(&self) -> (name: &'static str)
        ensures
            name@ == seq!['d', 'j'],
    {
        proof {
            reveal_strlit("dj");
        }
        "dj"
    }

    /// What a message asks of the module: `own` tells whether the module's
    /// own account wrote it, `in_voice` whether its author is in a voice
    /// channel.
    pub fn on_message(&self, own: bool, in_voice: bool, content: &str) -> (action: DjAction)
        ensures
            action@ == action_of(own, in_voice, content@),
    {
        if own {
            return DjAction::Ignore;
        }
        let chars = chars_of(content);
        let bang: Vec<char> = vec!['!', 'd', 'j'];
        let stop: Vec<char> = vec!['s', 't', 'o', 'p'];
        let quit: Vec<char> = vec!['q', 'u', 'i', 't'];
        proof {
            assert(content@.skip(0) =~= content@);
        }
        let first_end = field_end(&chars, 0);
        if !field_is(&chars, 0, first_end, &bang) {
            return DjAction::Ignore;
        }
        let from: usize = if first_end < chars.len() {
            first_end + 1
        } else {
            first_end
        };
        let to = field_end(&chars, from);
        proof {
            assert(chars@.subrange(from as int, to as int) =~= second_field(content@));
        }
        if field_is(&chars, from, to, &stop) {
            if in_voice {
                DjAction::Stop
            } else {
                DjAction::Ignore
            }
        } else if field_is(&chars, from, to, &quit) {
            if in_voice {
                DjAction::Quit
            } else {
                DjAction::Ignore
            }
        } else if in_voice {
            DjAction::Play(content.substring_char(from, to).to_owned())
        } else {
            DjAction::Refuse
        }
    }

    /// Whether the module leaves its voice channel after someone has moved
    /// or hung up: it does where at most one listener is left in the
    /// channel, which is the module itself.
    pub fn should_leave(&self, listeners: usize) -> (leave: bool)
        ensures
            leave == (listeners <= 1),
    {
        listeners <= 1
    }
}

} // verus!
