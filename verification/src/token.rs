//! Splitting text into tokens, and joining tokens back into text.

use vstd::prelude::*;

verus! {

/// The characters that separate tokens: the code points with the Unicode
/// property `White_Space`.
pub open spec fn is_space(c: char) -> bool {
    let n = c as u32;
    ||| 0x09 <= n <= 0x0D
    ||| n == 0x20
    ||| n == 0x85
    ||| n == 0xA0
    ||| n == 0x1680
    ||| 0x2000 <= n <= 0x200A
    ||| n == 0x2028
    ||| n == 0x2029
    ||| n == 0x202F
    ||| n == 0x205F
    ||| n == 0x3000
}

/// Length of the longest prefix of `text` that holds no separator.
pub open spec fn word_len(text: Seq<char>) -> nat
    decreases text.len(),
{
    if text.len() == 0 || is_space(text[0]) {
        0
    } else {
        1 + word_len(text.drop_first())
    }
}

/// The tokens of a text: its maximal runs of characters that are not
/// separators, in order.
pub open spec fn tokens_of(text: Seq<char>) -> Seq<Seq<char>>
    decreases text.len(),
{
    if text.len() == 0 {
        Seq::empty()
    } else if is_space(text[0]) {
        tokens_of(text.drop_first())
    } else {
        let n = word_len(text);
        if 0 < n <= text.len() {
            seq![text.take(n as int)] + tokens_of(text.skip(n as int))
        } else {
            Seq::empty()
        }
    }
}

/// A token as the tokenizer yields it: not empty, and free of separators.
pub open spec fn is_word(token: Seq<char>) -> bool {
    &&& token.len() > 0
    &&& forall|i: int| 0 <= i < token.len() ==> !is_space(#[trigger] token[i])
}

/// Whether a character separates tokens.
pub fn is_whitespace(c: char) -> (b: bool)
    ensures
        b == is_space(c),
{
    let n: u32 = c as u32;
    (0x09 <= n && n <= 0x0D) || n == 0x20 || n == 0x85 || n == 0xA0 || n == 0x1680 || (0x2000 <= n
        && n <= 0x200A) || n == 0x2028 || n == 0x2029 || n == 0x202F || n == 0x205F || n == 0x3000
}

/// The run of non-separators at the head of a text lies within the text,
/// holds no separator, and ends at a separator or at the end of the text.
pub proof fn lemma_word_len_bounds(text: Seq<char>)
    ensures
        word_len(text) <= text.len(),
        forall|i: int| 0 <= i < word_len(text) ==> !is_space(#[trigger] text[i]),
        word_len(text) < text.len() ==> is_space(text[word_len(text) as int]),
        text.len() > 0 && !is_space(text[0]) ==> word_len(text) > 0,
    decreases text.len(),
{
    if text.len() > 0 && !is_space(text[0]) {
        let rest = text.drop_first();
        lemma_word_len_bounds(rest);
        assert forall|i: int| 0 <= i < word_len(text) implies !is_space(#[trigger] text[i]) by {
            if i > 0 {
                assert(text[i] == rest[i - 1]);
            }
        }
    }
}

/// The run of non-separators at the head of a text is as long as its first
/// separator is far, or as the text where it has none.
pub proof fn lemma_word_len_is(text: Seq<char>, m: int)
    requires
        0 <= m <= text.len(),
        forall|k: int| 0 <= k < m ==> !is_space(#[trigger] text[k]),
        m < text.len() ==> is_space(text[m]),
    ensures
        word_len(text) == m,
    decreases text.len(),
{
    if m > 0 {
        let rest = text.drop_first();
        lemma_word_len_is(rest, m - 1);
    }
}

/// Every token is a word.
pub proof fn lemma_tokens_are_words(text: Seq<char>)
    ensures
        forall|i: int| 0 <= i < tokens_of(text).len() ==> is_word(#[trigger] tokens_of(text)[i]),
    decreases text.len(),
{
    if text.len() > 0 && is_space(text[0]) {
        lemma_tokens_are_words(text.drop_first());
        assert(tokens_of(text) == tokens_of(text.drop_first()));
    } else if text.len() > 0 {
        lemma_word_len_bounds(text);
        let n = word_len(text);
        lemma_tokens_are_words(text.skip(n as int));
        assert forall|i: int| 0 <= i < tokens_of(text).len() implies is_word(
            #[trigger] tokens_of(text)[i],
        ) by {
            if i > 0 {
                assert(tokens_of(text)[i] == tokens_of(text.skip(n as int))[i - 1]);
            }
        }
    }
}

/// The tokens set side by side, one space between neighbours.
pub open spec fn joined(tokens: Seq<Seq<char>>) -> Seq<char>
    decreases tokens.len(),
{
    if tokens.len() == 0 {
        Seq::empty()
    } else if tokens.len() == 1 {
        tokens[0]
    } else {
        tokens[0] + seq![' '] + joined(tokens.drop_first())
    }
}

/// A token set behind others is joined to them by one space.
pub proof fn lemma_joined_push(tokens: Seq<Seq<char>>, last: Seq<char>)
    ensures
        joined(tokens.push(last)) == if tokens.len() == 0 {
            last
        } else {
            joined(tokens) + seq![' '] + last
        },
    decreases tokens.len(),
{
    let all = tokens.push(last);
    if tokens.len() == 1 {
        let rest = all.drop_first();
        assert(joined(all) == all[0] + seq![' '] + joined(rest));
    } else if tokens.len() > 1 {
        let rest = tokens.drop_first();
        assert(all.drop_first() =~= rest.push(last));
        lemma_joined_push(rest, last);
    }
}

/// Splitting what was joined gives the tokens back, where each is a word.
pub proof fn lemma_tokens_of_joined(tokens: Seq<Seq<char>>)
    requires
        forall|i: int| 0 <= i < tokens.len() ==> is_word(#[trigger] tokens[i]),
    ensures
        tokens_of(joined(tokens)) == tokens,
    decreases tokens.len(),
{
    let text = joined(tokens);
    if tokens.len() == 1 {
        let n = tokens[0].len() as int;
        lemma_word_len_is(text, n);
        assert(text.take(n) =~= tokens[0]);
        assert(tokens_of(text) == seq![text.take(n)] + tokens_of(text.skip(n)));
    } else if tokens.len() > 1 {
        let n = tokens[0].len() as int;
        let rest = tokens.drop_first();
        let tail = text.skip(n);
        lemma_tokens_of_joined(rest);
        lemma_word_len_is(text, n);
        assert(text.take(n) =~= tokens[0]);
        assert(tail.drop_first() =~= joined(rest));
        assert(tokens_of(text) == seq![text.take(n)] + tokens_of(tail));
    }
}

/// Splits a text into its tokens. Text that is empty or holds only
/// separators has none.
pub fn tokenize(text: &str) -> (tokens: Vec<String>)
    ensures
        tokens.deep_view() == tokens_of(text@),
{
    let chars = chars_of(text);
    let n: usize = chars.len();
    let mut tokens: Vec<String> = Vec::new();
    let mut i: usize = 0;
    proof {
        assert(text@.skip(0) =~= text@);
    }
    while i < n
        invariant
            i <= n,
            n == chars.len(),
            chars@ == text@,
            tokens_of(text@) == tokens.deep_view() + tokens_of(text@.skip(i as int)),
        decreases n - i,
    {
        let ghost tail = text@.skip(i as int);
        if is_whitespace(chars[i]) {
            proof {
                assert(tail.drop_first() =~= text@.skip(i as int + 1));
            }
            i += 1;
        } else {
            let mut j: usize = i + 1;
            while j < n && !is_whitespace(chars[j])
                invariant
                    i < j <= n,
                    n == chars.len(),
                    chars@ == text@,
                    forall|k: int| i <= k < j ==> !is_space(#[trigger] text@[k]),
                decreases n - j,
            {
                j += 1;
            }
            let word = text.substring_char(i, j).to_owned();
            proof {
                let m = j - i;
                lemma_word_len_is(tail, m);
                assert(tail.take(m) =~= text@.subrange(i as int, j as int));
                assert(tail.skip(m) =~= text@.skip(j as int));
                assert(tokens.deep_view().push(word@) + tokens_of(text@.skip(j as int))
                    =~= tokens.deep_view() + tokens_of(tail));
            }
            tokens.push(word);
            i = j;
        }
    }
    tokens
}

/// Sets tokens side by side, one space between neighbours.
pub fn join(tokens: &Vec<String>) -> (text: String)
    ensures
        text@ == joined(tokens.deep_view()),
{
    let ghost all = tokens.deep_view();
    let mut text = String::new();
    let mut i: usize = 0;
    while i < tokens.len()
        invariant
            i <= tokens.len(),
            all == tokens.deep_view(),
            text@ == joined(all.take(i as int)),
        decreases tokens.len() - i,
    {
        proof {
            reveal_strlit(" ");
            assert(all.take(i as int + 1) =~= all.take(i as int).push(all[i as int]));
            lemma_joined_push(all.take(i as int), all[i as int]);
        }
        if i > 0 {
            text.append(" ");
        }
        text.append(tokens[i].as_str());
        i += 1;
    }
    proof {
        assert(all.take(tokens.len() as int) =~= all);
    }
    text
}

/// The characters of a text, one by one.
pub fn chars_of(text: &str) -> (chars: Vec<char>)
    ensures
        chars@ == text@,
{
    let mut chars: Vec<char> = Vec::new();
    for c in it: text.chars()
        invariant
            it.seq() == text@,
            chars@ == it.seq().take(it.index() as int),
    {
        chars.push(c);
    }
    chars
}

} // verus!
