//! User identities as decimal numerals, the form in which they name what is
//! stored for each user.

use crate::token::chars_of;
use vstd::prelude::*;

verus! {

/// The character of a decimal digit.
pub open spec fn digit_char(d: nat) -> char {
    if d == 0 {
        '0'
    } else if d == 1 {
        '1'
    } else if d == 2 {
        '2'
    } else if d == 3 {
        '3'
    } else if d == 4 {
        '4'
    } else if d == 5 {
        '5'
    } else if d == 6 {
        '6'
    } else if d == 7 {
        '7'
    } else if d == 8 {
        '8'
    } else {
        '9'
    }
}

/// Whether a character is a decimal digit.
pub open spec fn is_digit(c: char) -> bool {
    '0' <= c <= '9'
}

/// The value of a decimal digit.
pub open spec fn digit_value(c: char) -> nat {
    (c as u32 - '0' as u32) as nat
}

/// The decimal numeral of a number, without leading zeros.
pub open spec fn digits_of(n: nat) -> Seq<char>
    decreases n,
{
    if n < 10 {
        seq![digit_char(n)]
    } else {
        digits_of(n / 10).push(digit_char(n % 10))
    }
}

/// Whether a text is a numeral: one decimal digit or more, and nothing
/// else.
pub open spec fn is_numeral(text: Seq<char>) -> bool {
    &&& text.len() > 0
    &&& forall|i: int| 0 <= i < text.len() ==> is_digit(#[trigger] text[i])
}

/// The number that the digits of a text stand for.
pub open spec fn value_of(text: Seq<char>) -> nat
    decreases text.len(),
{
    if text.len() == 0 {
        0
    } else {
        value_of(text.drop_last()) * 10 + digit_value(text.last())
    }
}

/// The user that a text names: the value of a numeral that fits in a
/// `u64`, with or without leading zeros. Any other text names none.
pub open spec fn named_user(text: Seq<char>) -> Option<u64> {
    if is_numeral(text) && value_of(text) <= u64::MAX {
        Some(value_of(text) as u64)
    } else {
        None
    }
}

/// The numeral of a number names that number.
pub proof fn lemma_digits_name(n: nat)
    ensures
        is_numeral(digits_of(n)),
        value_of(digits_of(n)) == n,
    decreases n,
{
    let text = digits_of(n);
    if n < 10 {
        assert(value_of(text.drop_last()) == 0);
    } else {
        let front = digits_of(n / 10);
        lemma_digits_name(n / 10);
        assert(text.drop_last() =~= front);
    }
}

/// The value of the first digits of a text is never more than that of all.
proof fn lemma_value_grows(text: Seq<char>, k: int)
    requires
        0 <= k <= text.len(),
    ensures
        value_of(text.take(k)) <= value_of(text),
    decreases text.len(),
{
    if k == text.len() {
        assert(text.take(k) =~= text);
    } else {
        lemma_value_grows(text.drop_last(), k);
        assert(text.drop_last().take(k) =~= text.take(k));
    }
}

/// The text of one decimal digit.
fn digit_text(d: u64) -> (text: &'static str)
    requires
        d < 10,
    ensures
        text@ == seq![digit_char(d as nat)],
{
    proof {
        reveal_strlit("0");
        reveal_strlit("1");
        reveal_strlit("2");
        reveal_strlit("3");
        reveal_strlit("4");
        reveal_strlit("5");
        reveal_strlit("6");
        reveal_strlit("7");
        reveal_strlit("8");
        reveal_strlit("9");
    }
    let text = if d == 0 {
        "0"
    } else if d == 1 {
        "1"
    } else if d == 2 {
        "2"
    } else if d == 3 {
        "3"
    } else if d == 4 {
        "4"
    } else if d == 5 {
        "5"
    } else if d == 6 {
        "6"
    } else if d == 7 {
        "7"
    } else if d == 8 {
        "8"
    } else {
        "9"
    };
    text
}

/// The decimal numeral of a user identity.
pub fn user_numeral(user: u64) -> (text: String)
    ensures
        text@ == digits_of(user as nat),
    decreases user,
{
    let last = digit_text(user % 10);
    if user < 10 {
        last.to_owned()
    } else {
        let mut text = user_numeral(user / 10);
        text.append(last);
        text
    }
}

/// The user identity that the first `upto` characters name, if they name
/// one.
fn digits_value(chars: &Vec<char>, upto: usize) -> (user: Option<u64>)
    requires
        upto <= chars.len(),
    ensures
        user == named_user(chars@.take(upto as int)),
{
    if upto == 0 {
        return None;
    }
    let ghost all = chars@.take(upto as int);
    let mut value: u64 = 0;
    let mut i: usize = 0;
    while i < upto
        invariant
            i <= upto <= chars.len(),
            all == chars@.take(upto as int),
            value == value_of(all.take(i as int)),
            forall|j: int| 0 <= j < i ==> is_digit(#[trigger] all[j]),
        decreases upto - i,
    {
        let c: char = chars[i];
        if !('0' <= c && c <= '9') {
            assert(!is_digit(all[i as int]));
            return None;
        }
        let d: u64 = (c as u32 - '0' as u32) as u64;
        proof {
            let so_far = all.take(i as int + 1);
            assert(so_far.drop_last() =~= all.take(i as int));
            lemma_value_grows(all, i as int + 1);
        }
        if value > (u64::MAX - d) / 10 {
            proof {
                assert(value * 10 + d > u64::MAX) by (nonlinear_arith)
                    requires
                        value > (u64::MAX - d) / 10,
                        d <= u64::MAX,
                ;
            }
            return None;
        }
        assert(value * 10 + d <= u64::MAX) by (nonlinear_arith)
            requires
                value <= (u64::MAX - d) / 10,
                d <= u64::MAX,
        ;
        value = value * 10 + d;
        i += 1;
    }
    proof {
        assert(all.take(upto as int) =~= all);
    }
    Some(value)
}

/// The user identity that a text names, if it names one.
pub fn parse_user(text: &str) -> (user: Option<u64>)
    ensures
        user == named_user(text@),
{
    let chars = chars_of(text);
    proof {
        assert(chars@.take(chars.len() as int) =~= text@);
    }
    digits_value(&chars, chars.len())
}

/// What the name of a user's file ends with.
pub open spec fn extension() -> Seq<char> {
    seq!['.', 'c', 'h', 'a', 'i', 'n']
}

/// The name of the file of a user: the numeral of the user, and the
/// extension.
pub open spec fn file_name_of(user: u64) -> Seq<char> {
    digits_of(user as nat) + extension()
}

/// Whether the stem of a file name ends before position `p`: the last full
/// stop of the name stands there, and it is not the first character.
pub open spec fn is_stem_end(name: Seq<char>, p: int) -> bool {
    &&& 0 < p < name.len()
    &&& name[p] == '.'
    &&& forall|q: int| p < q < name.len() ==> #[trigger] name[q] != '.'
}

/// The length of the stem of a file name: the name without its last full
/// stop and what follows it. A name without a full stop is all stem, and so
/// is one whose only full stop is its first character.
pub open spec fn stem_len(name: Seq<char>) -> int {
    if exists|p: int| is_stem_end(name, p) {
        choose|p: int| is_stem_end(name, p)
    } else {
        name.len() as int
    }
}

/// The user whose file has this name: the user that the stem of the name
/// names, whatever follows the stem. A name whose stem names no user is of
/// no user's file.
pub open spec fn file_owner(name: Seq<char>) -> Option<u64> {
    named_user(name.take(stem_len(name)))
}

/// The stem of a name ends where its last full stop stands.
pub proof fn lemma_stem_len_is(name: Seq<char>, p: int)
    requires
        is_stem_end(name, p),
    ensures
        stem_len(name) == p,
{
    let found = choose|q: int| is_stem_end(name, q);
    if found < p {
        assert(name[p] != '.');
    } else if p < found {
        assert(name[found] != '.');
    }
}

/// The name of a user's file is that of the user.
pub proof fn lemma_file_name_owner(user: u64)
    ensures
        file_owner(file_name_of(user)) == Some(user),
{
    let numeral = digits_of(user as nat);
    let name = file_name_of(user);
    let p = numeral.len() as int;
    lemma_digits_name(user as nat);
    assert(name[p] == '.');
    assert forall|q: int| p < q < name.len() implies #[trigger] name[q] != '.' by {
        assert(name[q] == extension()[q - p]);
    }
    lemma_stem_len_is(name, p);
    assert(name.take(p) =~= numeral);
}

/// The name of the file of a user.
pub fn artifact_name(user: u64) -> (name: String)
    ensures
        name@ == file_name_of(user),
{
    let mut name = user_numeral(user);
    proof {
        reveal_strlit(".chain");
    }
    name.append(".chain");
    name
}

/// The user whose file has this name, if it is the name of a user's file.
pub fn artifact_user(name: &str) -> (user: Option<u64>)
    ensures
        user == file_owner(name@),
{
    let chars = chars_of(name);
    let mut p: usize = chars.len();
    while p > 1 && chars[p - 1] != '.'
        invariant
            p <= chars.len(),
            chars@ == name@,
            forall|q: int| p <= q < chars.len() ==> #[trigger] name@[q] != '.',
        decreases p,
    {
        p -= 1;
    }
    if p > 1 {
        proof {
            lemma_stem_len_is(name@, p - 1);
        }
        digits_value(&chars, p - 1)
    } else {
        proof {
            if exists|q: int| is_stem_end(name@, q) {
                let q = choose|q: int| is_stem_end(name@, q);
                assert(name@[q] != '.');
            }
            assert(chars@.take(chars.len() as int) =~= name@);
        }
        digits_value(&chars, chars.len())
    }
}

} // verus!
