//! The executable window of symbols that training and generation move over a
//! sequence, and the comparisons and copies of symbols that they need.

use crate::table::{blank, slide};
use vstd::prelude::*;

verus! {

/// Whether two symbols are the same sentinel or the same word.
pub fn same_symbol(a: &Option<String>, b: &Option<String>) -> (same: bool)
    ensures
        same == (a.deep_view() == b.deep_view()),
{
    match a {
        None => b.is_none(),
        Some(x) => match b {
            None => false,
            Some(y) => *x == *y,
        },
    }
}

/// Whether two prefixes hold the same symbols in the same order.
pub fn same_prefix(a: &Vec<Option<String>>, b: &Vec<Option<String>>) -> (same: bool)
    ensures
        same == (a.deep_view() == b.deep_view()),
{
    if a.len() != b.len() {
        assert(a.deep_view().len() != b.deep_view().len());
        return false;
    }
    let mut i: usize = 0;
    while i < a.len()
        invariant
            i <= a.len(),
            a.len() == b.len(),
            forall|j: int| 0 <= j < i ==> a@[j].deep_view() == b@[j].deep_view(),
        decreases a.len() - i,
    {
        if !same_symbol(&a[i], &b[i]) {
            assert(a.deep_view()[i as int] != b.deep_view()[i as int]);
            return false;
        }
        i += 1;
    }
    assert(a.deep_view() =~= b.deep_view());
    true
}

/// A copy of a symbol.
pub fn copy_symbol(s: &Option<String>) -> (copy: Option<String>)
    ensures
        copy.deep_view() == s.deep_view(),
{
    match s {
        None => None,
        Some(word) => Some(word.clone()),
    }
}

/// A copy of a prefix.
pub fn copy_prefix(p: &Vec<Option<String>>) -> (copy: Vec<Option<String>>)
    ensures
        copy.deep_view() == p.deep_view(),
{
    let mut copy: Vec<Option<String>> = Vec::new();
    let mut i: usize = 0;
    while i < p.len()
        invariant
            i <= p.len(),
            copy.len() == i,
            forall|j: int| 0 <= j < i ==> copy@[j].deep_view() == p@[j].deep_view(),
        decreases p.len() - i,
    {
        copy.push(copy_symbol(&p[i]));
        i += 1;
    }
    copy
}

/// The window before the first token: `order` start sentinels.
pub fn blank_prefix(order: usize) -> (p: Vec<Option<String>>)
    ensures
        p.deep_view() == blank(order as nat),
{
    let mut p: Vec<Option<String>> = Vec::new();
    let mut i: usize = 0;
    while i < order
        invariant
            i <= order,
            p.len() == i,
            forall|j: int| 0 <= j < i ==> p@[j] == None::<String>,
        decreases order - i,
    {
        p.push(None);
        i += 1;
    }
    p
}

/// Moves the window one position on: the oldest symbol leaves and `next`
/// enters. A window of no symbols stays as it is.
pub fn advance(window: &mut Vec<Option<String>>, next: Option<String>)
    ensures
        final(window).deep_view() == slide(old(window).deep_view(), next.deep_view()),
{
    if window.len() > 0 {
        window.remove(0);
        window.push(next);
    }
}

} // verus!
