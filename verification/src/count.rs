//! Counting the characters of a text.

use crate::whitespace::{char_is_whitespace, is_whitespace};
use std::str::Chars;
use vstd::prelude::*;
use vstd::std_specs::iter::IteratorSpec;

verus! {

/// The number of whitespace characters in `text`.
pub open spec fn whitespace_count(text: Seq<char>) -> nat {
    text.filter(|c: char| is_whitespace(c)).len()
}

/// Appending one character raises the count by one exactly when the
/// character is whitespace.
pub proof fn lemma_whitespace_count_push(text: Seq<char>, c: char)
    ensures
        whitespace_count(text.push(c)) == whitespace_count(text) + if is_whitespace(c) {
            1nat
        } else {
            0nat
        },
{
    reveal(Seq::filter);
    assert(text.push(c).drop_last() =~= text);
}

/// Counts the whitespace characters among those that `chars` has yet to
/// yield.
///
/// There must be no more characters left than a `usize` can count, which
/// holds of the characters of every string in memory.
pub fn count_whitespaces(chars: Chars<'_>) -> (count: usize)
    requires
        chars.remaining().len() <= usize::MAX,
    ensures
        count == whitespace_count(chars.remaining()),
{
    let ghost all = chars.remaining();
    let ghost seen = Seq::<char>::empty();
    let mut chars = chars;
    let mut count: usize = 0;
    loop
        invariant
            seen + chars.remaining() == all,
            all.len() <= usize::MAX,
            count == whitespace_count(seen),
            count <= seen.len(),
        ensures
            seen == all,
        decreases usize::MAX - seen.len(),
    {
        match chars.next() {
            Some(c) => {
                proof {
                    lemma_whitespace_count_push(seen, c);
                    assert(seen.push(c) + chars.remaining() =~= all);
                    seen = seen.push(c);
                }
                if char_is_whitespace(c) {
                    count = count + 1;
                }
            },
            None => {
                assert(seen =~= all);
                break ;
            },
        }
    }
    count
}

} // verus!
