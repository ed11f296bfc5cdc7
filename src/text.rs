use vstd::prelude::*;
use vstd::std_specs::iter::IteratorSpec;

verus! {

/// Whether `c` has Unicode's White_Space property.
pub uninterp spec fn white_space(c: char) -> bool;

/// Relies on `char::is_whitespace`: true exactly for the characters with the
/// White_Space property, which depends on the character alone.
#[verifier::external_body]
fn is_white_space(c: char) -> (r: bool)
    ensures
        r == white_space(c),
{
    c.is_whitespace()
}

/// Position `i` of `s` begins a token: a character that is not white space,
/// at the start of the text or right after white space.
pub open spec fn is_token_start(s: Seq<char>, i: int) -> bool {
    &&& 0 <= i < s.len()
    &&& !white_space(s[i])
    &&& (i == 0 || white_space(s[i - 1]))
}

/// The number of maximal runs of non-white-space characters in `s`, that is
/// the number of tokens when white space separates words.
pub open spec fn token_count(s: Seq<char>) -> nat
    decreases s.len(),
{
    if s.len() == 0 {
        0
    } else {
        token_count(s.drop_last()) + if is_token_start(s, s.len() - 1) {
            1nat
        } else {
            0nat
        }
    }
}

proof fn lemma_token_count_bound(s: Seq<char>)
    ensures
        token_count(s) <= s.len(),
    decreases s.len(),
{
    if s.len() > 0 {
        lemma_token_count_bound(s.drop_last());
    }
}

/// Counts the white-space-separated tokens of `content`
/// (what `content.split_whitespace().count()` gives).
pub fn count_tokens(content: &str) -> (r: usize)
    requires
        content@.len() <= usize::MAX,
    ensures
        r == token_count(content@),
{
    broadcast use vstd::string::group_string_axioms;

    let ghost text = content@;
    let mut chars = content.chars();
    let ghost mut seen: Seq<char> = Seq::empty();
    let mut count: usize = 0;
    let mut after_space = true;
    loop
        invariant
            text == content@,
            text.len() <= usize::MAX,
            chars.obeys_prophetic_iter_laws(),
            seen + chars.remaining() == text,
            count == token_count(seen),
            after_space == (seen.len() == 0 || white_space(seen.last())),
        ensures
            seen == text,
            count == token_count(seen),
        decreases text.len() - seen.len(),
    {
        let ghost before = chars.remaining();
        match chars.next() {
            None => {
                assert(seen =~= text);
                break;
            },
            Some(c) => {
                let w = is_white_space(c);
                let ghost next = seen.push(c);
                proof {
                    assert(next.drop_last() =~= seen);
                    assert(next + chars.remaining() =~= text);
                    lemma_token_count_bound(seen);
                }
                if !w && after_space {
                    count = count + 1;
                }
                after_space = w;
                proof {
                    seen = next;
                }
            },
        }
    }
    count
}

} // verus!
