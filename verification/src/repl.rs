//! Reading scripts line by line: whether the text typed so far closes every
//! bracket it opens.
use vstd::prelude::*;
use crate::text::chars_of;

verus! {

/// How the count of one bracket pair moves on a character.
pub open spec fn bracket_delta(c: char, open: char, close: char) -> int {
    if c == open { 1 } else if c == close { -1 } else { 0 }
}

/// Opened minus closed brackets of one pair among the first `k` characters.
pub open spec fn depth(s: Seq<char>, k: int, open: char, close: char) -> int
    decreases k,
{
    if k <= 0 { 0 } else { depth(s, k - 1, open, close) + bracket_delta(s[k - 1], open, close) }
}

/// No prefix closes more brackets of any kind than it opened.
pub open spec fn never_negative(s: Seq<char>) -> bool {
    forall|k: int| 0 <= k <= s.len() ==> depth(s, k, '{', '}') >= 0 && depth(s, k, '(', ')') >= 0 && depth(
        s,
        k,
        '[',
        ']',
    ) >= 0
}

/// The text closes every brace, parenthesis and square bracket it opens, and
/// no prefix closes one that is not open; each kind is counted on its own.
pub open spec fn balanced(s: Seq<char>) -> bool {
    &&& never_negative(s)
    &&& depth(s, s.len() as int, '{', '}') == 0
    &&& depth(s, s.len() as int, '(', ')') == 0
    &&& depth(s, s.len() as int, '[', ']') == 0
}

/// Check if brackets are balanced in the input.
pub fn is_balanced(s: &str) -> (b: bool)
    requires
        s@.len() <= i32::MAX,
    ensures
        b == balanced(s@),
{
    let chars = chars_of(s);
    let ghost t = s@;
    let mut depth_: i32 = 0;
    let mut parens: i32 = 0;
    let mut brack: i32 = 0;
    let mut k: usize = 0;
    while k < chars.len()
        invariant
            chars@ == t,
            t == s@,
            t.len() <= i32::MAX,
            k <= t.len(),
            depth_ == depth(t, k as int, '{', '}'),
            parens == depth(t, k as int, '(', ')'),
            brack == depth(t, k as int, '[', ']'),
            -1 <= depth_ <= k && -1 <= parens <= k && -1 <= brack <= k,
            forall|j: int| 0 <= j <= k ==> depth(t, j, '{', '}') >= 0 && depth(t, j, '(', ')') >= 0 && depth(
                t,
                j,
                '[',
                ']',
            ) >= 0,
        decreases t.len() - k,
    {
        let c = chars[k];
        if c == '{' {
            depth_ = depth_ + 1;
        } else if c == '}' {
            depth_ = depth_ - 1;
        } else if c == '(' {
            parens = parens + 1;
        } else if c == ')' {
            parens = parens - 1;
        } else if c == '[' {
            brack = brack + 1;
        } else if c == ']' {
            brack = brack - 1;
        }
        k = k + 1;
        if depth_ < 0 || parens < 0 || brack < 0 {
            proof {
                assert(!(depth(t, k as int, '{', '}') >= 0 && depth(t, k as int, '(', ')') >= 0 && depth(t, k as int, '[', ']') >= 0));
            }
            return false;
        }
    }
    depth_ == 0 && parens == 0 && brack == 0
}

} // verus!
