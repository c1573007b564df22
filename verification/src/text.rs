//! Character-sequence vocabulary shared by the codec: blank characters,
//! whitespace-free tokens, and trimming of surrounding blanks.

use vstd::prelude::*;
use vstd::string::StrSliceExecFns;
use vstd::string::StringExecFns;

verus! {

/// The characters the codec treats as blank padding around a field
/// (the ASCII whitespace characters).
pub open spec fn is_blank(c: char) -> bool {
    c == ' ' || c == '\t' || c == '\n' || c == '\r' || c == '\u{b}' || c == '\u{c}'
}

/// Some character of `s` is not blank.
pub open spec fn has_ink(s: Seq<char>) -> bool {
    exists|k: int| 0 <= k < s.len() && !is_blank(s[k])
}

/// A token: non-empty and wholly free of blank characters.
pub open spec fn is_token(s: Seq<char>) -> bool {
    s.len() > 0 && forall|k: int| 0 <= k < s.len() ==> !is_blank(s[k])
}

/// Index of the first non-blank character of `s`, or `s.len()` if all blank.
pub open spec fn ink_start(s: Seq<char>) -> int
    decreases s.len(),
{
    if s.len() == 0 {
        0
    } else if !is_blank(s[0]) {
        0
    } else {
        1 + ink_start(s.drop_first())
    }
}

/// One past the index of the last non-blank character of `s`, or `0` if all blank.
pub open spec fn ink_end(s: Seq<char>) -> int
    decreases s.len(),
{
    if s.len() == 0 {
        0
    } else if !is_blank(s.last()) {
        s.len() as int
    } else {
        ink_end(s.drop_last())
    }
}

/// `s` with its leading and trailing blanks removed.
pub open spec fn trimmed(s: Seq<char>) -> Seq<char> {
    if has_ink(s) {
        s.subrange(ink_start(s), ink_end(s))
    } else {
        Seq::empty()
    }
}

/// `ink_start` really is the index of the first non-blank character:
/// everything before it is blank, and it lands on ink when there is any.
pub proof fn lemma_ink_start(s: Seq<char>)
    ensures
        0 <= ink_start(s) <= s.len(),
        forall|k: int| 0 <= k < ink_start(s) ==> is_blank(s[k]),
        has_ink(s) ==> ink_start(s) < s.len() && !is_blank(s[ink_start(s)]),
    decreases s.len(),
{
    if s.len() > 0 && is_blank(s[0]) {
        lemma_ink_start(s.drop_first());
        assert forall|k: int| 0 <= k < ink_start(s) implies is_blank(s[k]) by {
            if k > 0 {
                assert(is_blank(s.drop_first()[k - 1]));
                assert(s.drop_first()[k - 1] == s[k]);
            }
        }
        if has_ink(s) {
            let w = choose|k: int| 0 <= k < s.len() && !is_blank(s[k]);
            assert(s.drop_first()[w - 1] == s[w]);
            assert(has_ink(s.drop_first()));
        }
    }
}

/// `ink_end` really is one past the last non-blank character:
/// everything at or after it is blank, and it stays above the ink.
pub proof fn lemma_ink_end(s: Seq<char>)
    ensures
        0 <= ink_end(s) <= s.len(),
        forall|k: int| ink_end(s) <= k < s.len() ==> is_blank(s[k]),
        has_ink(s) ==> ink_end(s) > 0 && !is_blank(s[ink_end(s) - 1]),
    decreases s.len(),
{
    if s.len() > 0 && is_blank(s.last()) {
        lemma_ink_end(s.drop_last());
        assert(forall|k: int| 0 <= k < s.drop_last().len() ==> s.drop_last()[k] == s[k]);
        if has_ink(s) {
            let w = choose|k: int| 0 <= k < s.len() && !is_blank(s[k]);
            assert(s.drop_last()[w] == s[w]);
            assert(has_ink(s.drop_last()));
        }
    }
}

/// A trimmed sequence keeps ink at both ends and all its interior characters.
pub proof fn lemma_trimmed_shape(s: Seq<char>)
    ensures
        has_ink(s) ==> {
            &&& ink_start(s) < ink_end(s)
            &&& trimmed(s).len() == ink_end(s) - ink_start(s)
            &&& !is_blank(trimmed(s)[0])
            &&& !is_blank(trimmed(s).last())
        },
        !has_ink(s) ==> trimmed(s) == Seq::<char>::empty(),
{
    if has_ink(s) {
        lemma_ink_start(s);
        lemma_ink_end(s);
        assert(!is_blank(s[ink_start(s)]));
        assert(ink_start(s) < ink_end(s));
    }
}

/// All characters of `s` are blank.
pub open spec fn all_blank(s: Seq<char>) -> bool {
    forall|k: int| 0 <= k < s.len() ==> is_blank(s[k])
}

/// Trimming strips exactly the blank padding around a core that starts
/// and ends with ink.
pub proof fn lemma_trim_padded(pre: Seq<char>, x: Seq<char>, post: Seq<char>)
    requires
        all_blank(pre),
        all_blank(post),
        x.len() > 0,
        !is_blank(x[0]),
        !is_blank(x.last()),
    ensures
        trimmed(pre + x + post) == x,
{
    let s = pre + x + post;
    assert forall|k: int| 0 <= k < pre.len() implies is_blank(s[k]) by {
        assert(s[k] == pre[k]);
    }
    assert forall|k: int| 0 <= k < x.len() implies s[pre.len() + k] == x[k] by {}
    assert forall|k: int| pre.len() + x.len() <= k < s.len() implies is_blank(s[k]) by {
        assert(s[k] == post[k - pre.len() - x.len()]);
    }
    assert(s[pre.len() as int] == x[0]);
    assert(has_ink(s));
    lemma_ink_start(s);
    lemma_ink_end(s);
    assert(ink_start(s) == pre.len());
    assert(s[pre.len() + x.len() - 1] == x.last());
    assert(ink_end(s) == pre.len() + x.len());
    assert(trimmed(s) =~= x);
}

/// A blank that sits between two ink characters survives trimming,
/// so the trimmed sequence is not a token.
pub proof fn lemma_blank_between_ink(s: Seq<char>, b: int, q: int, c: int)
    requires
        0 <= b < q < c < s.len(),
        !is_blank(s[b]),
        is_blank(s[q]),
        !is_blank(s[c]),
    ensures
        !is_token(trimmed(s)),
{
    lemma_ink_start(s);
    lemma_ink_end(s);
    assert(has_ink(s));
    assert(ink_start(s) <= b);
    assert(c < ink_end(s));
    assert(trimmed(s)[q - ink_start(s)] == s[q]);
}

/// Whether `c` is blank, decided in executable code.
pub fn blank(c: char) -> (b: bool)
    ensures
        b == is_blank(c),
{
    c == ' ' || c == '\t' || c == '\n' || c == '\r' || c == '\u{b}' || c == '\u{c}'
}

/// `s` with its surrounding blanks removed, as a fresh `String`.
pub fn trim_str(s: &str) -> (r: String)
    ensures
        r@ == trimmed(s@),
{
    let n: usize = s.unicode_len();
    let mut lo: usize = 0;
    while lo < n && blank(s.get_char(lo))
        invariant
            lo <= n,
            n == s@.len(),
            forall|k: int| 0 <= k < lo ==> is_blank(s@[k]),
        decreases n - lo,
    {
        lo = lo + 1;
    }
    if lo == n {
        proof {
            assert(!has_ink(s@));
        }
        return String::new();
    }
    let mut hi: usize = n;
    while blank(s.get_char(hi - 1))
        invariant
            lo < hi <= n,
            n == s@.len(),
            !is_blank(s@[lo as int]),
            forall|k: int| hi <= k < n ==> is_blank(s@[k]),
        decreases hi,
    {
        hi = hi - 1;
    }
    proof {
        assert(has_ink(s@));
        lemma_ink_start(s@);
        lemma_ink_end(s@);
        assert(ink_start(s@) == lo);
        assert(ink_end(s@) == hi);
    }
    let sub = s.substring_char(lo, hi);
    String::from_str(sub)
}

/// Whether `s` is a token, decided in executable code.
pub fn token_str(s: &str) -> (b: bool)
    ensures
        b == is_token(s@),
{
    let n: usize = s.unicode_len();
    if n == 0 {
        return false;
    }
    let mut i: usize = 0;
    while i < n
        invariant
            i <= n,
            n == s@.len(),
            n > 0,
            forall|k: int| 0 <= k < i ==> !is_blank(s@[k]),
        decreases n - i,
    {
        if blank(s.get_char(i)) {
            return false;
        }
        i = i + 1;
    }
    true
}

/// Whether `s` trims down to a token: it has some ink and no blank
/// between its first and last non-blank characters.
pub fn trimmed_token(s: &str) -> (b: bool)
    ensures
        b == is_token(trimmed(s@)),
{
    let t = trim_str(s);
    token_str(t.as_str())
}

} // verus!
