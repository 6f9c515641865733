//! Character-level helpers over strings, shared by the parsers of the library.

use vstd::prelude::*;

verus! {

/// The index of the first occurrence of `c` in `s` at or after `from`,
/// or the length of `s` when there is none.
pub open spec fn spec_find_char(s: Seq<char>, c: char, from: int) -> int
    decreases s.len() - from,
{
    if from >= s.len() {
        s.len() as int
    } else if s[from] == c {
        from
    } else {
        spec_find_char(s, c, from + 1)
    }
}

/// `spec_find_char` lies between `from` and the length, and no `c` precedes it.
pub proof fn lemma_find_char(s: Seq<char>, c: char, from: int)
    requires
        0 <= from <= s.len(),
    ensures
        from <= spec_find_char(s, c, from) <= s.len(),
        spec_find_char(s, c, from) < s.len() ==> s[spec_find_char(s, c, from)] == c,
        forall|j: int| from <= j < spec_find_char(s, c, from) ==> s[j] != c,
    decreases s.len() - from,
{
    if from < s.len() && s[from] != c {
        lemma_find_char(s, c, from + 1);
    }
}

/// `spec_find_char` is the first index at or after `from` that holds `c`, or the length.
pub proof fn lemma_find_char_is(s: Seq<char>, c: char, from: int, k: int)
    requires
        0 <= from <= k <= s.len(),
        k < s.len() ==> s[k] == c,
        forall|j: int| from <= j < k ==> s[j] != c,
    ensures
        spec_find_char(s, c, from) == k,
{
    lemma_find_char(s, c, from);
    let f = spec_find_char(s, c, from);
    if f < k {
        assert(s[f] == c);
    }
    if k < f {
        assert(s[k] != c);
    }
}

/// Finds the first `c` in `s` at or after `from`; returns the length of `s` when there is none.
pub fn find_char(s: &str, c: char, from: usize) -> (r: usize)
    requires
        from <= s@.len(),
    ensures
        r == spec_find_char(s@, c, from as int),
        from <= r <= s@.len(),
{
    proof {
        lemma_find_char(s@, c, from as int);
    }
    let len = s.unicode_len();
    let mut i = from;
    while i < len
        invariant
            len == s@.len(),
            from <= i <= len,
            spec_find_char(s@, c, i as int) == spec_find_char(s@, c, from as int),
        decreases len - i,
    {
        if s.get_char(i) == c {
            return i;
        }
        i = i + 1;
    }
    i
}

/// Whether `s` starts with the character `c`.
pub open spec fn spec_starts_with_char(s: Seq<char>, c: char) -> bool {
    s.len() > 0 && s[0] == c
}

/// Returns whether `s` starts with the character `c`.
pub fn starts_with_char(s: &str, c: char) -> (r: bool)
    ensures
        r == spec_starts_with_char(s@, c),
{
    if s.unicode_len() == 0 {
        false
    } else {
        s.get_char(0) == c
    }
}

/// Returns the owned string holding the characters of `s` between `from` and `to`.
pub fn substring(s: &str, from: usize, to: usize) -> (r: String)
    requires
        from <= to <= s@.len(),
    ensures
        r@ == s@.subrange(from as int, to as int),
{
    s.substring_char(from, to).to_owned()
}

/// Searching a text from `from` finds the same character as searching the rest of the text
/// from its start, shifted by `from`.
pub proof fn lemma_find_char_shift(s: Seq<char>, c: char, from: int)
    requires
        0 <= from <= s.len(),
    ensures
        spec_find_char(s, c, from) - from == spec_find_char(s.subrange(from, s.len() as int), c, 0),
{
    lemma_find_char_shift_at(s, c, from, from);
}

/// The shifted search, from any point of the rest.
proof fn lemma_find_char_shift_at(s: Seq<char>, c: char, from: int, i: int)
    requires
        0 <= from <= i <= s.len(),
    ensures
        spec_find_char(s, c, i) - from == spec_find_char(s.subrange(from, s.len() as int), c, i - from),
    decreases s.len() - i,
{
    let t = s.subrange(from, s.len() as int);
    if i < s.len() {
        assert(t[i - from] == s[i]);
        if s[i] != c {
            lemma_find_char_shift_at(s, c, from, i + 1);
        }
    }
}

} // verus!
