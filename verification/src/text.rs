//! Character classes, decimal numerals, and left-to-right scanning over
//! character sequences: the shared ground for the rule parser and both
//! pattern compilers.

use vstd::prelude::*;
use vstd::string::*;

verus! {

/// A decimal digit.
pub open spec fn is_digit_char(c: char) -> bool {
    ('0' as u32) <= (c as u32) && (c as u32) <= ('9' as u32)
}

/// A word character: an ASCII letter, a decimal digit, or an underscore.
pub open spec fn is_word_char(c: char) -> bool {
    is_digit_char(c) || (('a' as u32) <= (c as u32) && (c as u32) <= ('z' as u32)) || (('A'
        as u32) <= (c as u32) && (c as u32) <= ('Z' as u32)) || c == '_'
}

/// The numeric value of one digit.
pub open spec fn digit_val(c: char) -> nat
    recommends
        is_digit_char(c),
{
    ((c as int) - ('0' as int)) as nat
}

/// Every character of `s` is a digit.
pub open spec fn all_digits(s: Seq<char>) -> bool {
    forall|i: int| 0 <= i < s.len() ==> is_digit_char(#[trigger] s[i])
}

/// The value of `s` read as a decimal numeral.
pub open spec fn num_of(s: Seq<char>) -> nat
    decreases s.len(),
{
    if s.len() == 0 {
        0
    } else {
        num_of(s.drop_last()) * 10 + digit_val(s.last())
    }
}

/// The length of the run of digits at the front of `s`.
pub open spec fn run_len(s: Seq<char>) -> nat
    decreases s.len(),
{
    if s.len() == 0 || !is_digit_char(s[0]) {
        0
    } else {
        (1 + run_len(s.drop_first())) as nat
    }
}

pub proof fn lemma_run_len_le(s: Seq<char>)
    ensures
        run_len(s) <= s.len(),
    decreases s.len(),
{
    if s.len() != 0 && is_digit_char(s[0]) {
        lemma_run_len_le(s.drop_first());
    }
}

/// The first position at or after `from` holding the character `c`.
pub open spec fn first_at_from(s: Seq<char>, c: char, from: int) -> Option<int>
    decreases s.len() - from,
{
    if from < 0 || from >= s.len() {
        None
    } else if s[from] == c {
        Some(from)
    } else {
        first_at_from(s, c, from + 1)
    }
}

pub proof fn lemma_first_at_bounds(s: Seq<char>, c: char, from: int)
    requires
        first_at_from(s, c, from) is Some,
    ensures
        ({
            let j = first_at_from(s, c, from).unwrap();
            &&& from <= j < s.len()
            &&& s[j] == c
            &&& forall|k: int| from <= k < j ==> (#[trigger] s[k]) != c
        }),
    decreases s.len() - from,
{
    if 0 <= from < s.len() && s[from] != c {
        lemma_first_at_bounds(s, c, from + 1);
    }
}

pub proof fn lemma_first_at_none(s: Seq<char>, c: char, from: int)
    requires
        forall|k: int| from <= k < s.len() ==> (#[trigger] s[k]) != c,
    ensures
        first_at_from(s, c, from) is None,
    decreases s.len() - from,
{
    if 0 <= from < s.len() {
        lemma_first_at_none(s, c, from + 1);
    }
}

pub proof fn lemma_first_at_found(s: Seq<char>, c: char, from: int, j: int)
    requires
        0 <= from <= j < s.len(),
        s[j] == c,
        forall|k: int| from <= k < j ==> (#[trigger] s[k]) != c,
    ensures
        first_at_from(s, c, from) == Some(j),
    decreases j - from,
{
    if from < j {
        lemma_first_at_found(s, c, from + 1, j);
    }
}

/// The first position at or after `from` holding a digit.
pub open spec fn first_digit_from(s: Seq<char>, from: int) -> Option<int>
    decreases s.len() - from,
{
    if from < 0 || from >= s.len() {
        None
    } else if is_digit_char(s[from]) {
        Some(from)
    } else {
        first_digit_from(s, from + 1)
    }
}

pub proof fn lemma_first_digit_bounds(s: Seq<char>, from: int)
    requires
        first_digit_from(s, from) is Some,
    ensures
        ({
            let j = first_digit_from(s, from).unwrap();
            &&& from <= j < s.len()
            &&& is_digit_char(s[j])
        }),
    decreases s.len() - from,
{
    if 0 <= from < s.len() && !is_digit_char(s[from]) {
        lemma_first_digit_bounds(s, from + 1);
    }
}

/// A quoted single word character (`"x"`) stands at position `i` of `s`.
pub open spec fn literal_at(s: Seq<char>, i: int) -> bool {
    &&& 0 <= i
    &&& i + 3 <= s.len()
    &&& s[i] == '"'
    &&& is_word_char(s[i + 1])
    &&& s[i + 2] == '"'
}

/// The first position at or after `from` where a quoted character stands.
pub open spec fn first_literal_from(s: Seq<char>, from: int) -> Option<int>
    decreases s.len() - from,
{
    if from < 0 || from + 3 > s.len() {
        None
    } else if literal_at(s, from) {
        Some(from)
    } else {
        first_literal_from(s, from + 1)
    }
}

pub proof fn lemma_first_literal_bounds(s: Seq<char>, from: int)
    requires
        first_literal_from(s, from) is Some,
    ensures
        ({
            let j = first_literal_from(s, from).unwrap();
            &&& from <= j
            &&& literal_at(s, j)
        }),
    decreases s.len() - from,
{
    if 0 <= from && from + 3 <= s.len() && !literal_at(s, from) {
        lemma_first_literal_bounds(s, from + 1);
    }
}

pub proof fn lemma_first_literal_none(s: Seq<char>, from: int)
    requires
        forall|k: int| #[trigger] literal_at(s, k) ==> false,
    ensures
        first_literal_from(s, from) is None,
    decreases s.len() - from,
{
    if 0 <= from && from + 3 <= s.len() {
        assert(!literal_at(s, from));
        lemma_first_literal_none(s, from + 1);
    }
}

/// Whether `c` is a decimal digit.
pub fn digit_char(c: char) -> (b: bool)
    ensures
        b == is_digit_char(c),
{
    ('0' as u32) <= (c as u32) && (c as u32) <= ('9' as u32)
}

/// Whether `c` is a word character.
pub fn word_char(c: char) -> (b: bool)
    ensures
        b == is_word_char(c),
{
    digit_char(c) || (('a' as u32) <= (c as u32) && (c as u32) <= ('z' as u32)) || (('A'
        as u32) <= (c as u32) && (c as u32) <= ('Z' as u32)) || c == '_'
}

/// Scan for the character `c` from position `from` on.
pub fn find_char_at(s: &str, c: char, from: usize) -> (r: Option<usize>)
    ensures
        match r {
            Some(j) => first_at_from(s@, c, from as int) == Some(j as int),
            None => first_at_from(s@, c, from as int) is None,
        },
{
    let len = s.unicode_len();
    let mut i = from;
    while i < len
        invariant
            from <= i,
            len == s@.len(),
            first_at_from(s@, c, from as int) == first_at_from(s@, c, i as int),
        decreases len - i,
    {
        if s.get_char(i) == c {
            return Some(i);
        }
        i += 1;
    }
    None
}

/// Scan for a digit from position `from` on.
pub fn find_digit_at(s: &str, from: usize) -> (r: Option<usize>)
    ensures
        match r {
            Some(j) => first_digit_from(s@, from as int) == Some(j as int),
            None => first_digit_from(s@, from as int) is None,
        },
{
    let len = s.unicode_len();
    let mut i = from;
    while i < len
        invariant
            from <= i,
            len == s@.len(),
            first_digit_from(s@, from as int) == first_digit_from(s@, i as int),
        decreases len - i,
    {
        if digit_char(s.get_char(i)) {
            return Some(i);
        }
        i += 1;
    }
    None
}

/// Scan for the first quoted single word character.
pub fn find_literal(s: &str) -> (r: Option<usize>)
    ensures
        match r {
            Some(j) => first_literal_from(s@, 0) == Some(j as int),
            None => first_literal_from(s@, 0) is None,
        },
{
    let len = s.unicode_len();
    if len < 3 {
        return None;
    }
    let mut i: usize = 0;
    while i <= len - 3
        invariant
            len == s@.len(),
            3 <= len,
            i <= len,
            first_literal_from(s@, 0) == first_literal_from(s@, i as int),
        decreases len - i,
    {
        if s.get_char(i) == '"' && word_char(s.get_char(i + 1)) && s.get_char(i + 2) == '"' {
            return Some(i);
        }
        i += 1;
    }
    None
}

/// The end of the digit run starting at `from` (equal to `from` when no
/// digit stands there).
pub fn run_end(s: &str, from: usize) -> (j: usize)
    requires
        from <= s@.len(),
    ensures
        from <= j <= s@.len(),
        j - from == run_len(s@.skip(from as int)),
        forall|k: int| from <= k < j ==> is_digit_char(#[trigger] s@[k]),
{
    let len = s.unicode_len();
    let mut j = from;
    while j < len && digit_char(s.get_char(j))
        invariant
            from <= j <= len,
            len == s@.len(),
            run_len(s@.skip(from as int)) == (j - from) + run_len(s@.skip(j as int)),
            forall|k: int| from <= k < j ==> is_digit_char(#[trigger] s@[k]),
        decreases len - j,
    {
        proof {
            assert(s@.skip(j as int)[0] == s@[j as int]);
            assert(s@.skip(j as int).drop_first() =~= s@.skip(j as int + 1));
        }
        j += 1;
    }
    proof {
        if j < len {
            assert(s@.skip(j as int)[0] == s@[j as int]);
        } else {
            assert(s@.skip(j as int).len() == 0);
        }
    }
    j
}

/// Parse the digit run `s[from..to)` as a decimal numeral; `None` when its
/// value does not fit in `usize`.
pub fn parse_digits(s: &str, from: usize, to: usize) -> (r: Option<usize>)
    requires
        from <= to <= s@.len(),
        forall|k: int| from <= k < to ==> is_digit_char(#[trigger] s@[k]),
    ensures
        ({
            let v = num_of(s@.subrange(from as int, to as int));
            match r {
                Some(u) => v <= usize::MAX && u == v,
                None => v > usize::MAX,
            }
        }),
{
    let mut val: u128 = 0;
    let mut big = false;
    let mut k = from;
    while k < to
        invariant
            from <= k <= to <= s@.len(),
            forall|kk: int| from <= kk < to ==> is_digit_char(#[trigger] s@[kk]),
            big ==> num_of(s@.subrange(from as int, k as int)) > usize::MAX,
            !big ==> val == num_of(s@.subrange(from as int, k as int)) && val <= usize::MAX
                as u128,
        decreases to - k,
    {
        let c = s.get_char(k);
        let d: u128 = ((c as u32) - ('0' as u32)) as u128;
        proof {
            assert(s@.subrange(from as int, k as int + 1).drop_last() =~= s@.subrange(
                from as int,
                k as int,
            ));
            assert(s@.subrange(from as int, k as int + 1).last() == s@[k as int]);
        }
        if big {
            proof {
                let prev = num_of(s@.subrange(from as int, k as int));
                assert(prev * 10 >= prev) by (nonlinear_arith);
            }
        } else {
            let nv = val * 10 + d;
            if nv > (usize::MAX as u128) {
                big = true;
            } else {
                val = nv;
            }
        }
        k += 1;
    }
    if big {
        None
    } else {
        Some(val as usize)
    }
}

} // verus!
