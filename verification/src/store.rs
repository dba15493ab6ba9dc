//! The rule store and the two input readers: rule lines (`"<id>: <body>"`)
//! are parsed into a map from rule id to raw definition text, and message
//! lines (word characters only) are collected in order.

use std::collections::HashMap;

use vstd::prelude::*;
use vstd::string::*;

use crate::errors::GrammarError;
use crate::text::{
    all_digits, digit_char, find_char_at, first_at_from, is_digit_char, is_word_char,
    lemma_first_at_bounds, num_of, parse_digits, word_char,
};

verus! {

broadcast use vstd::std_specs::hash::group_hash_axioms;

/// The mathematical content of a rule store: each stored definition text,
/// as a sequence of characters, keyed by rule id.
pub open spec fn store_view(m: HashMap<usize, String>) -> Map<usize, Seq<char>> {
    m@.map_values(|v: String| v@)
}

/// An id token is valid when it is a non-empty run of digits whose value
/// fits in `usize`.
pub open spec fn parse_id(s: Seq<char>) -> Option<usize> {
    if s.len() > 0 && all_digits(s) && num_of(s) <= usize::MAX {
        Some(num_of(s) as usize)
    } else {
        None
    }
}

/// The characters stripped from the front of a rule body: the colon that
/// split the line, and spaces.
pub open spec fn is_trim_char(c: char) -> bool {
    c == ':' || c == ' '
}

pub open spec fn trim_lead(s: Seq<char>) -> Seq<char>
    decreases s.len(),
{
    if s.len() == 0 {
        s
    } else if is_trim_char(s[0]) {
        trim_lead(s.drop_first())
    } else {
        s
    }
}

/// Parse rule lines from position `i` on, into the accumulated store `acc`.
/// The rule block ends at the first line without a colon; a malformed id
/// token is fatal.
pub open spec fn parse_rules_from(
    lines: Seq<Seq<char>>,
    i: int,
    acc: Map<usize, Seq<char>>,
) -> Result<Map<usize, Seq<char>>, GrammarError>
    decreases lines.len() - i,
{
    if i < 0 || i >= lines.len() {
        Ok(acc)
    } else {
        let line = lines[i];
        match first_at_from(line, ':', 0) {
            None => Ok(acc),
            Some(at) => match parse_id(line.take(at)) {
                None => Err(GrammarError::ParseError),
                Some(id) => parse_rules_from(lines, i + 1, acc.insert(id, trim_lead(line.skip(at)))),
            },
        }
    }
}

/// What `read_rules` computes over the whole input.
pub open spec fn spec_read_rules(lines: Seq<Seq<char>>) -> Result<
    Map<usize, Seq<char>>,
    GrammarError,
> {
    parse_rules_from(lines, 0, Map::<usize, Seq<char>>::empty())
}

/// A message line: one or more word characters and nothing else.
pub open spec fn is_message(s: Seq<char>) -> bool {
    s.len() > 0 && (forall|i: int| 0 <= i < s.len() ==> is_word_char(#[trigger] s[i]))
}

/// The message lines of the input, in order.
pub open spec fn messages_of(lines: Seq<Seq<char>>) -> Seq<Seq<char>>
    decreases lines.len(),
{
    if lines.len() == 0 {
        Seq::empty()
    } else {
        let rest = messages_of(lines.drop_last());
        if is_message(lines.last()) {
            rest.push(lines.last())
        } else {
            rest
        }
    }
}

/// Parse the id token `s[0..end)`.
fn parse_id_part(s: &str, end: usize) -> (r: Option<usize>)
    requires
        end as int <= s@.len(),
    ensures
        r == parse_id(s@.take(end as int)),
{
    if end == 0 {
        return None;
    }
    let mut k: usize = 0;
    while k < end
        invariant
            k <= end,
            end as int <= s@.len(),
            forall|j: int| 0 <= j < k ==> is_digit_char(#[trigger] s@[j]),
        decreases end - k,
    {
        if !digit_char(s.get_char(k)) {
            proof {
                assert(s@.take(end as int)[k as int] == s@[k as int]);
                assert(!all_digits(s@.take(end as int)));
            }
            return None;
        }
        k += 1;
    }
    proof {
        assert forall|j: int| 0 <= j < s@.take(end as int).len() implies is_digit_char(
            #[trigger] s@.take(end as int)[j],
        ) by {
            assert(s@.take(end as int)[j] == s@[j]);
        }
        assert(s@.subrange(0, end as int) =~= s@.take(end as int));
    }
    parse_digits(s, 0, end)
}

fn trim_char(c: char) -> (b: bool)
    ensures
        b == is_trim_char(c),
{
    c == ':' || c == ' '
}

/// The rule body: everything after position `from`, with leading colon and
/// space characters stripped.
fn trim_rule_text(s: &str, from: usize) -> (r: String)
    requires
        from as int <= s@.len(),
    ensures
        r@ == trim_lead(s@.skip(from as int)),
{
    let len = s.unicode_len();
    let mut k = from;
    while k < len && trim_char(s.get_char(k))
        invariant
            from <= k <= len,
            len == s@.len(),
            trim_lead(s@.skip(from as int)) == trim_lead(s@.skip(k as int)),
        decreases len - k,
    {
        proof {
            assert(s@.skip(k as int)[0] == s@[k as int]);
            assert(s@.skip(k as int).drop_first() =~= s@.skip(k as int + 1));
        }
        k += 1;
    }
    proof {
        if k < len {
            assert(s@.skip(k as int)[0] == s@[k as int]);
        } else {
            assert(s@.skip(k as int) =~= Seq::<char>::empty());
        }
    }
    let rest = s.substring_char(k, len);
    proof {
        assert(rest@ =~= s@.skip(k as int));
    }
    String::from_str(rest)
}

/// Build the rule store from the input lines. Each line up to the first one
/// without a colon is split at its first colon; the left side must be a
/// valid id token (else the whole read fails with `ParseError`), and the
/// right side, with leading colon and spaces stripped, is stored verbatim.
pub fn read_rules(lines: &Vec<String>) -> (r: Result<HashMap<usize, String>, GrammarError>)
    ensures
        ({
            let goal = spec_read_rules(lines.deep_view());
            match r {
                Ok(m) => goal == Ok::<Map<usize, Seq<char>>, GrammarError>(store_view(m)),
                Err(e) => goal == Err::<Map<usize, Seq<char>>, GrammarError>(e),
            }
        }),
{
    let ghost dv = lines.deep_view();
    let mut rules: HashMap<usize, String> = HashMap::new();
    proof {
        assert(store_view(rules) =~= Map::<usize, Seq<char>>::empty());
    }
    let n = lines.len();
    let mut i: usize = 0;
    while i < n
        invariant
            i <= n,
            n == lines@.len(),
            dv == lines.deep_view(),
            parse_rules_from(dv, i as int, store_view(rules)) == spec_read_rules(dv),
        decreases n - i,
    {
        let line: &String = &lines[i];
        let s: &str = line.as_str();
        proof {
            assert(dv[i as int] == lines@[i as int]@);
        }
        match find_char_at(s, ':', 0) {
            None => {
                return Ok(rules);
            },
            Some(at) => {
                proof {
                    lemma_first_at_bounds(s@, ':', 0);
                }
                match parse_id_part(s, at) {
                    None => {
                        return Err(GrammarError::ParseError);
                    },
                    Some(id) => {
                        let text = trim_rule_text(s, at);
                        let ghost tv = text@;
                        let ghost prev = store_view(rules);
                        rules.insert(id, text);
                        proof {
                            assert(store_view(rules) =~= prev.insert(id, tv));
                        }
                        i += 1;
                    },
                }
            },
        }
    }
    Ok(rules)
}

/// Whether a line is a message: non-empty, word characters only.
pub fn is_word_line(s: &str) -> (b: bool)
    ensures
        b == is_message(s@),
{
    let len = s.unicode_len();
    if len == 0 {
        return false;
    }
    let mut i: usize = 0;
    while i < len
        invariant
            i <= len,
            len == s@.len(),
            forall|j: int| 0 <= j < i ==> is_word_char(#[trigger] s@[j]),
        decreases len - i,
    {
        if !word_char(s.get_char(i)) {
            return false;
        }
        i += 1;
    }
    true
}

/// Collect the message lines of the input, in order; lines of any other
/// shape (rule lines, blank separators) are silently skipped.
pub fn read_messages(lines: &Vec<String>) -> (r: Vec<String>)
    ensures
        r.deep_view() == messages_of(lines.deep_view()),
{
    let ghost dv = lines.deep_view();
    let mut out: Vec<String> = Vec::new();
    let n = lines.len();
    let mut i: usize = 0;
    proof {
        assert(out.deep_view() =~= messages_of(dv.take(0)));
    }
    while i < n
        invariant
            i <= n,
            n == lines@.len(),
            dv == lines.deep_view(),
            out.deep_view() == messages_of(dv.take(i as int)),
        decreases n - i,
    {
        let line: &String = &lines[i];
        proof {
            assert(dv[i as int] == lines@[i as int]@);
            assert(dv.take(i as int + 1).drop_last() =~= dv.take(i as int));
            assert(dv.take(i as int + 1).last() == dv[i as int]);
        }
        let ghost prev = out.deep_view();
        if is_word_line(line.as_str()) {
            out.push(line.clone());
            proof {
                assert(out.deep_view() =~= prev.push(dv[i as int]));
            }
        }
        i += 1;
    }
    proof {
        assert(dv.take(n as int) =~= dv);
    }
    out
}

} // verus!
