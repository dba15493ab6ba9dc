//! The recursive-aware pattern compiler: a rule id is expanded into a
//! pattern fragment of the mini-language, by recursion over the rule store.
//! Two designated ids may be overridden by self-referential productions:
//! one becomes one-or-more repetitions, the other matched nesting unrolled
//! to a fixed depth. The store is never mutated.
//!
//! Since a cyclic grammar has no finite expansion, every function carries a
//! fuel budget; running out of it is reported as an error.

use std::collections::HashMap;

use vstd::prelude::*;
use vstd::string::*;

use crate::errors::GrammarError;
use crate::store::store_view;
use crate::text::{
    digit_char, find_char_at, find_literal, first_at_from, first_literal_from, is_digit_char,
    lemma_first_at_bounds, lemma_first_literal_bounds, lemma_run_len_le, num_of, parse_digits,
    run_end, run_len,
};

verus! {

broadcast use vstd::std_specs::hash::group_hash_axioms;

/// The start symbol of every grammar.
pub const START_RULE: usize = 0;

/// The rule whose override means "one or more repetitions".
pub const REPEAT_RULE: usize = 8;

/// The rule whose override means "matched nesting".
pub const NEST_RULE: usize = 11;

/// The rule repeated by the override of `REPEAT_RULE`.
pub const REPEAT_BASE: usize = 42;

/// The left half of a nesting pair.
pub const NEST_LEFT: usize = 42;

/// The right half of a nesting pair.
pub const NEST_RIGHT: usize = 31;

/// The unroll bound of the nesting override: nesting deeper than this is
/// not matched. A documented limitation, kept auditable here.
pub const MAX_NEST_DEPTH: u64 = 9;

/// The opening of an alternation group, as the compiler emits it.
pub open spec fn group_open() -> Seq<char> {
    seq!['(', ':', '?']
}

/// The closing of an alternation group.
pub open spec fn group_close() -> Seq<char> {
    seq![')']
}

/// A pattern wrapped in start and end anchors.
pub open spec fn anchored(p: Seq<char>) -> Seq<char> {
    seq!['^'] + p + seq!['$']
}

/// A pattern result with the built string read as its character sequence.
pub open spec fn res_view(r: Result<String, GrammarError>) -> Result<Seq<char>, GrammarError> {
    match r {
        Ok(s) => Ok(s@),
        Err(e) => Err(e),
    }
}

/// The digit character of a nesting depth.
pub open spec fn depth_digit(n: nat) -> char
    recommends
        1 <= n <= 9,
{
    if n == 1 {
        '1'
    } else if n == 2 {
        '2'
    } else if n == 3 {
        '3'
    } else if n == 4 {
        '4'
    } else if n == 5 {
        '5'
    } else if n == 6 {
        '6'
    } else if n == 7 {
        '7'
    } else if n == 8 {
        '8'
    } else {
        '9'
    }
}

/// A bounded-repetition count, `{n}`.
pub open spec fn brace_count(n: nat) -> Seq<char> {
    seq!['{', depth_digit(n), '}']
}

/// One alternative of the nesting override: `n` repetitions of `a` followed
/// by `n` repetitions of `b`.
pub open spec fn nest_item(a: Seq<char>, b: Seq<char>, n: nat) -> Seq<char> {
    a + brace_count(n) + b + brace_count(n)
}

/// The alternatives of the nesting override for depths `1..=n`, in order,
/// separated by `|`.
pub open spec fn nest_alts(a: Seq<char>, b: Seq<char>, n: nat) -> Seq<char>
    decreases n,
{
    if n <= 1 {
        nest_item(a, b, 1)
    } else {
        nest_alts(a, b, (n - 1) as nat) + seq!['|'] + nest_item(a, b, n)
    }
}

/// The expansion of a rule id: a quoted single character expands to that
/// character; a definition with a top-level `|` expands to a parenthesized
/// alternation of its sequences; any other definition expands as one
/// sequence. Under `over`, the two designated ids expand to their
/// synthesized recursive patterns instead, without being looked up.
pub open spec fn expand_rule(
    rules: Map<usize, Seq<char>>,
    id: usize,
    over: bool,
    fuel: nat,
) -> Result<Seq<char>, GrammarError>
    decreases fuel, 3int, 0int,
{
    if over && id == REPEAT_RULE {
        if fuel == 0 {
            Err(GrammarError::DepthError)
        } else {
            repeat_pattern(rules, (fuel - 1) as nat)
        }
    } else if over && id == NEST_RULE {
        if fuel == 0 {
            Err(GrammarError::DepthError)
        } else {
            nest_pattern(rules, (fuel - 1) as nat)
        }
    } else if !rules.contains_key(id) {
        Err(GrammarError::LookupError)
    } else {
        let text = rules[id];
        match first_literal_from(text, 0) {
            Some(i) => Ok(seq![text[i + 1]]),
            None => if first_at_from(text, '|', 0) is Some {
                match expand_alts(rules, text, over, fuel) {
                    Ok(body) => Ok(group_open() + body + group_close()),
                    Err(e) => Err(e),
                }
            } else {
                expand_seq(rules, text, over, fuel)
            },
        }
    }
}

/// The override of `REPEAT_RULE`: the expansion of `REPEAT_BASE`, repeated
/// one or more times.
pub open spec fn repeat_pattern(rules: Map<usize, Seq<char>>, fuel: nat) -> Result<
    Seq<char>,
    GrammarError,
>
    decreases fuel, 4int, 0int,
{
    match expand_rule(rules, REPEAT_BASE, true, fuel) {
        Ok(p) => Ok(p.push('+')),
        Err(e) => Err(e),
    }
}

/// The override of `NEST_RULE`: matched nesting of `NEST_LEFT` and
/// `NEST_RIGHT`, unrolled for depths `1..=MAX_NEST_DEPTH`.
pub open spec fn nest_pattern(rules: Map<usize, Seq<char>>, fuel: nat) -> Result<
    Seq<char>,
    GrammarError,
>
    decreases fuel, 4int, 0int,
{
    match expand_rule(rules, NEST_LEFT, true, fuel) {
        Ok(a) => match expand_rule(rules, NEST_RIGHT, true, fuel) {
            Ok(b) => Ok(group_open() + nest_alts(a, b, MAX_NEST_DEPTH as nat) + group_close()),
            Err(e) => Err(e),
        },
        Err(e) => Err(e),
    }
}

/// The expansion of the alternatives of a definition text, split on `|`,
/// each alternative expanded as a sequence, joined by `|` in order.
pub open spec fn expand_alts(
    rules: Map<usize, Seq<char>>,
    s: Seq<char>,
    over: bool,
    fuel: nat,
) -> Result<Seq<char>, GrammarError>
    decreases fuel, 2int, s.len(),
    via expand_alts_dec
{
    match first_at_from(s, '|', 0) {
        None => expand_seq(rules, s, over, fuel),
        Some(i) => match expand_seq(rules, s.take(i), over, fuel) {
            Ok(head) => match expand_alts(rules, s.skip(i + 1), over, fuel) {
                Ok(rest) => Ok(head + seq!['|'] + rest),
                Err(e) => Err(e),
            },
            Err(e) => Err(e),
        },
    }
}

#[via_fn]
proof fn expand_alts_dec(rules: Map<usize, Seq<char>>, s: Seq<char>, over: bool, fuel: nat) {
    if first_at_from(s, '|', 0) is Some {
        lemma_first_at_bounds(s, '|', 0);
    }
}

/// The expansion of one sequence: each digit run names a rule, whose
/// expansion is concatenated in order; every other character is dropped.
pub open spec fn expand_seq(
    rules: Map<usize, Seq<char>>,
    s: Seq<char>,
    over: bool,
    fuel: nat,
) -> Result<Seq<char>, GrammarError>
    decreases fuel, 1int, s.len(),
    via expand_seq_dec
{
    if s.len() == 0 {
        Ok(Seq::empty())
    } else if !is_digit_char(s[0]) {
        expand_seq(rules, s.drop_first(), over, fuel)
    } else {
        let n = run_len(s) as int;
        let v = num_of(s.take(n));
        if v > usize::MAX {
            Err(GrammarError::ParseError)
        } else if fuel == 0 {
            Err(GrammarError::DepthError)
        } else {
            match expand_rule(rules, v as usize, over, (fuel - 1) as nat) {
                Ok(p) => match expand_seq(rules, s.skip(n), over, fuel) {
                    Ok(rest) => Ok(p + rest),
                    Err(e) => Err(e),
                },
                Err(e) => Err(e),
            }
        }
    }
}

#[via_fn]
proof fn expand_seq_dec(rules: Map<usize, Seq<char>>, s: Seq<char>, over: bool, fuel: nat) {
    if s.len() != 0 && is_digit_char(s[0]) {
        lemma_run_len_le(s);
        assert(run_len(s) >= 1);
    }
}

fn expand_rule_x(rules: &HashMap<usize, String>, id: usize, over: bool, fuel: u64) -> (r: Result<
    String,
    GrammarError,
>)
    ensures
        res_view(r) == expand_rule(store_view(*rules), id, over, fuel as nat),
    decreases fuel, 3int, 0int,
{
    if over && id == REPEAT_RULE {
        if fuel == 0 {
            return Err(GrammarError::DepthError);
        }
        return make_rule_8(rules, fuel - 1);
    }
    if over && id == NEST_RULE {
        if fuel == 0 {
            return Err(GrammarError::DepthError);
        }
        return make_rule_11(rules, fuel - 1);
    }
    match rules.get(&id) {
        None => Err(GrammarError::LookupError),
        Some(text) => {
            proof {
                assert(store_view(*rules).contains_key(id));
                assert(store_view(*rules)[id] == text@);
            }
            let t: &str = text.as_str();
            let tlen = t.unicode_len();
            match find_literal(t) {
                Some(i) => {
                    proof {
                        lemma_first_literal_bounds(t@, 0);
                        assert(i + 3 <= tlen);
                    }
                    let c = t.substring_char(i + 1, i + 2);
                    proof {
                        assert(c@ =~= seq![t@[i as int + 1]]);
                    }
                    Ok(String::from_str(c))
                },
                None => {
                    match find_char_at(t, '|', 0) {
                        Some(_) => {
                            match expand_alts_x(rules, t, over, fuel) {
                                Ok(body) => {
                                    let ghost bodyv = body@;
                                    let mut out = String::from_str("(:?");
                                    out.append(body.as_str());
                                    out.append(")");
                                    proof {
                                        reveal_strlit("(:?");
                                        reveal_strlit(")");
                                        assert(out@ =~= group_open() + bodyv + group_close());
                                    }
                                    Ok(out)
                                },
                                Err(e) => Err(e),
                            }
                        },
                        None => expand_seq_x(rules, t, over, fuel),
                    }
                },
            }
        },
    }
}

fn expand_alts_x(rules: &HashMap<usize, String>, s: &str, over: bool, fuel: u64) -> (r: Result<
    String,
    GrammarError,
>)
    ensures
        res_view(r) == expand_alts(store_view(*rules), s@, over, fuel as nat),
    decreases fuel, 2int, s@.len(),
{
    match find_char_at(s, '|', 0) {
        None => expand_seq_x(rules, s, over, fuel),
        Some(i) => {
            proof {
                lemma_first_at_bounds(s@, '|', 0);
            }
            let len = s.unicode_len();
            let head = s.substring_char(0, i);
            let tail = s.substring_char(i + 1, len);
            proof {
                assert(head@ =~= s@.take(i as int));
                assert(tail@ =~= s@.skip(i as int + 1));
            }
            match expand_seq_x(rules, head, over, fuel) {
                Err(e) => Err(e),
                Ok(first_part) => match expand_alts_x(rules, tail, over, fuel) {
                    Err(e) => Err(e),
                    Ok(rest) => {
                        let ghost fv = first_part@;
                        let ghost rv = rest@;
                        let mut out = first_part;
                        out.append("|");
                        out.append(rest.as_str());
                        proof {
                            reveal_strlit("|");
                            assert(out@ =~= fv + seq!['|'] + rv);
                        }
                        Ok(out)
                    },
                },
            }
        },
    }
}

fn expand_seq_x(rules: &HashMap<usize, String>, s: &str, over: bool, fuel: u64) -> (r: Result<
    String,
    GrammarError,
>)
    ensures
        res_view(r) == expand_seq(store_view(*rules), s@, over, fuel as nat),
    decreases fuel, 1int, s@.len(),
{
    let len = s.unicode_len();
    if len == 0 {
        proof {
            assert(s@ =~= Seq::<char>::empty());
        }
        return Ok(String::new());
    }
    let c0 = s.get_char(0);
    if !digit_char(c0) {
        let rest = s.substring_char(1, len);
        proof {
            assert(rest@ =~= s@.drop_first());
        }
        return expand_seq_x(rules, rest, over, fuel);
    }
    let n = run_end(s, 0);
    proof {
        assert(s@.skip(0) =~= s@);
        assert(run_len(s@) >= 1);
        assert(s@.subrange(0, n as int) =~= s@.take(n as int));
    }
    match parse_digits(s, 0, n) {
        None => Err(GrammarError::ParseError),
        Some(v) => {
            if fuel == 0 {
                Err(GrammarError::DepthError)
            } else {
                match expand_rule_x(rules, v, over, fuel - 1) {
                    Err(e) => Err(e),
                    Ok(p) => {
                        let rest = s.substring_char(n, len);
                        proof {
                            assert(rest@ =~= s@.skip(n as int));
                        }
                        match expand_seq_x(rules, rest, over, fuel) {
                            Err(e) => Err(e),
                            Ok(tail) => {
                                let ghost pv = p@;
                                let ghost tv = tail@;
                                let mut out = p;
                                out.append(tail.as_str());
                                proof {
                                    assert(out@ =~= pv + tv);
                                }
                                Ok(out)
                            },
                        }
                    },
                }
            }
        },
    }
}

/// Append `{n}` to the pattern under construction.
fn append_brace(out: &mut String, n: u64)
    requires
        1 <= n <= 9,
    ensures
        final(out)@ == old(out)@ + brace_count(n as nat),
{
    let ghost before = out@;
    out.append("{");
    match n {
        1 => out.append("1"),
        2 => out.append("2"),
        3 => out.append("3"),
        4 => out.append("4"),
        5 => out.append("5"),
        6 => out.append("6"),
        7 => out.append("7"),
        8 => out.append("8"),
        _ => out.append("9"),
    }
    out.append("}");
    proof {
        reveal_strlit("{");
        reveal_strlit("}");
        reveal_strlit("1");
        reveal_strlit("2");
        reveal_strlit("3");
        reveal_strlit("4");
        reveal_strlit("5");
        reveal_strlit("6");
        reveal_strlit("7");
        reveal_strlit("8");
        reveal_strlit("9");
        assert(out@ =~= before + brace_count(n as nat));
    }
}

/// The synthesized pattern of the repetition override: the expansion of
/// `REPEAT_BASE` followed by `+`.
pub fn make_rule_8(rules: &HashMap<usize, String>, fuel: u64) -> (r: Result<String, GrammarError>)
    ensures
        res_view(r) == repeat_pattern(store_view(*rules), fuel as nat),
    decreases fuel, 4int, 0int,
{
    match expand_rule_x(rules, REPEAT_BASE, true, fuel) {
        Err(e) => Err(e),
        Ok(p) => {
            let ghost pv = p@;
            let mut out = p;
            out.append("+");
            proof {
                reveal_strlit("+");
                assert(out@ =~= pv.push('+'));
            }
            Ok(out)
        },
    }
}

/// The synthesized pattern of the nesting override: an alternation over
/// depths `1..=MAX_NEST_DEPTH` of that many repetitions of `NEST_LEFT`'s
/// expansion followed by as many of `NEST_RIGHT`'s.
pub fn make_rule_11(rules: &HashMap<usize, String>, fuel: u64) -> (r: Result<String, GrammarError>)
    ensures
        res_view(r) == nest_pattern(store_view(*rules), fuel as nat),
    decreases fuel, 4int, 0int,
{
    let a = match expand_rule_x(rules, NEST_LEFT, true, fuel) {
        Err(e) => {
            return Err(e);
        },
        Ok(p) => p,
    };
    let b = match expand_rule_x(rules, NEST_RIGHT, true, fuel) {
        Err(e) => {
            return Err(e);
        },
        Ok(p) => p,
    };
    let ghost av = a@;
    let ghost bv = b@;
    let mut out = String::from_str("(:?");
    proof {
        reveal_strlit("(:?");
        assert(out@ =~= group_open());
    }
    let mut n: u64 = 1;
    while n <= MAX_NEST_DEPTH
        invariant
            1 <= n <= MAX_NEST_DEPTH + 1,
            av == a@,
            bv == b@,
            n == 1 ==> out@ == group_open(),
            n > 1 ==> out@ == group_open() + nest_alts(av, bv, (n - 1) as nat),
        decreases MAX_NEST_DEPTH + 1 - n,
    {
        let ghost before = out@;
        if n > 1 {
            out.append("|");
        }
        out.append(a.as_str());
        append_brace(&mut out, n);
        out.append(b.as_str());
        append_brace(&mut out, n);
        proof {
            reveal_strlit("|");
            if n == 1 {
                assert(out@ =~= group_open() + nest_alts(av, bv, 1));
            } else {
                assert(out@ =~= group_open() + nest_alts(av, bv, n as nat));
            }
        }
        n += 1;
    }
    out.append(")");
    proof {
        reveal_strlit(")");
        assert(out@ =~= group_open() + nest_alts(av, bv, MAX_NEST_DEPTH as nat) + group_close());
    }
    Ok(out)
}

/// Expand the rule `id` without overrides, as the plain strategy does.
pub fn apply_rules(rules: &HashMap<usize, String>, id: usize, fuel: u64) -> (r: Result<
    String,
    GrammarError,
>)
    ensures
        res_view(r) == expand_rule(store_view(*rules), id, false, fuel as nat),
{
    expand_rule_x(rules, id, false, fuel)
}

/// Expand the rule `id` with the two recursive overrides in force.
pub fn apply_rules_2(rules: &HashMap<usize, String>, id: usize, fuel: u64) -> (r: Result<
    String,
    GrammarError,
>)
    ensures
        res_view(r) == expand_rule(store_view(*rules), id, true, fuel as nat),
{
    expand_rule_x(rules, id, true, fuel)
}

/// Expand one sequence text without overrides.
pub fn apply_sequence(rules: &HashMap<usize, String>, rule: String, fuel: u64) -> (r: Result<
    String,
    GrammarError,
>)
    ensures
        res_view(r) == expand_seq(store_view(*rules), rule@, false, fuel as nat),
{
    expand_seq_x(rules, rule.as_str(), false, fuel)
}

/// Expand one sequence text with the two recursive overrides in force.
pub fn apply_sequence_2(rules: &HashMap<usize, String>, rule: String, fuel: u64) -> (r: Result<
    String,
    GrammarError,
>)
    ensures
        res_view(r) == expand_seq(store_view(*rules), rule@, true, fuel as nat),
{
    expand_seq_x(rules, rule.as_str(), true, fuel)
}

/// The full pattern of the start symbol, wrapped in start and end anchors.
pub fn rule_zero_pattern(rules: &HashMap<usize, String>, over: bool, fuel: u64) -> (r: Result<
    String,
    GrammarError,
>)
    ensures
        res_view(r) == match expand_rule(store_view(*rules), START_RULE, over, fuel as nat) {
            Ok(p) => Ok::<Seq<char>, GrammarError>(anchored(p)),
            Err(e) => Err::<Seq<char>, GrammarError>(e),
        },
{
    match expand_rule_x(rules, START_RULE, over, fuel) {
        Err(e) => Err(e),
        Ok(p) => {
            let ghost pv = p@;
            let mut out = String::from_str("^");
            out.append(p.as_str());
            out.append("$");
            proof {
                reveal_strlit("^");
                reveal_strlit("$");
                assert(out@ =~= anchored(pv));
            }
            Ok(out)
        },
    }
}

} // verus!
