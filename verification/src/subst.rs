//! The non-recursive pattern compiler ("old" strategy): starting from the
//! start symbol's raw text, the first digit run is repeatedly replaced by
//! the referenced rule's replacement text until no digit run remains; the
//! converged text, spaces stripped and anchored, is the pattern. Purely
//! textual substitution cannot express unbounded recursion, so this
//! strategy is valid only for acyclic grammars; on a cyclic one it runs
//! out of its pass budget and fails.

use std::collections::HashMap;

use vstd::prelude::*;
use vstd::string::*;

use crate::errors::GrammarError;
use crate::expand::{anchored, res_view, START_RULE};
use crate::store::store_view;
use crate::text::{
    find_char_at, find_digit_at, find_literal, first_at_from, first_digit_from,
    first_literal_from, lemma_first_digit_bounds, lemma_first_literal_bounds, num_of,
    parse_digits, run_end, run_len,
};

verus! {

broadcast use vstd::std_specs::hash::group_hash_axioms;

/// One substitution pass: the first digit run of `s` is replaced by the
/// replacement text of the rule it names: the quoted character for a
/// literal rule, the raw text wrapped in parentheses for an alternation,
/// the raw text unchanged otherwise. Nested digit runs inside the
/// replacement are left for later passes.
pub open spec fn subst_step(rules: Map<usize, Seq<char>>, s: Seq<char>) -> Result<
    Seq<char>,
    GrammarError,
>
    recommends
        first_digit_from(s, 0) is Some,
{
    let i = first_digit_from(s, 0).unwrap();
    let j = i + run_len(s.skip(i));
    let v = num_of(s.subrange(i, j));
    if v > usize::MAX {
        Err(GrammarError::ParseError)
    } else if !rules.contains_key(v as usize) {
        Err(GrammarError::LookupError)
    } else {
        let text = rules[v as usize];
        let rep = match first_literal_from(text, 0) {
            Some(k) => seq![text[k + 1]],
            None => if first_at_from(text, '|', 0) is Some {
                seq!['('] + text + seq![')']
            } else {
                text
            },
        };
        Ok(s.take(i) + rep + s.skip(j))
    }
}

/// Substitution passes until no digit run remains, within `fuel` passes.
pub open spec fn subst_fix(rules: Map<usize, Seq<char>>, s: Seq<char>, fuel: nat) -> Result<
    Seq<char>,
    GrammarError,
>
    decreases fuel,
{
    if first_digit_from(s, 0) is None {
        Ok(s)
    } else if fuel == 0 {
        Err(GrammarError::DepthError)
    } else {
        match subst_step(rules, s) {
            Ok(s2) => subst_fix(rules, s2, (fuel - 1) as nat),
            Err(e) => Err(e),
        }
    }
}

/// The sequence with its space characters removed.
pub open spec fn strip_spaces(s: Seq<char>) -> Seq<char>
    decreases s.len(),
{
    if s.len() == 0 {
        s
    } else if s.last() == ' ' {
        strip_spaces(s.drop_last())
    } else {
        strip_spaces(s.drop_last()).push(s.last())
    }
}

/// What the whole strategy computes: the start symbol's text, substituted
/// to convergence, spaces stripped, anchored.
pub open spec fn spec_old_apply_rules(rules: Map<usize, Seq<char>>, fuel: nat) -> Result<
    Seq<char>,
    GrammarError,
> {
    if !rules.contains_key(START_RULE) {
        Err(GrammarError::LookupError)
    } else {
        match subst_fix(rules, rules[START_RULE], fuel) {
            Ok(s) => Ok(anchored(strip_spaces(s))),
            Err(e) => Err(e),
        }
    }
}

/// Perform one substitution pass on `s`, whose first digit starts at `i`.
fn subst_pass(rules: &HashMap<usize, String>, s: &str, i: usize) -> (r: Result<
    String,
    GrammarError,
>)
    requires
        first_digit_from(s@, 0) == Some(i as int),
    ensures
        res_view(r) == subst_step(store_view(*rules), s@),
{
    proof {
        lemma_first_digit_bounds(s@, 0);
    }
    let len = s.unicode_len();
    let j = run_end(s, i);
    match parse_digits(s, i, j) {
        None => Err(GrammarError::ParseError),
        Some(v) => match rules.get(&v) {
            None => {
                proof {
                    assert(!store_view(*rules).contains_key(v));
                }
                Err(GrammarError::LookupError)
            },
            Some(text) => {
                proof {
                    assert(store_view(*rules).contains_key(v));
                    assert(store_view(*rules)[v] == text@);
                }
                let t: &str = text.as_str();
                let tlen = t.unicode_len();
                let rep: String = match find_literal(t) {
                    Some(k) => {
                        proof {
                            lemma_first_literal_bounds(t@, 0);
                            assert(k + 3 <= tlen);
                        }
                        let c = t.substring_char(k + 1, k + 2);
                        proof {
                            assert(c@ =~= seq![t@[k as int + 1]]);
                        }
                        String::from_str(c)
                    },
                    None => match find_char_at(t, '|', 0) {
                        Some(_) => {
                            let mut w = String::from_str("(");
                            w.append(t);
                            w.append(")");
                            proof {
                                reveal_strlit("(");
                                reveal_strlit(")");
                                assert(w@ =~= seq!['('] + t@ + seq![')']);
                            }
                            w
                        },
                        None => String::from_str(t),
                    },
                };
                let ghost repv = rep@;
                let mut out = String::from_str(s.substring_char(0, i));
                out.append(rep.as_str());
                let after = s.substring_char(j, len);
                out.append(after);
                proof {
                    assert(s@.subrange(0, i as int) =~= s@.take(i as int));
                    assert(after@ =~= s@.skip(j as int));
                    assert(out@ =~= s@.take(i as int) + repv + s@.skip(j as int));
                }
                Ok(out)
            },
        },
    }
}

/// The text with its spaces removed, left to right.
fn strip_spaces_x(s: &String) -> (r: String)
    ensures
        r@ == strip_spaces(s@),
{
    let len = s.as_str().unicode_len();
    let mut out = String::new();
    let mut i: usize = 0;
    proof {
        assert(s@.take(0) =~= Seq::<char>::empty());
    }
    while i < len
        invariant
            i <= len,
            len == s@.len(),
            out@ == strip_spaces(s@.take(i as int)),
        decreases len - i,
    {
        let c = s.as_str().get_char(i);
        proof {
            assert(s@.take(i as int + 1).drop_last() =~= s@.take(i as int));
            assert(s@.take(i as int + 1).last() == s@[i as int]);
        }
        if c != ' ' {
            let piece = s.as_str().substring_char(i, i + 1);
            proof {
                assert(piece@ =~= seq![s@[i as int]]);
            }
            out.append(piece);
            proof {
                assert(out@ =~= strip_spaces(s@.take(i as int + 1)));
            }
        }
        i += 1;
    }
    proof {
        assert(s@.take(len as int) =~= s@);
    }
    out
}

/// The non-recursive strategy: substitute the start symbol's text to
/// convergence (each pass replaces the first digit run), then strip spaces
/// and anchor. `fuel` bounds the number of passes; a cyclic grammar runs
/// out of it.
pub fn old_apply_rules(rules: &HashMap<usize, String>, fuel: u64) -> (r: Result<
    String,
    GrammarError,
>)
    ensures
        res_view(r) == spec_old_apply_rules(store_view(*rules), fuel as nat),
{
    let start: String = match rules.get(&START_RULE) {
        None => {
            proof {
                assert(!store_view(*rules).contains_key(START_RULE));
            }
            return Err(GrammarError::LookupError);
        },
        Some(t) => t.clone(),
    };
    proof {
        assert(store_view(*rules).contains_key(START_RULE));
        assert(start@ == store_view(*rules)[START_RULE]);
    }
    let ghost rv = store_view(*rules);
    let ghost goal = subst_fix(rv, start@, fuel as nat);
    let mut merged = start;
    let mut left = fuel;
    loop
        invariant
            rv == store_view(*rules),
            rv.contains_key(START_RULE),
            goal == subst_fix(rv, rv[START_RULE], fuel as nat),
            subst_fix(rv, merged@, left as nat) == goal,
        decreases left,
    {
        match find_digit_at(merged.as_str(), 0) {
            None => {
                let ghost mv = merged@;
                let stripped = strip_spaces_x(&merged);
                let mut out = String::from_str("^");
                out.append(stripped.as_str());
                out.append("$");
                proof {
                    reveal_strlit("^");
                    reveal_strlit("$");
                    assert(out@ =~= anchored(strip_spaces(mv)));
                }
                return Ok(out);
            },
            Some(i) => {
                if left == 0 {
                    return Err(GrammarError::DepthError);
                }
                match subst_pass(rules, merged.as_str(), i) {
                    Err(e) => {
                        return Err(e);
                    },
                    Ok(next) => {
                        merged = next;
                        left = left - 1;
                    },
                }
            },
        }
    }
}

} // verus!
