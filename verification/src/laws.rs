//! The engine's general laws, stated and proved against the specification
//! functions of the compilers and the parser.

use vstd::prelude::*;

use crate::errors::GrammarError;
use crate::expand::{
    expand_alts, expand_rule, expand_seq, group_close, group_open, nest_alts, MAX_NEST_DEPTH,
    NEST_LEFT, NEST_RIGHT, NEST_RULE, REPEAT_BASE, REPEAT_RULE,
};
use crate::expand::anchored;
use crate::store::{parse_id, spec_read_rules};
use crate::subst::{spec_old_apply_rules, strip_spaces, subst_fix, subst_step};
use crate::text::{
    first_at_from, first_digit_from, first_literal_from, is_digit_char, is_word_char,
    lemma_first_at_found, lemma_first_at_none, lemma_first_literal_none, literal_at, num_of,
    run_len,
};

verus! {

/// A rule whose stored text is one quoted word character expands to exactly
/// that character — whatever fuel is left, whether or not the overrides are
/// in force, and so from every call site alike.
pub proof fn lemma_literal_rule_expansion(
    rules: Map<usize, Seq<char>>,
    id: usize,
    over: bool,
    fuel: nat,
    c: char,
)
    requires
        !(over && (id == REPEAT_RULE || id == NEST_RULE)),
        rules.contains_key(id),
        rules[id] == seq!['"', c, '"'],
        is_word_char(c),
    ensures
        expand_rule(rules, id, over, fuel) == Ok::<Seq<char>, GrammarError>(seq![c]),
{
    let text = rules[id];
    assert(text.len() == 3);
    assert(literal_at(text, 0));
    assert(first_literal_from(text, 0) == Some(0int));
    assert(text[1] == c);
    assert(seq![text[1]] =~= seq![c]);
}

/// Alternation expansion is order-preserving and exhaustive: a definition
/// `A | B` (neither side holding a `|` or a quote) expands to a group
/// holding the expansion of `A`, then the separator, then the expansion of
/// `B` — both alternatives, in the written order. An error in either
/// alternative is the rule's error, the left one first.
pub proof fn lemma_alternation_expansion(
    rules: Map<usize, Seq<char>>,
    id: usize,
    over: bool,
    fuel: nat,
    a: Seq<char>,
    b: Seq<char>,
)
    requires
        !(over && (id == REPEAT_RULE || id == NEST_RULE)),
        rules.contains_key(id),
        rules[id] == a + seq!['|'] + b,
        forall|k: int| 0 <= k < a.len() ==> (#[trigger] a[k]) != '|' && a[k] != '"',
        forall|k: int| 0 <= k < b.len() ==> (#[trigger] b[k]) != '|' && b[k] != '"',
    ensures
        expand_rule(rules, id, over, fuel) == (match (
            expand_seq(rules, a, over, fuel),
            expand_seq(rules, b, over, fuel),
        ) {
            (Ok(pa), Ok(pb)) => Ok::<Seq<char>, GrammarError>(
                group_open() + pa + seq!['|'] + pb + group_close(),
            ),
            (Err(e), _) => Err::<Seq<char>, GrammarError>(e),
            (_, Err(e)) => Err::<Seq<char>, GrammarError>(e),
        }),
{
    let text = rules[id];
    let al = a.len() as int;
    assert(text.len() == a.len() + 1 + b.len());
    assert forall|k: int| 0 <= k < text.len() implies (#[trigger] text[k]) != '"' by {
        if k < al {
            assert(text[k] == a[k]);
        } else if k == al {
            assert(text[k] == '|');
        } else {
            assert(text[k] == b[k - al - 1]);
        }
    }
    assert forall|k: int| #[trigger] literal_at(text, k) implies false by {
        assert(text[k] == '"');
    }
    lemma_first_literal_none(text, 0);
    assert(text[al] == '|');
    assert forall|k: int| 0 <= k < al implies (#[trigger] text[k]) != '|' by {
        assert(text[k] == a[k]);
    }
    lemma_first_at_found(text, '|', 0, al);
    assert(text.take(al) =~= a);
    assert(text.skip(al + 1) =~= b);
    assert forall|k: int| 0 <= k < b.len() implies (#[trigger] b[k]) != '|' by {
    }
    lemma_first_at_none(b, '|', 0);
    assert(expand_alts(rules, b, over, fuel) == expand_seq(rules, b, over, fuel));
    assert(expand_alts(rules, text, over, fuel) == (match (
        expand_seq(rules, a, over, fuel),
        expand_seq(rules, b, over, fuel),
    ) {
        (Ok(pa), Ok(pb)) => Ok::<Seq<char>, GrammarError>(pa + seq!['|'] + pb),
        (Err(e), _) => Err::<Seq<char>, GrammarError>(e),
        (_, Err(e)) => Err::<Seq<char>, GrammarError>(e),
    }));
    let ra = expand_seq(rules, a, over, fuel);
    let rb = expand_seq(rules, b, over, fuel);
    if ra is Ok && rb is Ok {
        let pa = ra.unwrap();
        let pb = rb.unwrap();
        assert(group_open() + (pa + seq!['|'] + pb) + group_close() =~= group_open() + pa
            + seq!['|'] + pb + group_close());
    }
}

/// The repetition override: under the overrides, the designated rule's
/// expansion is the expansion of its base rule followed by `+` — one or
/// more repetitions of it, never zero.
pub proof fn lemma_repeat_override(rules: Map<usize, Seq<char>>, fuel: nat)
    requires
        fuel >= 1,
    ensures
        expand_rule(rules, REPEAT_RULE, true, fuel) == (match expand_rule(
            rules,
            REPEAT_BASE,
            true,
            (fuel - 1) as nat,
        ) {
            Ok(p) => Ok::<Seq<char>, GrammarError>(p.push('+')),
            Err(e) => Err::<Seq<char>, GrammarError>(e),
        }),
{
}

/// The nesting override: under the overrides, the designated rule's
/// expansion is an alternation over depths one through nine — exactly
/// nine, the documented bound — of that many copies of the left rule's
/// expansion followed by as many of the right rule's.
pub proof fn lemma_nest_override(rules: Map<usize, Seq<char>>, fuel: nat)
    requires
        fuel >= 1,
    ensures
        MAX_NEST_DEPTH == 9,
        expand_rule(rules, NEST_RULE, true, fuel) == (match (
            expand_rule(rules, NEST_LEFT, true, (fuel - 1) as nat),
            expand_rule(rules, NEST_RIGHT, true, (fuel - 1) as nat),
        ) {
            (Ok(a), Ok(b)) => Ok::<Seq<char>, GrammarError>(
                group_open() + nest_alts(a, b, 9) + group_close(),
            ),
            (Err(e), _) => Err::<Seq<char>, GrammarError>(e),
            (_, Err(e)) => Err::<Seq<char>, GrammarError>(e),
        }),
{
}

/// The two compilers agree on an acyclic grammar: here, on the family
/// whose start symbol is a sequence of two references to literal rules,
/// both produce the very same anchored pattern, so the matchers built from
/// them give the same verdict on every message. (In general the two
/// strategies build different pattern texts for one grammar, and their
/// agreement is then a property of the matching engine, which tests check
/// on concrete grammars.)
pub proof fn lemma_strategies_agree_on_literal_sequence(
    rules: Map<usize, Seq<char>>,
    c1: char,
    c2: char,
    fuel: nat,
)
    requires
        fuel >= 2,
        rules.contains_key(0usize),
        rules.contains_key(1usize),
        rules.contains_key(2usize),
        rules[0usize] == seq!['1', ' ', '2'],
        rules[1usize] == seq!['"', c1, '"'],
        rules[2usize] == seq!['"', c2, '"'],
        is_word_char(c1),
        !is_digit_char(c1),
        is_word_char(c2),
        !is_digit_char(c2),
    ensures
        spec_old_apply_rules(rules, fuel) == Ok::<Seq<char>, GrammarError>(
            anchored(seq![c1, c2]),
        ),
        expand_rule(rules, 0usize, false, fuel) == Ok::<Seq<char>, GrammarError>(seq![c1, c2]),
{
    let s0 = rules[0usize];
    let text1 = rules[1usize];
    let text2 = rules[2usize];
    assert(s0[0] == '1' && s0[1] == ' ' && s0[2] == '2');

    // the recursive-aware side: expand the sequence "1 2"
    assert forall|k: int| #[trigger] literal_at(s0, k) implies false by {
        assert(s0[k] == '"');
    }
    lemma_first_literal_none(s0, 0);
    assert forall|k: int| 0 <= k < s0.len() implies (#[trigger] s0[k]) != '|' by {}
    lemma_first_at_none(s0, '|', 0);
    assert(is_digit_char(s0[0]));
    assert(run_len(Seq::<char>::empty()) == 0);
    assert(num_of(Seq::<char>::empty()) == 0);
    assert(run_len(seq![' ', '2']) == 0);
    assert(s0.drop_first() =~= seq![' ', '2']);
    assert(run_len(s0) == 1);
    assert(s0.take(1) =~= seq!['1']);
    assert(seq!['1'].drop_last() =~= Seq::<char>::empty());
    assert(seq!['1'].last() == '1');
    assert(num_of(seq!['1']) == 1);
    lemma_literal_rule_expansion(rules, 1usize, false, (fuel - 1) as nat, c1);
    lemma_literal_rule_expansion(rules, 2usize, false, (fuel - 1) as nat, c2);
    assert(seq!['2'].drop_first() =~= Seq::<char>::empty());
    assert(run_len(seq!['2']) == 1);
    assert(seq!['2'].take(1) =~= seq!['2']);
    assert(seq!['2'].drop_last() =~= Seq::<char>::empty());
    assert(seq!['2'].last() == '2');
    assert(num_of(seq!['2']) == 2);
    assert(expand_seq(rules, seq!['2'], false, fuel) == Ok::<Seq<char>, GrammarError>(seq![c2]))
        by {
        assert(is_digit_char(seq!['2'][0]));
        assert(seq!['2'].skip(1) =~= Seq::<char>::empty());
        assert(expand_seq(rules, Seq::<char>::empty(), false, fuel) == Ok::<
            Seq<char>,
            GrammarError,
        >(Seq::empty()));
        assert(seq![c2] + Seq::<char>::empty() =~= seq![c2]);
    }
    let s1 = s0.skip(1);
    assert(s1 =~= seq![' ', '2']);
    assert(expand_seq(rules, s1, false, fuel) == Ok::<Seq<char>, GrammarError>(seq![c2])) by {
        assert(!is_digit_char(s1[0]));
        assert(s1.drop_first() =~= seq!['2']);
    }
    assert(expand_seq(rules, s0, false, fuel) == Ok::<Seq<char>, GrammarError>(seq![c1, c2])) by {
        assert(seq![c1] + seq![c2] =~= seq![c1, c2]);
    }

    // the substitution side, first pass: "1 2" becomes the first literal
    // character followed by " 2"
    assert(first_digit_from(s0, 0) == Some(0int));
    assert(s0.skip(0) =~= s0);
    assert(s0.subrange(0, 1) =~= seq!['1']);
    assert(literal_at(text1, 0));
    assert(first_literal_from(text1, 0) == Some(0int));
    let s2 = seq![c1, ' ', '2'];
    assert(s0.take(0) + seq![text1[1]] + s0.skip(1) =~= s2);
    assert(subst_step(rules, s0) == Ok::<Seq<char>, GrammarError>(s2));

    // second pass: the remaining reference becomes the second character
    assert(first_digit_from(s2, 2) == Some(2int));
    assert(first_digit_from(s2, 1) == Some(2int));
    assert(first_digit_from(s2, 0) == Some(2int));
    assert(s2.skip(2) =~= seq!['2']);
    assert(s2.subrange(2, 3) =~= seq!['2']);
    assert(literal_at(text2, 0));
    assert(first_literal_from(text2, 0) == Some(0int));
    let s3 = seq![c1, ' ', c2];
    assert(s2.take(2) + seq![text2[1]] + s2.skip(3) =~= s3);
    assert(subst_step(rules, s2) == Ok::<Seq<char>, GrammarError>(s3));

    // converged: no digit run remains
    assert(first_digit_from(s3, 3) is None);
    assert(first_digit_from(s3, 2) is None);
    assert(first_digit_from(s3, 1) is None);
    assert(first_digit_from(s3, 0) is None);
    assert(subst_fix(rules, s3, (fuel - 2) as nat) == Ok::<Seq<char>, GrammarError>(s3));
    assert(subst_fix(rules, s2, (fuel - 1) as nat) == Ok::<Seq<char>, GrammarError>(s3));
    assert(subst_fix(rules, s0, fuel) == Ok::<Seq<char>, GrammarError>(s3));

    // stripping the space leaves the same two characters, anchored alike
    assert(c1 != ' ' && c2 != ' ');
    assert(strip_spaces(Seq::<char>::empty()) =~= Seq::<char>::empty());
    assert(seq![c1].drop_last() =~= Seq::<char>::empty());
    assert(seq![c1].last() == c1);
    assert(strip_spaces(seq![c1]) =~= seq![c1]);
    assert(seq![c1, ' '].drop_last() =~= seq![c1]);
    assert(seq![c1, ' '].last() == ' ');
    assert(strip_spaces(seq![c1, ' ']) =~= seq![c1]);
    assert(s3.drop_last() =~= seq![c1, ' ']);
    assert(s3.last() == c2);
    assert(strip_spaces(s3) =~= seq![c1, c2]);
}

/// A malformed id token on the first rule line is immediately fatal: the
/// whole read fails with `ParseError`; the line is not silently skipped.
pub proof fn lemma_malformed_id_fatal(lines: Seq<Seq<char>>)
    requires
        lines.len() > 0,
        first_at_from(lines[0], ':', 0) is Some,
        parse_id(lines[0].take(first_at_from(lines[0], ':', 0).unwrap())) is None,
    ensures
        spec_read_rules(lines) == Err::<Map<usize, Seq<char>>, GrammarError>(
            GrammarError::ParseError,
        ),
{
}

} // verus!
