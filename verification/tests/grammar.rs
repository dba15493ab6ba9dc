use std::collections::HashMap;

use grammar_match::errors::GrammarError;
use grammar_match::expand::{
    apply_rules, apply_rules_2, apply_sequence, make_rule_11, make_rule_8, rule_zero_pattern,
};
use grammar_match::matcher::count_matching;
use grammar_match::store::{read_messages, read_rules};
use grammar_match::subst::old_apply_rules;

fn to_lines(raw: &[&str]) -> Vec<String> {
    raw.iter().map(|s| s.to_string()).collect()
}

fn example_lines() -> Vec<String> {
    to_lines(&[
        "0: 4 1 5",
        "1: 2 3 | 3 2",
        "2: 4 4 | 5 5",
        "3: 4 5 | 5 4",
        "4: \"a\"",
        "5: \"b\"",
        "",
        "ababbb",
        "bababa",
        "abbbab",
        "aaabbb",
        "aaaabbb",
    ])
}

#[test]
fn end_to_end_example() {
    let lines = example_lines();
    let rules = read_rules(&lines).unwrap();
    let messages = read_messages(&lines);
    assert_eq!(messages.len(), 5);

    let pat_a = old_apply_rules(&rules, 10_000).unwrap();
    let count_a = count_matching(pat_a.as_str(), &messages).unwrap();
    assert_eq!(count_a, 2);

    let pat_b = rule_zero_pattern(&rules, false, 64).unwrap();
    let count_b = count_matching(pat_b.as_str(), &messages).unwrap();
    assert_eq!(count_b, 2);
}

#[test]
fn strategies_agree_per_message() {
    let lines = example_lines();
    let rules = read_rules(&lines).unwrap();
    let messages = read_messages(&lines);
    let pat_a = old_apply_rules(&rules, 10_000).unwrap();
    let pat_b = rule_zero_pattern(&rules, false, 64).unwrap();
    let expected = [true, false, true, false, false];
    for (m, want) in messages.iter().zip(expected.iter()) {
        let one = vec![m.clone()];
        let va = count_matching(pat_a.as_str(), &one).unwrap();
        let vb = count_matching(pat_b.as_str(), &one).unwrap();
        assert_eq!(va, vb, "strategies disagree on {}", m);
        assert_eq!(va, if *want { 1 } else { 0 }, "wrong verdict on {}", m);
    }
}

#[test]
fn literal_rule_expands_to_its_character() {
    let lines = to_lines(&["0: \"a\""]);
    let rules = read_rules(&lines).unwrap();
    assert_eq!(apply_rules(&rules, 0, 64).unwrap(), "a");
    assert_eq!(apply_rules_2(&rules, 0, 64).unwrap(), "a");
    // the result is the same however often it is asked for
    assert_eq!(apply_rules(&rules, 0, 1).unwrap(), "a");
    assert_eq!(apply_rules(&rules, 0, 64).unwrap(), "a");
}

#[test]
fn alternation_is_ordered_and_exhaustive() {
    let lines = to_lines(&["0: 1 | 2", "1: \"a\"", "2: \"b\""]);
    let rules = read_rules(&lines).unwrap();
    assert_eq!(apply_rules(&rules, 0, 64).unwrap(), "(:?a|b)");
    let pat = rule_zero_pattern(&rules, false, 64).unwrap();
    let msgs = to_lines(&["a", "b", "c", "ab"]);
    assert_eq!(count_matching(pat.as_str(), &msgs).unwrap(), 2);
    let a_only = to_lines(&["a"]);
    let b_only = to_lines(&["b"]);
    assert_eq!(count_matching(pat.as_str(), &a_only).unwrap(), 1);
    assert_eq!(count_matching(pat.as_str(), &b_only).unwrap(), 1);
}

#[test]
fn sequence_concatenates_in_order() {
    let lines = to_lines(&["0: 1 2", "1: \"a\"", "2: \"b\""]);
    let rules = read_rules(&lines).unwrap();
    assert_eq!(apply_rules(&rules, 0, 64).unwrap(), "ab");
    assert_eq!(apply_sequence(&rules, "1 2".to_string(), 64).unwrap(), "ab");
    assert_eq!(apply_sequence(&rules, "2 1".to_string(), 64).unwrap(), "ba");
    assert_eq!(old_apply_rules(&rules, 1_000).unwrap(), "^ab$");
    assert_eq!(rule_zero_pattern(&rules, false, 64).unwrap(), "^ab$");
}

#[test]
fn rule_8_override_is_one_or_more() {
    let lines = to_lines(&["0: 8", "8: 42 | 42 8", "42: \"a\""]);
    let rules = read_rules(&lines).unwrap();
    assert_eq!(make_rule_8(&rules, 64).unwrap(), "a+");
    let pat = rule_zero_pattern(&rules, true, 64).unwrap();
    for k in 1..=5usize {
        let msg = vec!["a".repeat(k)];
        assert_eq!(count_matching(pat.as_str(), &msg).unwrap(), 1, "k = {}", k);
    }
    let rejected = to_lines(&["", "b", "ab", "ba"]);
    assert_eq!(count_matching(pat.as_str(), &rejected).unwrap(), 0);
}

#[test]
fn rule_8_override_ignores_raw_definition() {
    // the raw texts of the two overridden ids are never looked up
    let lines = to_lines(&["0: 8", "42: \"a\""]);
    let rules = read_rules(&lines).unwrap();
    assert_eq!(make_rule_8(&rules, 64).unwrap(), "a+");
    let pat = rule_zero_pattern(&rules, true, 64).unwrap();
    let msgs = to_lines(&["aaa"]);
    assert_eq!(count_matching(pat.as_str(), &msgs).unwrap(), 1);
}

#[test]
fn rule_11_override_nests_up_to_depth_nine() {
    let lines = to_lines(&["0: 11", "42: \"a\"", "31: \"b\""]);
    let rules = read_rules(&lines).unwrap();
    let mut expected = String::from("(:?");
    for n in 1..=9usize {
        if n > 1 {
            expected.push('|');
        }
        expected.push_str(&format!("a{{{}}}b{{{}}}", n, n));
    }
    expected.push(')');
    assert_eq!(make_rule_11(&rules, 64).unwrap(), expected);

    let pat = rule_zero_pattern(&rules, true, 64).unwrap();
    for n in 1..=10usize {
        let msg = vec![format!("{}{}", "a".repeat(n), "b".repeat(n))];
        let got = count_matching(pat.as_str(), &msg).unwrap();
        // the bound is exactly nine: depth ten is under-matched
        let want = if n <= 9 { 1 } else { 0 };
        assert_eq!(got, want, "n = {}", n);
    }
    let unbalanced = to_lines(&["ab", "aab", "abb", "ba"]);
    assert_eq!(count_matching(pat.as_str(), &unbalanced).unwrap(), 1);
}

#[test]
fn malformed_id_is_fatal() {
    let lines = to_lines(&["x: \"a\""]);
    assert!(matches!(read_rules(&lines), Err(GrammarError::ParseError)));
    // even when later lines are fine, the bad id aborts the whole read
    let mixed = to_lines(&["0: \"a\"", "x: \"b\"", "1: \"c\""]);
    assert!(matches!(read_rules(&mixed), Err(GrammarError::ParseError)));
    // an id too large for usize is a parse failure as well
    let huge = to_lines(&["99999999999999999999999999: \"a\""]);
    assert!(matches!(read_rules(&huge), Err(GrammarError::ParseError)));
}

#[test]
fn missing_rule_reference_is_fatal() {
    let lines = to_lines(&["0: 1"]);
    let rules = read_rules(&lines).unwrap();
    assert!(matches!(apply_rules(&rules, 0, 64), Err(GrammarError::LookupError)));
    assert!(matches!(old_apply_rules(&rules, 1_000), Err(GrammarError::LookupError)));
    let empty: HashMap<usize, String> = HashMap::new();
    assert!(matches!(apply_rules(&empty, 0, 64), Err(GrammarError::LookupError)));
    assert!(matches!(old_apply_rules(&empty, 1_000), Err(GrammarError::LookupError)));
}

#[test]
fn cyclic_grammar_runs_out_of_fuel() {
    let lines = to_lines(&["0: 0"]);
    let rules = read_rules(&lines).unwrap();
    assert!(matches!(apply_rules(&rules, 0, 64), Err(GrammarError::DepthError)));
    assert!(matches!(old_apply_rules(&rules, 100), Err(GrammarError::DepthError)));
}

#[test]
fn invalid_pattern_is_reported() {
    let msgs = to_lines(&["a"]);
    assert!(matches!(count_matching("(", &msgs), Err(GrammarError::PatternError)));
    assert!(matches!(count_matching("a{", &msgs), Err(GrammarError::PatternError)));
}

#[test]
fn counting_tests_every_message() {
    let msgs = to_lines(&["a", "b", "aa", "abc", "aaa"]);
    assert_eq!(count_matching("^a+$", &msgs).unwrap(), 3);
    assert_eq!(count_matching("^z+$", &msgs).unwrap(), 0);
    let none: Vec<String> = Vec::new();
    assert_eq!(count_matching("^a+$", &none).unwrap(), 0);
}

#[test]
fn messages_are_word_lines_only() {
    let lines = to_lines(&["0: \"a\"", "", "abc", "a b", "x_1", "Zz9", "a-b", ""]);
    let messages = read_messages(&lines);
    assert_eq!(messages, vec!["abc".to_string(), "x_1".to_string(), "Zz9".to_string()]);
}

#[test]
fn rule_block_ends_at_first_line_without_colon() {
    let lines = to_lines(&["0: \"a\"", "", "1: \"b\""]);
    let rules = read_rules(&lines).unwrap();
    assert_eq!(rules.get(&0).map(|s| s.as_str()), Some("\"a\""));
    assert!(rules.get(&1).is_none());
}

#[test]
fn later_definition_of_an_id_wins() {
    let lines = to_lines(&["0: \"a\"", "0: \"b\""]);
    let rules = read_rules(&lines).unwrap();
    assert_eq!(rules.get(&0).map(|s| s.as_str()), Some("\"b\""));
    assert_eq!(apply_rules(&rules, 0, 64).unwrap(), "b");
}
