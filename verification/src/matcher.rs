//! The matcher: a compiled pattern text is turned into a full-string
//! membership test over the messages. The engine of the `regex` crate does
//! the matching; what it returns for a given pattern and text is named, not
//! restated, and the counting around the calls is verified against those
//! names.

use vstd::prelude::*;
use vstd::string::*;

use crate::errors::GrammarError;

verus! {

/// Whether the pattern text is a valid expression, as the engine's parser
/// decides it.
pub uninterp spec fn pattern_ok(p: Seq<char>) -> bool;

/// Whether the engine finds a match of the pattern `p` somewhere in `text`.
/// The patterns this library builds are anchored, so for them a match is a
/// full-string match.
pub uninterp spec fn pattern_accepts(p: Seq<char>, text: Seq<char>) -> bool;

/// Relies on regex::Regex::new: it returns `Ok` exactly when the pattern
/// text compiles, and its result depends on the pattern text alone.
#[verifier::external_body]
fn pattern_compiles(p: &str) -> (b: bool)
    ensures
        b == pattern_ok(p@),
{
    regex::Regex::new(p).is_ok()
}

/// Relies on regex::Regex::new and regex::Regex::is_match: whether the
/// engine finds a match of the pattern somewhere in `text`. The result is a
/// function of the two texts alone; a pattern known to compile is required,
/// so the error branch below is never taken.
#[verifier::external_body]
fn pattern_matches(p: &str, text: &str) -> (b: bool)
    requires
        pattern_ok(p@),
    ensures
        b == pattern_accepts(p@, text@),
{
    match regex::Regex::new(p) {
        Ok(re) => re.is_match(text),
        Err(_) => false,
    }
}

/// How many of the messages the pattern accepts.
pub open spec fn count_accepted(p: Seq<char>, msgs: Seq<Seq<char>>) -> nat
    decreases msgs.len(),
{
    if msgs.len() == 0 {
        0
    } else {
        count_accepted(p, msgs.drop_last()) + if pattern_accepts(p, msgs.last()) {
            1nat
        } else {
            0nat
        }
    }
}

/// Test every message against the pattern, in order, and count the
/// accepted ones. A pattern that does not compile is a fatal
/// `PatternError`: it signals a logic error in expansion, not a data
/// error.
pub fn count_matching(pattern: &str, messages: &Vec<String>) -> (r: Result<usize, GrammarError>)
    ensures
        (r is Ok) == pattern_ok(pattern@),
        ({
            match r {
                Ok(c) => c as nat == count_accepted(pattern@, messages.deep_view()),
                Err(e) => e == GrammarError::PatternError,
            }
        }),
{
    if !pattern_compiles(pattern) {
        return Err(GrammarError::PatternError);
    }
    let ghost dv = messages.deep_view();
    let n = messages.len();
    let mut count: usize = 0;
    let mut i: usize = 0;
    proof {
        assert(dv.take(0) =~= Seq::<Seq<char>>::empty());
    }
    while i < n
        invariant
            i <= n,
            n == messages@.len(),
            dv == messages.deep_view(),
            pattern_ok(pattern@),
            count <= i,
            count as nat == count_accepted(pattern@, dv.take(i as int)),
        decreases n - i,
    {
        let m: &String = &messages[i];
        proof {
            assert(dv[i as int] == messages@[i as int]@);
            assert(dv.take(i as int + 1).drop_last() =~= dv.take(i as int));
            assert(dv.take(i as int + 1).last() == dv[i as int]);
        }
        if pattern_matches(pattern, m.as_str()) {
            count += 1;
        }
        i += 1;
    }
    proof {
        assert(dv.take(n as int) =~= dv);
    }
    Ok(count)
}

} // verus!
