//! Whether a reply asks the user something back.

use crate::text;
use crate::wake;
use regex::Regex;
use vstd::prelude::*;
use vstd::string::*;

verus! {

/// `regex::Regex`: a compiled pattern.
#[verifier::external_type_specification]
#[verifier::external_body]
pub struct ExRegex(Regex);

/// The pattern that a regular expression was compiled from, with the options that
/// a pattern has by default.
pub uninterp spec fn pattern_of(re: Regex) -> Seq<char>;

/// Whether a pattern that compiles matches anywhere in a text.
pub uninterp spec fn matches_in(pattern: Seq<char>, text: Seq<char>) -> bool;

/// `regex::Regex::new`: compiles a pattern. What comes out was compiled from
/// that pattern. For which patterns anything comes out is left unsaid: besides
/// the syntax of the pattern it depends on how much memory the machine needs for
/// it.
#[verifier::external_body]
fn compile(pattern: &str) -> (r: Option<Regex>)
    ensures
        r matches Some(re) ==> pattern_of(re) == pattern@,
{
    Regex::new(pattern).ok()
}

/// `regex::Regex::is_match`: whether the pattern matches anywhere in the text.
/// What a pattern matches is left to the name `matches_in`.
#[verifier::external_body]
fn is_match(re: &Regex, text: &str) -> (r: bool)
    ensures
        r == matches_in(pattern_of(*re), text@),
{
    re.is_match(text)
}

/// A pattern that was compiled, with the options that a pattern has by default.
#[derive(Debug)]
pub struct Pattern {
    regex: Regex,
}

impl Pattern {
    /// The pattern as it was written.
    pub closed spec fn source(&self) -> Seq<char> {
        pattern_of(self.regex)
    }

    /// Compiles a pattern.
    pub fn new(pattern: &str) -> (r: Option<Self>)
        ensures
            r matches Some(p) ==> p.source() == pattern@,
    {
        match compile(pattern) {
            Some(regex) => Some(Pattern { regex }),
            None => None,
        }
    }

    /// Whether the pattern matches anywhere in a text.
    pub fn is_in(&self, text: &str) -> (r: bool)
        ensures
            r == matches_in(self.source(), text@),
    {
        is_match(&self.regex, text)
    }
}

/// The patterns behind compiled ones.
pub open spec fn patterns_of(list: Seq<Pattern>) -> Seq<Seq<char>> {
    Seq::new(list.len(), |i: int| list[i].source())
}

/// Whether these came out when the patterns were compiled, each in its turn:
/// one for every pattern, and compiled from it if anything came out.
pub open spec fn compiled_from(raw: Seq<Seq<char>>, results: Seq<Option<Pattern>>) -> bool {
    &&& results.len() == raw.len()
    &&& forall|i: int|
        0 <= i < raw.len() && (#[trigger] results[i]) is Some ==> results[i]->0.source()
            == raw[i]
}

/// What came out, without the failures.
pub open spec fn successes(results: Seq<Option<Pattern>>) -> Seq<Pattern>
    decreases results.len(),
{
    if results.len() == 0 {
        Seq::empty()
    } else {
        match results.last() {
            Some(p) => successes(results.drop_last()).push(p),
            None => successes(results.drop_last()),
        }
    }
}

/// Whether a reply asks something back: it is not blank, and one of the patterns
/// matches in it.
pub open spec fn asks_back(patterns: Seq<Seq<char>>, reply: Seq<char>) -> bool {
    text::trim(reply).len() > 0 && exists|i: int|
        0 <= i < patterns.len() && matches_in(#[trigger] patterns[i], text::trim(reply))
}

/// Decides whether a reply asks the user something back.
#[derive(Debug)]
pub struct FollowupClassifier {
    pub patterns: Vec<Pattern>,
}

impl FollowupClassifier {
    /// The patterns that replies are held against.
    pub open spec fn patterns(&self) -> Seq<Seq<char>> {
        patterns_of(self.patterns@)
    }

    /// A classifier with all that came out when its patterns were compiled.
    pub fn from_compiled(results: Vec<Option<Pattern>>) -> (r: Self)
        ensures
            r.patterns@ == successes(results@),
    {
        let mut patterns: Vec<Pattern> = Vec::new();
        let ghost all = results@;
        let mut rest = results;
        assert(all.take(0) =~= Seq::<Option<Pattern>>::empty());
        while rest.len() > 0
            invariant
                rest@.len() <= all.len(),
                rest@ == all.skip(all.len() - rest@.len()),
                patterns@ == successes(all.take(all.len() - rest@.len())),
            decreases rest@.len(),
        {
            let ghost n = all.len() - rest@.len();
            proof {
                assert(all.take(n + 1).drop_last() == all.take(n));
                assert(all.take(n + 1).last() == all[n]);
            }
            let result = rest.remove(0);
            assert(rest@ =~= all.skip(n + 1));
            if let Some(p) = result {
                patterns.push(p);
            }
        }
        assert(all.take(all.len() as int) == all);
        FollowupClassifier { patterns }
    }

    /// A classifier with those of the patterns that compile.
    pub fn new(raw_patterns: &[String]) -> (r: Self)
        ensures
            exists|results: Seq<Option<Pattern>>| #[trigger]
                compiled_from(wake::texts_of(raw_patterns@), results) && r.patterns@ == successes(
                    results,
                ),
    {
        let mut results: Vec<Option<Pattern>> = Vec::new();
        for i in 0..raw_patterns.len()
            invariant
                results@.len() == i,
                forall|j: int|
                    0 <= j < i && (#[trigger] results@[j]) is Some ==> results@[j]->0.source()
                        == raw_patterns@[j]@,
        {
            results.push(Pattern::new(raw_patterns[i].as_str()));
        }
        assert(compiled_from(wake::texts_of(raw_patterns@), results@));
        Self::from_compiled(results)
    }

    /// Whether a reply asks something back.
    pub fn expects_followup(&self, response: &str) -> (r: bool)
        ensures
            r == asks_back(self.patterns(), response@),
    {
        let trimmed = text::trimmed(text::chars_of(response).as_slice());
        if trimmed.len() == 0 {
            return false;
        }
        let reply = text::text_from(trimmed.as_slice());
        let mut found: Vec<bool> = Vec::new();
        for i in 0..self.patterns.len()
            invariant
                reply@ == text::trim(response@),
                found@.len() == i,
                forall|j: int|
                    0 <= j < i ==> #[trigger] found@[j] == matches_in(
                        self.patterns()[j],
                        text::trim(response@),
                    ),
        {
            found.push(self.patterns[i].is_in(reply.as_str()));
        }
        let r = any(found.as_slice());
        proof {
            if r {
                let i = choose|i: int| 0 <= i < found@.len() && #[trigger] found@[i];
                assert(matches_in(self.patterns()[i], text::trim(response@)));
            } else {
                assert forall|i: int| 0 <= i < self.patterns().len() implies !matches_in(
                    #[trigger] self.patterns()[i],
                    text::trim(response@),
                ) by {
                    assert(!found@[i]);
                }
            }
        }
        r
    }
}

/// Whether one of the patterns was found to match.
pub fn any(found: &[bool]) -> (r: bool)
    ensures
        r == exists|i: int| 0 <= i < found@.len() && #[trigger] found@[i],
{
    for i in 0..found.len()
        invariant
            forall|j: int| 0 <= j < i ==> !#[trigger] found@[j],
    {
        if found[i] {
            return true;
        }
    }
    false
}

/// A blank reply never asks anything back.
pub proof fn law_blank_asks_nothing(patterns: Seq<Seq<char>>, reply: Seq<char>)
    requires
        text::trim(reply).len() == 0,
    ensures
        !asks_back(patterns, reply),
{
}

/// White space around a reply does not change whether it asks something back.
pub proof fn law_white_space_is_ignored(patterns: Seq<Seq<char>>, reply: Seq<char>)
    ensures
        asks_back(patterns, reply) == asks_back(patterns, text::trim(reply)),
{
    text::law_trim(reply);
}

} // verus!
