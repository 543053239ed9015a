//! The username filter: three pattern tables, looked up in a fixed order.
//!
//! A normalized name is held against the blacklist first, then against the
//! profanity table, then against the table of registered names. The first
//! table that matches gives the reason of the rejection.

use crate::errors::ConfigurationError;
use crate::normalize::NormalizedName;
use regex::Regex;
use vstd::prelude::*;

verus! {

#[verifier::external_type_specification]
#[verifier::external_body]
pub struct ExRegex(regex::Regex);

#[verifier::external_type_specification]
#[verifier::external_body]
pub struct ExRegexError(regex::Error);

/// The pattern text that a compiled expression stands for: for one that
/// `Regex::new` built, the text that was given to `Regex::new`.
pub uninterp spec fn pattern_source(re: Regex) -> Seq<char>;

/// What `Regex::is_match` computes: whether the expression written as
/// `pattern` matches anywhere in `haystack`.
pub uninterp spec fn pattern_matches(pattern: Seq<char>, haystack: Seq<char>) -> bool;

/// `Regex::new`: what comes back compiled stands for the pattern given.
///
/// Which patterns compile is left open.
#[verifier::external_body]
fn compile(pattern: &str) -> (r: Result<Regex, regex::Error>)
    ensures
        r matches Ok(re) ==> pattern_source(re) == pattern@,
{
    Regex::new(pattern)
}

/// `Regex::is_match`: whether the pattern that the expression stands for
/// matches anywhere in the haystack.
#[verifier::external_body]
fn is_match(re: &Regex, haystack: &str) -> (b: bool)
    ensures
        b == pattern_matches(pattern_source(*re), haystack@),
{
    re.is_match(haystack)
}

/// Why a username is rejected.
#[derive(Clone, Copy, Debug, PartialEq, Eq, Structural)]
pub enum RejectionReason {
    /// The name is reserved.
    Blacklisted,
    /// The name holds disallowed vocabulary.
    Profane,
    /// The name differs from a registered one by case or form only.
    CaseCollision,
}

/// What the filter says of a username.
#[derive(Clone, Copy, Debug, PartialEq, Eq, Structural)]
pub enum FilterVerdict {
    /// No table matches.
    Accepted,
    /// A table matches; the reason names the first that does.
    Rejected(RejectionReason),
}

/// One table as plain values: the source of its pattern and the reason it gives.
pub struct RuleView {
    pub source: Seq<char>,
    pub reason: RejectionReason,
}

/// One table: a compiled pattern and the reason that a match gives.
struct Rule {
    pattern: Regex,
    reason: RejectionReason,
}

impl View for Rule {
    type V = RuleView;

    closed spec fn view(&self) -> RuleView {
        RuleView { source: pattern_source(self.pattern), reason: self.reason }
    }
}

/// What holding a name against one table gave: whether the table's pattern
/// matched, and the reason that the table stands for.
#[derive(Clone, Copy, Debug, PartialEq, Eq)]
pub struct Outcome {
    pub matched: bool,
    pub reason: RejectionReason,
}

/// The verdict of outcomes in order of precedence: the reason of the first
/// table that matched, and acceptance where none did.
pub open spec fn first_rejection(outcomes: Seq<Outcome>) -> FilterVerdict
    decreases outcomes.len(),
{
    if outcomes.len() == 0 {
        FilterVerdict::Accepted
    } else if outcomes[0].matched {
        FilterVerdict::Rejected(outcomes[0].reason)
    } else {
        first_rejection(outcomes.drop_first())
    }
}

/// What holding `name` against each of `rules` gives, in their order.
pub open spec fn outcomes(rules: Seq<RuleView>, name: Seq<char>) -> Seq<Outcome> {
    Seq::new(
        rules.len(),
        |k: int| Outcome { matched: pattern_matches(rules[k].source, name), reason: rules[k].reason },
    )
}

/// The verdict of tables looked up in order: the reason of the first whose
/// pattern matches the name, and acceptance where none does.
pub open spec fn verdict(rules: Seq<RuleView>, name: Seq<char>) -> FilterVerdict {
    first_rejection(outcomes(rules, name))
}

/// The three tables in their order of precedence.
pub open spec fn tables(
    blacklist: Seq<char>,
    profanity: Seq<char>,
    registered: Seq<char>,
) -> Seq<RuleView> {
    seq![
        RuleView { source: blacklist, reason: RejectionReason::Blacklisted },
        RuleView { source: profanity, reason: RejectionReason::Profane },
        RuleView { source: registered, reason: RejectionReason::CaseCollision },
    ]
}

/// The verdict of the three tables, written out.
pub open spec fn classification(
    blacklist: Seq<char>,
    profanity: Seq<char>,
    registered: Seq<char>,
    name: Seq<char>,
) -> FilterVerdict {
    if pattern_matches(blacklist, name) {
        FilterVerdict::Rejected(RejectionReason::Blacklisted)
    } else if pattern_matches(profanity, name) {
        FilterVerdict::Rejected(RejectionReason::Profane)
    } else if pattern_matches(registered, name) {
        FilterVerdict::Rejected(RejectionReason::CaseCollision)
    } else {
        FilterVerdict::Accepted
    }
}

/// The views of the rules in `rules`, in order.
spec fn rule_views(rules: Seq<Rule>) -> Seq<RuleView> {
    Seq::new(rules.len(), |k: int| rules[k]@)
}

/// The username filter: the three tables, compiled once.
pub struct Classifier {
    rules: Vec<Rule>,
}

impl View for Classifier {
    type V = Seq<RuleView>;

    closed spec fn view(&self) -> Seq<RuleView> {
        rule_views(self.rules@)
    }
}

/// Decides on outcomes in order of precedence: the first table that matched
/// gives the reason.
pub fn decide(found: &[Outcome]) -> (v: FilterVerdict)
    ensures
        v == first_rejection(found@),
{
    let len = found.len();
    let mut i: usize = 0;
    assert(found@.skip(0) =~= found@);
    while i < len
        invariant
            len == found@.len(),
            0 <= i <= len,
            first_rejection(found@) == first_rejection(found@.skip(i as int)),
        decreases len - i,
    {
        let ghost rest = found@.skip(i as int);
        proof {
            assert(rest[0] == found@[i as int]);
            assert(rest.drop_first() =~= found@.skip(i + 1));
        }
        if found[i].matched {
            return FilterVerdict::Rejected(found[i].reason);
        }
        i = i + 1;
    }
    FilterVerdict::Accepted
}

/// Looked up in order, the three tables give the verdict written out above.
pub proof fn lemma_verdict_of_tables(
    blacklist: Seq<char>,
    profanity: Seq<char>,
    registered: Seq<char>,
    name: Seq<char>,
)
    ensures
        verdict(tables(blacklist, profanity, registered), name) == classification(
            blacklist,
            profanity,
            registered,
            name,
        ),
{
    let all = outcomes(tables(blacklist, profanity, registered), name);
    let two = all.drop_first();
    let one = two.drop_first();
    let none = one.drop_first();
    assert(two[0] == all[1]);
    assert(one[0] == all[2]);
    assert(none.len() == 0);
    assert(first_rejection(none) == FilterVerdict::Accepted);
    assert(first_rejection(one) == if pattern_matches(registered, name) {
        FilterVerdict::Rejected(RejectionReason::CaseCollision)
    } else {
        FilterVerdict::Accepted
    });
    assert(first_rejection(two) == if pattern_matches(profanity, name) {
        FilterVerdict::Rejected(RejectionReason::Profane)
    } else {
        first_rejection(one)
    });
}

/// The blacklist goes before the profanity table: a name that both match is
/// rejected as blacklisted, whatever the table of registered names holds.
pub proof fn lemma_blacklist_precedes_profanity(
    blacklist: Seq<char>,
    profanity: Seq<char>,
    registered: Seq<char>,
    name: Seq<char>,
)
    requires
        pattern_matches(blacklist, name),
        pattern_matches(profanity, name),
    ensures
        verdict(tables(blacklist, profanity, registered), name) == FilterVerdict::Rejected(
            RejectionReason::Blacklisted,
        ),
{
    lemma_verdict_of_tables(blacklist, profanity, registered, name);
}

/// Each table goes before those behind it: the verdict names a table only
/// where no table before it matches.
pub proof fn lemma_precedence(
    blacklist: Seq<char>,
    profanity: Seq<char>,
    registered: Seq<char>,
    name: Seq<char>,
)
    ensures
        ({
            let v = verdict(tables(blacklist, profanity, registered), name);
            &&& v == FilterVerdict::Rejected(RejectionReason::Blacklisted) <==> pattern_matches(
                blacklist,
                name,
            )
            &&& v == FilterVerdict::Rejected(RejectionReason::Profane) <==> !pattern_matches(
                blacklist,
                name,
            ) && pattern_matches(profanity, name)
            &&& v == FilterVerdict::Rejected(RejectionReason::CaseCollision) <==> !pattern_matches(
                blacklist,
                name,
            ) && !pattern_matches(profanity, name) && pattern_matches(registered, name)
            &&& v == FilterVerdict::Accepted <==> !pattern_matches(blacklist, name)
                && !pattern_matches(profanity, name) && !pattern_matches(registered, name)
        }),
{
    lemma_verdict_of_tables(blacklist, profanity, registered, name);
}

impl Classifier {
    /// Puts three compiled tables in their order of precedence.
    ///
    /// Where a table did not compile there is no filter; the error names the
    /// first table that failed, in the order blacklist, profanity, registered.
    pub fn from_compiled(
        blacklist: Result<Regex, regex::Error>,
        profanity: Result<Regex, regex::Error>,
        registered: Result<Regex, regex::Error>,
    ) -> (r: Result<Classifier, ConfigurationError>)
        ensures
            match r {
                Ok(filter) => {
                    &&& blacklist matches Ok(b)
                    &&& profanity matches Ok(p)
                    &&& registered matches Ok(c)
                    &&& filter@ == tables(pattern_source(b), pattern_source(p), pattern_source(c))
                },
                Err(ConfigurationError::MalformedBlacklist) => blacklist is Err,
                Err(ConfigurationError::MalformedProfanity) => blacklist is Ok && profanity is Err,
                Err(ConfigurationError::MalformedRegistered) => blacklist is Ok && profanity is Ok
                    && registered is Err,
                Err(_) => false,
            },
    {
        let b = match blacklist {
            Ok(re) => re,
            Err(_) => {
                return Err(ConfigurationError::MalformedBlacklist);
            },
        };
        let p = match profanity {
            Ok(re) => re,
            Err(_) => {
                return Err(ConfigurationError::MalformedProfanity);
            },
        };
        let c = match registered {
            Ok(re) => re,
            Err(_) => {
                return Err(ConfigurationError::MalformedRegistered);
            },
        };
        let mut rules: Vec<Rule> = Vec::new();
        rules.push(Rule { pattern: b, reason: RejectionReason::Blacklisted });
        rules.push(Rule { pattern: p, reason: RejectionReason::Profane });
        rules.push(Rule { pattern: c, reason: RejectionReason::CaseCollision });
        let filter = Classifier { rules };
        assert(filter@ =~= tables(pattern_source(b), pattern_source(p), pattern_source(c)));
        Ok(filter)
    }

    /// Compiles the sources of the three tables into a filter.
    ///
    /// A source that is no valid pattern gives an error; the filter that comes
    /// back otherwise is the one of these three sources.
    pub fn new(blacklist: &str, profanity: &str, registered: &str) -> (r: Result<
        Classifier,
        ConfigurationError,
    >)
        ensures
            match r {
                Ok(filter) => filter@ == tables(blacklist@, profanity@, registered@),
                Err(e) => e == ConfigurationError::MalformedBlacklist || e
                    == ConfigurationError::MalformedProfanity || e
                    == ConfigurationError::MalformedRegistered,
            },
    {
        let b = compile(blacklist);
        let p = compile(profanity);
        let c = compile(registered);
        Classifier::from_compiled(b, p, c)
    }

    /// Classifies a normalized name: rejected with the reason of the first
    /// table that matches it, accepted where none does.
    ///
    /// The name is held against every table, whichever of them match.
    pub fn classify(&self, name: &NormalizedName) -> (v: FilterVerdict)
        ensures
            v == verdict(self@, name@),
    {
        let text = name.as_str();
        let len = self.rules.len();
        let mut found: Vec<Outcome> = Vec::new();
        let mut i: usize = 0;
        while i < len
            invariant
                len == self.rules@.len(),
                0 <= i <= len,
                text@ == name@,
                found@ == outcomes(self@, name@).take(i as int),
            decreases len - i,
        {
            let rule = &self.rules[i];
            let matched = is_match(&rule.pattern, text);
            found.push(Outcome { matched, reason: rule.reason });
            proof {
                assert(self@[i as int] == rule@);
                assert(found@ =~= outcomes(self@, name@).take(i + 1));
            }
            i = i + 1;
        }
        assert(found@ =~= outcomes(self@, name@));
        decide(found.as_slice())
    }
}

} // verus!
