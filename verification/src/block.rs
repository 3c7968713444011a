//! Pattern-based submission blocking: a save whose title or content
//! matches a configured pattern is silently dropped.

use vstd::prelude::*;
use crate::config::Config;
use crate::dto::SaveRecordInput;

verus! {

/// Whether every pattern in the list compiles as a regular
/// expression; building a set fails on the pattern list alone.
pub uninterp spec fn regex_patterns_valid(patterns: Seq<Seq<char>>) -> bool;

/// Whether some pattern of the compiled list matches the text.
pub uninterp spec fn regex_set_match(patterns: Seq<Seq<char>>, text: Seq<char>) -> bool;

/// Relies on regex::RegexSet::new: compiling the pattern list
/// succeeds or fails deterministically on the patterns alone.
#[verifier::external_body]
fn regex_compile_ok(patterns: &Vec<String>) -> (r: bool)
    ensures
        r == regex_patterns_valid(patterns.deep_view()),
{
    regex::RegexSet::new(patterns).is_ok()
}

/// Relies on regex::RegexSet::new and RegexSet::is_match: the same
/// pattern list compiles to the same set, and the set matches the
/// text exactly when one of its patterns does.
#[verifier::external_body]
fn regex_any_match(patterns: &Vec<String>, text: &str) -> (r: bool)
    requires
        regex_patterns_valid(patterns.deep_view()),
    ensures
        r == regex_set_match(patterns.deep_view(), text@),
{
    match regex::RegexSet::new(patterns) {
        Ok(set) => set.is_match(text),
        Err(_) => false,
    }
}

/// The compiled blocking rules. Holding the pattern list itself
/// keeps the matching contract exact; the set is rebuilt on use.
pub struct BlockRules {
    patterns: Vec<String>,
}

/// Whether a save request trips the rules: its title or its content
/// matches some pattern.
pub open spec fn spec_blocked(patterns: Seq<Seq<char>>, input: &SaveRecordInput) -> bool {
    regex_set_match(patterns, input.title@) || regex_set_match(patterns, input.content@)
}

impl BlockRules {
    pub closed spec fn spec_patterns(&self) -> Seq<Seq<char>> {
        self.patterns.deep_view()
    }

    #[verifier::type_invariant]
    spec fn type_inv(&self) -> bool {
        regex_patterns_valid(self.patterns.deep_view())
    }

    /// Compile the configured rules: none configured or an empty
    /// list means no blocking at all; a list with an invalid
    /// pattern is refused whole.
    pub fn new(config: &Config) -> (r: Result<Option<BlockRules>, ()>)
        ensures
            (match r {
                Ok(Some(rules)) => {
                    &&& config.security.block_rules matches Some(patterns)
                        && patterns.deep_view().len() > 0 && rules.spec_patterns()
                        == patterns.deep_view()
                },
                Ok(None) => {
                    ||| config.security.block_rules is None
                    ||| (config.security.block_rules matches Some(patterns)
                        && patterns.deep_view().len() == 0)
                },
                Err(()) => {
                    &&& config.security.block_rules matches Some(patterns)
                        && patterns.deep_view().len() > 0 && !regex_patterns_valid(
                        patterns.deep_view(),
                    )
                },
            }),
    {
        match &config.security.block_rules {
            None => Ok(None),
            Some(patterns) => {
                if patterns.len() == 0 {
                    return Ok(None);
                }
                let mut copied: Vec<String> = Vec::new();
                let mut i: usize = 0;
                let n = patterns.len();
                while i < n
                    invariant
                        n == patterns@.len(),
                        i <= n,
                        copied@.len() == i,
                        forall|j: int| 0 <= j < i ==> #[trigger] copied@[j]@ == patterns@[j]@,
                    decreases n - i,
                {
                    copied.push(patterns[i].clone());
                    i = i + 1;
                }
                proof {
                    assert(copied.deep_view() =~= patterns.deep_view());
                }
                if regex_compile_ok(&copied) {
                    Ok(Some(BlockRules { patterns: copied }))
                } else {
                    Err(())
                }
            },
        }
    }

    /// Whether the save request's title or content matches one of
    /// the rules.
    pub fn is_match(&self, input: &SaveRecordInput) -> (r: bool)
        ensures
            r == spec_blocked(self.spec_patterns(), input),
    {
        proof {
            use_type_invariant(self);
        }
        regex_any_match(&self.patterns, input.title.as_str()) || regex_any_match(
            &self.patterns,
            input.content.as_str(),
        )
    }
}

} // verus!
