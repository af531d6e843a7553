//! Compiled location patterns.
use regex::Regex;
use vstd::prelude::*;

verus! {

/// `regex::Regex`, a compiled regular expression.
#[verifier::external_type_specification]
#[verifier::external_body]
pub struct ExRegex(regex::Regex);

/// What `Regex::new` makes of a pattern: an expression if it compiles, else the
/// text of the error.
pub uninterp spec fn compiled_regex(pattern: Seq<char>) -> Result<Regex, Seq<char>>;

/// Whether the regular expression that `Regex::new` makes of a pattern finds a
/// match anywhere in a text, as `Regex::is_match` tells.
pub uninterp spec fn regex_is_match(pattern: Seq<char>, text: Seq<char>) -> bool;

/// `Regex::clone`. The contract claims that a clone is the same expression.
pub assume_specification [ <regex::Regex as Clone>::clone ](regex: &regex::Regex) -> (res: regex::Regex)
    ensures
        res == *regex,
;

/// Calls `Regex::new`. The contract claims that whether a pattern compiles, the
/// expression if it does, and the text of the error if it does not, follow from
/// the pattern alone.
#[verifier::external_body]
fn compile_regex(pattern: &str) -> (res: Result<Regex, String>)
    ensures
        match res {
            Ok(regex) => compiled_regex(pattern@) == Ok::<Regex, Seq<char>>(regex),
            Err(error) => compiled_regex(pattern@) == Err::<Regex, Seq<char>>(error@),
        },
{
    match Regex::new(pattern) {
        Ok(regex) => Ok(regex),
        Err(error) => Err(error.to_string()),
    }
}

/// A regular expression with the pattern that it was compiled from.
#[derive(Debug)]
pub struct LocationRegex {
    pattern: String,
    compiled: Regex,
}

impl Clone for LocationRegex {
    fn clone(&self) -> (res: Self)
        ensures
            res == *self,
    {
        proof {
            use_type_invariant(self);
        }
        LocationRegex { pattern: self.pattern.clone(), compiled: self.compiled.clone() }
    }
}

impl LocationRegex {
    /// The pattern that the expression was compiled from.
    pub closed spec fn pattern(&self) -> Seq<char> {
        self.pattern@
    }

    /// The compiled expression.
    pub closed spec fn compiled(&self) -> Regex {
        self.compiled
    }

    /// The expression is the one that its pattern compiles to.
    #[verifier::type_invariant]
    spec fn inv(&self) -> bool {
        compiled_regex(self.pattern@) == Ok::<Regex, Seq<char>>(self.compiled)
    }

    /// The regular expression of a pattern, else the text of the error in it.
    pub fn compile(pattern: &str) -> (res: Result<LocationRegex, String>)
        ensures
            match res {
                Ok(regex) => {
                    &&& regex.pattern() == pattern@
                    &&& compiled_regex(pattern@) == Ok::<Regex, Seq<char>>(regex.compiled())
                },
                Err(error) => compiled_regex(pattern@) == Err::<Regex, Seq<char>>(error@),
            },
    {
        match compile_regex(pattern) {
            Ok(compiled) => Ok(LocationRegex { pattern: pattern.to_owned(), compiled }),
            Err(error) => Err(error),
        }
    }

    /// Calls `Regex::is_match` on the expression that `Regex::new` made of the
    /// pattern. The contract claims that the answer follows from the pattern and
    /// the text alone.
    #[verifier::external_body]
    pub(crate) fn is_match(&self, text: &str) -> (res: bool)
        ensures
            res == regex_is_match(self.pattern(), text@),
    {
        self.compiled.is_match(text)
    }
}

} // verus!
