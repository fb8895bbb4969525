//! Sets of regular expressions, from the `regex` crate.
use crate::text;
use vstd::prelude::*;

verus! {

/// The compiled regular expressions of the `regex` crate.
#[verifier::external_type_specification]
#[verifier::external_body]
pub struct ExRegexSet(regex::RegexSet);

/// The error of the `regex` crate.
#[verifier::external_type_specification]
#[verifier::external_body]
pub struct ExRegexError(regex::Error);

/// The regular expressions that a set was compiled from, in order.
pub uninterp spec fn set_patterns(set: regex::RegexSet) -> Seq<Seq<char>>;

/// Whether a text is a valid regular expression of the `regex` crate.
pub uninterp spec fn valid_pattern(pattern: Seq<char>) -> bool;

/// Whether a regular expression matches somewhere in a text.
pub uninterp spec fn pattern_matches(pattern: Seq<char>, haystack: Seq<char>) -> bool;

/// The number of expressions that fit in one set. The `regex` crate panics on
/// more.
pub const PATTERN_LIMIT: usize = 0x7fff_ffff;

/// `regex::RegexSet::new`: a set that compiles holds the expressions it was
/// given, in order, and all of them are valid.
///
/// Whether valid expressions compile is left open: the crate refuses a set
/// whose compiled form takes too many bytes, and how many it takes depends on
/// the machine.
#[verifier::external_body]
pub(crate) fn compile_set(patterns: &Vec<String>) -> (res: Result<regex::RegexSet, regex::Error>)
    requires
        patterns@.len() <= PATTERN_LIMIT,
    ensures
        res matches Ok(set) ==> set_patterns(set) == text::texts(patterns@),
        res is Ok ==> forall|i: int|
            0 <= i < patterns@.len() ==> valid_pattern((#[trigger] patterns@[i])@),
{
    regex::RegexSet::new(patterns)
}

/// Whether the `regex` crate was asked to compile a list of expressions and gave
/// the error.
spec fn gave(list: &Vec<String>, err: regex::Error, message: String) -> bool {
    &&& call_ensures(compile_set, (list,), Err::<regex::RegexSet, regex::Error>(err))
    &&& vstd::string::to_string_from_display_ensures(&err, message)
}

/// Whether the `regex` crate may refuse to compile expressions, with the given
/// message: it was asked to, and that is what its error says.
pub closed spec fn refuses(expressions: Seq<Seq<char>>, message: Seq<char>) -> bool {
    exists|list: Vec<String>, err: regex::Error, said: String| #[trigger]
        gave(&list, err, said) && text::texts(list@) == expressions && said@ == message
}

/// What the crate gave is a refusal.
pub(crate) proof fn lemma_refuses(list: &Vec<String>, err: regex::Error, message: String)
    requires
        call_ensures(compile_set, (list,), Err::<regex::RegexSet, regex::Error>(err)),
        vstd::string::to_string_from_display_ensures(&err, message),
    ensures
        refuses(text::texts(list@), message@),
{
    assert(gave(list, err, message));
}

/// Expressions are refused by the `regex` crate alone: behind every refusal there
/// is a call of it, on just these expressions, with an error of that message.
pub(crate) proof fn law_refusal_is_the_crates(expressions: Seq<Seq<char>>, message: Seq<char>) -> (
    call: (Vec<String>, regex::Error, String))
    requires
        refuses(expressions, message),
    ensures
        call_ensures(compile_set, (&call.0,), Err::<regex::RegexSet, regex::Error>(call.1)),
        vstd::string::to_string_from_display_ensures(&call.1, call.2),
        text::texts(call.0@) == expressions,
        call.2@ == message,
{
    choose|list: Vec<String>, err: regex::Error, said: String| #[trigger]
        gave(&list, err, said) && text::texts(list@) == expressions && said@ == message
}

/// `regex::RegexSet::is_match`: whether one of the expressions of the set
/// matches somewhere in the text.
#[verifier::external_body]
pub(crate) fn set_matches(set: &regex::RegexSet, haystack: &str) -> (res: bool)
    ensures
        res == (exists|i: int|
            0 <= i < set_patterns(*set).len() && pattern_matches(
                #[trigger] set_patterns(*set)[i],
                haystack@,
            )),
{
    set.is_match(haystack)
}

} // verus!
