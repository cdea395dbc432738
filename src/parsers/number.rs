//! The handler for non-negative decimal integers, grouped by thousands.
use crate::grouping::{
    chars_of, check_plain_number, group_chars, grouped, is_grouped_number, is_plain_number, same_chars,
    string_of, strip_separators, without_separators,
};
use crate::parsers::Parser;
use vstd::prelude::*;

verus! {

/// The pattern of an input that this handler groups: a digit from 1 to 9
/// at the start.
pub const PLAIN_FORM_PATTERN: &'static str = "^[1-9]";

/// The text starts with a digit from 1 to 9.
pub open spec fn starts_with_nonzero_digit(s: Seq<char>) -> bool {
    s.len() > 0 && '1' <= s[0] && s[0] <= '9'
}

/// Relies on `regex::Regex::new`, which compiles the pattern `^[1-9]`
/// without error, and on `regex::Regex::is_match`, which is true exactly
/// when the pattern matches somewhere in the text. In that pattern `^`
/// anchors the match at the start of the text and `[1-9]` is one character
/// from '1' to '9'.
#[verifier::external_body]
fn regex_is_match(pattern: &str, text: &str) -> (r: bool)
    requires
        pattern@ == seq!['^', '[', '1', '-', '9', ']'],
    ensures
        r == starts_with_nonzero_digit(text@),
{
    match regex::Regex::new(pattern) {
        Ok(re) => re.is_match(text),
        Err(_) => false,
    }
}

/// An input that is not a well-formed grouped number.
#[derive(Debug, Clone, Copy, PartialEq, Eq)]
pub struct InvalidInputError;

/// The handler for non-negative decimal integers.
#[derive(Debug)]
pub struct Number {}

impl Parser for Number {
    open spec fn plain_form(&self, s: Seq<char>) -> bool {
        is_plain_number(s)
    }

    /// Grouping is not offered as a capability of this handler.
    fn can_parse_human_into(&self, s: &str) -> (r: bool)
        ensures
            !r,
    {
        false
    }

    fn can_parse_human_from(&self, s: &str) -> (r: bool)
        ensures
            r == starts_with_nonzero_digit(s@),
    {
        let pattern = PLAIN_FORM_PATTERN;
        proof {
            reveal_strlit("^[1-9]");
            assert(pattern@ =~= seq!['^', '[', '1', '-', '9', ']']);
        }
        regex_is_match(pattern, s)
    }

    fn do_human_into(&self, s: &str) -> (r: String)
        ensures
            r@ == grouped(s@),
    {
        let chars = chars_of(s);
        // nothing below a thousand needs grouping
        if chars.len() < 4 {
            return s.to_owned();
        }
        string_of(&group_chars(&chars))
    }

    fn do_human_from(&self, s: &str) -> (r: Result<String, InvalidInputError>)
        ensures
            r is Ok <==> is_grouped_number(s@),
            r matches Ok(plain) ==> plain@ == without_separators(s@),
    {
        let chars = chars_of(s);
        let digits = strip_separators(&chars);
        if !check_plain_number(&digits) {
            return Err(InvalidInputError);
        }
        if !same_chars(&group_chars(&digits), &chars) {
            return Err(InvalidInputError);
        }
        Ok(string_of(&digits))
    }
}

} // verus!
