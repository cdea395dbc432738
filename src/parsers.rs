//! Format handlers: each one says which inputs it can take and converts
//! between the plain and the grouped form of a value.
pub mod number;

use crate::grouping::{chars_of, check_plain_number, grouped, is_plain_number};
use number::{starts_with_nonzero_digit, InvalidInputError, Number};
use vstd::prelude::*;

verus! {

/// The capabilities of a format handler. The two predicates are asked
/// before the matching conversion is made.
pub trait Parser {
    /// The inputs in plain form that the handler can group.
    spec fn plain_form(&self, s: Seq<char>) -> bool;

    /// Whether the handler can turn `s`, taken to be in plain form, into
    /// its grouped form.
    fn can_parse_human_into(&self, s: &str) -> (r: bool);

    /// Whether the handler accepts `s` as a number that it can group.
    fn can_parse_human_from(&self, s: &str) -> (r: bool);

    /// The grouped form of `s`, which must be in the handler's plain form.
    fn do_human_into(&self, s: &str) -> (r: String)
        requires
            self.plain_form(s@),
    ;

    /// The plain form of `s`, which is taken to be in grouped form.
    fn do_human_from(&self, s: &str) -> (r: Result<String, number::InvalidInputError>);
}

/// The output for one input. Where the number handler declines the input
/// there is nothing to output; where it accepts it, the output is the
/// grouped form, or an error where the input is not a plain number after
/// all.
pub fn humanize(input: &str) -> (r: Result<Option<String>, InvalidInputError>)
    ensures
        r == Ok::<Option<String>, InvalidInputError>(None) <==> !starts_with_nonzero_digit(
            input@,
        ),
        r is Err <==> starts_with_nonzero_digit(input@) && !is_plain_number(input@),
        r matches Ok(Some(out)) ==> out@ == grouped(input@),
{
    let p = Number {};
    if !p.can_parse_human_from(input) {
        return Ok(None);
    }
    if !check_plain_number(&chars_of(input)) {
        return Err(InvalidInputError);
    }
    Ok(Some(p.do_human_into(input)))
}

} // verus!
