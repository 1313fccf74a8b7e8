//! The check of an echo request: a message that holds nothing but white
//! space is refused, any other goes back as it came.

use crate::error::AppError;
use crate::text::{all_space, chars_of, lemma_trim_empty_iff_all_space, trim, trim_bounds};
use vstd::prelude::*;
use vstd::string::*;

verus! {

/// Whether `message` is empty once the white space at its ends is gone.
pub open spec fn is_blank(message: Seq<char>) -> bool {
    trim(message).len() == 0
}

/// The text of the fault for a blank message.
pub open spec fn blank_message() -> Seq<char> {
    "message 不能为空"@
}

/// Decides [`is_blank`].
pub fn message_is_blank(message: &str) -> (blank: bool)
    ensures
        blank == is_blank(message@),
{
    let chars = chars_of(message);
    assert(chars@.subrange(0, chars@.len() as int) =~= chars@);
    let (a, b) = trim_bounds(&chars, 0, chars.len());
    a == b
}

/// Checks the message of an echo request. A blank message is a fault of the
/// caller; any other message is given back unchanged.
pub fn validate_echo(message: String) -> (checked: Result<String, AppError>)
    ensures
        match checked {
            Ok(echoed) => !is_blank(message@) && echoed == message,
            Err(error) => is_blank(message@) && error is BadRequest && error.spec_message()
                == blank_message(),
        },
{
    if message_is_blank(message.as_str()) {
        Err(AppError::BadRequest(String::from_str("message 不能为空")))
    } else {
        Ok(message)
    }
}

/// A message is blank exactly when it holds nothing but white space; the
/// empty message is blank.
pub proof fn lemma_blank_iff_all_space(message: Seq<char>)
    ensures
        is_blank(message) <==> all_space(message),
        message.len() == 0 ==> is_blank(message),
{
    lemma_trim_empty_iff_all_space(message);
}

} // verus!
