//! Errors that are told in words.
use vstd::prelude::*;

use crate::text::Text;

verus! {

/// An error with the message that is shown for it.
#[derive(Debug)]
pub struct SimpleError {
    pub message: String,
}

impl View for SimpleError {
    type V = Text;

    open spec fn view(&self) -> Text {
        self.message@
    }
}

/// The error of a message.
pub fn simple_error(message: String) -> (r: SimpleError)
    ensures
        r@ == message@,
{
    SimpleError { message }
}

/// What a fallible operation came to: the value of its result, or the message of its error.
pub open spec fn outcome<T: View>(r: Result<T, SimpleError>) -> Result<T::V, Text> {
    match r {
        Ok(v) => Ok(v@),
        Err(e) => Err(e@),
    }
}

/// The error of two texts in a row.
pub fn error2(a: &str, b: &str) -> (r: SimpleError)
    ensures
        r@ == a@ + b@,
{
    let mut message = a.to_owned();
    message.append(b);
    simple_error(message)
}

/// The error of three texts in a row.
pub fn error3(a: &str, b: &str, c: &str) -> (r: SimpleError)
    ensures
        r@ == a@ + b@ + c@,
{
    let mut message = a.to_owned();
    message.append(b);
    message.append(c);
    simple_error(message)
}

} // verus!
