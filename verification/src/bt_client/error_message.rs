use vstd::prelude::*;

verus! {

/// The message of an error, for whoever reads the log.
#[derive(Debug, PartialEq, Eq, Clone)]
pub struct ErrorMessage {
    pub message: String,
}

impl ErrorMessage {
    /// An error message with the given text.
    pub fn new(message: String) -> (created: Self)
        ensures
            created.message == message,
    {
        Self { message }
    }

    /// The text of the message.
    pub fn text(&self) -> (text: &str)
        ensures
            text@ == self.message@,
    {
        self.message.as_str()
    }
}

} // verus!
