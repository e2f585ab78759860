//! The one way in which a conversion can fail.

use vstd::prelude::*;
use vstd::string::StringExecFns;

verus! {

/// Why a board could not be written as FEN.
#[derive(Debug, Clone, Copy, PartialEq, Eq, Structural)]
pub enum FenError {
    /// A square held a character that is neither a piece symbol nor the
    /// empty-square marker. The character is carried along.
    UnexpectedChessChar(char),
}

impl FenError {
    /// The text of the message, as a sequence of characters.
    pub open spec fn message_text(self) -> Seq<char> {
        match self {
            FenError::UnexpectedChessChar(c) => seq![c] + " is not a valid chess character"@,
        }
    }

    /// A description of the failure for the caller: the offending character,
    /// followed by the words "is not a valid chess character".
    pub fn message(&self) -> (text: String)
        ensures
            text@ == self.message_text(),
    {
        match *self {
            FenError::UnexpectedChessChar(c) => {
                let mut text = String::new();
                text.push(c);
                text.append(" is not a valid chess character");
                text
            },
        }
    }
}

} // verus!
