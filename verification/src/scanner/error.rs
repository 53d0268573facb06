use super::grammar::{unexpected_character_message, unterminated_string_message};
use vstd::prelude::*;

verus! {

/// What can be wrong with a lexeme. Neither stops the scan.
#[derive(Debug, Clone, Copy, PartialEq, Eq, Structural)]
pub enum LexError {
    /// A byte that starts no lexeme.
    UnexpectedCharacter,
    /// A string whose closing quote is missing.
    UnterminatedString,
}

impl LexError {
    /// The message under which the error is reported.
    pub open spec fn message_text(self) -> Seq<char> {
        match self {
            LexError::UnexpectedCharacter => unexpected_character_message(),
            LexError::UnterminatedString => unterminated_string_message(),
        }
    }

    /// The message under which the error is reported.
    pub fn message(self) -> (text: &'static str)
        ensures
            text@ == self.message_text(),
    {
        match self {
            LexError::UnexpectedCharacter => "Unexpected Character",
            LexError::UnterminatedString => "Unterminated String.",
        }
    }
}

/// The two errors are told apart by their messages.
pub proof fn lemma_messages_differ()
    ensures
        unexpected_character_message() != unterminated_string_message(),
{
    reveal_strlit("Unexpected Character");
    reveal_strlit("Unterminated String.");
    assert("Unexpected Character"@[2] == 'e');
    assert("Unterminated String."@[2] == 't');
}

} // verus!
