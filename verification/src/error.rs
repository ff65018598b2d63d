//! What can go wrong with an expression.

use vstd::prelude::*;
use vstd::string::StringExecFns;

verus! {

/// The three families of brackets. Each is balanced on its own.
#[derive(Debug, PartialEq, Eq, Clone, Copy, Structural)]
pub enum GroupKind {
    Paren,
    Bracket,
    Brace,
}

/// The ways in which an expression is refused.
#[derive(Debug, PartialEq, Eq, Clone, Copy, Structural)]
pub enum ErrorKind {
    /// The stream holds no token.
    EmptyExpression,
    /// The brackets of this kind do not pair up.
    UnbalancedGroup(GroupKind),
    /// The assignment gives this identifier no value.
    MissingAssignment(char),
    /// An operator found fewer operands than it takes.
    StackUnderflow,
}

/// An expression that was refused, and why.
#[derive(Debug, PartialEq, Eq, Clone, Copy, Structural)]
pub struct EvaluatorError {
    pub kind: ErrorKind,
}

/// The message that goes with each kind of refusal.
pub open spec fn message_text(kind: ErrorKind) -> Seq<char> {
    match kind {
        ErrorKind::EmptyExpression => "Empty expression."@,
        ErrorKind::UnbalancedGroup(_) => "mis-match parentheses"@,
        ErrorKind::MissingAssignment(_) => "Please provide value for all idents."@,
        ErrorKind::StackUnderflow => "An operator is missing an operand."@,
    }
}

impl EvaluatorError {
    /// The message for the user.
    pub fn message(&self) -> (text: String)
        ensures
            text@ == message_text(self.kind),
    {
        match self.kind {
            ErrorKind::EmptyExpression => String::from_str("Empty expression."),
            ErrorKind::UnbalancedGroup(_) => String::from_str("mis-match parentheses"),
            ErrorKind::MissingAssignment(_) => String::from_str(
                "Please provide value for all idents.",
            ),
            ErrorKind::StackUnderflow => String::from_str("An operator is missing an operand."),
        }
    }
}

} // verus!
