//! The structural rules that a token stream must meet before it is evaluated.

use crate::error::{ErrorKind, GroupKind};
use crate::tokenizer::Token;
use vstd::prelude::*;

verus! {

impl GroupKind {
    /// The bracket that opens a group of this kind.
    pub open spec fn opening(self) -> Token {
        match self {
            GroupKind::Paren => Token::OpenParen,
            GroupKind::Bracket => Token::OpenBracket,
            GroupKind::Brace => Token::OpenCurlyBrace,
        }
    }

    /// The bracket that closes a group of this kind.
    pub open spec fn closing(self) -> Token {
        match self {
            GroupKind::Paren => Token::CloseParen,
            GroupKind::Bracket => Token::CloseBracket,
            GroupKind::Brace => Token::CloseCurlyBrace,
        }
    }
}

/// What a token adds to the number of open groups of `kind`.
pub open spec fn weight(token: Token, kind: GroupKind) -> int {
    if token == kind.opening() {
        1
    } else if token == kind.closing() {
        -1
    } else {
        0
    }
}

/// The opening brackets of `kind` in `tokens` less the closing ones.
pub open spec fn depth(tokens: Seq<Token>, kind: GroupKind) -> int
    decreases tokens.len(),
{
    if tokens.len() == 0 {
        0
    } else {
        depth(tokens.drop_last(), kind) + weight(tokens.last(), kind)
    }
}

/// The brackets of `kind` pair up: none closes what was not opened, and at
/// the end none is left open. Brackets of other kinds are not looked at, so
/// groups of different kinds may overlap.
pub open spec fn balanced(tokens: Seq<Token>, kind: GroupKind) -> bool {
    &&& depth(tokens, kind) == 0
    &&& forall|n: int| 0 <= n <= tokens.len() ==> depth(#[trigger] tokens.take(n), kind) >= 0
}

/// Why a stream is refused, if it is: an empty one for being empty, any
/// other for the first kind of bracket, in the order parenthesis, square
/// bracket, brace, that does not pair up.
pub open spec fn structural_error(tokens: Seq<Token>) -> Option<ErrorKind> {
    if tokens.len() == 0 {
        Some(ErrorKind::EmptyExpression)
    } else if !balanced(tokens, GroupKind::Paren) {
        Some(ErrorKind::UnbalancedGroup(GroupKind::Paren))
    } else if !balanced(tokens, GroupKind::Bracket) {
        Some(ErrorKind::UnbalancedGroup(GroupKind::Bracket))
    } else if !balanced(tokens, GroupKind::Brace) {
        Some(ErrorKind::UnbalancedGroup(GroupKind::Brace))
    } else {
        None
    }
}

/// The stream in one more pair of parentheses.
pub open spec fn enclosed(tokens: Seq<Token>) -> Seq<Token> {
    seq![Token::OpenParen] + tokens + seq![Token::CloseParen]
}

/// A stream that passed the structural rules and was put in parentheses.
pub open spec fn is_enclosed_valid(tokens: Seq<Token>) -> bool {
    &&& tokens.len() >= 2
    &&& tokens == enclosed(tokens.subrange(1, tokens.len() - 1))
    &&& structural_error(tokens.subrange(1, tokens.len() - 1)) is None
}

} // verus!
