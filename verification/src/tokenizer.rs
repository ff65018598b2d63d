//! Tokens of a propositional-logic expression and the stream that holds them.

use crate::grammar::{canonical, lemma_lex_canonical, lex, lex_chars};
use crate::strings::push_char;
use vstd::prelude::*;

verus! {

/// The smallest lexical unit of an expression.
///
/// Every operator carries the single character under which it is displayed,
/// whichever of its spellings was read.
#[derive(Debug, PartialEq, Eq, Clone, Copy, Structural)]
pub enum Token {
    Ident(char),
    OpenParen,
    CloseParen,
    OpenBracket,
    CloseBracket,
    OpenCurlyBrace,
    CloseCurlyBrace,
    Not(char),
    Implication(char),
    Biconditional(char),
    And(char),
    Or(char),
    XOr(char),
    Equals(char),
    NotEquals(char),
    False,
    True,
}

impl Token {
    /// An opening bracket of any of the three kinds.
    pub open spec fn is_open(self) -> bool {
        self == Token::OpenParen || self == Token::OpenBracket || self == Token::OpenCurlyBrace
    }

    /// A closing bracket of any of the three kinds.
    pub open spec fn is_close(self) -> bool {
        self == Token::CloseParen || self == Token::CloseBracket || self == Token::CloseCurlyBrace
    }

    /// The display character of an operator, `None` for every other token.
    pub open spec fn symbol(self) -> Option<char> {
        match self {
            Token::Not(s)
            | Token::Implication(s)
            | Token::Biconditional(s)
            | Token::And(s)
            | Token::Or(s)
            | Token::XOr(s)
            | Token::Equals(s)
            | Token::NotEquals(s) => Some(s),
            _ => None,
        }
    }

    /// A unary or binary operator.
    pub open spec fn is_operator(self) -> bool {
        self.symbol() is Some
    }

    /// The text under which the token is displayed: operators are set off by
    /// one space on either side, the literals show as `0` and `1`.
    pub open spec fn text(self) -> Seq<char> {
        match self {
            Token::Ident(c) => seq![c],
            Token::OpenParen => seq!['('],
            Token::CloseParen => seq![')'],
            Token::OpenBracket => seq!['['],
            Token::CloseBracket => seq![']'],
            Token::OpenCurlyBrace => seq!['{'],
            Token::CloseCurlyBrace => seq!['}'],
            Token::False => seq!['0'],
            Token::True => seq!['1'],
            _ => seq![' ', self.symbol().unwrap(), ' '],
        }
    }
}

impl From<bool> for Token {
    fn from(value: bool) -> (token: Token) {
        if value {
            Token::True
        } else {
            Token::False
        }
    }
}

impl vstd::std_specs::convert::FromSpecImpl<bool> for Token {
    open spec fn obeys_from_spec() -> bool {
        true
    }

    open spec fn from_spec(value: bool) -> Token {
        if value {
            Token::True
        } else {
            Token::False
        }
    }
}

impl From<Token> for bool {
    fn from(token: Token) -> (value: bool) {
        match token {
            Token::True => true,
            _ => false,
        }
    }
}

impl vstd::std_specs::convert::FromSpecImpl<Token> for bool {
    open spec fn obeys_from_spec() -> bool {
        true
    }

    open spec fn from_spec(token: Token) -> bool {
        token == Token::True
    }
}

/// The text of a whole stream: the texts of its tokens, one after another.
pub open spec fn stream_text(tokens: Seq<Token>) -> Seq<char>
    decreases tokens.len(),
{
    if tokens.len() == 0 {
        Seq::empty()
    } else {
        stream_text(tokens.drop_last()) + tokens.last().text()
    }
}

/// The characters of `text`, in order.
fn characters(text: &str) -> (chars: Vec<char>)
    ensures
        chars@ == text@,
{
    let mut chars: Vec<char> = Vec::new();
    for c in it: text.chars()
        invariant
            chars@ == it.seq().take(it.index() as int),
    {
        chars.push(c);
    }
    chars
}

/// An ordered sequence of tokens.
#[derive(Debug)]
pub struct Tokens {
    pub tokens: Vec<Token>,
}

impl View for Tokens {
    type V = Seq<Token>;

    open spec fn view(&self) -> Seq<Token> {
        self.tokens@
    }
}

impl Tokens {
    /// Lexes `text`: at each position the longest spelling wins, a run of
    /// letters that is no keyword becomes one identifier named by its first
    /// letter, and a character that starts no lexeme is skipped.
    pub fn from_text(text: &str) -> (stream: Tokens)
        ensures
            stream@ == lex(text@),
            forall|i: int| 0 <= i < stream@.len() ==> canonical(#[trigger] stream@[i]),
    {
        proof {
            lemma_lex_canonical(text@);
        }
        let chars = characters(text);
        Tokens { tokens: lex_chars(&chars) }
    }

    /// The stream as text: identifiers, brackets and literals as they are,
    /// every operator as its symbol between two spaces.
    pub fn to_text(&self) -> (text: String)
        ensures
            text@ == stream_text(self@),
    {
        let mut text = String::new();
        let mut at: usize = 0;
        while at < self.tokens.len()
            invariant
                at <= self@.len(),
                text@ == stream_text(self@.take(at as int)),
            decreases self@.len() - at,
        {
            let ghost before = text@;
            let token = self.tokens[at];
            assert(self@.take(at + 1).drop_last() =~= self@.take(at as int));
            assert(self@.take(at + 1).last() == token);
            match token {
                Token::Ident(name) => push_char(&mut text, name),
                Token::OpenParen => push_char(&mut text, '('),
                Token::CloseParen => push_char(&mut text, ')'),
                Token::OpenBracket => push_char(&mut text, '['),
                Token::CloseBracket => push_char(&mut text, ']'),
                Token::OpenCurlyBrace => push_char(&mut text, '{'),
                Token::CloseCurlyBrace => push_char(&mut text, '}'),
                Token::False => push_char(&mut text, '0'),
                Token::True => push_char(&mut text, '1'),
                Token::Not(symbol)
                | Token::Implication(symbol)
                | Token::Biconditional(symbol)
                | Token::And(symbol)
                | Token::Or(symbol)
                | Token::XOr(symbol)
                | Token::Equals(symbol)
                | Token::NotEquals(symbol) => {
                    push_char(&mut text, ' ');
                    push_char(&mut text, symbol);
                    push_char(&mut text, ' ');
                },
            }
            assert(text@ =~= before + token.text());
            at = at + 1;
        }
        assert(self@.take(at as int) =~= self@);
        text
    }

    /// Puts `left` in front of the stream and `right` behind it.
    pub fn enclose(&mut self, left: Token, right: Token)
        ensures
            final(self)@ == seq![left] + old(self)@ + seq![right],
    {
        self.tokens.insert(0, left);
        self.tokens.push(right);
    }
}

} // verus!
