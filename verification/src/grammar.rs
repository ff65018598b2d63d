//! The lexical grammar: which spellings stand for which token, and how a text
//! is cut into lexemes.

use crate::tokenizer::Token;
use vstd::prelude::*;

verus! {

/// An ASCII letter.
pub open spec fn is_letter(c: char) -> bool {
    ('a' <= c && c <= 'z') || ('A' <= c && c <= 'Z')
}

/// The token spelled by the single character `c`, if any.
pub open spec fn spelling1(c: char) -> Option<Token> {
    if c == '(' {
        Some(Token::OpenParen)
    } else if c == ')' {
        Some(Token::CloseParen)
    } else if c == '[' {
        Some(Token::OpenBracket)
    } else if c == ']' {
        Some(Token::CloseBracket)
    } else if c == '{' {
        Some(Token::OpenCurlyBrace)
    } else if c == '}' {
        Some(Token::CloseCurlyBrace)
    } else if c == '!' || c == '¬' || c == '∼' || c == '~' {
        Some(Token::Not('¬'))
    } else if c == '⇒' || c == '→' || c == '⊃' {
        Some(Token::Implication('→'))
    } else if c == '⇔' || c == '↔' {
        Some(Token::Biconditional('↔'))
    } else if c == '&' || c == '∧' {
        Some(Token::And('∧'))
    } else if c == '|' || c == '∨' {
        Some(Token::Or('∨'))
    } else if c == '⊕' {
        Some(Token::XOr('⊕'))
    } else if c == '=' || c == '≡' {
        Some(Token::Equals('≡'))
    } else if c == '≠' {
        Some(Token::NotEquals('≠'))
    } else if c == '0' {
        Some(Token::False)
    } else if c == '1' {
        Some(Token::True)
    } else {
        None
    }
}

/// The token spelled by the two characters `a b`, if any.
pub open spec fn spelling2(a: char, b: char) -> Option<Token> {
    if (a == '-' || a == '=') && b == '>' {
        Some(Token::Implication('→'))
    } else if a == '&' && b == '&' {
        Some(Token::And('∧'))
    } else if (a == '|' && b == '|') || (a == 'o' && b == 'r') {
        Some(Token::Or('∨'))
    } else if (a == '=' && b == '=') || (a == 'e' && b == 'q') {
        Some(Token::Equals('≡'))
    } else if a == '!' && b == '=' {
        Some(Token::NotEquals('≠'))
    } else {
        None
    }
}

/// The token spelled by the three characters `a b c`, if any.
pub open spec fn spelling3(a: char, b: char, c: char) -> Option<Token> {
    if a == 'n' && b == 'o' && c == 't' {
        Some(Token::Not('¬'))
    } else if (a == '<' && (b == '-' || b == '=') && c == '>') || (a == 'i' && b == 'f' && c
        == 'f') {
        Some(Token::Biconditional('↔'))
    } else if a == 'a' && b == 'n' && c == 'd' {
        Some(Token::And('∧'))
    } else if a == 'x' && b == 'o' && c == 'r' {
        Some(Token::XOr('⊕'))
    } else {
        None
    }
}

/// The token spelled by the four characters `a b c d`, if any.
pub open spec fn spelling4(a: char, b: char, c: char, d: char) -> Option<Token> {
    if a == 'x' && b == 'n' && c == 'o' && d == 'r' {
        Some(Token::Biconditional('↔'))
    } else if (a == 't' || a == 'T') && b == 'r' && c == 'u' && d == 'e' {
        Some(Token::True)
    } else {
        None
    }
}

/// The token spelled by the five characters `a b c d e`, if any.
pub open spec fn spelling5(a: char, b: char, c: char, d: char, e: char) -> Option<Token> {
    if (a == 'f' || a == 'F') && b == 'a' && c == 'l' && d == 's' && e == 'e' {
        Some(Token::False)
    } else {
        None
    }
}

/// The longest spelling there is.
pub open spec fn longest() -> nat {
    5
}

/// The token that the word `word` spells, if it is one of the fixed
/// spellings of the grammar.
pub open spec fn spelling(word: Seq<char>) -> Option<Token> {
    if word.len() == 1 {
        spelling1(word[0])
    } else if word.len() == 2 {
        spelling2(word[0], word[1])
    } else if word.len() == 3 {
        spelling3(word[0], word[1], word[2])
    } else if word.len() == 4 {
        spelling4(word[0], word[1], word[2], word[3])
    } else if word.len() == 5 {
        spelling5(word[0], word[1], word[2], word[3], word[4])
    } else {
        None
    }
}

/// The fixed spelling of `len` characters that stands at `start`, if any.
pub open spec fn spelling_at(text: Seq<char>, start: int, len: nat) -> Option<Token> {
    if 0 <= start && start + len <= text.len() {
        spelling(text.subrange(start, start + len))
    } else {
        None
    }
}

/// The longest fixed spelling of at most `limit` characters that stands at
/// `start`, with its length.
pub open spec fn longest_spelling(text: Seq<char>, start: int, limit: nat) -> Option<(Token, nat)>
    decreases limit,
{
    if limit == 0 {
        None
    } else {
        match spelling_at(text, start, limit) {
            Some(token) => Some((token, limit)),
            None => longest_spelling(text, start, (limit - 1) as nat),
        }
    }
}

/// The number of letters that stand at `start` without a break.
pub open spec fn letter_run(text: Seq<char>, start: int) -> nat
    decreases text.len() - start,
{
    if 0 <= start < text.len() && is_letter(text[start]) {
        1 + letter_run(text, start + 1)
    } else {
        0
    }
}

/// One lexeme: the token it yields, if it yields one, and its length.
pub struct Lexeme {
    pub token: Option<Token>,
    pub len: nat,
}

/// The lexeme at `start`. The longest match wins: a fixed spelling where
/// none of the letters that follow it would make a longer word, else the
/// whole run of letters as one identifier named by its first letter. A
/// character that starts neither is a lexeme of its own that yields no token.
///
/// An identifier is one letter and no more: `foo` and `far` both name the
/// variable `f`.
pub open spec fn lexeme_at(text: Seq<char>, start: int) -> Lexeme {
    let run = letter_run(text, start);
    match longest_spelling(text, start, longest()) {
        Some((token, len)) if len >= run => Lexeme { token: Some(token), len },
        _ => if run > 0 {
            Lexeme { token: Some(Token::Ident(text[start])), len: run }
        } else {
            Lexeme { token: None, len: 1 }
        },
    }
}

/// The tokens of `text` from `start` on.
pub open spec fn lex_from(text: Seq<char>, start: int) -> Seq<Token>
    decreases text.len() - start,
    via lex_from_decreases
{
    if 0 <= start < text.len() {
        let lexeme = lexeme_at(text, start);
        let rest = lex_from(text, start + lexeme.len);
        match lexeme.token {
            Some(token) => seq![token] + rest,
            None => rest,
        }
    } else {
        Seq::empty()
    }
}

#[via_fn]
proof fn lex_from_decreases(text: Seq<char>, start: int) {
    lemma_lexeme_len(text, start);
}

/// The tokens of `text`.
pub open spec fn lex(text: Seq<char>) -> Seq<Token> {
    lex_from(text, 0)
}

/// A spelling that `longest_spelling` finds is at least one character long
/// and at most `limit`.
pub proof fn lemma_longest_spelling_len(text: Seq<char>, start: int, limit: nat)
    ensures
        longest_spelling(text, start, limit) matches Some((_, len)) ==> 1 <= len <= limit && start
            + len <= text.len(),
    decreases limit,
{
    if limit > 0 {
        lemma_longest_spelling_len(text, start, (limit - 1) as nat);
    }
}

/// A run of letters ends inside the text.
pub proof fn lemma_letter_run_len(text: Seq<char>, start: int)
    requires
        0 <= start <= text.len(),
    ensures
        start + letter_run(text, start) <= text.len(),
    decreases text.len() - start,
{
    if start < text.len() && is_letter(text[start]) {
        lemma_letter_run_len(text, start + 1);
    }
}

/// Every lexeme takes at least one character and ends inside the text.
pub proof fn lemma_lexeme_len(text: Seq<char>, start: int)
    ensures
        lexeme_at(text, start).len >= 1,
        0 <= start < text.len() ==> start + lexeme_at(text, start).len <= text.len(),
{
    lemma_longest_spelling_len(text, start, longest());
    if 0 <= start < text.len() {
        lemma_letter_run_len(text, start);
    }
}

/// A token as the lexer makes it: an operator with the one symbol of its
/// kind, an identifier named by a letter.
pub open spec fn canonical(token: Token) -> bool {
    match token {
        Token::Ident(name) => is_letter(name),
        Token::Not(symbol) => symbol == '¬',
        Token::Implication(symbol) => symbol == '→',
        Token::Biconditional(symbol) => symbol == '↔',
        Token::And(symbol) => symbol == '∧',
        Token::Or(symbol) => symbol == '∨',
        Token::XOr(symbol) => symbol == '⊕',
        Token::Equals(symbol) => symbol == '≡',
        Token::NotEquals(symbol) => symbol == '≠',
        _ => true,
    }
}

proof fn lemma_longest_spelling_canonical(text: Seq<char>, start: int, limit: nat)
    ensures
        longest_spelling(text, start, limit) matches Some((token, _)) ==> canonical(token),
    decreases limit,
{
    if limit > 0 {
        lemma_longest_spelling_canonical(text, start, (limit - 1) as nat);
    }
}

proof fn lemma_lex_from_canonical(text: Seq<char>, start: int)
    ensures
        forall|i: int| 0 <= i < lex_from(text, start).len() ==> canonical(#[trigger] lex_from(text, start)[i]),
    decreases text.len() - start,
{
    if 0 <= start < text.len() {
        let lexeme = lexeme_at(text, start);
        lemma_lexeme_len(text, start);
        lemma_longest_spelling_canonical(text, start, longest());
        lemma_lex_from_canonical(text, start + lexeme.len);
        let rest = lex_from(text, start + lexeme.len);
        assert forall|i: int| 0 <= i < lex_from(text, start).len() implies canonical(
            #[trigger] lex_from(text, start)[i],
        ) by {
            match lexeme.token {
                Some(token) => {
                    assert(canonical(token));
                    if i > 0 {
                        assert(lex_from(text, start)[i] == rest[i - 1]);
                    }
                },
                None => {},
            }
        }
    }
}

/// However an operator was spelled, its token is the same: every operator
/// that the lexer yields carries the one symbol of its kind, and every
/// identifier is named by a letter.
pub proof fn lemma_lex_canonical(text: Seq<char>)
    ensures
        forall|i: int| 0 <= i < lex(text).len() ==> canonical(#[trigger] lex(text)[i]),
{
    lemma_lex_from_canonical(text, 0);
}

fn is_letter_char(c: char) -> (r: bool)
    ensures
        r == is_letter(c),
{
    ('a' <= c && c <= 'z') || ('A' <= c && c <= 'Z')
}

fn token1(c: char) -> (r: Option<Token>)
    ensures
        r == spelling1(c),
{
    if c == '(' {
        Some(Token::OpenParen)
    } else if c == ')' {
        Some(Token::CloseParen)
    } else if c == '[' {
        Some(Token::OpenBracket)
    } else if c == ']' {
        Some(Token::CloseBracket)
    } else if c == '{' {
        Some(Token::OpenCurlyBrace)
    } else if c == '}' {
        Some(Token::CloseCurlyBrace)
    } else if c == '!' || c == '¬' || c == '∼' || c == '~' {
        Some(Token::Not('¬'))
    } else if c == '⇒' || c == '→' || c == '⊃' {
        Some(Token::Implication('→'))
    } else if c == '⇔' || c == '↔' {
        Some(Token::Biconditional('↔'))
    } else if c == '&' || c == '∧' {
        Some(Token::And('∧'))
    } else if c == '|' || c == '∨' {
        Some(Token::Or('∨'))
    } else if c == '⊕' {
        Some(Token::XOr('⊕'))
    } else if c == '=' || c == '≡' {
        Some(Token::Equals('≡'))
    } else if c == '≠' {
        Some(Token::NotEquals('≠'))
    } else if c == '0' {
        Some(Token::False)
    } else if c == '1' {
        Some(Token::True)
    } else {
        None
    }
}

fn token2(a: char, b: char) -> (r: Option<Token>)
    ensures
        r == spelling2(a, b),
{
    if (a == '-' || a == '=') && b == '>' {
        Some(Token::Implication('→'))
    } else if a == '&' && b == '&' {
        Some(Token::And('∧'))
    } else if (a == '|' && b == '|') || (a == 'o' && b == 'r') {
        Some(Token::Or('∨'))
    } else if (a == '=' && b == '=') || (a == 'e' && b == 'q') {
        Some(Token::Equals('≡'))
    } else if a == '!' && b == '=' {
        Some(Token::NotEquals('≠'))
    } else {
        None
    }
}

fn token3(a: char, b: char, c: char) -> (r: Option<Token>)
    ensures
        r == spelling3(a, b, c),
{
    if a == 'n' && b == 'o' && c == 't' {
        Some(Token::Not('¬'))
    } else if (a == '<' && (b == '-' || b == '=') && c == '>') || (a == 'i' && b == 'f' && c
        == 'f') {
        Some(Token::Biconditional('↔'))
    } else if a == 'a' && b == 'n' && c == 'd' {
        Some(Token::And('∧'))
    } else if a == 'x' && b == 'o' && c == 'r' {
        Some(Token::XOr('⊕'))
    } else {
        None
    }
}

fn token4(a: char, b: char, c: char, d: char) -> (r: Option<Token>)
    ensures
        r == spelling4(a, b, c, d),
{
    if a == 'x' && b == 'n' && c == 'o' && d == 'r' {
        Some(Token::Biconditional('↔'))
    } else if (a == 't' || a == 'T') && b == 'r' && c == 'u' && d == 'e' {
        Some(Token::True)
    } else {
        None
    }
}

fn token5(a: char, b: char, c: char, d: char, e: char) -> (r: Option<Token>)
    ensures
        r == spelling5(a, b, c, d, e),
{
    if (a == 'f' || a == 'F') && b == 'a' && c == 'l' && d == 's' && e == 'e' {
        Some(Token::False)
    } else {
        None
    }
}

/// The fixed spelling of `len` characters at `start`, if any.
fn token_at(chars: &Vec<char>, start: usize, len: usize) -> (r: Option<Token>)
    requires
        start < chars.len(),
        len <= 5,
    ensures
        r == spelling_at(chars@, start as int, len as nat),
{
    if len > chars.len() - start {
        return None;
    }
    let ghost word = chars@.subrange(start as int, start + len);
    if len == 1 {
        assert(word[0] == chars@[start as int]);
        token1(chars[start])
    } else if len == 2 {
        assert(word[0] == chars@[start as int] && word[1] == chars@[start + 1]);
        token2(chars[start], chars[start + 1])
    } else if len == 3 {
        assert(word[0] == chars@[start as int] && word[1] == chars@[start + 1] && word[2]
            == chars@[start + 2]);
        token3(chars[start], chars[start + 1], chars[start + 2])
    } else if len == 4 {
        assert(word[0] == chars@[start as int] && word[1] == chars@[start + 1] && word[2]
            == chars@[start + 2] && word[3] == chars@[start + 3]);
        token4(chars[start], chars[start + 1], chars[start + 2], chars[start + 3])
    } else if len == 5 {
        assert(word[0] == chars@[start as int] && word[1] == chars@[start + 1] && word[2]
            == chars@[start + 2] && word[3] == chars@[start + 3] && word[4] == chars@[start + 4]);
        token5(chars[start], chars[start + 1], chars[start + 2], chars[start + 3], chars[start + 4])
    } else {
        None
    }
}

/// The longest fixed spelling at `start`, with its length.
fn longest_token_at(chars: &Vec<char>, start: usize) -> (r: Option<(Token, usize)>)
    requires
        start < chars.len(),
    ensures
        match r {
            Some((token, len)) => longest_spelling(chars@, start as int, longest()) == Some(
                (token, len as nat),
            ),
            None => longest_spelling(chars@, start as int, longest()) is None,
        },
{
    let mut len: usize = 5;
    while len > 0
        invariant
            len <= 5,
            start < chars.len(),
            longest_spelling(chars@, start as int, longest()) == longest_spelling(
                chars@,
                start as int,
                len as nat,
            ),
        decreases len,
    {
        match token_at(chars, start, len) {
            Some(token) => {
                return Some((token, len));
            },
            None => {
                len = len - 1;
            },
        }
    }
    None
}

/// The number of letters that stand at `start` without a break.
fn letters_at(chars: &Vec<char>, start: usize) -> (r: usize)
    requires
        start <= chars.len(),
    ensures
        r == letter_run(chars@, start as int),
        start + r <= chars.len(),
{
    let mut end: usize = start;
    while end < chars.len() && is_letter_char(chars[end])
        invariant
            start <= end <= chars.len(),
            letter_run(chars@, start as int) == (end - start) + letter_run(chars@, end as int),
        decreases chars.len() - end,
    {
        end = end + 1;
    }
    end - start
}

/// Lexes a text given by its characters.
pub fn lex_chars(chars: &Vec<char>) -> (tokens: Vec<Token>)
    ensures
        tokens@ == lex(chars@),
{
    let mut tokens: Vec<Token> = Vec::new();
    let mut at: usize = 0;
    while at < chars.len()
        invariant
            at <= chars.len(),
            lex(chars@) == tokens@ + lex_from(chars@, at as int),
        decreases chars.len() - at,
    {
        proof {
            lemma_lexeme_len(chars@, at as int);
        }
        let run = letters_at(chars, at);
        let ghost before = tokens@;
        let mut len: usize = 1;
        let mut found: Option<Token> = None;
        match longest_token_at(chars, at) {
            Some((token, size)) if size >= run => {
                found = Some(token);
                len = size;
            },
            _ => {
                if run > 0 {
                    found = Some(Token::Ident(chars[at]));
                    len = run;
                }
            },
        }
        assert(lexeme_at(chars@, at as int) == (crate::grammar::Lexeme {
            token: found,
            len: len as nat,
        }));
        match found {
            Some(token) => {
                tokens.push(token);
                assert(tokens@ + lex_from(chars@, at + len) =~= before + (seq![token] + lex_from(
                    chars@,
                    at + len,
                )));
            },
            None => {},
        }
        at = at + len;
    }
    assert(tokens@ + Seq::<Token>::empty() =~= tokens@);
    tokens
}

} // verus!
