//! Splitting a line of the query language into tokens.

use crate::vm::parser::SyntaxError;
use vstd::prelude::*;

verus! {

/// The kinds of token.
#[derive(Debug, Clone, Copy, PartialEq, Eq, Structural)]
pub enum TokenType {
    Ident,
    Comma,
    LeftParen,
    RightParen,
    Equals,
    Star,
    SemiColon,
}

/// A token: its kind and, for an identifier, its text.
#[derive(Debug, PartialEq)]
pub struct Token {
    pub token_type: TokenType,
    pub lexeme: Option<String>,
}

/// The mathematical value of a token.
pub struct TokenView {
    pub token_type: TokenType,
    pub lexeme: Option<Seq<char>>,
}

impl View for Token {
    type V = TokenView;

    open spec fn view(&self) -> TokenView {
        TokenView {
            token_type: self.token_type,
            lexeme: match self.lexeme {
                Some(text) => Some(text@),
                None => None,
            },
        }
    }
}

impl TokenView {
    /// An identifier carries its text.
    pub open spec fn wf(self) -> bool {
        self.token_type == TokenType::Ident ==> self.lexeme is Some
    }
}

impl Token {
    /// A token of kind `token_type` with the text `lexeme`.
    pub fn with_lexeme(token_type: TokenType, lexeme: String) -> (token: Token)
        ensures
            token@ == (TokenView { token_type, lexeme: Some(lexeme@) }),
    {
        Token { token_type, lexeme: Some(lexeme) }
    }

    /// A token of kind `token_type` without text.
    pub fn without_lexeme(token_type: TokenType) -> (token: Token)
        ensures
            token@ == (TokenView { token_type, lexeme: None }),
    {
        Token { token_type, lexeme: None }
    }

    /// The text of a token that has one.
    pub fn get_lexeme(&self) -> (text: &str)
        requires
            self.lexeme is Some,
        ensures
            Some(text@) == self@.lexeme,
    {
        self.lexeme.as_ref().unwrap().as_str()
    }
}

/// Whether `c` is alphabetic or numeric in the sense of Unicode, as
/// `char::is_alphanumeric` of the standard library tells.
pub uninterp spec fn is_alphanumeric(c: char) -> bool;

/// Calls `char::is_alphanumeric`. Nothing is proved of it: its answer for a
/// character is given the name `is_alphanumeric`, which depends on the
/// character alone.
#[verifier::external_body]
fn char_is_alphanumeric(c: char) -> (answer: bool)
    ensures
        answer == is_alphanumeric(c),
{
    c.is_alphanumeric()
}

/// The kind of the token that the single character `c` makes.
pub open spec fn punctuation(c: char) -> Option<TokenType> {
    if c == ',' {
        Some(TokenType::Comma)
    } else if c == '(' {
        Some(TokenType::LeftParen)
    } else if c == ')' {
        Some(TokenType::RightParen)
    } else if c == '=' {
        Some(TokenType::Equals)
    } else if c == '*' {
        Some(TokenType::Star)
    } else if c == ';' {
        Some(TokenType::SemiColon)
    } else {
        None
    }
}

/// An ASCII letter or digit: what an identifier starts with.
pub open spec fn is_ident_start(c: char) -> bool {
    ('A' <= c && c <= 'Z') || ('a' <= c && c <= 'z') || ('0' <= c && c <= '9')
}

/// The index just after the identifier characters that start at `i`: the
/// first index at or after `i` whose flag in `continues` is not set.
pub open spec fn ident_end(continues: Seq<bool>, i: int) -> int
    decreases continues.len() - i,
{
    if 0 <= i < continues.len() && continues[i] {
        ident_end(continues, i + 1)
    } else {
        i
    }
}

/// `first`, then the tokens of `rest`; the error of `rest` if it has one.
pub open spec fn token_then(first: TokenView, rest: Result<Seq<TokenView>, SyntaxError>) -> Result<
    Seq<TokenView>,
    SyntaxError,
> {
    match rest {
        Ok(tokens) => Ok(seq![first] + tokens),
        Err(e) => Err(e),
    }
}

/// The tokens of `chars` from index `i` on, where `continues[k]` tells
/// whether `chars[k]` may continue an identifier.
///
/// A space separates tokens. Each of `, ( ) = * ;` is a token of its own. An
/// ASCII letter or digit starts an identifier, which runs on as long as the
/// characters may continue one. Any other character is a syntax error.
pub open spec fn tokens_from(chars: Seq<char>, continues: Seq<bool>, i: int) -> Result<
    Seq<TokenView>,
    SyntaxError,
>
    decreases chars.len() - i,
{
    if i < 0 || i >= chars.len() {
        Ok(Seq::empty())
    } else if chars[i] == ' ' {
        tokens_from(chars, continues, i + 1)
    } else if punctuation(chars[i]) is Some {
        token_then(
            TokenView { token_type: punctuation(chars[i])->0, lexeme: None },
            tokens_from(chars, continues, i + 1),
        )
    } else if is_ident_start(chars[i]) {
        let end = ident_end(continues, i + 1);
        if i < end <= chars.len() {
            token_then(
                TokenView { token_type: TokenType::Ident, lexeme: Some(chars.subrange(i, end)) },
                tokens_from(chars, continues, end),
            )
        } else {
            Err(SyntaxError)
        }
    } else {
        Err(SyntaxError)
    }
}

/// For every character of `chars`, whether it is alphanumeric.
pub open spec fn alphanumeric_flags(chars: Seq<char>) -> Seq<bool> {
    Seq::new(chars.len(), |k: int| is_alphanumeric(chars[k]))
}

/// The views of the tokens, or the error unchanged.
pub open spec fn tokens_view(result: Result<Vec<Token>, SyntaxError>) -> Result<
    Seq<TokenView>,
    SyntaxError,
> {
    match result {
        Ok(tokens) => Ok(Seq::new(tokens@.len(), |k: int| tokens@[k]@)),
        Err(e) => Err(e),
    }
}

fn punctuation_of(c: char) -> (kind: Option<TokenType>)
    ensures
        kind == punctuation(c),
{
    if c == ',' {
        Some(TokenType::Comma)
    } else if c == '(' {
        Some(TokenType::LeftParen)
    } else if c == ')' {
        Some(TokenType::RightParen)
    } else if c == '=' {
        Some(TokenType::Equals)
    } else if c == '*' {
        Some(TokenType::Star)
    } else if c == ';' {
        Some(TokenType::SemiColon)
    } else {
        None
    }
}

fn collect_chars(input: &str) -> (chars: Vec<char>)
    ensures
        chars@ == input@,
{
    let mut chars: Vec<char> = Vec::new();
    for c in it: input.chars()
        invariant
            it.seq() == input@,
            chars@ == input@.take(it.index() as int),
    {
        chars.push(c);
        assert(chars@ =~= input@.take(it.index() + 1));
    }
    assert(chars@ =~= input@);
    chars
}

fn text_of(chars: &Vec<char>, start: usize, end: usize) -> (text: String)
    requires
        start <= end <= chars@.len(),
    ensures
        text@ == chars@.subrange(start as int, end as int),
{
    let mut text = String::new();
    let mut i: usize = start;
    while i < end
        invariant
            start <= i <= end <= chars@.len(),
            text@ == chars@.subrange(start as int, i as int),
        decreases end - i,
    {
        push_char(&mut text, chars[i]);
        assert(text@ =~= chars@.subrange(start as int, i + 1));
        i = i + 1;
    }
    text
}

/// Calls `String::push`, which appends one character to the end of the string.
#[verifier::external_body]
fn push_char(text: &mut String, c: char)
    ensures
        final(text)@ == old(text)@.push(c),
{
    text.push(c);
}

/// Splits `chars` into tokens, given for every character whether it may
/// continue an identifier.
pub fn tokenize_chars(chars: &Vec<char>, continues: &Vec<bool>) -> (result: Result<
    Vec<Token>,
    SyntaxError,
>)
    requires
        continues@.len() == chars@.len(),
    ensures
        tokens_view(result) == tokens_from(chars@, continues@, 0),
        result is Ok ==> forall|k: int| 0 <= k < result->Ok_0@.len() ==> (#[trigger] result->Ok_0@[k])@.wf(),
{
    let mut tokens: Vec<Token> = Vec::new();
    let mut i: usize = 0;
    let len = chars.len();
    let ghost all = tokens_from(chars@, continues@, 0);
    while i < len
        invariant
            i <= len == chars@.len() == continues@.len(),
            forall|k: int| 0 <= k < tokens@.len() ==> (#[trigger] tokens@[k])@.wf(),
            all == tokens_from(chars@, continues@, 0),
            all == match tokens_from(chars@, continues@, i as int) {
                Ok(rest) => Ok::<Seq<TokenView>, SyntaxError>(
                    Seq::new(tokens@.len(), |k: int| tokens@[k]@) + rest,
                ),
                Err(e) => Err(e),
            },
        decreases len - i,
    {
        let c = chars[i];
        let ghost done = Seq::new(tokens@.len(), |k: int| tokens@[k]@);
        if c == ' ' {
            i = i + 1;
        } else {
            match punctuation_of(c) {
                Some(kind) => {
                    tokens.push(Token::without_lexeme(kind));
                    i = i + 1;
                },
                None => {
                    if !(('A' <= c && c <= 'Z') || ('a' <= c && c <= 'z') || ('0' <= c && c <= '9')) {
                        return Err(SyntaxError);
                    }
                    let mut end: usize = i + 1;
                    while end < len && continues[end]
                        invariant
                            i < end <= len == continues@.len(),
                            ident_end(continues@, i + 1) == ident_end(continues@, end as int),
                        decreases len - end,
                    {
                        end = end + 1;
                    }
                    tokens.push(Token::with_lexeme(TokenType::Ident, text_of(chars, i, end)));
                    i = end;
                },
            }
            proof {
                let now = Seq::new(tokens@.len(), |k: int| tokens@[k]@);
                assert(now =~= done + seq![tokens@[tokens@.len() - 1]@]);
                match tokens_from(chars@, continues@, i as int) {
                    Ok(rest) => {
                        assert(done + (seq![tokens@[tokens@.len() - 1]@] + rest) =~= now + rest);
                    },
                    Err(_) => {},
                }
            }
        }
    }
    assert(Seq::new(tokens@.len(), |k: int| tokens@[k]@) + Seq::<TokenView>::empty() =~= Seq::new(
        tokens@.len(),
        |k: int| tokens@[k]@,
    ));
    Ok(tokens)
}

/// Splits a line into tokens. A character may continue an identifier when
/// it is alphanumeric.
pub fn tokenize(input: &str) -> (result: Result<Vec<Token>, SyntaxError>)
    ensures
        tokens_view(result) == tokens_from(input@, alphanumeric_flags(input@), 0),
        result is Ok ==> forall|k: int| 0 <= k < result->Ok_0@.len() ==> (#[trigger] result->Ok_0@[k])@.wf(),
{
    let chars = collect_chars(input);
    let mut continues: Vec<bool> = Vec::new();
    let mut i: usize = 0;
    while i < chars.len()
        invariant
            i <= chars@.len(),
            continues@ == alphanumeric_flags(chars@).take(i as int),
        decreases chars@.len() - i,
    {
        continues.push(char_is_alphanumeric(chars[i]));
        assert(continues@ =~= alphanumeric_flags(chars@).take(i + 1));
        i = i + 1;
    }
    assert(continues@ =~= alphanumeric_flags(chars@));
    tokenize_chars(&chars, &continues)
}

} // verus!
