use std::collections::VecDeque;

use vstd::prelude::*;

use crate::lexer::{Span, Token, TokenType};
use crate::parser::expressions::name::Name;

pub mod expressions;

verus! {

/// A queue of tokens that can be parsed.
pub type TokenQueue = VecDeque<Token>;

/// Why the parser could not take the token it needed.
#[derive(Debug, Clone, Copy, PartialEq, Eq, Structural)]
pub enum ParseError {
    /// The next token was not of the expected type (it is consumed nonetheless).
    ExpectedToken { expected: TokenType, found: TokenType },
    /// The token stream ended where a token was expected.
    UnexpectedEndOfFile { expected_type: Option<TokenType> },
}

/// The kinds of bracketed, comma-separated lists in the language.
#[derive(Debug, Clone, Copy, PartialEq, Eq, Structural)]
pub enum ListType {
    AngleBracketed,
    Braced,
    Bracketed,
    Parenthesized,
    Tag,
}

impl ListType {
    /// The token that opens a list of this kind.
    pub open spec fn spec_opening(&self) -> TokenType {
        match self {
            ListType::AngleBracketed => TokenType::LeftAngleBracket,
            ListType::Braced => TokenType::LeftBrace,
            ListType::Bracketed => TokenType::LeftBracket,
            ListType::Parenthesized => TokenType::LeftParenthesis,
            ListType::Tag => TokenType::TagOpening,
        }
    }

    /// The token that closes a list of this kind.
    pub open spec fn spec_closing(&self) -> TokenType {
        match self {
            ListType::AngleBracketed => TokenType::RightAngleBracket,
            ListType::Braced => TokenType::RightBrace,
            ListType::Bracketed => TokenType::RightBracket,
            ListType::Parenthesized => TokenType::RightParenthesis,
            ListType::Tag => TokenType::RightBracket,
        }
    }

    /// The token that opens a list of this kind.
    pub fn opening(&self) -> (res: TokenType)
        ensures
            res == self.spec_opening(),
    {
        match self {
            Self::AngleBracketed => TokenType::LeftAngleBracket,
            Self::Braced => TokenType::LeftBrace,
            Self::Bracketed => TokenType::LeftBracket,
            Self::Parenthesized => TokenType::LeftParenthesis,
            Self::Tag => TokenType::TagOpening,
        }
    }

    /// The token that closes a list of this kind.
    pub fn closing(&self) -> (res: TokenType)
        ensures
            res == self.spec_closing(),
    {
        match self {
            Self::AngleBracketed => TokenType::RightAngleBracket,
            Self::Braced => TokenType::RightBrace,
            Self::Bracketed => TokenType::RightBracket,
            Self::Parenthesized => TokenType::RightParenthesis,
            Self::Tag => TokenType::RightBracket,
        }
    }
}

/// Syntax that can be parsed from the front of a token queue.
pub trait Parse {
    /// What parsing gives.
    type Output;

    /// Parses the syntax from the front of the tokens, consuming what it reads. There must be a
    /// token to start from.
    fn parse(tokens: &mut TokenQueue) -> Result<Self::Output, ParseError>
        requires
            old(tokens)@.len() > 0,
    ;
}

/// Syntax that can be written back as Cabin code.
pub trait ToCabin {
    /// This syntax as Cabin code.
    fn to_cabin(&self) -> String;
}

/// Treating a collection of tokens as a queue of tokens that can be parsed.
pub trait TokenQueueFunctionality {
    /// Removes and returns the next token if it has the given type; otherwise (or when the queue
    /// is empty) an error is returned.
    fn pop(&mut self, token_type: TokenType) -> Result<Token, ParseError>;

    /// Removes the next token and returns its type if it has the given type; otherwise (or when
    /// the queue is empty) an error is returned.
    fn pop_type(&mut self, token_type: TokenType) -> Result<TokenType, ParseError>;

    /// The text of the next token, without removing it.
    fn peek(&self) -> Result<&str, ParseError>;

    /// The type of the next token, without removing it.
    fn peek_type(&self) -> Result<TokenType, ParseError>;

    /// The type of the token after the next one, without removing anything.
    fn peek_type2(&self) -> Result<TokenType, ParseError>;

    /// Whether the next token has the given type.
    fn next_is(&self, token_type: TokenType) -> bool;

    /// Whether the next token has one of the given types.
    fn next_is_one_of(&self, token_types: &[TokenType]) -> bool;

    /// The span of the next token, if there is one.
    fn current_position(&self) -> Option<Span>;
}

impl TokenQueueFunctionality for VecDeque<Token> {
    fn pop(&mut self, token_type: TokenType) -> (res: Result<Token, ParseError>)
        ensures
            old(self)@.len() == 0 ==> res == Err::<Token, ParseError>(
                ParseError::UnexpectedEndOfFile { expected_type: Some(token_type) },
            ) && final(self)@ == old(self)@,
            old(self)@.len() > 0 ==> final(self)@ == old(self)@.drop_first(),
            old(self)@.len() > 0 && old(self)@[0].token_type == token_type ==> res == Ok::<Token, ParseError>(old(self)@[0]),
            old(self)@.len() > 0 && old(self)@[0].token_type != token_type ==> res == Err::<Token, ParseError>(
                ParseError::ExpectedToken { expected: token_type, found: old(self)@[0].token_type },
            ),
    {
        match self.pop_front() {
            Some(token) => {
                if token.token_type == token_type {
                    Ok(token)
                } else {
                    Err(ParseError::ExpectedToken { expected: token_type, found: token.token_type })
                }
            },
            None => Err(ParseError::UnexpectedEndOfFile { expected_type: Some(token_type) }),
        }
    }

    fn pop_type(&mut self, token_type: TokenType) -> (res: Result<TokenType, ParseError>)
        ensures
            old(self)@.len() == 0 ==> res == Err::<TokenType, ParseError>(
                ParseError::UnexpectedEndOfFile { expected_type: Some(token_type) },
            ) && final(self)@ == old(self)@,
            old(self)@.len() > 0 ==> final(self)@ == old(self)@.drop_first(),
            old(self)@.len() > 0 && old(self)@[0].token_type == token_type ==> res == Ok::<TokenType, ParseError>(token_type),
            old(self)@.len() > 0 && old(self)@[0].token_type != token_type ==> res == Err::<TokenType, ParseError>(
                ParseError::ExpectedToken { expected: token_type, found: old(self)@[0].token_type },
            ),
    {
        match self.pop_front() {
            Some(token) => {
                if token.token_type == token_type {
                    Ok(token.token_type)
                } else {
                    Err(ParseError::ExpectedToken { expected: token_type, found: token.token_type })
                }
            },
            None => Err(ParseError::UnexpectedEndOfFile { expected_type: Some(token_type) }),
        }
    }

    fn peek(&self) -> (res: Result<&str, ParseError>)
        ensures
            self@.len() == 0 ==> res == Err::<&str, ParseError>(ParseError::UnexpectedEndOfFile { expected_type: None }),
            self@.len() > 0 ==> (res matches Ok(text) && text@ == self@[0].value@),
    {
        if self.len() == 0 {
            return Err(ParseError::UnexpectedEndOfFile { expected_type: None });
        }
        Ok(self[0].value.as_str())
    }

    fn peek_type(&self) -> (res: Result<TokenType, ParseError>)
        ensures
            self@.len() == 0 ==> res == Err::<TokenType, ParseError>(ParseError::UnexpectedEndOfFile { expected_type: None }),
            self@.len() > 0 ==> res == Ok::<TokenType, ParseError>(self@[0].token_type),
    {
        if self.len() == 0 {
            return Err(ParseError::UnexpectedEndOfFile { expected_type: None });
        }
        Ok(self[0].token_type)
    }

    fn peek_type2(&self) -> (res: Result<TokenType, ParseError>)
        ensures
            self@.len() <= 1 ==> res == Err::<TokenType, ParseError>(ParseError::UnexpectedEndOfFile { expected_type: None }),
            self@.len() > 1 ==> res == Ok::<TokenType, ParseError>(self@[1].token_type),
    {
        if self.len() <= 1 {
            return Err(ParseError::UnexpectedEndOfFile { expected_type: None });
        }
        Ok(self[1].token_type)
    }

    fn next_is(&self, token_type: TokenType) -> (res: bool)
        ensures
            res == (self@.len() > 0 && self@[0].token_type == token_type),
    {
        match self.peek_type() {
            Ok(token) => token == token_type,
            Err(_) => false,
        }
    }

    fn next_is_one_of(&self, token_types: &[TokenType]) -> (res: bool)
        ensures
            res == (self@.len() > 0 && token_types@.contains(self@[0].token_type)),
    {
        let mut i: usize = 0;
        while i < token_types.len()
            invariant
                i <= token_types@.len(),
                forall|k: int| 0 <= k < i ==> !(self@.len() > 0 && self@[0].token_type == token_types@[k]),
            decreases token_types@.len() - i,
        {
            if self.next_is(token_types[i]) {
                proof {
                    assert(token_types@[i as int] == self@[0].token_type);
                }
                return true;
            }
            i = i + 1;
        }
        proof {
            if self@.len() > 0 && token_types@.contains(self@[0].token_type) {
                let k = choose|k: int| 0 <= k < token_types@.len() && token_types@[k] == self@[0].token_type;
                assert(!(self@.len() > 0 && self@[0].token_type == token_types@[k]));
            }
        }
        false
    }

    fn current_position(&self) -> (res: Option<Span>)
        ensures
            self@.len() == 0 ==> res is None,
            self@.len() > 0 ==> res == Some(self@[0].span),
    {
        if self.len() == 0 {
            None
        } else {
            Some(self[0].span)
        }
    }
}

/// Puts the given names before the names of a successful parse.
pub open spec fn prefixed(
    names: Seq<(Seq<char>, Span)>,
    rest: (Result<Seq<(Seq<char>, Span)>, ParseError>, int),
) -> (Result<Seq<(Seq<char>, Span)>, ParseError>, int) {
    (
        match rest.0 {
            Ok(more) => Ok(names + more),
            Err(e) => Err(e),
        },
        rest.1,
    )
}

/// The rest of a comma-separated list of identifiers, read from position `i` after the opening
/// bracket, up to the closing token `close`: the names with their spans (or the error), and the
/// number of tokens read from the start. A comma may follow the last name.
pub open spec fn name_list_rest(t: Seq<Token>, i: int, close: TokenType) -> (Result<Seq<(Seq<char>, Span)>, ParseError>, int)
    decreases t.len() - i,
{
    if i < 0 || i >= t.len() {
        (Err(ParseError::UnexpectedEndOfFile { expected_type: Some(TokenType::Identifier) }), i)
    } else if t[i].token_type == close {
        (Ok(Seq::empty()), i + 1)
    } else if t[i].token_type != TokenType::Identifier {
        (Err(ParseError::ExpectedToken { expected: TokenType::Identifier, found: t[i].token_type }), i + 1)
    } else if i + 1 < t.len() && t[i + 1].token_type == TokenType::Comma {
        prefixed(seq![(t[i].value@, t[i].span)], name_list_rest(t, i + 2, close))
    } else if i + 1 >= t.len() {
        (Err(ParseError::UnexpectedEndOfFile { expected_type: Some(close) }), i + 1)
    } else if t[i + 1].token_type == close {
        (Ok(seq![(t[i].value@, t[i].span)]), i + 2)
    } else {
        (Err(ParseError::ExpectedToken { expected: close, found: t[i + 1].token_type }), i + 2)
    }
}

/// A bracketed, comma-separated list of identifiers of the given kind at the front of `t`: the
/// names with their spans (or the error), and the number of tokens read.
pub open spec fn parsed_name_list(t: Seq<Token>, list_type: ListType) -> (Result<Seq<(Seq<char>, Span)>, ParseError>, int) {
    if t.len() == 0 {
        (Err(ParseError::UnexpectedEndOfFile { expected_type: Some(list_type.spec_opening()) }), 0)
    } else if t[0].token_type != list_type.spec_opening() {
        (Err(ParseError::ExpectedToken { expected: list_type.spec_opening(), found: t[0].token_type }), 1)
    } else {
        name_list_rest(t, 1, list_type.spec_closing())
    }
}

/// The texts and spans of a list of names.
pub open spec fn names_and_spans(names: Seq<Name>) -> Seq<(Seq<char>, Span)> {
    names.map_values(|n: Name| (n@, n.spec_span()))
}

/// Parses a bracketed, comma-separated list of identifiers, as `parsed_name_list` describes,
/// consuming the tokens it reads, and returns the names with the span of the closing bracket,
/// the last token read. Each name is mangled when transpiled.
pub fn parse_name_list(tokens: &mut TokenQueue, list_type: ListType) -> (res: Result<(Vec<Name>, Span), ParseError>)
    ensures
        final(tokens)@ == old(tokens)@.skip(parsed_name_list(old(tokens)@, list_type).1),
        match parsed_name_list(old(tokens)@, list_type).0 {
            Ok(names) => res matches Ok((v, end)) && names_and_spans(v@) == names && (forall|k: int|
                0 <= k < v@.len() ==> (#[trigger] v@[k]).spec_should_mangle()) && 0 < parsed_name_list(
                old(tokens)@,
                list_type,
            ).1 <= old(tokens)@.len() && end == old(tokens)@[parsed_name_list(old(tokens)@, list_type).1 - 1].span,
            Err(e) => res == Err::<(Vec<Name>, Span), ParseError>(e),
        },
{
    let ghost t = tokens@;
    let close = list_type.closing();
    let ghost whole = parsed_name_list(t, list_type);
    match tokens.pop_type(list_type.opening()) {
        Ok(_) => {},
        Err(e) => {
            proof {
                if t.len() > 0 {
                    assert(t.skip(1) =~= t.drop_first());
                } else {
                    assert(t.skip(0) =~= t);
                }
            }
            return Err(e);
        },
    }
    let mut names: Vec<Name> = Vec::new();
    let ghost mut i: int = 1;
    proof {
        assert(t.skip(1) =~= t.drop_first());
        assert(names_and_spans(names@) =~= Seq::<(Seq<char>, Span)>::empty());
    }
    loop
        invariant
            t == old(tokens)@,
            1 <= i <= t.len(),
            tokens@ == t.skip(i),
            close == list_type.spec_closing(),
            whole == parsed_name_list(t, list_type),
            t.len() > 0 && t[0].token_type == list_type.spec_opening(),
            whole == prefixed(names_and_spans(names@), name_list_rest(t, i, close)),
            forall|k: int| 0 <= k < names@.len() ==> (#[trigger] names@[k]).spec_should_mangle(),
        decreases t.len() - i,
    {
        proof {
            if i < t.len() {
                assert(t.skip(i)[0] == t[i]);
            }
            if i + 1 < t.len() {
                assert(t.skip(i + 1)[0] == t[i + 1]);
            }
        }
        if tokens.next_is(close) {
            let closing = tokens.pop(close);
            proof {
                assert(i < t.len());
                assert(name_list_rest(t, i, close) == (Ok::<Seq<(Seq<char>, Span)>, ParseError>(Seq::empty()), i + 1));
                assert(t.skip(i).drop_first() =~= t.skip(i + 1));
                assert(names_and_spans(names@) + Seq::<(Seq<char>, Span)>::empty() =~= names_and_spans(names@));
            }
            let end = match closing {
                Ok(token) => token.span,
                Err(e) => return Err(e),
            };
            return Ok((names, end));
        }
        let token = match tokens.pop(TokenType::Identifier) {
            Ok(token) => token,
            Err(e) => {
                proof {
                    if i < t.len() {
                        assert(t.skip(i).drop_first() =~= t.skip(i + 1));
                        assert(t[i].token_type != close);
                        assert(t[i].token_type != TokenType::Identifier);
                    }
                }
                return Err(e);
            },
        };
        proof {
            assert(t.skip(i).drop_first() =~= t.skip(i + 1));
            assert(token == t[i]);
        }
        let ghost before = names@;
        proof {
            assert(t[i].token_type == TokenType::Identifier);
            assert(t[i].token_type != close);
        }
        names.push(Name::with_span(token.value, token.span));
        proof {
            assert(names_and_spans(names@) =~= names_and_spans(before) + seq![(t[i].value@, t[i].span)]);
        }
        if tokens.next_is(TokenType::Comma) {
            let _ = tokens.pop_type(TokenType::Comma);
            proof {
                assert(t.skip(i + 1).drop_first() =~= t.skip(i + 2));
                let rest = name_list_rest(t, i + 2, close);
                match rest.0 {
                    Ok(more) => {
                        assert(names_and_spans(before) + (seq![(t[i].value@, t[i].span)] + more) =~= names_and_spans(
                            names@,
                        ) + more);
                    },
                    Err(_) => {},
                }
                i = i + 2;
            }
        } else {
            match tokens.pop(close) {
                Ok(token) => {
                    proof {
                        assert(t.skip(i + 1).drop_first() =~= t.skip(i + 2));
                    }
                    return Ok((names, token.span));
                },
                Err(e) => {
                    proof {
                        if i + 1 < t.len() {
                            assert(t.skip(i + 1).drop_first() =~= t.skip(i + 2));
                        }
                    }
                    return Err(e);
                },
            }
        }
    }
}

/// What a successful read of the rest of a name list covers: it ends at the closing token, and
/// each name is an identifier token read on the way.
proof fn lemma_name_list_rest_reads(t: Seq<Token>, i: int, close: TokenType)
    requires
        close != TokenType::Identifier,
        name_list_rest(t, i, close).0 is Ok,
    ensures
        ({
            let r = name_list_rest(t, i, close);
            let names = r.0->Ok_0;
            &&& 0 <= i < r.1 <= t.len()
            &&& t[r.1 - 1].token_type == close
            &&& forall|k: int|
                0 <= k < names.len() ==> exists|j: int|
                    i <= j < r.1 - 1 && t[j].token_type == TokenType::Identifier && #[trigger] names[k] == (
                        t[j].value@,
                        t[j].span,
                    )
        }),
    decreases t.len() - i,
{
    if 0 <= i < t.len() && t[i].token_type != close && t[i].token_type == TokenType::Identifier && i + 1 < t.len()
        && t[i + 1].token_type == TokenType::Comma {
        lemma_name_list_rest_reads(t, i + 2, close);
        let rest = name_list_rest(t, i + 2, close);
        let names = name_list_rest(t, i, close).0->Ok_0;
        assert forall|k: int| 0 <= k < names.len() implies exists|j: int|
            i <= j < rest.1 - 1 && t[j].token_type == TokenType::Identifier && #[trigger] names[k] == (
                t[j].value@,
                t[j].span,
            ) by {
            if k == 0 {
                assert(names[0] == (t[i].value@, t[i].span));
            } else {
                assert(names[k] == rest.0->Ok_0[k - 1]);
            }
        }
    } else if 0 <= i < t.len() && t[i].token_type != close && t[i].token_type == TokenType::Identifier {
        let names = name_list_rest(t, i, close).0->Ok_0;
        assert forall|k: int| 0 <= k < names.len() implies exists|j: int|
            i <= j < i + 1 && t[j].token_type == TokenType::Identifier && #[trigger] names[k] == (
                t[j].value@,
                t[j].span,
            ) by {
            assert(names[k] == (t[i].value@, t[i].span));
        }
    }
}

/// A name list that is read successfully starts with the opening bracket of its kind and ends
/// with the closing one, and every name in it is the text and span of an identifier token
/// between the two.
pub proof fn law_name_lists_are_bracketed_identifiers(t: Seq<Token>, list_type: ListType)
    requires
        parsed_name_list(t, list_type).0 is Ok,
    ensures
        ({
            let r = parsed_name_list(t, list_type);
            let names = r.0->Ok_0;
            &&& 2 <= r.1 <= t.len()
            &&& t[0].token_type == list_type.spec_opening()
            &&& t[r.1 - 1].token_type == list_type.spec_closing()
            &&& forall|k: int|
                0 <= k < names.len() ==> exists|j: int|
                    0 < j < r.1 - 1 && t[j].token_type == TokenType::Identifier && #[trigger] names[k] == (
                        t[j].value@,
                        t[j].span,
                    )
        }),
{
    lemma_name_list_rest_reads(t, 1, list_type.spec_closing());
}

/// The brackets of each kind of list: `<` and `>`, `{` and `}`, `[` and `]`, `(` and `)`, and for
/// tags the tag opening token and `]`.
pub proof fn law_list_brackets()
    ensures
        ListType::AngleBracketed.spec_opening() == TokenType::LeftAngleBracket,
        ListType::AngleBracketed.spec_closing() == TokenType::RightAngleBracket,
        ListType::Braced.spec_opening() == TokenType::LeftBrace,
        ListType::Braced.spec_closing() == TokenType::RightBrace,
        ListType::Bracketed.spec_opening() == TokenType::LeftBracket,
        ListType::Bracketed.spec_closing() == TokenType::RightBracket,
        ListType::Parenthesized.spec_opening() == TokenType::LeftParenthesis,
        ListType::Parenthesized.spec_closing() == TokenType::RightParenthesis,
        ListType::Tag.spec_opening() == TokenType::TagOpening,
        ListType::Tag.spec_closing() == TokenType::RightBracket,
{
}

} // verus!
