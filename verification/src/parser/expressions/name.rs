use vstd::prelude::*;
use vstd::string::StringExecFns;

use crate::lexer::{Span, TokenType};
use crate::parser::{Parse, ParseError, ToCabin, TokenQueue, TokenQueueFunctionality};

verus! {

/// An identifier as written in Cabin source code, with the span where it was written and
/// whether it is mangled when transpiled to C. Two names are the same name when their text
/// is the same, wherever they stand.
pub struct Name {
    /// The internal string value of this name, as it appears in the Cabin source code.
    name: String,
    /// The span of this name.
    span: Span,
    /// Whether or not this name should be "mangled" when transpiling it to C.
    should_mangle: bool,
}

impl View for Name {
    type V = Seq<char>;

    /// A name is identified by its text.
    open spec fn view(&self) -> Seq<char> {
        self.spec_text()
    }
}

/// The text of a name prefixed with the mangling prefix `u_`.
pub open spec fn mangled(text: Seq<char>) -> Seq<char> {
    seq!['u', '_'] + text
}

impl Name {
    /// The text of this name.
    pub closed spec fn spec_text(&self) -> Seq<char> {
        self.name@
    }

    /// Whether this name is mangled when transpiled to C.
    pub closed spec fn spec_should_mangle(&self) -> bool {
        self.should_mangle
    }

    /// The span of this name.
    pub closed spec fn spec_span(&self) -> Span {
        self.span
    }

    /// Creates a name, mangled when transpiled, with no position in the source code.
    pub fn new(name: &str) -> (res: Name)
        ensures
            res@ == name@,
            res.spec_should_mangle(),
            res.spec_span() == (Span { start: 0, length: 0 }),
    {
        Name { name: name.to_owned(), span: Span::unknown(), should_mangle: true }
    }

    /// Creates a name from the text and span of an identifier token.
    pub fn with_span(name: String, span: Span) -> (res: Name)
        ensures
            res@ == name@,
            res.spec_should_mangle(),
            res.spec_span() == span,
    {
        Name { name, span, should_mangle: true }
    }

    /// Creates a name that keeps its text when transpiled to C.
    pub fn non_mangled(name: &str) -> (res: Name)
        ensures
            res@ == name@,
            !res.spec_should_mangle(),
            res.spec_span() == (Span { start: 0, length: 0 }),
    {
        Name { name: name.to_owned(), span: Span::unknown(), should_mangle: false }
    }

    /// The name as written in the source code.
    pub fn unmangled_name(&self) -> (res: &str)
        ensures
            res@ == self@,
    {
        self.name.as_str()
    }

    /// The name as it appears in transpiled C: prefixed with `u_` when it is mangled.
    pub fn mangled_name(&self) -> (res: String)
        ensures
            res@ == if self.spec_should_mangle() { mangled(self@) } else { self@ },
    {
        if self.should_mangle {
            let mut res = String::from_str("u_");
            proof {
                reveal_strlit("u_");
            }
            res.append(self.name.as_str());
            res
        } else {
            self.name.as_str().to_owned()
        }
    }

    /// The section of the source code that this name spans.
    pub fn span(&self) -> (res: Span)
        ensures
            res == self.spec_span(),
    {
        self.span
    }

    /// Whether this name and another are the same name, which is when their text is the same.
    pub fn same_as(&self, other: &Name) -> (res: bool)
        ensures
            res == (self@ == other@),
    {
        self.name == other.name
    }

    /// A copy of this name.
    pub fn duplicate(&self) -> (res: Name)
        ensures
            res@ == self@,
            res.spec_should_mangle() == self.spec_should_mangle(),
            res.spec_span() == self.spec_span(),
    {
        Name { name: self.name.clone(), span: self.span, should_mangle: self.should_mangle }
    }
}

impl Parse for Name {
    type Output = Self;

    /// Parses a name from an identifier token: the token's text and span, mangled when
    /// transpiled. The first token is consumed whether or not it is an identifier.
    fn parse(tokens: &mut TokenQueue) -> (res: Result<Name, ParseError>)
        ensures
            final(tokens)@ == old(tokens)@.drop_first(),
            old(tokens)@[0].token_type == TokenType::Identifier ==> (res matches Ok(
                name,
            ) && name@ == old(tokens)@[0].value@ && name.spec_span() == old(tokens)@[0].span
                && name.spec_should_mangle()),
            old(tokens)@[0].token_type != TokenType::Identifier ==> res == Err::<
                Name,
                ParseError,
            >(ParseError::ExpectedToken { expected: TokenType::Identifier, found: old(tokens)@[0].token_type }),
    {
        let token = tokens.pop(TokenType::Identifier)?;
        Ok(Name { name: token.value, span: token.span, should_mangle: true })
    }
}

impl PartialEq for Name {
    /// Two names are equal when their text is.
    fn eq(&self, other: &Self) -> (res: bool) {
        self.name == other.name
    }
}

impl vstd::std_specs::cmp::PartialEqSpecImpl for Name {
    open spec fn obeys_eq_spec() -> bool {
        true
    }

    open spec fn eq_spec(&self, other: &Self) -> bool {
        self@ == other@
    }
}

impl ToCabin for Name {
    /// The name as it is written in Cabin code.
    fn to_cabin(&self) -> (res: String)
        ensures
            res@ == self@,
    {
        self.unmangled_name().to_owned()
    }
}

} // verus!
