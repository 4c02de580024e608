use vstd::prelude::*;

use crate::lexer::TokenType;
use crate::parser::expressions::name::Name;
use crate::parser::{
    names_and_spans, parse_name_list, parsed_name_list, ListType, ParseError, TokenQueue, TokenQueueFunctionality,
};

verus! {

/// The kind of a group object. Groups, unique lists and objects are all a list of fields, each
/// with a name and possibly a type and a value; this tag tells their treatments apart.
#[derive(Debug, Clone, Copy, PartialEq, Eq, Structural)]
pub enum GroupType {
    /// An instantiable group declaration.
    Group,
    /// A unique list.
    Either,
}

/// The identifier after `id`: one more, wrapping around to zero after the largest `usize`.
pub open spec fn following_id(id: usize) -> usize {
    if id == usize::MAX {
        0
    } else {
        (id + 1) as usize
    }
}

/// Hands out the identifiers of group declarations, each one greater than the last, wrapping
/// around after the largest `usize` as an atomic counter does.
pub struct GroupIdCounter {
    next: usize,
}

impl GroupIdCounter {
    /// The identifier that will be handed out next.
    pub closed spec fn spec_next(&self) -> usize {
        self.next
    }

    /// A counter that starts at zero.
    pub fn new() -> (res: Self)
        ensures
            res.spec_next() == 0,
    {
        GroupIdCounter { next: 0 }
    }

    /// Returns the next unused group identifier.
    pub fn next_unused_group_id(&mut self) -> (res: usize)
        ensures
            res == old(self).spec_next(),
            final(self).spec_next() == following_id(old(self).spec_next()),
    {
        let id = self.next;
        self.next = self.next.wrapping_add(1);
        id
    }
}

/// Two identifiers handed out one after the other differ.
pub proof fn law_consecutive_group_ids_differ(id: usize)
    ensures
        following_id(id) != id,
{
}

/// Parses the compile-time parameters of a group declaration: when the next token is `<`, a
/// comma-separated list of names in angle brackets; otherwise there are none and nothing is read.
pub fn parse_compile_time_parameters(tokens: &mut TokenQueue) -> (res: Result<Option<Vec<Name>>, ParseError>)
    ensures
        !(old(tokens)@.len() > 0 && old(tokens)@[0].token_type == TokenType::LeftAngleBracket) ==> (res matches Ok(
            None,
        ) && final(tokens)@ == old(tokens)@),
        old(tokens)@.len() > 0 && old(tokens)@[0].token_type == TokenType::LeftAngleBracket ==> {
            let parsed = parsed_name_list(old(tokens)@, ListType::AngleBracketed);
            &&& final(tokens)@ == old(tokens)@.skip(parsed.1)
            &&& match parsed.0 {
                Ok(names) => (res matches Ok(Some(v)) && names_and_spans(v@) == names),
                Err(e) => res == Err::<Option<Vec<Name>>, ParseError>(e),
            }
        },
{
    if !tokens.next_is(TokenType::LeftAngleBracket) {
        return Ok(None);
    }
    match parse_name_list(tokens, ListType::AngleBracketed) {
        Ok((names, _)) => Ok(Some(names)),
        Err(e) => Err(e),
    }
}

} // verus!
