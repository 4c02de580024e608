use vstd::prelude::*;

use crate::comptime::memory::{MemoryObject, VirtualMemory, VirtualPointer};
use crate::lexer::{spanning, Span, TokenType};
use crate::parser::expressions::group::{c_name, concatenated};
use crate::parser::expressions::literal::{
    internal_field, is_empty_object, lemma_internal_field_at, take_internal_field, FieldAccessType,
    InternalFieldValue, LiteralError, LiteralObject,
};
use crate::parser::expressions::name::Name;
use crate::parser::{names_and_spans, parse_name_list, parsed_name_list, ListType, ParseError, TokenQueue, TokenQueueFunctionality};

verus! {

/// An `either`: a list of variants, each a name with a pointer to the object that stands for
/// it, with the scope it is declared in, its name, span and tags.
pub struct Either<E> {
    pub variants: Vec<(Name, VirtualPointer)>,
    pub scope_id: usize,
    pub name: Name,
    pub span: Span,
    pub tags: Vec<E>,
}

/// Whether `literal` is the literal object that stands for the either: of type `Either`, with
/// its variants as the one internal field `variants`, reached as an either, and with the
/// either's name, span, scope and tags.
pub open spec fn is_either_literal<E>(literal: LiteralObject<E>, either: Either<E>) -> bool {
    &&& literal.object_type@ == "Either"@
    &&& literal.fields@.len() == 0
    &&& literal.internal_fields@.len() == 1
    &&& literal.internal_fields@[0].0@ == "variants"@
    &&& literal.internal_fields@[0].1 == InternalFieldValue::<E>::LiteralMap(either.variants)
    &&& literal.field_access_type == FieldAccessType::Either
    &&& literal.outer_scope_id == either.scope_id
    &&& literal.inner_scope_id == Some(either.scope_id)
    &&& literal.name == either.name
    &&& literal.address is None
    &&& literal.span == either.span
    &&& literal.tags == either.tags
}

/// The either that a literal object stands for: its variants are the internal field
/// `variants`, its scope the object's outer scope.
pub open spec fn either_of_literal<E>(literal: LiteralObject<E>) -> Result<Either<E>, LiteralError> {
    match internal_field(literal.internal_fields@, "variants"@) {
        None => Err(LiteralError::MissingInternalField),
        Some(InternalFieldValue::LiteralMap(variants)) => Ok(
            Either {
                variants,
                scope_id: literal.outer_scope_id,
                name: literal.name,
                span: literal.span,
                tags: literal.tags,
            },
        ),
        Some(_) => Err(LiteralError::WrongInternalFieldType),
    }
}

/// The C enumeration body of an either: a line with the C name of each variant, in braces.
pub open spec fn either_c_text(variants: Seq<(Name, VirtualPointer)>) -> Seq<char> {
    "{\n"@ + concatenated(Seq::new(variants.len(), |i: int| "\n\t"@ + c_name(variants[i].0) + ","@)) + "\n}"@
}

/// The texts and spans of the names of the variants.
pub open spec fn variant_names_and_spans(variants: Seq<(Name, VirtualPointer)>) -> Seq<(Seq<char>, Span)> {
    variants.map_values(|v: (Name, VirtualPointer)| (v.0@, v.0.spec_span()))
}

impl<E> Either<E> {
    /// The names of the variants.
    pub fn variant_names(&self) -> (res: Vec<&Name>)
        ensures
            res@.len() == self.variants@.len(),
            forall|i: int| 0 <= i < res@.len() ==> *res@[i] == self.variants@[i].0,
    {
        let mut res: Vec<&Name> = Vec::new();
        let mut i: usize = 0;
        while i < self.variants.len()
            invariant
                i <= self.variants@.len(),
                res@.len() == i,
                forall|k: int| 0 <= k < i ==> *res@[k] == self.variants@[k].0,
            decreases self.variants@.len() - i,
        {
            res.push(&self.variants[i].0);
            i = i + 1;
        }
        res
    }

    /// The variants, each with a pointer to the object that stands for it.
    pub fn variants(&self) -> (res: &[(Name, VirtualPointer)])
        ensures
            res@ == self.variants@,
    {
        self.variants.as_slice()
    }

    /// The literal object that stands for this either.
    pub fn to_literal(self) -> (res: LiteralObject<E>)
        ensures
            is_either_literal(res, self),
    {
        let mut internal_fields = Vec::new();
        internal_fields.push(("variants".to_owned(), InternalFieldValue::LiteralMap(self.variants)));
        LiteralObject {
            object_type: Name::new("Either"),
            fields: Vec::new(),
            internal_fields,
            field_access_type: FieldAccessType::Either,
            outer_scope_id: self.scope_id,
            inner_scope_id: Some(self.scope_id),
            name: self.name,
            address: None,
            span: self.span,
            tags: self.tags,
        }
    }

    /// Reads an either back from the literal object that stands for it.
    pub fn from_literal(literal: LiteralObject<E>) -> (res: Result<Either<E>, LiteralError>)
        ensures
            res == either_of_literal(literal),
    {
        let mut entries = literal.internal_fields;
        let variants = match take_internal_field(&mut entries, "variants") {
            Some(InternalFieldValue::LiteralMap(variants)) => variants,
            Some(_) => return Err(LiteralError::WrongInternalFieldType),
            None => return Err(LiteralError::MissingInternalField),
        };
        Ok(Either { variants, scope_id: literal.outer_scope_id, name: literal.name, span: literal.span, tags: literal.tags })
    }

    /// The body of the C enumeration of this either.
    pub fn to_c(&self) -> (res: String)
        ensures
            res@ == either_c_text(self.variants@),
    {
        let ghost lines = Seq::new(self.variants@.len(), |i: int| "\n\t"@ + c_name(self.variants@[i].0) + ","@);
        let mut res = String::from_str("{\n");
        proof {
            reveal_strlit("{\n");
            assert(lines.take(0) =~= Seq::<Seq<char>>::empty());
        }
        let mut i: usize = 0;
        while i < self.variants.len()
            invariant
                i <= self.variants@.len(),
                lines == Seq::new(self.variants@.len(), |k: int| "\n\t"@ + c_name(self.variants@[k].0) + ","@),
                res@ == "{\n"@ + concatenated(lines.take(i as int)),
            decreases self.variants@.len() - i,
        {
            let name = self.variants[i].0.mangled_name();
            let ghost before = res@;
            res.append("\n\t");
            res.append(name.as_str());
            res.append(",");
            proof {
                assert(lines.take(i + 1).drop_last() =~= lines.take(i as int));
                assert(res@ =~= before + lines[i as int]);
            }
            i = i + 1;
        }
        proof {
            assert(lines.take(i as int) =~= lines);
        }
        res.append("\n}");
        res
    }
}

/// Whether `after` is the memory `before` with an either stored at `pointer`, as `parse_either`
/// stores it: what `before` held is kept; the either's literal object is at `pointer`, new;
/// its variants have the names and spans `names`, and each points to a new empty object, in the
/// scope `file_scope_id`, at the span of its name; the either, named `anonymous_either`, has
/// the scope `scope_id`, the span `span` and no tags; and nothing else was stored.
pub open spec fn either_stored<E>(
    before: Map<usize, MemoryObject<LiteralObject<E>>>,
    after: Map<usize, MemoryObject<LiteralObject<E>>>,
    pointer: VirtualPointer,
    names: Seq<(Seq<char>, Span)>,
    span: Span,
    scope_id: usize,
    file_scope_id: usize,
) -> bool {
    let literal = after[pointer.address()].object;
    &&& forall|a: usize| before.contains_key(a) ==> after.contains_key(a) && #[trigger] after[a] == before[a]
    &&& !before.contains_key(pointer.address())
    &&& after.contains_key(pointer.address())
    &&& either_of_literal(literal) matches Ok(either) && {
        &&& is_either_literal(literal, either)
        &&& either.scope_id == scope_id
        &&& either.name@ == "anonymous_either"@
        &&& either.span == span
        &&& either.tags@.len() == 0
        &&& variant_names_and_spans(either.variants@) == names
        &&& forall|i: int|
            0 <= i < either.variants@.len() ==> {
                let address = (#[trigger] either.variants@[i]).1.address();
                &&& !before.contains_key(address)
                &&& after.contains_key(address)
                &&& is_empty_object(after[address].object, names[i].1, file_scope_id)
            }
        &&& forall|a: usize|
            after.contains_key(a) && !before.contains_key(a) ==> a == pointer.address() || exists|i: int|
                0 <= i < either.variants@.len() && (#[trigger] either.variants@[i]).1.address() == a
    }
}

/// Parses an either: the keyword `either`, then a braced, comma-separated list of variant
/// names. Each variant gets an empty object stored in memory, in the file's scope
/// `file_scope_id`, at the span of its name. The either, named `anonymous_either`, in the scope
/// `scope_id`, spanning from the keyword to the closing brace, is stored as its literal object,
/// and the pointer to it is returned. On an error nothing is stored; the tokens read are
/// consumed.
pub fn parse_either<E>(
    tokens: &mut TokenQueue,
    memory: &mut VirtualMemory<LiteralObject<E>>,
    scope_id: usize,
    file_scope_id: usize,
) -> (res: Result<VirtualPointer, ParseError>)
    ensures
        old(tokens)@.len() == 0 ==> res == Err::<VirtualPointer, ParseError>(
            ParseError::UnexpectedEndOfFile { expected_type: Some(TokenType::KeywordEither) },
        ) && final(tokens)@ == old(tokens)@ && final(memory)@ == old(memory)@,
        old(tokens)@.len() > 0 && old(tokens)@[0].token_type != TokenType::KeywordEither ==> res == Err::<
            VirtualPointer,
            ParseError,
        >(ParseError::ExpectedToken { expected: TokenType::KeywordEither, found: old(tokens)@[0].token_type })
            && final(tokens)@ == old(tokens)@.drop_first() && final(memory)@ == old(memory)@,
        old(tokens)@.len() > 0 && old(tokens)@[0].token_type == TokenType::KeywordEither ==> {
            let rest = old(tokens)@.drop_first();
            let parsed = parsed_name_list(rest, ListType::Braced);
            &&& final(tokens)@ == rest.skip(parsed.1)
            &&& match parsed.0 {
                Err(e) => res == Err::<VirtualPointer, ParseError>(e) && final(memory)@ == old(memory)@,
                Ok(names) => res matches Ok(pointer) && 0 < parsed.1 <= rest.len() && either_stored(
                    old(memory)@,
                    final(memory)@,
                    pointer,
                    names,
                    spanning(old(tokens)@[0].span, rest[parsed.1 - 1].span),
                    scope_id,
                    file_scope_id,
                ),
            }
        },
{
    let start = match tokens.pop(TokenType::KeywordEither) {
        Ok(token) => token.span,
        Err(e) => return Err(e),
    };
    let (names, end) = match parse_name_list(tokens, ListType::Braced) {
        Ok(list) => list,
        Err(e) => return Err(e),
    };
    let ghost all = names@;
    let ghost before = memory@;
    let mut rest = names;
    let mut variants: Vec<(Name, VirtualPointer)> = Vec::new();
    proof {
        assert(all.skip(0) =~= all);
    }
    while rest.len() > 0
        invariant
            variants@.len() <= all.len(),
            rest@ == all.skip(variants@.len() as int),
            forall|i: int| 0 <= i < variants@.len() ==> (#[trigger] variants@[i]).0 == all[i],
            forall|a: usize| #[trigger] before.contains_key(a) ==> memory@.contains_key(a) && memory@[a] == before[a],
            forall|i: int|
                0 <= i < variants@.len() ==> {
                    let address = (#[trigger] variants@[i]).1.address();
                    &&& !before.contains_key(address)
                    &&& memory@.contains_key(address)
                    &&& is_empty_object(memory@[address].object, all[i].spec_span(), file_scope_id)
                },
            forall|a: usize|
                memory@.contains_key(a) && !before.contains_key(a) ==> exists|i: int|
                    0 <= i < variants@.len() && (#[trigger] variants@[i]).1.address() == a,
        decreases rest@.len(),
    {
        let ghost k = variants@.len() as int;
        let ghost current = memory@;
        let ghost old_variants = variants@;
        let name = rest.remove(0);
        proof {
            assert(name == all[k]);
            assert(rest@ =~= all.skip(k + 1));
        }
        let span = name.span();
        let object = LiteralObject::empty(span, file_scope_id);
        let ghost empty = object;
        let pointer = memory.store(MemoryObject { object, address: None });
        variants.push((name, pointer));
        proof {
            assert(variants@[k] == (all[k], pointer));
            assert(!before.contains_key(pointer.address())) by {
                if before.contains_key(pointer.address()) {
                    assert(current.contains_key(pointer.address()));
                }
            }
            assert forall|a: usize| #[trigger] before.contains_key(a) implies memory@.contains_key(a) && memory@[a]
                == before[a] by {
                assert(current.contains_key(a) && current[a] == before[a]);
                assert(a != pointer.address());
            }
            assert forall|i: int| 0 <= i < variants@.len() implies {
                let address = (#[trigger] variants@[i]).1.address();
                &&& !before.contains_key(address)
                &&& memory@.contains_key(address)
                &&& is_empty_object(memory@[address].object, all[i].spec_span(), file_scope_id)
            } by {
                if i < k {
                    assert(variants@[i] == old_variants[i]);
                    let address = old_variants[i].1.address();
                    assert(current.contains_key(address));
                    assert(address != pointer.address());
                    assert(memory@[address] == current[address]);
                } else {
                    assert(i == k);
                    assert(memory@[pointer.address()].object == empty);
                }
            }
            assert forall|a: usize| memory@.contains_key(a) && !before.contains_key(a) implies exists|i: int|
                0 <= i < variants@.len() && (#[trigger] variants@[i]).1.address() == a by {
                if a == pointer.address() {
                    assert(variants@[k].1.address() == a);
                } else {
                    assert(current.contains_key(a));
                    let i = choose|i: int| 0 <= i < old_variants.len() && (#[trigger] old_variants[i]).1.address() == a;
                    assert(variants@[i] == old_variants[i]);
                }
            }
        }
    }
    let ghost stored = memory@;
    let either = Either { variants, scope_id, name: Name::new("anonymous_either"), span: start.to(&end), tags: Vec::new() };
    let ghost e = either;
    let literal = either.to_literal();
    proof {
        law_either_literal_round_trip(e, literal);
    }
    let pointer = memory.store(MemoryObject { object: literal, address: None });
    proof {
        assert(variant_names_and_spans(e.variants@) =~= names_and_spans(all));
        assert forall|i: int| 0 <= i < e.variants@.len() implies {
            let address = (#[trigger] e.variants@[i]).1.address();
            &&& !before.contains_key(address)
            &&& memory@.contains_key(address)
            &&& is_empty_object(memory@[address].object, names_and_spans(all)[i].1, file_scope_id)
        } by {
            assert(stored.contains_key(e.variants@[i].1.address()));
        }
        assert forall|a: usize| memory@.contains_key(a) && !before.contains_key(a) implies a == pointer.address()
            || exists|i: int| 0 <= i < e.variants@.len() && (#[trigger] e.variants@[i]).1.address() == a by {
            if a != pointer.address() {
                assert(stored.contains_key(a));
            }
        }
    }
    Ok(pointer)
}

/// An either read back from the literal object that stands for it is the either itself.
pub proof fn law_either_literal_round_trip<E>(either: Either<E>, literal: LiteralObject<E>)
    requires
        is_either_literal(literal, either),
    ensures
        either_of_literal(literal) == Ok::<Either<E>, LiteralError>(either),
{
    lemma_internal_field_at(literal.internal_fields@, "variants"@, 0);
}

} // verus!
