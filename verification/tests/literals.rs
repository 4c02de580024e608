use std::collections::VecDeque;

use cabin::compile_time::builtin::BuiltinError;
use cabin::comptime::memory::{MemoryObject, VirtualMemory};
use cabin::lexer::{Span, Token, TokenType};
use cabin::parser::expressions::either::{parse_either, Either};
use cabin::parser::expressions::function_call::FunctionTag;
use cabin::parser::expressions::function_declaration::FunctionDeclaration;
use cabin::parser::expressions::group::GroupDeclaration;
use cabin::parser::expressions::literal::{
    take_internal_field, FieldAccessType, InternalFieldValue, LiteralError, LiteralObject,
};
use cabin::parser::expressions::name::Name;
use cabin::parser::expressions::object::Field;
use cabin::parser::expressions::parameter::Parameter;
use cabin::parser::ParseError;

fn parameter(name: &str, parameter_type: u32) -> Parameter<u32> {
    Parameter { name: Name::new(name), parameter_type, span: Span { start: 4, length: 6 }, scope_id: 2 }
}

#[test]
fn parameter_literal_round_trip() {
    let literal = parameter("count", 17).to_literal();
    assert_eq!(literal.object_type().unmangled_name(), "Parameter");
    assert_eq!(literal.field_access_type, FieldAccessType::Group);
    assert_eq!(literal.inner_scope_id, Some(2));
    let back = Parameter::from_literal(literal).ok().unwrap();
    assert_eq!(back.name().unmangled_name(), "count");
    assert_eq!(*back.parameter_type(), 17);
    assert_eq!(back.span, Span { start: 4, length: 6 });
    assert_eq!(back.scope_id, 2);
}

#[test]
fn parameter_without_type_is_refused() {
    let literal: LiteralObject<u32> = LiteralObject::empty(Span { start: 0, length: 1 }, 0);
    assert_eq!(Parameter::from_literal(literal).err(), Some(LiteralError::MissingInternalField));
}

#[test]
fn parameter_with_a_type_of_another_kind_is_refused() {
    let mut literal: LiteralObject<u32> = LiteralObject::empty(Span { start: 0, length: 1 }, 0);
    literal.internal_fields.push(("type".to_string(), InternalFieldValue::Boolean(true)));
    assert_eq!(Parameter::from_literal(literal).err(), Some(LiteralError::WrongInternalFieldType));
}

fn function() -> FunctionDeclaration<u32> {
    FunctionDeclaration {
        tags: vec![9],
        compile_time_parameters: vec![parameter("T", 1)],
        parameters: vec![parameter("a", 2), parameter("b", 3)],
        return_type: Some(4),
        body: Some(5),
        outer_scope_id: 1,
        inner_scope_id: Some(6),
        this_object: None,
        name: Name::non_mangled("anonymous_function"),
        span: Span { start: 0, length: 30 },
    }
}

#[test]
fn function_literal_round_trip() {
    let literal = function().to_literal();
    assert_eq!(literal.object_type().unmangled_name(), "Function");
    assert_eq!(literal.internal_fields.len(), 5);
    assert_eq!(literal.internal_fields[2].0, "body");
    let back = FunctionDeclaration::from_literal(literal).ok().unwrap();
    assert_eq!(back.tags, vec![9]);
    assert_eq!(back.compile_time_parameters().len(), 1);
    assert_eq!(back.parameters().len(), 2);
    assert_eq!(back.parameters()[1].name().unmangled_name(), "b");
    assert_eq!(back.return_type(), Some(&4));
    assert_eq!(back.body(), Some(&5));
    assert_eq!(back.this_object(), None);
    assert_eq!(back.outer_scope_id, 1);
    assert_eq!(back.inner_scope_id, Some(6));
    assert_eq!(back.name().mangled_name(), "anonymous_function");
    assert_eq!(back.span, Span { start: 0, length: 30 });
}

#[test]
fn function_literal_missing_its_body_is_refused() {
    let mut literal = function().to_literal();
    literal.internal_fields.remove(2);
    assert_eq!(FunctionDeclaration::from_literal(literal).err(), Some(LiteralError::MissingInternalField));
}

#[test]
fn function_literal_reads_the_first_entry_of_a_key() {
    let mut literal = function().to_literal();
    literal.internal_fields.insert(0, ("body".to_string(), InternalFieldValue::OptionalExpression(Some(42))));
    let back = FunctionDeclaration::from_literal(literal).ok().unwrap();
    assert_eq!(back.body(), Some(&42));
}

#[test]
fn function_setters_change_one_part() {
    let mut f = function();
    f.set_this_object(8);
    f.set_name(Name::new("sum"));
    assert_eq!(f.this_object(), Some(&8));
    assert_eq!(f.name().unmangled_name(), "sum");
    assert_eq!(f.body(), Some(&5));
}

fn group() -> GroupDeclaration<u32> {
    GroupDeclaration {
        fields: vec![Field { name: Name::new("x"), field_type: Some(1), value: None }],
        inner_scope_id: 5,
        outer_scope_id: 4,
        name: Name::new("anonymous_group"),
        span: Span { start: 3, length: 12 },
    }
}

#[test]
fn group_literal_round_trip() {
    let literal = group().to_literal();
    assert_eq!(literal.object_type().unmangled_name(), "Group");
    assert_eq!(literal.inner_scope_id, Some(5));
    let back = GroupDeclaration::from_literal(literal).ok().unwrap();
    assert_eq!(back.fields().len(), 1);
    assert_eq!(back.fields()[0].name.unmangled_name(), "x");
    assert_eq!(back.fields()[0].field_type, Some(1));
    assert_eq!(back.inner_scope_id, 5);
    assert_eq!(back.outer_scope_id, 4);
    assert_eq!(back.name.unmangled_name(), "anonymous_group");
}

#[test]
fn group_literal_of_another_access_type_is_refused() {
    let mut literal = group().to_literal();
    literal.field_access_type = FieldAccessType::Either;
    assert_eq!(GroupDeclaration::from_literal(literal).err(), Some(LiteralError::NotAGroup));
}

#[test]
fn group_literal_with_fields_of_another_kind_is_refused() {
    let mut literal = group().to_literal();
    literal.internal_fields[0].1 = InternalFieldValue::NameList(vec![]);
    assert_eq!(GroupDeclaration::from_literal(literal).err(), Some(LiteralError::WrongInternalFieldType));
}

#[test]
fn internal_fields_are_taken_by_key() {
    let mut entries: Vec<(String, InternalFieldValue<u32>)> = vec![
        ("a".to_string(), InternalFieldValue::Expression(1)),
        ("b".to_string(), InternalFieldValue::Expression(2)),
        ("a".to_string(), InternalFieldValue::Expression(3)),
    ];
    assert!(matches!(take_internal_field(&mut entries, "a"), Some(InternalFieldValue::Expression(1))));
    assert_eq!(entries.len(), 2);
    assert!(matches!(take_internal_field(&mut entries, "a"), Some(InternalFieldValue::Expression(3))));
    assert!(take_internal_field(&mut entries, "c").is_none());
    assert_eq!(entries.len(), 1);
}

#[test]
fn literal_fields_give_their_pointers() {
    let mut memory: VirtualMemory<u32> = VirtualMemory::empty();
    let first = memory.store(MemoryObject { object: 10, address: None });
    let second = memory.store(MemoryObject { object: 20, address: None });
    let mut literal: LiteralObject<u32> = LiteralObject::empty(Span { start: 0, length: 0 }, 0);
    literal.fields.push((Name::new("width"), first));
    literal.fields.push((Name::new("height"), second));
    assert_eq!(literal.get_field("height"), Some(second));
    assert_eq!(literal.get_field("depth"), None);
    assert_eq!(literal.dependencies(), vec![first, second]);
    assert_eq!(literal.name().unmangled_name(), "anonymous_object");
    assert_eq!(literal.outer_scope_id(), 0);
}

#[test]
fn group_to_c_lists_its_fields() {
    assert_eq!(group().to_c(&["num_t".to_string()]), "{\n\tnum_t* u_x;\n}");
}

#[test]
fn built_in_groups_get_their_members() {
    let mut text = group();
    text.name = Name::new("Text");
    assert_eq!(text.to_c(&["num_t".to_string()]), "{\n\tnum_t* u_x;\n\tchar* internal_value;\n}");
    let mut list = group();
    list.fields = vec![];
    list.name = Name::new("List");
    assert_eq!(list.to_c(&[]), "{\n\tvoid* elements;\n\tint size;\n\tint capacity;\n}");
}

#[test]
fn stored_literals_have_a_c_type_name() {
    let mut memory: VirtualMemory<u32> = VirtualMemory::empty();
    let _ = memory.store(MemoryObject { object: 1, address: None });
    let second = memory.store(MemoryObject { object: 2, address: None });
    assert_eq!(second.to_text(), "1");
    let mut object: LiteralObject<u32> = LiteralObject::empty(Span { start: 0, length: 0 }, 0);
    object.address = Some(second);
    assert_eq!(object.to_c_type(), "type_u_anonymous_object_1");
    let mut group_literal = group().to_literal();
    group_literal.address = Some(second);
    assert_eq!(group_literal.to_c_type(), "group_u_anonymous_group_1");
}

fn runtime_function() -> FunctionDeclaration<u32> {
    let mut f = function();
    f.compile_time_parameters = vec![];
    f
}

fn c_types(n: usize) -> Vec<String> {
    vec!["num_t".to_string(); n]
}

#[test]
fn functions_with_compile_time_parameters_have_no_c_code() {
    assert_eq!(function().to_c(&[], &c_types(2), None, None).ok(), Some(String::new()));
}

#[test]
fn function_to_c_indents_its_body() {
    let code = runtime_function().to_c(&[], &c_types(2), Some("num_t"), Some("({\n\tx;\n\ty;\n})")).ok().unwrap();
    assert_eq!(code, "(num_t* u_a, num_t* u_b, num_t* return_address) {\n\t\n\t\tx;\n\t\ty;\n}");
}

#[test]
fn function_to_c_without_parameters_or_return_value() {
    let mut f = runtime_function();
    f.parameters = vec![];
    assert_eq!(f.to_c(&[], &[], None, Some("({a;})")).ok().unwrap(), "() {\n\ta;\n}");
    assert_eq!(f.to_c(&[], &[], Some("text_t"), Some("({})")).ok().unwrap(), "(text_t* return_address) {\n\n}");
}

#[test]
fn builtin_functions_get_the_builtin_body() {
    let tags = vec![FunctionTag::NotLiteral, FunctionTag::Builtin("Number.plus".to_string())];
    let code = runtime_function().to_c(&tags, &c_types(2), Some("num_t"), None).ok().unwrap();
    assert_eq!(
        code,
        "(num_t* u_a, num_t* u_b, num_t* return_address) {\n\treturn (Number_u) { .internal_value = u_a->internal_value + u_b->internal_value };\n}"
    );
}

#[test]
fn unknown_builtin_tags_are_refused() {
    let tags = vec![FunctionTag::Builtin("Number.frobnicate".to_string())];
    assert_eq!(runtime_function().to_c(&tags, &c_types(2), None, None).err(), Some(BuiltinError::UnknownBuiltin));
}

fn either_tokens(list: &[(TokenType, &str)]) -> VecDeque<Token> {
    list.iter()
        .enumerate()
        .map(|(i, (t, v))| Token { token_type: *t, value: v.to_string(), span: Span { start: i * 2, length: v.len() } })
        .collect()
}

#[test]
fn eithers_are_parsed_into_memory() {
    let mut tokens = either_tokens(&[
        (TokenType::KeywordEither, "either"),
        (TokenType::LeftBrace, "{"),
        (TokenType::Identifier, "red"),
        (TokenType::Comma, ","),
        (TokenType::Identifier, "green"),
        (TokenType::RightBrace, "}"),
        (TokenType::Identifier, "after"),
    ]);
    let mut memory: VirtualMemory<LiteralObject<u32>> = VirtualMemory::empty();
    let pointer = parse_either(&mut tokens, &mut memory, 3, 0).unwrap();
    assert_eq!(tokens.len(), 1);
    assert_eq!(pointer.to_text(), "2");
    let stored = memory.get(&pointer);
    assert_eq!(stored.address, Some(pointer));
    assert_eq!(stored.object.object_type().unmangled_name(), "Either");
    assert_eq!(stored.object.field_access_type, FieldAccessType::Either);
    assert_eq!(stored.object.span, Span { start: 0, length: 11 });
    let variants: Vec<(Name, cabin::comptime::memory::VirtualPointer)> = match &stored.object.internal_fields[0].1 {
        InternalFieldValue::LiteralMap(variants) => variants.iter().map(|(n, p)| (n.duplicate(), *p)).collect(),
        _ => panic!("the variants are not a literal map"),
    };
    assert_eq!(variants.len(), 2);
    assert_eq!(variants[1].0.unmangled_name(), "green");
    assert_eq!(memory.get(&variants[1].1).object.span, Span { start: 8, length: 5 });
    assert_eq!(memory.get(&variants[0].1).object.name().unmangled_name(), "anonymous_object");
    let either = Either { variants, scope_id: 3, name: Name::new("colour"), span: Span { start: 0, length: 11 }, tags: Vec::<u32>::new() };
    assert_eq!(either.to_c(), "{\n\n\tu_red,\n\tu_green,\n}");
    let names: Vec<&str> = either.variant_names().iter().map(|n| n.unmangled_name()).collect();
    assert_eq!(names, vec!["red", "green"]);
}

#[test]
fn either_literal_round_trip() {
    let either: Either<u32> = Either { variants: vec![], scope_id: 7, name: Name::new("e"), span: Span { start: 1, length: 2 }, tags: vec![5] };
    let literal = either.to_literal();
    assert_eq!(literal.object_type().unmangled_name(), "Either");
    assert_eq!(literal.inner_scope_id, Some(7));
    let back = Either::from_literal(literal).ok().unwrap();
    assert_eq!(back.scope_id, 7);
    assert_eq!(back.tags, vec![5]);
    assert!(back.variants().is_empty());
    assert_eq!(back.to_c(), "{\n\n}");
}

#[test]
fn eithers_need_their_keyword_and_braces() {
    let mut memory: VirtualMemory<LiteralObject<u32>> = VirtualMemory::empty();
    let mut no_keyword = either_tokens(&[(TokenType::KeywordGroup, "group")]);
    assert_eq!(
        parse_either(&mut no_keyword, &mut memory, 0, 0),
        Err(ParseError::ExpectedToken { expected: TokenType::KeywordEither, found: TokenType::KeywordGroup })
    );
    let mut unclosed = either_tokens(&[(TokenType::KeywordEither, "either"), (TokenType::LeftBrace, "{"), (TokenType::Identifier, "a")]);
    assert_eq!(
        parse_either(&mut unclosed, &mut memory, 0, 0),
        Err(ParseError::UnexpectedEndOfFile { expected_type: Some(TokenType::RightBrace) })
    );
    let mut empty = VecDeque::new();
    assert_eq!(
        parse_either(&mut empty, &mut memory, 0, 0),
        Err(ParseError::UnexpectedEndOfFile { expected_type: Some(TokenType::KeywordEither) })
    );
    assert_eq!(memory.next_unused_virtual_address(), 0);
}
