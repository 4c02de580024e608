use cabin::api::traits::TupleOption;
use cabin::lexer::Span;
use cabin::parser::expressions::literals::variable_reference::VariableReference;
use cabin::parser::expressions::name::Name;
use cabin::parser::expressions::object::{Field, Fields};
use cabin::parser::expressions::util::name::Name as CName;

#[test]
fn mangled_names_get_a_prefix() {
    assert_eq!(Name::new("x").mangled_name(), "u_x");
    assert_eq!(Name::non_mangled("printf").mangled_name(), "printf");
    assert_eq!(Name::new("x").unmangled_name(), "x");
}

#[test]
fn names_keep_their_span() {
    let span = Span { start: 4, length: 3 };
    let name = Name::with_span("abc".to_string(), span);
    assert_eq!(name.span(), span);
    assert_eq!(Name::new("a").span(), Span::unknown());
    assert!(name.same_as(&Name::new("abc")));
    assert!(!name.same_as(&Name::new("abd")));
    assert!(name.duplicate().same_as(&name));
}

#[test]
fn c_names_round_trip() {
    let name = CName("value".to_string());
    assert_eq!(name.c_name(), "value_u");
    assert_eq!(CName::from_c(&name.c_name()).cabin_name(), "value");
    assert_eq!(CName("Void".to_string()).c_name(), "void");
    assert_eq!(CName("unique".to_string()).c_name(), "int");
}

#[test]
fn variable_references_hold_name_and_scope() {
    let reference = VariableReference::new(CName("x".to_string()), 7);
    assert_eq!(reference.name().cabin_name(), "x");
    assert_eq!(reference.scope_id(), 7);
    let positioned = VariableReference::with_position(CName("y".to_string()), 2, 3, 4);
    assert_eq!(positioned.scope_id(), 2);
}

#[test]
fn optional_pairs_split() {
    assert_eq!(Some((1, 'a')).deconstruct(), (Some(1), Some('a')));
    assert_eq!(None::<(i32, char)>.deconstruct(), (None, None));
}

#[test]
fn spans_contain_their_positions() {
    let span = Span { start: 2, length: 3 };
    assert!(!span.contains(1));
    assert!(span.contains(2));
    assert!(span.contains(4));
    assert!(!span.contains(5));
}

fn field(name: &str, value: i32) -> Field<i32> {
    Field { name: Name::new(name), field_type: None, value: Some(value) }
}

#[test]
fn setting_a_field_replaces_fields_of_that_name() {
    let mut fields = vec![field("a", 1), field("b", 2), field("a", 3), field("c", 4)];
    fields.add_or_overwrite_field(field("a", 5));
    let listed: Vec<(&str, Option<i32>)> = fields.iter().map(|f| (f.name.unmangled_name(), f.value)).collect();
    assert_eq!(listed, vec![("b", Some(2)), ("c", Some(4)), ("a", Some(5))]);
    fields.add_or_overwrite_field(field("d", 6));
    assert_eq!(fields.len(), 4);
    assert_eq!(fields[3].name.unmangled_name(), "d");
}
