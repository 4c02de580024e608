use cabin::api::scope::{Levenshtein, ScopeData, ScopeError, ScopeType};
use cabin::parser::expressions::name::Name;

fn global() -> ScopeData<i32, &'static str> {
    ScopeData::global()
}

#[test]
fn declared_variable_is_visible() {
    let mut scopes = global();
    assert_eq!(scopes.declare_new_variable(Name::new("x"), 1), Ok(()));
    assert_eq!(scopes.get_variable(&Name::new("x")), Some(&1));
    assert_eq!(scopes.get_variable(&Name::new("y")), None);
    assert_eq!(*scopes.expect_global_variable(&Name::new("x")), 1);
}

#[test]
fn redeclaration_is_refused() {
    let mut scopes = global();
    scopes.declare_new_variable(Name::new("x"), 1).unwrap();
    scopes.enter_new_unlabeled_scope(ScopeType::Block);
    assert_eq!(scopes.declare_new_variable(Name::new("x"), 2), Err(ScopeError::VariableAlreadyExists));
    assert_eq!(scopes.get_variable(&Name::new("x")), Some(&1));
}

#[test]
fn inner_scope_sees_outer_variables_only_while_inside() {
    let mut scopes = global();
    scopes.declare_new_variable(Name::new("outer"), 1).unwrap();
    scopes.enter_new_unlabeled_scope(ScopeType::Function);
    let inner_id = scopes.unique_id();
    assert_ne!(inner_id, scopes.global_id());
    scopes.declare_new_variable(Name::new("inner"), 2).unwrap();
    assert_eq!(scopes.get_variable(&Name::new("outer")), Some(&1));
    assert_eq!(scopes.get_variable(&Name::new("inner")), Some(&2));
    assert_eq!(scopes.exit_scope(), Ok(()));
    assert_eq!(scopes.unique_id(), 0);
    assert_eq!(scopes.get_variable(&Name::new("inner")), None);
    assert_eq!(scopes.get_variable_from_id(&Name::new("inner"), inner_id), Some(&2));
}

#[test]
fn global_scope_cannot_be_exited() {
    let mut scopes = global();
    assert_eq!(scopes.exit_scope(), Err(ScopeError::ExitedGlobalScope));
    assert_eq!(scopes.unique_id(), 0);
}

#[test]
fn reassignment_changes_the_value() {
    let mut scopes = global();
    scopes.declare_new_variable(Name::new("x"), 1).unwrap();
    scopes.enter_new_unlabeled_scope(ScopeType::Block);
    assert_eq!(scopes.reassign_variable(&Name::new("x"), 5), Ok(()));
    assert_eq!(scopes.reassign_variable(&Name::new("y"), 5), Err(ScopeError::VariableNotFound));
    scopes.exit_scope().unwrap();
    assert_eq!(scopes.get_variable(&Name::new("x")), Some(&5));
}

#[test]
fn labels_are_exited_to() {
    let mut scopes = global();
    scopes.enter_new_scope(ScopeType::Block, Name::new("outer"));
    let outer = scopes.unique_id();
    scopes.enter_new_unlabeled_scope(ScopeType::Block);
    assert_eq!(scopes.scope_type_of(&Name::new("outer")), Ok(&ScopeType::Block));
    assert_eq!(scopes.exit_to_label(Name::new("outer")), Ok(()));
    assert_eq!(scopes.unique_id(), outer);
    assert_eq!(scopes.exit_to_label(Name::new("missing")), Err(ScopeError::ExitedGlobalScope));
    assert_eq!(scopes.unique_id(), 0);
}

#[test]
fn represent_as_declarations_are_found() {
    let mut scopes = global();
    scopes.add_represent_as_declaration(Name::new("Number"), "number");
    assert_eq!(scopes.get_represent_as(&Name::new("Number")), Some(&"number"));
    assert_eq!(scopes.get_represent_as(&Name::new("Text")), None);
}

#[test]
fn closest_variables_are_sorted_by_distance() {
    let mut scopes = global();
    scopes.declare_new_variable(Name::new("apple"), 1).unwrap();
    scopes.declare_new_variable(Name::new("count"), 2).unwrap();
    scopes.declare_new_variable(Name::new("counter"), 3).unwrap();
    let closest = scopes.get_closest_variables(&Name::new("cont"), 2);
    let names: Vec<&str> = closest.iter().map(|(name, _)| name.unmangled_name()).collect();
    assert_eq!(names, vec!["count", "counter"]);
}

#[test]
fn levenshtein_distances() {
    assert_eq!("kitten".distance_to("sitting"), 3);
    assert_eq!("same".distance_to("same"), 0);
    assert_eq!("".distance_to("abc"), 3);
    assert_eq!("abc".distance_to(""), 3);
    assert_eq!("flaw".distance_to("lawn"), "lawn".distance_to("flaw"));
    assert_eq!("é".distance_to(""), 1);
    assert_eq!("".distance_to("é"), 1);
    assert_eq!("café".distance_to("cafe"), 1);
}

#[test]
fn unknown_label_has_no_scope_type() {
    let scopes = global();
    assert_eq!(scopes.scope_type_of(&Name::new("nowhere")), Err(ScopeError::LabelNotFound));
}

#[test]
fn variables_are_marked_evaluated() {
    let mut scopes = global();
    scopes.declare_new_variable(Name::new("x"), 1).unwrap();
    assert!(!scopes.get_variable_info(&Name::new("x")).unwrap().has_been_compile_time_evaluated);
    assert_eq!(scopes.set_evaluated(&Name::new("x")), Ok(()));
    assert!(scopes.get_variable_info(&Name::new("x")).unwrap().has_been_compile_time_evaluated);
    assert_eq!(scopes.set_evaluated(&Name::new("y")), Err(ScopeError::VariableNotFound));
}

#[test]
fn declaring_in_another_scope_looks_from_that_scope() {
    let mut scopes = global();
    scopes.enter_new_unlabeled_scope(ScopeType::Block);
    let first = scopes.unique_id();
    scopes.declare_new_variable(Name::new("x"), 1).unwrap();
    scopes.exit_scope().unwrap();
    scopes.enter_new_unlabeled_scope(ScopeType::Block);
    assert_eq!(scopes.declare_new_variable_from_id(Name::new("x"), 2, first), Err(ScopeError::VariableAlreadyExists));
    assert_eq!(scopes.declare_new_variable_from_id(Name::new("x"), 3, 0), Ok(()));
    assert_eq!(scopes.get_variable(&Name::new("x")), Some(&3));
}
