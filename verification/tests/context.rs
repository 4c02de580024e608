use cabin::api::context::{CompilerConfiguration, Context, SourceFilePosition};
use cabin::api::scope::{ScopeType, VariableValue};
use cabin::lexer::Span;
use cabin::parser::expressions::name::Name;

fn context(program: &str) -> Context<i32, i32, String> {
    Context::new(CompilerConfiguration::new(), program.to_string())
}

#[test]
fn fresh_context() {
    let context = context("let x = 1;");
    assert!(context.has_side_effects());
    assert_eq!(context.error_position(), None);
    assert_eq!(context.error_details(), None);
    assert!(context.get_compiler_error_position().is_empty());
    assert_eq!(context.program(), "let x = 1;");
    assert_eq!(context.lines_printed, 0);
    assert_eq!(context.scope_data.unique_id(), 0);
}

#[test]
fn first_error_position_is_kept() {
    let mut context = context("a\nb");
    context.set_error_position(&Span { start: 2, length: 1 });
    context.set_error_position(&Span { start: 0, length: 1 });
    assert_eq!(context.error_position(), Some(Span { start: 2, length: 1 }));
    assert_eq!(context.line_column(Span { start: 2, length: 1 }), (2, 1));
    context.set_error_details("first");
    context.set_error_details("second");
    assert_eq!(context.error_details().as_deref(), Some("first"));
}

#[test]
fn untoggling_restores_side_effects() {
    let mut context = context("");
    context.toggle_side_effects(false);
    assert!(!context.has_side_effects());
    context.toggle_side_effects(true);
    assert!(context.has_side_effects());
    context.untoggle_side_effects();
    assert!(!context.has_side_effects());
    context.untoggle_side_effects();
    assert!(context.has_side_effects());
    context.untoggle_side_effects();
    assert!(context.has_side_effects());
}

#[test]
fn compiler_positions_are_kept_in_order() {
    let mut context = context("");
    context.set_compiler_error_position(SourceFilePosition::new(1, 2, "a.rs", "f".to_string()));
    context.set_compiler_error_position(SourceFilePosition::new(3, 4, "b.rs", "g".to_string()));
    let positions = context.get_compiler_error_position();
    assert_eq!(positions.len(), 2);
    assert_eq!((positions[0].line(), positions[0].file_name()), (1, "a.rs"));
    assert_eq!((positions[1].column(), positions[1].function_name()), (4, "g".to_string()));
}

#[test]
fn scopes_list_their_visible_variables() {
    let mut context = context("");
    context.scope_data.declare_new_variable(Name::new("a"), 1).unwrap();
    context.scope_data.enter_new_unlabeled_scope(ScopeType::Block);
    context.scope_data.declare_new_variable(Name::new("b"), 2).unwrap();
    let visible: Vec<(&str, i32)> = context
        .scope_data
        .get_variables()
        .into_iter()
        .map(|(name, value)| (name.unmangled_name(), *value))
        .collect();
    assert_eq!(visible, vec![("b", 2), ("a", 1)]);
    context.scope_data.add_represent_as_declaration(Name::new("R"), 9);
    assert_eq!(context.scope_data.get_represent_as_declarations().len(), 1);
    let global = context.scope_data.get_global_scope();
    assert_eq!(global.get_variable_direct(&Name::new("a")), Some(&1));
    assert_eq!(global.get_variable_direct(&Name::new("b")), None);
}

#[test]
fn new_variable_values_are_unevaluated() {
    let value = VariableValue::new(5);
    assert_eq!(value.value, 5);
    assert!(!value.has_been_compile_time_evaluated);
}
