use cabin::api::context::{CompilerConfiguration, Context};
use cabin::comptime::memory::{MemoryObject, VirtualMemory};
use cabin::parser::expressions::function_call::{
    arguments_with_this, function_call_to_c, join_texts, plan_compile_time_call, read_builtin_tags, CallPlan,
    FunctionTag,
};
use cabin::parser::expressions::name::Name;

fn strings(items: &[&str]) -> Vec<String> {
    items.iter().map(|s| s.to_string()).collect()
}

#[test]
fn call_with_a_return_value() {
    let code = function_call_to_c(
        Some("int_t"),
        &strings(&["a"]),
        &strings(&["num_t"]),
        "f",
        None,
        &strings(&["num_t"]),
        &strings(&["x"]),
    );
    assert_eq!(
        code,
        "({\n\tint_t* return_address;\t\n\tnum_t* arg0 = x;\n\t(((void (*)(num_t*, int_t*))(f->call))(arg0, return_address));\n\treturn_address;\n})\t\n"
    );
}

#[test]
fn call_of_a_method_passes_the_object_first() {
    let code = function_call_to_c(
        None,
        &strings(&["this", "b"]),
        &strings(&["obj_t", "num_t"]),
        "o.m",
        Some("o"),
        &strings(&["num_t", "text_t"]),
        &strings(&["1", "s"]),
    );
    assert_eq!(
        code,
        "({\n\t\t\n\tnum_t* arg0 = 1;, text_t* arg0 = s;\n\t(((void (*)(obj_t*, num_t*))(o.m->call))(o, arg0, arg1));\n\t\n})\t\n"
    );
}

#[test]
fn object_is_not_passed_without_a_this_parameter() {
    let code = function_call_to_c(None, &strings(&[]), &strings(&[]), "g", Some("o"), &strings(&[]), &strings(&[]));
    assert_eq!(code, "({\n\t\t\n\t\n\t(((void (*)())(g->call))());\n\t\n})\t\n");
}

#[test]
fn texts_are_joined_with_the_separator() {
    assert_eq!(join_texts(&strings(&["a", "b", "c"]), ", "), "a, b, c");
    assert_eq!(join_texts(&strings(&[]), ", "), "");
}

#[test]
fn builtin_tags_give_the_last_name_and_side_effects() {
    let mut memory: VirtualMemory<u8> = VirtualMemory::empty();
    let side_effects = memory.store(MemoryObject { object: 0, address: None });
    let other = memory.store(MemoryObject { object: 1, address: None });
    let tags = vec![
        FunctionTag::Builtin("terminal.print".to_string()),
        FunctionTag::NotLiteral,
        FunctionTag::Literal(other),
        FunctionTag::Builtin("File.write".to_string()),
    ];
    assert_eq!(read_builtin_tags(&tags, side_effects), (Some("File.write".to_string()), false));
    let tags = vec![FunctionTag::Literal(side_effects), FunctionTag::NotLiteral];
    assert_eq!(read_builtin_tags(&tags, side_effects), (None, true));
    assert_eq!(read_builtin_tags(&[], side_effects), (None, false));
}

#[test]
fn methods_get_their_object_first() {
    assert_eq!(arguments_with_this(vec![1, 2], Some(0), Some(&Name::new("this"))), vec![0, 1, 2]);
    assert_eq!(arguments_with_this(vec![1, 2], Some(0), Some(&Name::new("x"))), vec![1, 2]);
    assert_eq!(arguments_with_this(vec![1, 2], None, Some(&Name::new("this"))), vec![1, 2]);
    assert_eq!(arguments_with_this(vec![1], Some(0), None), vec![1]);
}

#[test]
fn compile_time_calls_are_planned() {
    let mut context: Context<i32, i32, String> = Context::new(CompilerConfiguration::new(), String::new());
    let print = Some("terminal.print".to_string());
    assert_eq!(plan_compile_time_call(false, true, true, &None, false, &context), CallPlan::KeepCall);
    assert_eq!(plan_compile_time_call(true, false, true, &None, false, &context), CallPlan::KeepCall);
    assert_eq!(plan_compile_time_call(true, true, true, &print, true, &context), CallPlan::EvaluateBody);
    assert_eq!(plan_compile_time_call(true, true, false, &None, false, &context), CallPlan::MissingBody);
    assert_eq!(plan_compile_time_call(true, true, false, &print, true, &context), CallPlan::CallBuiltin);
    context.toggle_side_effects(false);
    assert_eq!(plan_compile_time_call(true, true, false, &print, true, &context), CallPlan::Skip);
    assert_eq!(plan_compile_time_call(true, true, false, &print, false, &context), CallPlan::CallBuiltin);
}
