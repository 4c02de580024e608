use vstd::prelude::*;

use crate::cli::commands::package::publish::decimal;
use crate::compile_time::builtin::{texts, unindent_text, unindented};
use crate::api::context::Context;
use crate::comptime::memory::VirtualPointer;
use crate::lexer::Span;
use crate::parser::expressions::name::Name;
use crate::text::{decimal_text, same_text};

verus! {

/// A call of a function: the function (an expression of type `E`), its compile-time
/// arguments and arguments, the scope it stands in and its span.
pub struct FunctionCall<E> {
    pub function: E,
    pub compile_time_arguments: Vec<E>,
    pub arguments: Vec<E>,
    pub scope_id: usize,
    pub span: Span,
}

/// The texts one after the other, with the separator between each two.
pub open spec fn joined(items: Seq<Seq<char>>, separator: Seq<char>) -> Seq<char>
    decreases items.len(),
{
    if items.len() == 0 {
        Seq::empty()
    } else if items.len() == 1 {
        items[0]
    } else {
        joined(items.drop_last(), separator) + separator + items.last()
    }
}

/// A tag of a function declaration, as far as calling the function at compile time goes.
pub enum FunctionTag {
    /// A tag that is not a literal object.
    NotLiteral,
    /// A `BuiltinTag` literal, with the internal name of the built-in function.
    Builtin(String),
    /// Another literal, stored at the address.
    Literal(VirtualPointer),
}

/// The internal name of the last `BuiltinTag` among the tags, if any.
pub open spec fn last_builtin_name(tags: Seq<FunctionTag>) -> Option<Seq<char>>
    decreases tags.len(),
{
    if tags.len() == 0 {
        None
    } else {
        match tags.last() {
            FunctionTag::Builtin(name) => Some(name@),
            _ => last_builtin_name(tags.drop_last()),
        }
    }
}

/// Whether one of the tags is the literal at `address`.
pub open spec fn has_literal_tag(tags: Seq<FunctionTag>, address: VirtualPointer) -> bool {
    exists|i: int| 0 <= i < tags.len() && #[trigger] tags[i] == FunctionTag::Literal(address)
}

/// Reads the tags of a function without a body: the internal name of the built-in function it
/// stands for (that of the last `BuiltinTag`), and whether it has system side effects, which
/// is when one of its literal tags is the value of `system_side_effects`, stored at
/// `system_side_effects_address`.
pub fn read_builtin_tags(tags: &[FunctionTag], system_side_effects_address: VirtualPointer) -> (res: (
    Option<String>,
    bool,
))
    ensures
        match res.0 {
            Some(name) => last_builtin_name(tags@) == Some(name@),
            None => last_builtin_name(tags@) is None,
        },
        res.1 == has_literal_tag(tags@, system_side_effects_address),
{
    let mut builtin_name: Option<String> = None;
    let mut system_side_effects = false;
    let mut i: usize = 0;
    while i < tags.len()
        invariant
            i <= tags@.len(),
            match builtin_name {
                Some(name) => last_builtin_name(tags@.take(i as int)) == Some(name@),
                None => last_builtin_name(tags@.take(i as int)) is None,
            },
            system_side_effects == has_literal_tag(tags@.take(i as int), system_side_effects_address),
        decreases tags@.len() - i,
    {
        proof {
            assert(tags@.take(i + 1).drop_last() =~= tags@.take(i as int));
            assert(tags@.take(i + 1).last() == tags@[i as int]);
        }
        match &tags[i] {
            FunctionTag::Builtin(name) => {
                builtin_name = Some(name.clone());
            },
            FunctionTag::Literal(address) => {
                if *address == system_side_effects_address {
                    system_side_effects = true;
                }
            },
            FunctionTag::NotLiteral => {},
        }
        proof {
            if has_literal_tag(tags@.take(i + 1), system_side_effects_address) {
                let j = choose|j: int|
                    0 <= j < tags@.take(i + 1).len() && #[trigger] tags@.take(i + 1)[j] == FunctionTag::Literal(
                        system_side_effects_address,
                    );
                if j < i {
                    assert(tags@.take(i as int)[j] == tags@.take(i + 1)[j]);
                }
            }
            if has_literal_tag(tags@.take(i as int), system_side_effects_address) {
                let j = choose|j: int|
                    0 <= j < tags@.take(i as int).len() && #[trigger] tags@.take(i as int)[j] == FunctionTag::Literal(
                        system_side_effects_address,
                    );
                assert(tags@.take(i + 1)[j] == tags@.take(i as int)[j]);
            }
            if tags@[i as int] == FunctionTag::Literal(system_side_effects_address) {
                assert(tags@.take(i + 1)[i as int] == tags@[i as int]);
            }
        }
        i = i + 1;
    }
    proof {
        assert(tags@.take(i as int) =~= tags@);
    }
    (builtin_name, system_side_effects)
}

/// The arguments a function is called with: those of the call, with the object the function is
/// a method of put first when its first parameter is `this`.
pub open spec fn call_arguments<E>(arguments: Seq<E>, this_object: Option<E>, first_parameter: Option<Seq<char>>) -> Seq<
    E,
> {
    match (this_object, first_parameter) {
        (Some(object), Some(name)) => if name == "this"@ {
            seq![object] + arguments
        } else {
            arguments
        },
        _ => arguments,
    }
}

/// Puts the object a function is a method of before the arguments of a call of it, when the
/// function's first parameter is `this`.
pub fn arguments_with_this<E>(arguments: Vec<E>, this_object: Option<E>, first_parameter: Option<&Name>) -> (res: Vec<E>)
    ensures
        res@ == call_arguments(
            arguments@,
            this_object,
            match first_parameter {
                Some(name) => Some(name@),
                None => None,
            },
        ),
{
    let mut arguments = arguments;
    match (this_object, first_parameter) {
        (Some(object), Some(name)) => {
            if same_text(name.unmangled_name(), "this") {
                let ghost before = arguments@;
                let ghost o = object;
                arguments.insert(0, object);
                assert(arguments@ =~= seq![o] + before);
            }
            arguments
        },
        _ => arguments,
    }
}

/// What evaluating a function call at compile time does once its function and arguments are
/// evaluated.
#[derive(Debug, Clone, Copy, PartialEq, Eq, Structural)]
pub enum CallPlan {
    /// The call is kept, to be made when the program runs.
    KeepCall,
    /// The function's body is evaluated with the arguments bound to its parameters; the call
    /// becomes its value when that is fully known, and is kept otherwise.
    EvaluateBody,
    /// The built-in function is called at compile time.
    CallBuiltin,
    /// The built-in function has system side effects, which are not allowed now: the call
    /// becomes nothing.
    Skip,
    /// The function has neither a body nor a built-in tag, which is an error.
    MissingBody,
}

/// What a call is evaluated to at compile time: it is kept when an argument is not fully
/// known or the function is not a literal; otherwise the body is evaluated, or else the
/// built-in function is called, unless it has system side effects that are not allowed now.
pub open spec fn call_plan(
    all_arguments_known: bool,
    function_is_literal: bool,
    has_body: bool,
    is_builtin: bool,
    system_side_effects: bool,
    side_effects_allowed: bool,
) -> CallPlan {
    if !all_arguments_known || !function_is_literal {
        CallPlan::KeepCall
    } else if has_body {
        CallPlan::EvaluateBody
    } else if !is_builtin {
        CallPlan::MissingBody
    } else if system_side_effects && !side_effects_allowed {
        CallPlan::Skip
    } else {
        CallPlan::CallBuiltin
    }
}

/// Decides what evaluating a function call at compile time does, from whether all its
/// arguments are fully known, whether its function is a literal, whether the function has a
/// body, and the function's tags as `read_builtin_tags` reads them; whether side effects are
/// allowed is read from the compiler's state.
pub fn plan_compile_time_call<V, R, T>(
    all_arguments_known: bool,
    function_is_literal: bool,
    has_body: bool,
    builtin_name: &Option<String>,
    system_side_effects: bool,
    context: &Context<V, R, T>,
) -> (res: CallPlan)
    ensures
        res == call_plan(
            all_arguments_known,
            function_is_literal,
            has_body,
            builtin_name is Some,
            system_side_effects,
            if context.spec_side_effects().len() == 0 {
                true
            } else {
                context.spec_side_effects().last()
            },
        ),
{
    if !all_arguments_known || !function_is_literal {
        CallPlan::KeepCall
    } else if has_body {
        CallPlan::EvaluateBody
    } else if builtin_name.is_none() {
        CallPlan::MissingBody
    } else if system_side_effects && !context.has_side_effects() {
        CallPlan::Skip
    } else {
        CallPlan::CallBuiltin
    }
}

/// The texts joined with the separator between each two.
pub fn join_texts(items: &[String], separator: &str) -> (res: String)
    ensures
        res@ == joined(texts(items@), separator@),
{
    let mut res = String::new();
    let mut i: usize = 0;
    while i < items.len()
        invariant
            i <= items@.len(),
            res@ == joined(texts(items@.take(i as int)), separator@),
        decreases items@.len() - i,
    {
        proof {
            assert(texts(items@.take(i + 1)).drop_last() =~= texts(items@.take(i as int)));
            assert(texts(items@.take(i + 1)).last() == items@[i as int]@);
        }
        if i > 0 {
            res.append(separator);
        }
        res.append(items[i].as_str());
        i = i + 1;
    }
    proof {
        assert(items@.take(i as int) =~= items@);
    }
    res
}

/// The declarations of the arguments of a call, one for each argument with its C type and
/// value. Each declares `arg0`.
pub open spec fn argument_declarations(types: Seq<Seq<char>>, values: Seq<Seq<char>>) -> Seq<Seq<char>> {
    Seq::new(values.len(), |i: int| types[i] + "* arg0 = "@ + values[i] + ";"@)
}

/// The names `arg0`, `arg1`, ... of the first `n` arguments.
pub open spec fn argument_names(n: nat) -> Seq<Seq<char>> {
    Seq::new(n, |i: int| "arg"@ + decimal(i as nat))
}

/// The C types of the parameters as pointers, then that of the return value, if any.
pub open spec fn parameter_types_text(parameter_types: Seq<Seq<char>>, return_type: Option<Seq<char>>) -> Seq<
    char,
> {
    let parameters = joined(Seq::new(parameter_types.len(), |i: int| parameter_types[i] + "*"@), ", "@);
    match return_type {
        Some(r) => (if parameters.len() > 0 {
            parameters + ", "@
        } else {
            parameters
        }) + r + "*"@,
        None => parameters,
    }
}

/// The C code of a call, before it is unindented: a statement expression that declares the
/// return address and the arguments, casts the function's `call` pointer to the function's C
/// type and calls it with the object (when the function has one and its first parameter is
/// `this`), the arguments and the return address, and gives the return address last.
pub open spec fn function_call_template(
    return_type: Option<Seq<char>>,
    parameter_names: Seq<Seq<char>>,
    parameter_types: Seq<Seq<char>>,
    function: Seq<char>,
    this_object: Option<Seq<char>>,
    argument_types: Seq<Seq<char>>,
    arguments: Seq<Seq<char>>,
) -> Seq<char> {
    let return_type_line = match return_type {
        Some(r) => r + "* return_address;"@,
        None => Seq::empty(),
    };
    let ending = match return_type {
        Some(r) => "return_address;"@,
        None => Seq::empty(),
    };
    let maybe_return_address = match return_type {
        Some(r) => (if parameter_names.len() == 0 {
            Seq::empty()
        } else {
            ", "@
        }) + "return_address"@,
        None => Seq::empty(),
    };
    let this_argument = match this_object {
        Some(o) => if parameter_names.len() > 0 && parameter_names[0] == "this"@ {
            o + ", "@
        } else {
            Seq::empty()
        },
        None => Seq::empty(),
    };
    "\n\t\t\t({\n\t\t\t\t"@ + return_type_line + "\t\n\t\t\t\t"@ + joined(
        argument_declarations(argument_types, arguments),
        ", "@,
    ) + "\n\t\t\t\t(((void (*)("@ + parameter_types_text(parameter_types, return_type) + "))("@ + function
        + "->call))("@ + this_argument + joined(argument_names(arguments.len()), ", "@) + maybe_return_address
        + "));\n\t\t\t\t"@ + ending + "\n\t\t\t})\t\n\t\t\t"@
}

/// The C code of a function call, from the C code of its parts: the C type of the function's
/// return value (if it returns one), the names and C types of its parameters, the C code of
/// the function called, that of the object it is a method of (if any), and the C types and C
/// code of the arguments. The code is unindented.
pub fn function_call_to_c(
    return_type: Option<&str>,
    parameter_names: &[String],
    parameter_types: &[String],
    function: &str,
    this_object: Option<&str>,
    argument_types: &[String],
    arguments: &[String],
) -> (res: String)
    requires
        argument_types@.len() == arguments@.len(),
        parameter_names@.len() == parameter_types@.len(),
    ensures
        res@ == unindented(
            function_call_template(
                match return_type {
                    Some(r) => Some(r@),
                    None => None,
                },
                texts(parameter_names@),
                texts(parameter_types@),
                function@,
                match this_object {
                    Some(o) => Some(o@),
                    None => None,
                },
                texts(argument_types@),
                texts(arguments@),
            ),
        ),
{
    let ghost rt: Option<Seq<char>> = match return_type {
        Some(r) => Some(r@),
        None => None,
    };
    // The declarations of the arguments.
    let mut declarations: Vec<String> = Vec::new();
    let mut i: usize = 0;
    while i < arguments.len()
        invariant
            i <= arguments@.len(),
            argument_types@.len() == arguments@.len(),
            declarations@.len() == i,
            texts(declarations@) == argument_declarations(texts(argument_types@), texts(arguments@)).take(i as int),
        decreases arguments@.len() - i,
    {
        let mut d = String::new();
        d.append(argument_types[i].as_str());
        d.append("* arg0 = ");
        d.append(arguments[i].as_str());
        d.append(";");
        assert(d@ =~= argument_declarations(texts(argument_types@), texts(arguments@))[i as int]);
        let ghost before = declarations@;
        declarations.push(d);
        proof {
            assert forall|m: int| 0 <= m < i + 1 implies #[trigger] texts(declarations@)[m]
                == argument_declarations(texts(argument_types@), texts(arguments@))[m] by {
                if m < i {
                    assert(declarations@[m] == before[m]);
                    assert(texts(before)[m] == argument_declarations(texts(argument_types@), texts(arguments@)).take(i as int)[m]);
                }
            }
            assert(texts(declarations@) =~= argument_declarations(texts(argument_types@), texts(arguments@)).take(
                i + 1,
            ));
        }
        i = i + 1;
    }
    proof {
        assert(argument_declarations(texts(argument_types@), texts(arguments@)).take(i as int)
            =~= argument_declarations(texts(argument_types@), texts(arguments@)));
    }
    // The names of the arguments.
    let mut names: Vec<String> = Vec::new();
    let mut j: usize = 0;
    while j < arguments.len()
        invariant
            j <= arguments@.len(),
            names@.len() == j,
            texts(names@) == argument_names(arguments@.len()).take(j as int),
        decreases arguments@.len() - j,
    {
        let mut n = String::new();
        n.append("arg");
        let digits = decimal_text(j);
        n.append(digits.as_str());
        assert(n@ =~= argument_names(arguments@.len())[j as int]);
        let ghost before = names@;
        names.push(n);
        proof {
            assert forall|m: int| 0 <= m < j + 1 implies #[trigger] texts(names@)[m] == argument_names(
                arguments@.len(),
            )[m] by {
                if m < j {
                    assert(names@[m] == before[m]);
                    assert(texts(before)[m] == argument_names(arguments@.len()).take(j as int)[m]);
                }
            }
            assert(texts(names@) =~= argument_names(arguments@.len()).take(j + 1));
        }
        j = j + 1;
    }
    proof {
        assert(argument_names(arguments@.len()).take(j as int) =~= argument_names(arguments@.len()));
    }
    // The C types of the parameters as pointers.
    let mut pointer_types: Vec<String> = Vec::new();
    let mut k: usize = 0;
    while k < parameter_types.len()
        invariant
            k <= parameter_types@.len(),
            pointer_types@.len() == k,
            texts(pointer_types@) == Seq::new(
                parameter_types@.len(),
                |m: int| texts(parameter_types@)[m] + "*"@,
            ).take(k as int),
        decreases parameter_types@.len() - k,
    {
        let mut p = String::new();
        p.append(parameter_types[k].as_str());
        p.append("*");
        assert(p@ =~= texts(parameter_types@)[k as int] + "*"@);
        let ghost before = pointer_types@;
        pointer_types.push(p);
        proof {
            assert forall|m: int| 0 <= m < k + 1 implies #[trigger] texts(pointer_types@)[m] == texts(
                parameter_types@,
            )[m] + "*"@ by {
                if m < k {
                    assert(pointer_types@[m] == before[m]);
                    assert(texts(before)[m] == Seq::new(
                        parameter_types@.len(),
                        |q: int| texts(parameter_types@)[q] + "*"@,
                    ).take(k as int)[m]);
                }
            }
            assert(texts(pointer_types@) =~= Seq::new(
                parameter_types@.len(),
                |m: int| texts(parameter_types@)[m] + "*"@,
            ).take(k + 1));
        }
        k = k + 1;
    }
    proof {
        assert(Seq::new(parameter_types@.len(), |m: int| texts(parameter_types@)[m] + "*"@).take(k as int)
            =~= Seq::new(parameter_types@.len(), |m: int| texts(parameter_types@)[m] + "*"@));
    }
    let mut parameters_text = join_texts(pointer_types.as_slice(), ", ");
    if let Some(r) = return_type {
        if parameters_text.unicode_len() > 0 {
            parameters_text.append(", ");
        }
        parameters_text.append(r);
        parameters_text.append("*");
    }
    assert(parameters_text@ == parameter_types_text(texts(parameter_types@), rt));
    // The object the function is a method of, passed first when the first parameter is `this`.
    let mut this_argument = String::new();
    if let Some(o) = this_object {
        if parameter_names.len() > 0 && same_text(parameter_names[0].as_str(), "this") {
            this_argument.append(o);
            this_argument.append(", ");
        }
    }
    // The text of the call.
    let mut text = String::new();
    text.append("\n\t\t\t({\n\t\t\t\t");
    if let Some(r) = return_type {
        text.append(r);
        text.append("* return_address;");
    }
    text.append("\t\n\t\t\t\t");
    let declarations_text = join_texts(declarations.as_slice(), ", ");
    text.append(declarations_text.as_str());
    text.append("\n\t\t\t\t(((void (*)(");
    text.append(parameters_text.as_str());
    text.append("))(");
    text.append(function);
    text.append("->call))(");
    text.append(this_argument.as_str());
    let names_text = join_texts(names.as_slice(), ", ");
    text.append(names_text.as_str());
    if return_type.is_some() {
        if parameter_names.len() > 0 {
            text.append(", ");
        }
        text.append("return_address");
    }
    text.append("));\n\t\t\t\t");
    if return_type.is_some() {
        text.append("return_address;");
    }
    text.append("\n\t\t\t})\t\n\t\t\t");
    assert(text@ =~= function_call_template(
        rt,
        texts(parameter_names@),
        texts(parameter_types@),
        function@,
        match this_object {
            Some(o) => Some(o@),
            None => None,
        },
        texts(argument_types@),
        texts(arguments@),
    ));
    unindent_text(text.as_str())
}

/// The object a function is a method of is passed to the C call only when the function's first
/// parameter is `this`: then the call's text is that without the object, with the object and
/// `, ` put first among the call's arguments; with no parameters, or a first parameter of any
/// other name, the call's text is the same as when there is no object.
pub proof fn law_object_is_passed_only_to_this(
    return_type: Option<Seq<char>>,
    parameter_names: Seq<Seq<char>>,
    parameter_types: Seq<Seq<char>>,
    function: Seq<char>,
    object: Seq<char>,
    argument_types: Seq<Seq<char>>,
    arguments: Seq<Seq<char>>,
)
    ensures
        !(parameter_names.len() > 0 && parameter_names[0] == "this"@) ==> function_call_template(
            return_type,
            parameter_names,
            parameter_types,
            function,
            Some(object),
            argument_types,
            arguments,
        ) == function_call_template(
            return_type,
            parameter_names,
            parameter_types,
            function,
            None,
            argument_types,
            arguments,
        ),
        parameter_names.len() > 0 && parameter_names[0] == "this"@ ==> {
            let with = function_call_template(
                return_type,
                parameter_names,
                parameter_types,
                function,
                Some(object),
                argument_types,
                arguments,
            );
            let without = function_call_template(
                return_type,
                parameter_names,
                parameter_types,
                function,
                None,
                argument_types,
                arguments,
            );
            let head = "\n\t\t\t({\n\t\t\t\t"@ + (match return_type {
                Some(r) => r + "* return_address;"@,
                None => Seq::empty(),
            }) + "\t\n\t\t\t\t"@ + joined(argument_declarations(argument_types, arguments), ", "@)
                + "\n\t\t\t\t(((void (*)("@ + parameter_types_text(parameter_types, return_type) + "))("@ + function
                + "->call))("@;
            &&& with == head + object + ", "@ + without.skip(head.len() as int)
            &&& without.take(head.len() as int) == head
        },
{
    let head = "\n\t\t\t({\n\t\t\t\t"@ + (match return_type {
        Some(r) => r + "* return_address;"@,
        None => Seq::empty(),
    }) + "\t\n\t\t\t\t"@ + joined(argument_declarations(argument_types, arguments), ", "@) + "\n\t\t\t\t(((void (*)("@
        + parameter_types_text(parameter_types, return_type) + "))("@ + function + "->call))("@;
    let without = function_call_template(
        return_type,
        parameter_names,
        parameter_types,
        function,
        None,
        argument_types,
        arguments,
    );
    let with = function_call_template(
        return_type,
        parameter_names,
        parameter_types,
        function,
        Some(object),
        argument_types,
        arguments,
    );
    let maybe_return_address = match return_type {
        Some(r) => (if parameter_names.len() == 0 {
            Seq::empty()
        } else {
            ", "@
        }) + "return_address"@,
        None => Seq::empty(),
    };
    let ending = match return_type {
        Some(r) => "return_address;"@,
        None => Seq::empty(),
    };
    let tail = joined(argument_names(arguments.len()), ", "@) + maybe_return_address + "));\n\t\t\t\t"@ + ending
        + "\n\t\t\t})\t\n\t\t\t"@;
    if parameter_names.len() > 0 && parameter_names[0] == "this"@ {
        assert(without =~= head + Seq::<char>::empty() + tail);
        assert(without =~= head + tail);
        assert(with =~= head + (object + ", "@) + tail);
        assert(without.skip(head.len() as int) =~= tail);
        assert(without.take(head.len() as int) =~= head);
        assert(with =~= head + object + ", "@ + without.skip(head.len() as int));
    }
}

} // verus!
