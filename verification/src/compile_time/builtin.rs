use vstd::prelude::*;

use crate::text::same_text;

verus! {

/// Why a built-in function could not be converted to C.
#[derive(Debug, Clone, Copy, PartialEq, Eq, Structural)]
pub enum BuiltinError {
    /// No built-in function has the given name.
    UnknownBuiltin,
}

/// The name of what `unindent::unindent` returns for a text.
pub uninterp spec fn unindented(text: Seq<char>) -> Seq<char>;

/// Calls `unindent::unindent`, which removes the spaces and tabs that all lines after the first
/// share at their start, and drops a first line that is empty. Its result is only named here:
/// `unindented` of the text.
#[verifier::external_body]
pub(crate) fn unindent_text(text: &str) -> (res: String)
    ensures
        res@ == unindented(text@),
{
    unindent::unindent(text)
}

/// The number of parameter names that the built-in function `name` needs, or -1 when there is
/// no built-in function with that name.
pub open spec fn required_parameters(name: Seq<char>) -> int {
    if name == "terminal.print"@ || name == "terminal.print_error"@ || name == "terminal.input"@ {
        1
    } else if name == "terminal.clear"@ {
        0
    } else if name == "Number.plus"@ || name == "Number.minus"@ || name == "Number.times"@
        || name == "Number.divided_by"@ || name == "Number.equals"@ {
        2
    } else if name == "List.length"@ {
        1
    } else if name == "List.append"@ || name == "List.prepend"@ {
        2
    } else if name == "List.set"@ {
        3
    } else if name == "List.get"@ || name == "File.read"@ || name == "File.file_exists"@ {
        2
    } else if name == "File.write"@ || name == "File.directory_exists"@ || name == "Anything.is"@ {
        1
    } else {
        -1
    }
}

/// The C statement that returns a number computed from two numbers with the C operator `op`.
pub open spec fn arithmetic_c(op: Seq<char>, this: Seq<char>, other: Seq<char>) -> Seq<char> {
    "return (Number_u) { .internal_value = "@ + this + "->internal_value "@ + op + " "@ + other
        + "->internal_value };"@
}

/// The C code of `File.read`, before it is unindented.
pub open spec fn file_read_template(path: Seq<char>, return_address: Seq<char>) -> Seq<char> {
    "\n\t\t\t\tFILE* f = fopen("@ + path
        + "->internal_value, \"rb\");\n\t\t\t\tchar* buffer = 0;\n\n\t\t\t\tif (f) {\n\t\t\t\t\tfseek(f, 0, SEEK_END);\n\t\t\t\t\tlong length = ftell(f);\n\t\t\t\t\tfseek(f, 0, SEEK_SET);\n\t\t\t\t\tbuffer = malloc(length);\n\t\t\t\t\tif (buffer) fread(buffer, 1, length, f);\n\t\t\t\t\tfclose(f);\n\t\t\t\t}\n\n\t\t\t\t*"@
        + return_address + " = (Text_u) { .internal_value = buffer };\n\t\t\t\t"@
}

/// The C code of `File.write`, before it is unindented.
pub open spec fn file_write_template(path: Seq<char>) -> Seq<char> {
    "\n\t\t\t\tFILE* file = fopen("@ + path
        + "->internal_value, \"w\");\n\t\t\t\tfprintf(file, \"Some text\");\n\t\t\t\tfclose(file);\n\t\t\t\t"@
}

/// The C code of `File.file_exists`, before it is unindented.
pub open spec fn file_exists_template(path: Seq<char>, return_address: Seq<char>) -> Seq<char> {
    "\n\t\t\t\tstruct stat buffer;\n\t\t\t\t*"@ + return_address + " = stat("@ + path
        + "->internal_value, &buffer) == 0;\n\t\t\t\t"@
}

/// The body of the C function for the built-in function `name`, given the names of its
/// parameters, when there are as many as it needs.
pub open spec fn builtin_c_code(name: Seq<char>, p: Seq<Seq<char>>) -> Seq<char> {
    if name == "terminal.print"@ || name == "terminal.print_error"@ {
        "printf(\"%s\\n\", "@ + p[0] + "->internal_value);"@
    } else if name == "terminal.clear"@ {
        "printf(\"\\e[1;1H\\e[2J\");"@
    } else if name == "terminal.input"@ {
        "char* buffer = malloc(sizeof(char) * 256);\nfgets(buffer, 256, stdin);\n*"@ + p[0]
            + " = (Text_u) { .internal_value = buffer };"@
    } else if name == "Number.plus"@ {
        arithmetic_c("+"@, p[0], p[1])
    } else if name == "Number.minus"@ {
        arithmetic_c("-"@, p[0], p[1])
    } else if name == "Number.times"@ {
        arithmetic_c("*"@, p[0], p[1])
    } else if name == "Number.divided_by"@ {
        arithmetic_c("/"@, p[0], p[1])
    } else if name == "Number.equals"@ {
        "if ("@ + p[0] + "->internal_value == "@ + p[1]
            + "->internal_value) {\n\treturn true_u;\n}\nreturn false_u;"@
    } else if name == "List.length"@ {
        "return (Number_u) { .internal_value = "@ + p[0] + "->size };"@
    } else if name == "List.append"@ {
        "if ("@ + p[0] + "->size == "@ + p[0] + "->capacity) {\n\t"@ + p[0] + "->capacity *= 2;\n}\n"@
            + p[0] + "->data = realloc("@ + p[0] + "->data, "@ + p[0]
            + "->capacity * sizeof(ElementType_u));\n"@ + p[0] + "->data["@ + p[0] + "->size++] = "@
            + p[1] + ";"@
    } else if name == "List.prepend"@ {
        "if ("@ + p[0] + "->size == "@ + p[0] + "->capacity) {\n\t"@ + p[0] + "->capacity *= 2;\n}\n"@
            + p[0] + "->data = 1 + realloc("@ + p[0] + "->data, "@ + p[0]
            + "->capacity * sizeof(ElementType_u));\n"@ + p[0] + "->data[0] = "@ + p[1] + ";\n"@
            + p[0] + "->size++;"@
    } else if name == "List.set"@ {
        p[0] + "->data[(int) "@ + p[1] + "->internal_value] = "@ + p[2] + ";"@
    } else if name == "List.get"@ {
        "return (Number_u*) "@ + p[0] + "->data[(int) "@ + p[1] + "->internal_value];"@
    } else if name == "File.read"@ {
        unindented(file_read_template(p[0], p[1]))
    } else if name == "File.write"@ {
        unindented(file_write_template(p[0]))
    } else if name == "File.file_exists"@ {
        unindented(file_exists_template(p[0], p[1]))
    } else {
        Seq::empty()
    }
}

/// The texts of a list of strings.
pub open spec fn texts(strings: Seq<String>) -> Seq<Seq<char>> {
    strings.map_values(|s: String| s@)
}

/// The number of parameter names that the built-in function `name` needs, or `None` when there
/// is no built-in function with that name.
fn required_parameter_count(name: &str) -> (res: Option<usize>)
    ensures
        required_parameters(name@) < 0 ==> res is None,
        required_parameters(name@) >= 0 ==> res == Some(required_parameters(name@) as usize),
{
    if same_text(name, "terminal.print") || same_text(name, "terminal.print_error") || same_text(
        name,
        "terminal.input",
    ) {
        Some(1)
    } else if same_text(name, "terminal.clear") {
        Some(0)
    } else if same_text(name, "Number.plus") || same_text(name, "Number.minus") || same_text(
        name,
        "Number.times",
    ) || same_text(name, "Number.divided_by") || same_text(name, "Number.equals") {
        Some(2)
    } else if same_text(name, "List.length") {
        Some(1)
    } else if same_text(name, "List.append") || same_text(name, "List.prepend") {
        Some(2)
    } else if same_text(name, "List.set") {
        Some(3)
    } else if same_text(name, "List.get") || same_text(name, "File.read") || same_text(
        name,
        "File.file_exists",
    ) {
        Some(2)
    } else if same_text(name, "File.write") || same_text(name, "File.directory_exists") || same_text(
        name,
        "Anything.is",
    ) {
        Some(1)
    } else {
        None
    }
}

/// The C statement that returns a number computed from two numbers with the C operator `op`.
fn arithmetic_to_c(op: &str, this: &str, other: &str) -> (res: String)
    ensures
        res@ == arithmetic_c(op@, this@, other@),
{
    let mut s = String::new();
    s.append("return (Number_u) { .internal_value = ");
    s.append(this);
    s.append("->internal_value ");
    s.append(op);
    s.append(" ");
    s.append(other);
    s.append("->internal_value };");
    s
}

/// Converts a built-in function to C: the body of the C function, given the names of its
/// parameters. This is used when transpiling; an unknown name is an error, and for a known name
/// the result is always the C code. The parameter names are those of the built-in function's
/// declaration, so there are at least as many as the built-in function uses
/// (`required_parameters`): its C code refers to each of them by position.
pub fn builtin_to_c(name: &str, parameter_names: &[String]) -> (res: Result<String, BuiltinError>)
    requires
        required_parameters(name@) >= 0 ==> parameter_names@.len() >= required_parameters(name@),
    ensures
        required_parameters(name@) < 0 ==> res == Err::<String, BuiltinError>(BuiltinError::UnknownBuiltin),
        required_parameters(name@) >= 0 ==> (res matches Ok(code) && code@ == builtin_c_code(
            name@,
            texts(parameter_names@),
        )),
{
    match required_parameter_count(name) {
        Some(_) => {},
        None => {
            return Err(BuiltinError::UnknownBuiltin);
        },
    }
    let ghost p = texts(parameter_names@);
    proof {
        assert forall|k: int| 0 <= k < parameter_names@.len() implies #[trigger] p[k] == parameter_names@[k]@ by {}
    }
    let mut s = String::new();
    if same_text(name, "terminal.print") || same_text(name, "terminal.print_error") {
        s.append("printf(\"%s\\n\", ");
        s.append(parameter_names[0].as_str());
        s.append("->internal_value);");
    } else if same_text(name, "terminal.clear") {
        s.append("printf(\"\\e[1;1H\\e[2J\");");
    } else if same_text(name, "terminal.input") {
        s.append("char* buffer = malloc(sizeof(char) * 256);\nfgets(buffer, 256, stdin);\n*");
        s.append(parameter_names[0].as_str());
        s.append(" = (Text_u) { .internal_value = buffer };");
    } else if same_text(name, "Number.plus") {
        s = arithmetic_to_c("+", parameter_names[0].as_str(), parameter_names[1].as_str());
    } else if same_text(name, "Number.minus") {
        s = arithmetic_to_c("-", parameter_names[0].as_str(), parameter_names[1].as_str());
    } else if same_text(name, "Number.times") {
        s = arithmetic_to_c("*", parameter_names[0].as_str(), parameter_names[1].as_str());
    } else if same_text(name, "Number.divided_by") {
        s = arithmetic_to_c("/", parameter_names[0].as_str(), parameter_names[1].as_str());
    } else if same_text(name, "Number.equals") {
        s.append("if (");
        s.append(parameter_names[0].as_str());
        s.append("->internal_value == ");
        s.append(parameter_names[1].as_str());
        s.append("->internal_value) {\n\treturn true_u;\n}\nreturn false_u;");
    } else if same_text(name, "List.length") {
        s.append("return (Number_u) { .internal_value = ");
        s.append(parameter_names[0].as_str());
        s.append("->size };");
    } else if same_text(name, "List.append") || same_text(name, "List.prepend") {
        let list = parameter_names[0].as_str();
        let element = parameter_names[1].as_str();
        s.append("if (");
        s.append(list);
        s.append("->size == ");
        s.append(list);
        s.append("->capacity) {\n\t");
        s.append(list);
        s.append("->capacity *= 2;\n}\n");
        s.append(list);
        if same_text(name, "List.append") {
            s.append("->data = realloc(");
        } else {
            s.append("->data = 1 + realloc(");
        }
        s.append(list);
        s.append("->data, ");
        s.append(list);
        s.append("->capacity * sizeof(ElementType_u));\n");
        s.append(list);
        if same_text(name, "List.append") {
            s.append("->data[");
            s.append(list);
            s.append("->size++] = ");
            s.append(element);
            s.append(";");
        } else {
            s.append("->data[0] = ");
            s.append(element);
            s.append(";\n");
            s.append(list);
            s.append("->size++;");
        }
    } else if same_text(name, "List.set") {
        s.append(parameter_names[0].as_str());
        s.append("->data[(int) ");
        s.append(parameter_names[1].as_str());
        s.append("->internal_value] = ");
        s.append(parameter_names[2].as_str());
        s.append(";");
    } else if same_text(name, "List.get") {
        s.append("return (Number_u*) ");
        s.append(parameter_names[0].as_str());
        s.append("->data[(int) ");
        s.append(parameter_names[1].as_str());
        s.append("->internal_value];");
    } else if same_text(name, "File.read") {
        let mut t = String::new();
        t.append("\n\t\t\t\tFILE* f = fopen(");
        t.append(parameter_names[0].as_str());
        t.append(
            "->internal_value, \"rb\");\n\t\t\t\tchar* buffer = 0;\n\n\t\t\t\tif (f) {\n\t\t\t\t\tfseek(f, 0, SEEK_END);\n\t\t\t\t\tlong length = ftell(f);\n\t\t\t\t\tfseek(f, 0, SEEK_SET);\n\t\t\t\t\tbuffer = malloc(length);\n\t\t\t\t\tif (buffer) fread(buffer, 1, length, f);\n\t\t\t\t\tfclose(f);\n\t\t\t\t}\n\n\t\t\t\t*",
        );
        t.append(parameter_names[1].as_str());
        t.append(" = (Text_u) { .internal_value = buffer };\n\t\t\t\t");
        s = unindent_text(t.as_str());
    } else if same_text(name, "File.write") {
        let mut t = String::new();
        t.append("\n\t\t\t\tFILE* file = fopen(");
        t.append(parameter_names[0].as_str());
        t.append("->internal_value, \"w\");\n\t\t\t\tfprintf(file, \"Some text\");\n\t\t\t\tfclose(file);\n\t\t\t\t");
        s = unindent_text(t.as_str());
    } else if same_text(name, "File.file_exists") {
        let mut t = String::new();
        t.append("\n\t\t\t\tstruct stat buffer;\n\t\t\t\t*");
        t.append(parameter_names[1].as_str());
        t.append(" = stat(");
        t.append(parameter_names[0].as_str());
        t.append("->internal_value, &buffer) == 0;\n\t\t\t\t");
        s = unindent_text(t.as_str());
    }
    proof {
        assert(s@ =~= builtin_c_code(name@, p));
    }
    Ok(s)
}

/// The C code of `Number.plus`.
proof fn lemma_number_plus_code(p: Seq<Seq<char>>)
    requires
        p.len() >= 2,
    ensures
        builtin_c_code("Number.plus"@, p) == "return (Number_u) { .internal_value = "@ + p[0]
            + "->internal_value + "@ + p[1] + "->internal_value };"@,
{
    reveal_strlit("Number.plus");
    reveal_strlit("terminal.print");
    assert("Number.plus"@[0] != "terminal.print"@[0]);
    reveal_strlit("terminal.print_error");
    assert("Number.plus"@[0] != "terminal.print_error"@[0]);
    reveal_strlit("terminal.clear");
    assert("Number.plus"@[0] != "terminal.clear"@[0]);
    reveal_strlit("terminal.input");
    assert("Number.plus"@[0] != "terminal.input"@[0]);
    assert(builtin_c_code("Number.plus"@, p) == arithmetic_c("+"@, p[0], p[1]));
    reveal_strlit("->internal_value ");
    reveal_strlit(" ");
    reveal_strlit("+");
    reveal_strlit("->internal_value + ");
    assert(arithmetic_c("+"@, p[0], p[1]) =~= "return (Number_u) { .internal_value = "@ + p[0] + "->internal_value + "@ + p[1] + "->internal_value };"@);
}

/// The C code of `Number.minus`.
proof fn lemma_number_minus_code(p: Seq<Seq<char>>)
    requires
        p.len() >= 2,
    ensures
        builtin_c_code("Number.minus"@, p) == "return (Number_u) { .internal_value = "@ + p[0]
            + "->internal_value - "@ + p[1] + "->internal_value };"@,
{
    reveal_strlit("Number.minus");
    reveal_strlit("terminal.print");
    assert("Number.minus"@[0] != "terminal.print"@[0]);
    reveal_strlit("terminal.print_error");
    assert("Number.minus"@[0] != "terminal.print_error"@[0]);
    reveal_strlit("terminal.clear");
    assert("Number.minus"@[0] != "terminal.clear"@[0]);
    reveal_strlit("terminal.input");
    assert("Number.minus"@[0] != "terminal.input"@[0]);
    reveal_strlit("Number.plus");
    assert("Number.minus"@.len() != "Number.plus"@.len());
    assert(builtin_c_code("Number.minus"@, p) == arithmetic_c("-"@, p[0], p[1]));
    reveal_strlit("->internal_value ");
    reveal_strlit(" ");
    reveal_strlit("-");
    reveal_strlit("->internal_value - ");
    assert(arithmetic_c("-"@, p[0], p[1]) =~= "return (Number_u) { .internal_value = "@ + p[0] + "->internal_value - "@ + p[1] + "->internal_value };"@);
}

/// The C code of `Number.times`.
proof fn lemma_number_times_code(p: Seq<Seq<char>>)
    requires
        p.len() >= 2,
    ensures
        builtin_c_code("Number.times"@, p) == "return (Number_u) { .internal_value = "@ + p[0]
            + "->internal_value * "@ + p[1] + "->internal_value };"@,
{
    reveal_strlit("Number.times");
    reveal_strlit("terminal.print");
    assert("Number.times"@[0] != "terminal.print"@[0]);
    reveal_strlit("terminal.print_error");
    assert("Number.times"@[0] != "terminal.print_error"@[0]);
    reveal_strlit("terminal.clear");
    assert("Number.times"@[0] != "terminal.clear"@[0]);
    reveal_strlit("terminal.input");
    assert("Number.times"@[0] != "terminal.input"@[0]);
    reveal_strlit("Number.plus");
    assert("Number.times"@.len() != "Number.plus"@.len());
    reveal_strlit("Number.minus");
    assert("Number.times"@[7] != "Number.minus"@[7]);
    assert(builtin_c_code("Number.times"@, p) == arithmetic_c("*"@, p[0], p[1]));
    reveal_strlit("->internal_value ");
    reveal_strlit(" ");
    reveal_strlit("*");
    reveal_strlit("->internal_value * ");
    assert(arithmetic_c("*"@, p[0], p[1]) =~= "return (Number_u) { .internal_value = "@ + p[0] + "->internal_value * "@ + p[1] + "->internal_value };"@);
}

/// The C code of `Number.divided_by`.
proof fn lemma_number_divided_by_code(p: Seq<Seq<char>>)
    requires
        p.len() >= 2,
    ensures
        builtin_c_code("Number.divided_by"@, p) == "return (Number_u) { .internal_value = "@ + p[0]
            + "->internal_value / "@ + p[1] + "->internal_value };"@,
{
    reveal_strlit("Number.divided_by");
    reveal_strlit("terminal.print");
    assert("Number.divided_by"@[0] != "terminal.print"@[0]);
    reveal_strlit("terminal.print_error");
    assert("Number.divided_by"@[0] != "terminal.print_error"@[0]);
    reveal_strlit("terminal.clear");
    assert("Number.divided_by"@[0] != "terminal.clear"@[0]);
    reveal_strlit("terminal.input");
    assert("Number.divided_by"@[0] != "terminal.input"@[0]);
    reveal_strlit("Number.plus");
    assert("Number.divided_by"@.len() != "Number.plus"@.len());
    reveal_strlit("Number.minus");
    assert("Number.divided_by"@.len() != "Number.minus"@.len());
    reveal_strlit("Number.times");
    assert("Number.divided_by"@.len() != "Number.times"@.len());
    assert(builtin_c_code("Number.divided_by"@, p) == arithmetic_c("/"@, p[0], p[1]));
    reveal_strlit("->internal_value ");
    reveal_strlit(" ");
    reveal_strlit("/");
    reveal_strlit("->internal_value / ");
    assert(arithmetic_c("/"@, p[0], p[1]) =~= "return (Number_u) { .internal_value = "@ + p[0] + "->internal_value / "@ + p[1] + "->internal_value };"@);
}

/// Each arithmetic built-in function returns a number computed from its first two parameters
/// with its own C operator: `Number.plus` adds, `Number.minus` subtracts the second from the
/// first, `Number.times` multiplies, and `Number.divided_by` divides the first by the second.
pub proof fn law_arithmetic_builtins_use_their_operator(p: Seq<Seq<char>>)
    requires
        p.len() >= 2,
    ensures
        builtin_c_code("Number.plus"@, p) == "return (Number_u) { .internal_value = "@ + p[0]
            + "->internal_value + "@ + p[1] + "->internal_value };"@,
        builtin_c_code("Number.minus"@, p) == "return (Number_u) { .internal_value = "@ + p[0]
            + "->internal_value - "@ + p[1] + "->internal_value };"@,
        builtin_c_code("Number.times"@, p) == "return (Number_u) { .internal_value = "@ + p[0]
            + "->internal_value * "@ + p[1] + "->internal_value };"@,
        builtin_c_code("Number.divided_by"@, p) == "return (Number_u) { .internal_value = "@ + p[0]
            + "->internal_value / "@ + p[1] + "->internal_value };"@,
{
    lemma_number_plus_code(p);
    lemma_number_minus_code(p);
    lemma_number_times_code(p);
    lemma_number_divided_by_code(p);
}

/// The C code of `terminal.print`.
proof fn lemma_terminal_print_code(p: Seq<Seq<char>>)
    requires
        p.len() >= 2,
    ensures
        builtin_c_code("terminal.print"@, p) == "printf(\"%s\\n\", "@ + p[0] + "->internal_value);"@,
{
    reveal_strlit("terminal.print");
}

/// The C code of `terminal.print_error`.
proof fn lemma_terminal_print_error_code(p: Seq<Seq<char>>)
    requires
        p.len() >= 2,
    ensures
        builtin_c_code("terminal.print_error"@, p) == "printf(\"%s\\n\", "@ + p[0] + "->internal_value);"@,
{
    reveal_strlit("terminal.print_error");
    reveal_strlit("terminal.print");
    assert("terminal.print_error"@.len() != "terminal.print"@.len());
}

/// The C code of `Number.equals`.
proof fn lemma_number_equals_code(p: Seq<Seq<char>>)
    requires
        p.len() >= 2,
    ensures
        builtin_c_code("Number.equals"@, p) == "if ("@ + p[0] + "->internal_value == "@ + p[1] + "->internal_value) {\n\treturn true_u;\n}\nreturn false_u;"@,
{
    reveal_strlit("Number.equals");
    reveal_strlit("terminal.print");
    assert("Number.equals"@.len() != "terminal.print"@.len());
    reveal_strlit("terminal.print_error");
    assert("Number.equals"@.len() != "terminal.print_error"@.len());
    reveal_strlit("terminal.clear");
    assert("Number.equals"@.len() != "terminal.clear"@.len());
    reveal_strlit("terminal.input");
    assert("Number.equals"@.len() != "terminal.input"@.len());
    reveal_strlit("Number.plus");
    assert("Number.equals"@.len() != "Number.plus"@.len());
    reveal_strlit("Number.minus");
    assert("Number.equals"@.len() != "Number.minus"@.len());
    reveal_strlit("Number.times");
    assert("Number.equals"@.len() != "Number.times"@.len());
    reveal_strlit("Number.divided_by");
    assert("Number.equals"@.len() != "Number.divided_by"@.len());
}

/// The C code of `List.length`.
proof fn lemma_list_length_code(p: Seq<Seq<char>>)
    requires
        p.len() >= 2,
    ensures
        builtin_c_code("List.length"@, p) == "return (Number_u) { .internal_value = "@ + p[0] + "->size };"@,
{
    reveal_strlit("List.length");
    reveal_strlit("terminal.print");
    assert("List.length"@.len() != "terminal.print"@.len());
    reveal_strlit("terminal.print_error");
    assert("List.length"@.len() != "terminal.print_error"@.len());
    reveal_strlit("terminal.clear");
    assert("List.length"@.len() != "terminal.clear"@.len());
    reveal_strlit("terminal.input");
    assert("List.length"@.len() != "terminal.input"@.len());
    reveal_strlit("Number.plus");
    assert("List.length"@[0] != "Number.plus"@[0]);
    reveal_strlit("Number.minus");
    assert("List.length"@.len() != "Number.minus"@.len());
    reveal_strlit("Number.times");
    assert("List.length"@.len() != "Number.times"@.len());
    reveal_strlit("Number.divided_by");
    assert("List.length"@.len() != "Number.divided_by"@.len());
    reveal_strlit("Number.equals");
    assert("List.length"@.len() != "Number.equals"@.len());
}

/// The built-in functions that read their parameters: `terminal.print` and
/// `terminal.print_error` print the text of the first, `Number.equals` compares the first with
/// the second and returns `true_u` when they are equal and `false_u` otherwise, and
/// `List.length` returns the size of the first.
pub proof fn law_builtins_read_their_parameters(p: Seq<Seq<char>>)
    requires
        p.len() >= 2,
    ensures
        builtin_c_code("terminal.print"@, p) == "printf(\"%s\\n\", "@ + p[0] + "->internal_value);"@,
        builtin_c_code("terminal.print_error"@, p) == "printf(\"%s\\n\", "@ + p[0] + "->internal_value);"@,
        builtin_c_code("Number.equals"@, p) == "if ("@ + p[0] + "->internal_value == "@ + p[1] + "->internal_value) {\n\treturn true_u;\n}\nreturn false_u;"@,
        builtin_c_code("List.length"@, p) == "return (Number_u) { .internal_value = "@ + p[0] + "->size };"@,
{
    lemma_terminal_print_code(p);
    lemma_terminal_print_error_code(p);
    lemma_number_equals_code(p);
    lemma_list_length_code(p);
}

} // verus!
