use cabin::compile_time::builtin::{builtin_to_c, BuiltinError};

fn names(list: &[&str]) -> Vec<String> {
    list.iter().map(|s| s.to_string()).collect()
}

#[test]
fn unknown_builtin_is_refused() {
    assert_eq!(builtin_to_c("Number.modulo", &names(&["a", "b"])), Err(BuiltinError::UnknownBuiltin));
    assert_eq!(builtin_to_c("Number.modulo", &names(&[])), Err(BuiltinError::UnknownBuiltin));
}

#[test]
fn number_operations_to_c() {
    assert_eq!(
        builtin_to_c("Number.plus", &names(&["a", "b"])).unwrap(),
        "return (Number_u) { .internal_value = a->internal_value + b->internal_value };"
    );
    assert_eq!(
        builtin_to_c("Number.divided_by", &names(&["this", "other"])).unwrap(),
        "return (Number_u) { .internal_value = this->internal_value / other->internal_value };"
    );
    assert_eq!(
        builtin_to_c("Number.equals", &names(&["a", "b"])).unwrap(),
        "if (a->internal_value == b->internal_value) {\n\treturn true_u;\n}\nreturn false_u;"
    );
}

#[test]
fn terminal_builtins_to_c() {
    assert_eq!(builtin_to_c("terminal.print", &names(&["text"])).unwrap(), "printf(\"%s\\n\", text->internal_value);");
    assert_eq!(builtin_to_c("terminal.clear", &names(&[])).unwrap(), "printf(\"\\e[1;1H\\e[2J\");");
    assert_eq!(
        builtin_to_c("terminal.input", &names(&["out"])).unwrap(),
        "char* buffer = malloc(sizeof(char) * 256);\nfgets(buffer, 256, stdin);\n*out = (Text_u) { .internal_value = buffer };"
    );
}

#[test]
fn list_builtins_to_c() {
    assert_eq!(
        builtin_to_c("List.append", &names(&["l", "e"])).unwrap(),
        "if (l->size == l->capacity) {\n\tl->capacity *= 2;\n}\nl->data = realloc(l->data, l->capacity * sizeof(ElementType_u));\nl->data[l->size++] = e;"
    );
    assert_eq!(
        builtin_to_c("List.prepend", &names(&["l", "e"])).unwrap(),
        "if (l->size == l->capacity) {\n\tl->capacity *= 2;\n}\nl->data = 1 + realloc(l->data, l->capacity * sizeof(ElementType_u));\nl->data[0] = e;\nl->size++;"
    );
    assert_eq!(builtin_to_c("List.length", &names(&["l"])).unwrap(), "return (Number_u) { .internal_value = l->size };");
    assert_eq!(builtin_to_c("List.set", &names(&["l", "i", "v"])).unwrap(), "l->data[(int) i->internal_value] = v;");
    assert_eq!(builtin_to_c("List.get", &names(&["l", "i"])).unwrap(), "return (Number_u*) l->data[(int) i->internal_value];");
}

#[test]
fn file_builtins_are_unindented() {
    assert_eq!(
        builtin_to_c("File.write", &names(&["p"])).unwrap(),
        "FILE* file = fopen(p->internal_value, \"w\");\nfprintf(file, \"Some text\");\nfclose(file);\n"
    );
    assert_eq!(
        builtin_to_c("File.file_exists", &names(&["p", "r"])).unwrap(),
        "struct stat buffer;\n*r = stat(p->internal_value, &buffer) == 0;\n"
    );
    assert_eq!(
        builtin_to_c("File.read", &names(&["p", "r"])).unwrap(),
        "FILE* f = fopen(p->internal_value, \"rb\");\nchar* buffer = 0;\n\nif (f) {\n\tfseek(f, 0, SEEK_END);\n\tlong length = ftell(f);\n\tfseek(f, 0, SEEK_SET);\n\tbuffer = malloc(length);\n\tif (buffer) fread(buffer, 1, length, f);\n\tfclose(f);\n}\n\n*r = (Text_u) { .internal_value = buffer };\n"
    );
}

#[test]
fn builtins_without_c_body() {
    assert_eq!(builtin_to_c("File.directory_exists", &names(&["p"])).unwrap(), "");
    assert_eq!(builtin_to_c("Anything.is", &names(&["a", "b"])).unwrap(), "");
}

#[test]
fn extra_parameter_names_are_ignored() {
    assert_eq!(builtin_to_c("List.length", &names(&["l", "unused"])).unwrap(), "return (Number_u) { .internal_value = l->size };");
}
