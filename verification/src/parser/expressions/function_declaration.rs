use vstd::prelude::*;

use crate::compile_time::builtin::{builtin_c_code, builtin_to_c, required_parameters, texts, BuiltinError};
use crate::lexer::Span;
use crate::parser::expressions::function_call::{joined, join_texts, last_builtin_name, FunctionTag};
use crate::parser::expressions::group::c_name;
use crate::text::{split_lines, text_lines};
use crate::parser::expressions::literal::{
    internal_field, lemma_internal_field_at, optional_expression_field, parameter_list_field, take_internal_field, FieldAccessType, InternalFieldValue,
    LiteralError, LiteralObject,
};
use crate::parser::expressions::name::Name;
use crate::parser::expressions::parameter::Parameter;

verus! {

/// A function declaration: its compile-time parameters and parameters, its return type and
/// body, the object it is a method of, and its tags, with expressions of type `E`.
pub struct FunctionDeclaration<E> {
    pub tags: Vec<E>,
    pub compile_time_parameters: Vec<Parameter<E>>,
    pub parameters: Vec<Parameter<E>>,
    pub return_type: Option<E>,
    pub body: Option<E>,
    /// The scope the function is declared in.
    pub outer_scope_id: usize,
    /// The scope of the function's body, when it has one.
    pub inner_scope_id: Option<usize>,
    pub this_object: Option<E>,
    pub name: Name,
    pub span: Span,
}

/// Whether `literal` is the literal object that stands for the function: of type `Function`,
/// with no fields, and with the compile-time parameters, parameters, body, return type and
/// object of the function as its internal fields, in that order, under those names.
pub open spec fn is_function_literal<E>(literal: LiteralObject<E>, function: FunctionDeclaration<E>) -> bool {
    let entries = literal.internal_fields@;
    &&& literal.object_type@ == "Function"@
    &&& literal.fields@.len() == 0
    &&& entries.len() == 5
    &&& entries[0].0@ == "compile_time_parameters"@
    &&& entries[0].1 == InternalFieldValue::ParameterList(function.compile_time_parameters)
    &&& entries[1].0@ == "parameters"@
    &&& entries[1].1 == InternalFieldValue::ParameterList(function.parameters)
    &&& entries[2].0@ == "body"@
    &&& entries[2].1 == InternalFieldValue::OptionalExpression(function.body)
    &&& entries[3].0@ == "return_type"@
    &&& entries[3].1 == InternalFieldValue::OptionalExpression(function.return_type)
    &&& entries[4].0@ == "this_object"@
    &&& entries[4].1 == InternalFieldValue::OptionalExpression(function.this_object)
    &&& literal.field_access_type == FieldAccessType::Normal
    &&& literal.outer_scope_id == function.outer_scope_id
    &&& literal.inner_scope_id == function.inner_scope_id
    &&& literal.name == function.name
    &&& literal.address is None
    &&& literal.span == function.span
    &&& literal.tags == function.tags
}

/// The function that a literal object stands for. Its internal fields are read in the order
/// compile-time parameters, parameters, body, return type, object; the first that is missing
/// or of the wrong kind gives the error.
pub open spec fn function_of_literal<E>(literal: LiteralObject<E>) -> Result<FunctionDeclaration<E>, LiteralError> {
    let entries = literal.internal_fields@;
    match parameter_list_field(entries, "compile_time_parameters"@) {
        Err(e) => Err(e),
        Ok(compile_time_parameters) => match parameter_list_field(entries, "parameters"@) {
            Err(e) => Err(e),
            Ok(parameters) => match optional_expression_field(entries, "body"@) {
                Err(e) => Err(e),
                Ok(body) => match optional_expression_field(entries, "return_type"@) {
                    Err(e) => Err(e),
                    Ok(return_type) => match optional_expression_field(entries, "this_object"@) {
                        Err(e) => Err(e),
                        Ok(this_object) => Ok(
                            FunctionDeclaration {
                                tags: literal.tags,
                                compile_time_parameters,
                                parameters,
                                return_type,
                                body,
                                outer_scope_id: literal.outer_scope_id,
                                inner_scope_id: literal.inner_scope_id,
                                this_object,
                                name: literal.name,
                                span: literal.span,
                            },
                        ),
                    },
                },
            },
        },
    }
}

/// Whether one of the tags names a function that is not built in.
pub open spec fn has_unknown_builtin(tags: Seq<FunctionTag>) -> bool {
    exists|i: int|
        0 <= i < tags.len() && (#[trigger] tags[i] matches FunctionTag::Builtin(name) && required_parameters(name@)
            < 0)
}

/// Whether every built-in function the tags name gets as many parameters as it uses, when it
/// is given `count` of them.
pub open spec fn builtin_tags_fit(tags: Seq<FunctionTag>, count: int) -> bool {
    forall|i: int|
        0 <= i < tags.len() ==> (#[trigger] tags[i] matches FunctionTag::Builtin(name) ==> (required_parameters(
            name@,
        ) >= 0 ==> count >= required_parameters(name@)))
}

/// The names of a function's parameters in C, then `return_address`: what the C code of a
/// built-in function refers to.
pub open spec fn builtin_parameter_names<E>(parameters: Seq<Parameter<E>>) -> Seq<Seq<char>> {
    Seq::new(parameters.len(), |i: int| c_name(parameters[i].name)).push("return_address"@)
}

/// Whether a body in C is a statement expression: it starts with `({` and ends with `})`.
pub open spec fn is_statement_expression(body: Seq<char>) -> bool {
    &&& body.len() >= 4
    &&& body.take(2) == "({"@
    &&& body.skip(body.len() - 2) == "})"@
}

/// The C code of a function, given the C types of its parameters and of its return value and
/// the statements of its body: the parameters (pointers to their C types, with their C names)
/// and the return address in parentheses, then the body with each line indented by a tab, in
/// braces.
pub open spec fn function_c_text<E>(
    parameters: Seq<Parameter<E>>,
    parameter_types: Seq<Seq<char>>,
    return_type: Option<Seq<char>>,
    body: Seq<char>,
) -> Seq<char> {
    let declarations = Seq::new(
        parameters.len(),
        |i: int| parameter_types[i] + "* "@ + c_name(parameters[i].name),
    );
    let return_address = match return_type {
        Some(r) => (if parameters.len() == 0 {
            Seq::empty()
        } else {
            ", "@
        }) + r + "* return_address"@,
        None => Seq::empty(),
    };
    let lines = text_lines(body);
    "("@ + joined(declarations, ", "@) + return_address + ") {\n"@ + joined(
        Seq::new(lines.len(), |i: int| "\t"@ + lines[i]),
        "\n"@,
    ) + "\n}"@
}

/// Takes the parameter list under the key out of the entries.
fn take_parameter_list<E>(entries: &mut Vec<(String, InternalFieldValue<E>)>, key: &str) -> (res: Result<
    Vec<Parameter<E>>,
    LiteralError,
>)
    ensures
        res == parameter_list_field(old(entries)@, key@),
        forall|k: Seq<char>|
            k != key@ ==> internal_field(final(entries)@, k)
                == internal_field(old(entries)@, k),
{
    match take_internal_field(entries, key) {
        Some(InternalFieldValue::ParameterList(list)) => Ok(list),
        Some(_) => Err(LiteralError::WrongInternalFieldType),
        None => Err(LiteralError::MissingInternalField),
    }
}

/// Takes the optional expression under the key out of the entries.
fn take_optional_expression<E>(entries: &mut Vec<(String, InternalFieldValue<E>)>, key: &str) -> (res: Result<
    Option<E>,
    LiteralError,
>)
    ensures
        res == optional_expression_field(old(entries)@, key@),
        forall|k: Seq<char>|
            k != key@ ==> internal_field(final(entries)@, k)
                == internal_field(old(entries)@, k),
{
    match take_internal_field(entries, key) {
        Some(InternalFieldValue::OptionalExpression(e)) => Ok(e),
        Some(_) => Err(LiteralError::WrongInternalFieldType),
        None => Err(LiteralError::MissingInternalField),
    }
}

impl<E> FunctionDeclaration<E> {
    /// The body of this function, if it has one.
    pub fn body(&self) -> (res: Option<&E>)
        ensures
            res == match self.body {
                Some(b) => Some(&b),
                None => None::<&E>,
            },
    {
        match &self.body {
            Some(b) => Some(b),
            None => None,
        }
    }

    /// The return type of this function, if it has one.
    pub fn return_type(&self) -> (res: Option<&E>)
        ensures
            res == match self.return_type {
                Some(t) => Some(&t),
                None => None::<&E>,
            },
    {
        match &self.return_type {
            Some(t) => Some(t),
            None => None,
        }
    }

    /// The parameters of this function.
    pub fn parameters(&self) -> (res: &[Parameter<E>])
        ensures
            res@ == self.parameters@,
    {
        self.parameters.as_slice()
    }

    /// The compile-time parameters of this function.
    pub fn compile_time_parameters(&self) -> (res: &[Parameter<E>])
        ensures
            res@ == self.compile_time_parameters@,
    {
        self.compile_time_parameters.as_slice()
    }

    /// The tags of this function.
    pub fn tags(&self) -> (res: &Vec<E>)
        ensures
            *res == self.tags,
    {
        &self.tags
    }

    /// The name of this function.
    pub fn name(&self) -> (res: &Name)
        ensures
            *res == self.name,
    {
        &self.name
    }

    /// The object this function is a method of, if any.
    pub fn this_object(&self) -> (res: Option<&E>)
        ensures
            res == match self.this_object {
                Some(o) => Some(&o),
                None => None::<&E>,
            },
    {
        match &self.this_object {
            Some(o) => Some(o),
            None => None,
        }
    }

    /// Makes this function a method of the object.
    pub fn set_this_object(&mut self, this_object: E)
        ensures
            *final(self) == (FunctionDeclaration { this_object: Some(this_object), ..*old(self) }),
    {
        self.this_object = Some(this_object);
    }

    /// Renames this function.
    pub fn set_name(&mut self, name: Name)
        ensures
            *final(self) == (FunctionDeclaration { name, ..*old(self) }),
    {
        self.name = name;
    }

    /// The C code of this function, given its tags, the C types of its parameters and of its
    /// return value, and its body in C. A function with compile-time parameters has none. The
    /// body is that of the built-in function that the last `BuiltinTag` names, if any, given
    /// the C names of the parameters and `return_address`; otherwise it is the given body
    /// without its surrounding `({` and `})`. A tag that names a function that is not built in
    /// is an error.
    pub fn to_c(&self, tags: &[FunctionTag], parameter_types: &[String], return_type: Option<&str>, body: Option<&str>) -> (res: Result<String, BuiltinError>)
        requires
            parameter_types@.len() == self.parameters@.len(),
            self.compile_time_parameters@.len() == 0 ==> builtin_tags_fit(tags@, self.parameters@.len() + 1int),
            self.compile_time_parameters@.len() == 0 && last_builtin_name(tags@) is None ==> (body matches Some(
                b,
            ) && is_statement_expression(b@)),
        ensures
            self.compile_time_parameters@.len() > 0 ==> (res matches Ok(code) && code@.len() == 0),
            self.compile_time_parameters@.len() == 0 && has_unknown_builtin(tags@) ==> res == Err::<
                String,
                BuiltinError,
            >(BuiltinError::UnknownBuiltin),
            self.compile_time_parameters@.len() == 0 && !has_unknown_builtin(tags@) ==> (res matches Ok(code)
                && code@ == function_c_text(
                self.parameters@,
                texts(parameter_types@),
                match return_type {
                    Some(r) => Some(r@),
                    None => None,
                },
                match last_builtin_name(tags@) {
                    Some(name) => builtin_c_code(name, builtin_parameter_names(self.parameters@)),
                    None => body->0@.subrange(2, body->0@.len() - 2),
                },
            )),
    {
        if self.compile_time_parameters.len() > 0 {
            return Ok(String::new());
        }
        // The names the code of a built-in function refers to.
        let mut names: Vec<String> = Vec::new();
        let mut k: usize = 0;
        while k < self.parameters.len()
            invariant
                k <= self.parameters@.len(),
                names@.len() == k,
                forall|m: int| 0 <= m < k ==> #[trigger] names@[m]@ == c_name(self.parameters@[m].name),
            decreases self.parameters@.len() - k,
        {
            names.push(self.parameters[k].name.mangled_name());
            k = k + 1;
        }
        names.push("return_address".to_owned());
        proof {
            assert(texts(names@) =~= builtin_parameter_names(self.parameters@));
        }
        // The built-in body, from the last `BuiltinTag`.
        let mut builtin_body: Option<String> = None;
        let mut i: usize = 0;
        while i < tags.len()
            invariant
                i <= tags@.len(),
                self.compile_time_parameters@.len() == 0,
                texts(names@) == builtin_parameter_names(self.parameters@),
                names@.len() == self.parameters@.len() + 1,
                builtin_tags_fit(tags@, self.parameters@.len() + 1int),
                !has_unknown_builtin(tags@.take(i as int)),
                match builtin_body {
                    Some(code) => (last_builtin_name(tags@.take(i as int)) matches Some(name) && code@
                        == builtin_c_code(name, texts(names@))),
                    None => last_builtin_name(tags@.take(i as int)) is None,
                },
            decreases tags@.len() - i,
        {
            proof {
                assert(tags@.take(i + 1).drop_last() =~= tags@.take(i as int));
                assert(tags@.take(i + 1).last() == tags@[i as int]);
            }
            match &tags[i] {
                FunctionTag::Builtin(name) => {
                    match builtin_to_c(name.as_str(), names.as_slice()) {
                        Ok(code) => {
                            builtin_body = Some(code);
                        },
                        Err(e) => {
                            proof {
                                assert(tags@[i as int] matches FunctionTag::Builtin(n) && required_parameters(n@) < 0);
                            }
                            return Err(e);
                        },
                    }
                },
                _ => {},
            }
            proof {
                if has_unknown_builtin(tags@.take(i + 1)) {
                    let j = choose|j: int|
                        0 <= j < tags@.take(i + 1).len() && (#[trigger] tags@.take(i + 1)[j] matches FunctionTag::Builtin(
                            name,
                        ) && required_parameters(name@) < 0);
                    if j < i {
                        assert(tags@.take(i as int)[j] == tags@.take(i + 1)[j]);
                    }
                }
            }
            i = i + 1;
        }
        proof {
            assert(tags@.take(i as int) =~= tags@);
        }
        // The parameters, pointers to their C types.
        let mut declarations: Vec<String> = Vec::new();
        let mut p: usize = 0;
        while p < self.parameters.len()
            invariant
                p <= self.parameters@.len(),
                parameter_types@.len() == self.parameters@.len(),
                declarations@.len() == p,
                forall|m: int|
                    0 <= m < p ==> #[trigger] declarations@[m]@ == parameter_types@[m]@ + "* "@ + c_name(
                        self.parameters@[m].name,
                    ),
            decreases self.parameters@.len() - p,
        {
            let mut d = String::new();
            d.append(parameter_types[p].as_str());
            d.append("* ");
            let name = self.parameters[p].name.mangled_name();
            d.append(name.as_str());
            declarations.push(d);
            p = p + 1;
        }
        let mut code = String::new();
        code.append("(");
        let declarations_text = join_texts(declarations.as_slice(), ", ");
        proof {
            assert(texts(declarations@) =~= Seq::new(
                self.parameters@.len(),
                |m: int| texts(parameter_types@)[m] + "* "@ + c_name(self.parameters@[m].name),
            ));
        }
        code.append(declarations_text.as_str());
        if let Some(r) = return_type {
            if self.parameters.len() > 0 {
                code.append(", ");
            }
            code.append(r);
            code.append("* return_address");
        }
        code.append(") {\n");
        // The body, each line indented.
        let statements = match builtin_body {
            Some(b) => b,
            None => {
                let text = body.unwrap();
                text.substring_char(2, text.unicode_len() - 2).to_owned()
            },
        };
        let lines = split_lines(statements.as_str());
        let mut indented: Vec<String> = Vec::new();
        let mut q: usize = 0;
        while q < lines.len()
            invariant
                q <= lines@.len(),
                indented@.len() == q,
                forall|m: int| 0 <= m < q ==> #[trigger] indented@[m]@ == "\t"@ + lines@[m]@,
            decreases lines@.len() - q,
        {
            let mut line = String::new();
            line.append("\t");
            line.append(lines[q].as_str());
            indented.push(line);
            q = q + 1;
        }
        proof {
            assert(texts(indented@) =~= Seq::new(
                text_lines(statements@).len(),
                |m: int| "\t"@ + text_lines(statements@)[m],
            ));
        }
        let body_text = join_texts(indented.as_slice(), "\n");
        code.append(body_text.as_str());
        code.append("\n}");
        Ok(code)
    }

    /// The literal object that stands for this function.
    pub fn to_literal(self) -> (res: LiteralObject<E>)
        ensures
            is_function_literal(res, self),
    {
        let mut internal_fields = Vec::new();
        internal_fields.push(
            ("compile_time_parameters".to_owned(), InternalFieldValue::ParameterList(self.compile_time_parameters)),
        );
        internal_fields.push(("parameters".to_owned(), InternalFieldValue::ParameterList(self.parameters)));
        internal_fields.push(("body".to_owned(), InternalFieldValue::OptionalExpression(self.body)));
        internal_fields.push(("return_type".to_owned(), InternalFieldValue::OptionalExpression(self.return_type)));
        internal_fields.push(("this_object".to_owned(), InternalFieldValue::OptionalExpression(self.this_object)));
        LiteralObject {
            object_type: Name::new("Function"),
            fields: Vec::new(),
            internal_fields,
            field_access_type: FieldAccessType::Normal,
            outer_scope_id: self.outer_scope_id,
            inner_scope_id: self.inner_scope_id,
            name: self.name,
            address: None,
            span: self.span,
            tags: self.tags,
        }
    }

    /// Reads a function back from the literal object that stands for it.
    pub fn from_literal(literal: LiteralObject<E>) -> (res: Result<FunctionDeclaration<E>, LiteralError>)
        ensures
            res == function_of_literal(literal),
    {
        proof {
            lemma_function_keys_differ();
        }
        let ghost all = literal.internal_fields@;
        let mut entries = literal.internal_fields;
        let compile_time_parameters = match take_parameter_list(&mut entries, "compile_time_parameters") {
            Ok(list) => list,
            Err(e) => return Err(e),
        };
        proof {
            assert(internal_field(entries@, "parameters"@) == internal_field(all, "parameters"@));
            assert(internal_field(entries@, "body"@) == internal_field(all, "body"@));
            assert(internal_field(entries@, "return_type"@) == internal_field(all, "return_type"@));
            assert(internal_field(entries@, "this_object"@) == internal_field(all, "this_object"@));
        }
        let parameters = match take_parameter_list(&mut entries, "parameters") {
            Ok(list) => list,
            Err(e) => return Err(e),
        };
        proof {
            assert(internal_field(entries@, "body"@) == internal_field(all, "body"@));
            assert(internal_field(entries@, "return_type"@) == internal_field(all, "return_type"@));
            assert(internal_field(entries@, "this_object"@) == internal_field(all, "this_object"@));
        }
        let body = match take_optional_expression(&mut entries, "body") {
            Ok(e) => e,
            Err(e) => return Err(e),
        };
        proof {
            assert(internal_field(entries@, "return_type"@) == internal_field(all, "return_type"@));
            assert(internal_field(entries@, "this_object"@) == internal_field(all, "this_object"@));
        }
        let return_type = match take_optional_expression(&mut entries, "return_type") {
            Ok(e) => e,
            Err(e) => return Err(e),
        };
        proof {
            assert(internal_field(entries@, "this_object"@) == internal_field(all, "this_object"@));
        }
        let this_object = match take_optional_expression(&mut entries, "this_object") {
            Ok(e) => e,
            Err(e) => return Err(e),
        };
        Ok(
            FunctionDeclaration {
                tags: literal.tags,
                compile_time_parameters,
                parameters,
                return_type,
                body,
                outer_scope_id: literal.outer_scope_id,
                inner_scope_id: literal.inner_scope_id,
                this_object,
                name: literal.name,
                span: literal.span,
            },
        )
    }
}

/// A function read back from the literal object that stands for it is the function itself.
pub proof fn law_function_literal_round_trip<E>(function: FunctionDeclaration<E>, literal: LiteralObject<E>)
    requires
        is_function_literal(literal, function),
    ensures
        function_of_literal(literal) == Ok::<FunctionDeclaration<E>, LiteralError>(function),
{
    lemma_function_keys_differ();
    let entries = literal.internal_fields@;
    lemma_internal_field_at(entries, "compile_time_parameters"@, 0);
    lemma_internal_field_at(entries, "parameters"@, 1);
    lemma_internal_field_at(entries, "body"@, 2);
    lemma_internal_field_at(entries, "return_type"@, 3);
    lemma_internal_field_at(entries, "this_object"@, 4);
}

/// The keys of a function's internal fields differ from one another.
proof fn lemma_function_keys_differ()
    ensures
        "compile_time_parameters"@ != "parameters"@,
        "compile_time_parameters"@ != "body"@,
        "compile_time_parameters"@ != "return_type"@,
        "compile_time_parameters"@ != "this_object"@,
        "parameters"@ != "body"@,
        "parameters"@ != "return_type"@,
        "parameters"@ != "this_object"@,
        "body"@ != "return_type"@,
        "body"@ != "this_object"@,
        "return_type"@ != "this_object"@,
{
    reveal_strlit("compile_time_parameters");
    reveal_strlit("parameters");
    reveal_strlit("body");
    reveal_strlit("return_type");
    reveal_strlit("this_object");
    assert("compile_time_parameters"@.len() != "parameters"@.len());
    assert("compile_time_parameters"@.len() != "body"@.len());
    assert("compile_time_parameters"@.len() != "return_type"@.len());
    assert("compile_time_parameters"@.len() != "this_object"@.len());
    assert("parameters"@.len() != "body"@.len());
    assert("parameters"@[0] != "return_type"@[0]);
    assert("parameters"@.len() != "this_object"@.len());
    assert("body"@.len() != "return_type"@.len());
    assert("body"@.len() != "this_object"@.len());
    assert("return_type"@[0] != "this_object"@[0]);
}

} // verus!
