use vstd::prelude::*;

use crate::lexer::Span;
use crate::parser::expressions::literal::{
    expression_field, take_internal_field, FieldAccessType, InternalFieldValue, LiteralError, LiteralObject,
};
use crate::parser::expressions::name::Name;

verus! {

/// A parameter of a function or group: its name and type (an expression of type `E`), where
/// it stands, and the scope it belongs to.
pub struct Parameter<E> {
    pub name: Name,
    pub parameter_type: E,
    pub span: Span,
    pub scope_id: usize,
}

/// Whether `literal` is the literal object that stands for the parameter: of type
/// `Parameter`, with the parameter's type as its one internal field `type`, reached as a
/// group, and with the parameter's name, span and scope.
pub open spec fn is_parameter_literal<E>(literal: LiteralObject<E>, parameter: Parameter<E>) -> bool {
    &&& literal.object_type@ == "Parameter"@
    &&& literal.fields@.len() == 0
    &&& literal.internal_fields@.len() == 1
    &&& literal.internal_fields@[0].0@ == "type"@
    &&& literal.internal_fields@[0].1 == InternalFieldValue::Expression(parameter.parameter_type)
    &&& literal.field_access_type == FieldAccessType::Group
    &&& literal.outer_scope_id == parameter.scope_id
    &&& literal.inner_scope_id == Some(parameter.scope_id)
    &&& literal.name == parameter.name
    &&& literal.address is None
    &&& literal.span == parameter.span
    &&& literal.tags@.len() == 0
}

/// The parameter that a literal object stands for: its type is the internal field `type`, its
/// scope the object's outer scope.
pub open spec fn parameter_of_literal<E>(literal: LiteralObject<E>) -> Result<Parameter<E>, LiteralError> {
    match expression_field(literal.internal_fields@, "type"@) {
        Ok(parameter_type) => Ok(
            Parameter {
                name: literal.name,
                parameter_type,
                span: literal.span,
                scope_id: literal.outer_scope_id,
            },
        ),
        Err(e) => Err(e),
    }
}

impl<E> Parameter<E> {
    /// The name of this parameter.
    pub fn name(&self) -> (res: &Name)
        ensures
            *res == self.name,
    {
        &self.name
    }

    /// The type of this parameter.
    pub fn parameter_type(&self) -> (res: &E)
        ensures
            *res == self.parameter_type,
    {
        &self.parameter_type
    }

    /// The literal object that stands for this parameter.
    pub fn to_literal(self) -> (res: LiteralObject<E>)
        ensures
            is_parameter_literal(res, self),
    {
        let mut internal_fields = Vec::new();
        internal_fields.push(("type".to_owned(), InternalFieldValue::Expression(self.parameter_type)));
        proof {
            reveal_strlit("type");
            reveal_strlit("Parameter");
        }
        LiteralObject {
            object_type: Name::new("Parameter"),
            fields: Vec::new(),
            internal_fields,
            field_access_type: FieldAccessType::Group,
            outer_scope_id: self.scope_id,
            inner_scope_id: Some(self.scope_id),
            name: self.name,
            address: None,
            span: self.span,
            tags: Vec::new(),
        }
    }

    /// Reads a parameter back from the literal object that stands for it.
    pub fn from_literal(literal: LiteralObject<E>) -> (res: Result<Parameter<E>, LiteralError>)
        ensures
            res == parameter_of_literal(literal),
    {
        let ghost entries = literal.internal_fields@;
        let mut internal_fields = literal.internal_fields;
        let parameter_type = match take_internal_field(&mut internal_fields, "type") {
            Some(InternalFieldValue::Expression(e)) => e,
            Some(_) => return Err(LiteralError::WrongInternalFieldType),
            None => return Err(LiteralError::MissingInternalField),
        };
        Ok(Parameter { name: literal.name, parameter_type, span: literal.span, scope_id: literal.outer_scope_id })
    }
}

/// A parameter read back from the literal object that stands for it is the parameter itself.
pub proof fn law_parameter_literal_round_trip<E>(parameter: Parameter<E>, literal: LiteralObject<E>)
    requires
        is_parameter_literal(literal, parameter),
    ensures
        parameter_of_literal(literal) == Ok::<Parameter<E>, LiteralError>(parameter),
{
    reveal_strlit("type");
    let entries = literal.internal_fields@;
    assert(entries[0].0@ == "type"@);
}

} // verus!
