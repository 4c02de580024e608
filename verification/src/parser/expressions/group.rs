use vstd::prelude::*;

use crate::lexer::Span;
use crate::parser::expressions::literal::{
    field_list_field, lemma_internal_field_at, take_internal_field, FieldAccessType, InternalFieldValue,
    LiteralError, LiteralObject,
};
use crate::parser::expressions::name::{mangled, Name};
use crate::parser::expressions::object::Field;
use crate::compile_time::builtin::texts;
use crate::text::same_text;

verus! {

/// A group declaration: its fields, with expressions of type `E`, and the scopes inside and
/// around it.
pub struct GroupDeclaration<E> {
    pub fields: Vec<Field<E>>,
    pub inner_scope_id: usize,
    pub outer_scope_id: usize,
    pub name: Name,
    pub span: Span,
}

/// Whether `literal` is the literal object that stands for the group: of type `Group`, with
/// the group's fields as its one internal field `fields`, reached normally, and with the
/// group's name, span and scopes.
pub open spec fn is_group_literal<E>(literal: LiteralObject<E>, group: GroupDeclaration<E>) -> bool {
    &&& literal.object_type@ == "Group"@
    &&& literal.fields@.len() == 0
    &&& literal.internal_fields@.len() == 1
    &&& literal.internal_fields@[0].0@ == "fields"@
    &&& literal.internal_fields@[0].1 == InternalFieldValue::FieldList(group.fields)
    &&& literal.field_access_type == FieldAccessType::Normal
    &&& literal.outer_scope_id == group.outer_scope_id
    &&& literal.inner_scope_id == Some(group.inner_scope_id)
    &&& literal.name == group.name
    &&& literal.address is None
    &&& literal.span == group.span
    &&& literal.tags@.len() == 0
}

/// The group that a literal object stands for: an error when its fields are not reached
/// normally, or when its internal field `fields` is missing or not a list of fields.
pub open spec fn group_of_literal<E>(literal: LiteralObject<E>) -> Result<GroupDeclaration<E>, LiteralError> {
    if literal.field_access_type != FieldAccessType::Normal {
        Err(LiteralError::NotAGroup)
    } else {
        match field_list_field(literal.internal_fields@, "fields"@) {
            Err(e) => Err(e),
            Ok(fields) => Ok(
                GroupDeclaration {
                    fields,
                    inner_scope_id: literal.inner_scope_id.unwrap(),
                    outer_scope_id: literal.outer_scope_id,
                    name: literal.name,
                    span: literal.span,
                },
            ),
        }
    }
}


/// The texts one after the other.
pub open spec fn concatenated(items: Seq<Seq<char>>) -> Seq<char>
    decreases items.len(),
{
    if items.len() == 0 {
        Seq::empty()
    } else {
        concatenated(items.drop_last()) + items.last()
    }
}

/// The name as it is written in C: prefixed with `u_` when it is mangled.
pub open spec fn c_name(name: Name) -> Seq<char> {
    if name.spec_should_mangle() {
        mangled(name@)
    } else {
        name@
    }
}

/// The members that the C struct of a built-in group has besides its fields: the text of
/// `Text`, the number of `Number`, the function pointer of `Function`, and the elements, size
/// and capacity of `List`.
pub open spec fn built_in_members(group_name: Seq<char>) -> Seq<char> {
    if group_name == "Text"@ {
        "\n\tchar* internal_value;"@
    } else if group_name == "Number"@ {
        "\n\tfloat internal_value;"@
    } else if group_name == "Function"@ {
        "\n\tvoid* call;"@
    } else if group_name == "List"@ {
        "\n\tvoid* elements;\n\tint size;\n\tint capacity;"@
    } else {
        Seq::empty()
    }
}

/// The member declarations of the fields: for each, a line with a pointer to its C type and
/// its C name.
pub open spec fn field_members<E>(field_types: Seq<Seq<char>>, fields: Seq<Field<E>>) -> Seq<Seq<char>> {
    Seq::new(fields.len(), |i: int| "\n\t"@ + field_types[i] + "* "@ + c_name(fields[i].name) + ";"@)
}

/// The C struct body of a group: its fields' members, then the built-in members of its name,
/// in braces.
pub open spec fn group_c_text<E>(field_types: Seq<Seq<char>>, group: GroupDeclaration<E>) -> Seq<char> {
    "{"@ + concatenated(field_members(field_types, group.fields@)) + built_in_members(group.name@) + "\n}"@
}

impl<E> GroupDeclaration<E> {
    /// The fields of this group.
    pub fn fields(&self) -> (res: &[Field<E>])
        ensures
            res@ == self.fields@,
    {
        self.fields.as_slice()
    }

    /// The body of the C struct of this group, given the C type of each field (that of its
    /// type, or else that of its value's type).
    pub fn to_c(&self, field_types: &[String]) -> (res: String)
        requires
            field_types@.len() == self.fields@.len(),
        ensures
            res@ == group_c_text(texts(field_types@), *self),
    {
        let ghost members = field_members(texts(field_types@), self.fields@);
        let mut res = String::new();
        res.append("{");
        let mut i: usize = 0;
        while i < self.fields.len()
            invariant
                i <= self.fields@.len(),
                field_types@.len() == self.fields@.len(),
                members == field_members(texts(field_types@), self.fields@),
                res@ == "{"@ + concatenated(members.take(i as int)),
            decreases self.fields@.len() - i,
        {
            let name = self.fields[i].name.mangled_name();
            let ghost before = res@;
            res.append("\n\t");
            res.append(field_types[i].as_str());
            res.append("* ");
            res.append(name.as_str());
            res.append(";");
            proof {
                assert(members.take(i + 1).drop_last() =~= members.take(i as int));
                assert(res@ =~= before + members[i as int]);
            }
            i = i + 1;
        }
        proof {
            assert(members.take(i as int) =~= members);
        }
        let group_name = self.name.unmangled_name();
        if same_text(group_name, "Text") {
            res.append("\n\tchar* internal_value;");
        } else if same_text(group_name, "Number") {
            res.append("\n\tfloat internal_value;");
        } else if same_text(group_name, "Function") {
            res.append("\n\tvoid* call;");
        } else if same_text(group_name, "List") {
            res.append("\n\tvoid* elements;\n\tint size;\n\tint capacity;");
        }
        res.append("\n}");
        res
    }

    /// The literal object that stands for this group.
    pub fn to_literal(self) -> (res: LiteralObject<E>)
        ensures
            is_group_literal(res, self),
    {
        let mut internal_fields = Vec::new();
        internal_fields.push(("fields".to_owned(), InternalFieldValue::FieldList(self.fields)));
        LiteralObject {
            object_type: Name::new("Group"),
            fields: Vec::new(),
            internal_fields,
            field_access_type: FieldAccessType::Normal,
            outer_scope_id: self.outer_scope_id,
            inner_scope_id: Some(self.inner_scope_id),
            name: self.name,
            address: None,
            span: self.span,
            tags: Vec::new(),
        }
    }

    /// Reads a group back from the literal object that stands for it. A literal object that
    /// is read as a group must have an inner scope.
    pub fn from_literal(literal: LiteralObject<E>) -> (res: Result<GroupDeclaration<E>, LiteralError>)
        requires
            group_of_literal(literal) is Ok ==> literal.inner_scope_id is Some,
        ensures
            res == group_of_literal(literal),
    {
        if literal.field_access_type != FieldAccessType::Normal {
            return Err(LiteralError::NotAGroup);
        }
        let mut entries = literal.internal_fields;
        let fields = match take_internal_field(&mut entries, "fields") {
            Some(InternalFieldValue::FieldList(list)) => list,
            Some(_) => return Err(LiteralError::WrongInternalFieldType),
            None => return Err(LiteralError::MissingInternalField),
        };
        let inner_scope_id = literal.inner_scope_id.unwrap();
        Ok(
            GroupDeclaration {
                fields,
                inner_scope_id,
                outer_scope_id: literal.outer_scope_id,
                name: literal.name,
                span: literal.span,
            },
        )
    }
}

/// A group read back from the literal object that stands for it is the group itself.
pub proof fn law_group_literal_round_trip<E>(group: GroupDeclaration<E>, literal: LiteralObject<E>)
    requires
        is_group_literal(literal, group),
    ensures
        group_of_literal(literal) == Ok::<GroupDeclaration<E>, LiteralError>(group),
{
    lemma_internal_field_at(literal.internal_fields@, "fields"@, 0);
}

/// The C struct of a group is its fields' members in braces, followed, for a built-in group, by
/// where it keeps its value: `Text` a `char* internal_value`, `Number` a `float internal_value`,
/// `Function` a `void* call`, and `List` its elements, size and capacity; any other group has
/// nothing more.
pub proof fn law_built_in_groups_keep_their_values<E>(field_types: Seq<Seq<char>>, group: GroupDeclaration<E>)
    ensures
        ({
            let fields = "{"@ + concatenated(field_members(field_types, group.fields@));
            &&& group.name@ == "Text"@ ==> group_c_text(field_types, group) == fields + "\n\tchar* internal_value;\n}"@
            &&& group.name@ == "Number"@ ==> group_c_text(field_types, group) == fields
                + "\n\tfloat internal_value;\n}"@
            &&& group.name@ == "Function"@ ==> group_c_text(field_types, group) == fields + "\n\tvoid* call;\n}"@
            &&& group.name@ == "List"@ ==> group_c_text(field_types, group) == fields
                + "\n\tvoid* elements;\n\tint size;\n\tint capacity;\n}"@
            &&& group.name@ != "Text"@ && group.name@ != "Number"@ && group.name@ != "Function"@ && group.name@
                != "List"@ ==> group_c_text(field_types, group) == fields + "\n}"@
        }),
{
    reveal_strlit("Text");
    reveal_strlit("Number");
    reveal_strlit("Function");
    reveal_strlit("List");
    reveal_strlit("\n}");
    reveal_strlit("\n\tchar* internal_value;");
    reveal_strlit("\n\tchar* internal_value;\n}");
    reveal_strlit("\n\tfloat internal_value;");
    reveal_strlit("\n\tfloat internal_value;\n}");
    reveal_strlit("\n\tvoid* call;");
    reveal_strlit("\n\tvoid* call;\n}");
    reveal_strlit("\n\tvoid* elements;\n\tint size;\n\tint capacity;");
    reveal_strlit("\n\tvoid* elements;\n\tint size;\n\tint capacity;\n}");
    let fields = "{"@ + concatenated(field_members(field_types, group.fields@));
    assert("Number"@[0] != "Text"@[0]);
    assert("Function"@[0] != "Text"@[0] && "Function"@[0] != "Number"@[0]);
    assert("List"@[0] != "Text"@[0] && "List"@[0] != "Number"@[0] && "List"@[0] != "Function"@[0]);
    if group.name@ == "Text"@ {
        assert(fields + "\n\tchar* internal_value;"@ + "\n}"@ =~= fields + "\n\tchar* internal_value;\n}"@);
    } else if group.name@ == "Number"@ {
        assert(fields + "\n\tfloat internal_value;"@ + "\n}"@ =~= fields + "\n\tfloat internal_value;\n}"@);
    } else if group.name@ == "Function"@ {
        assert(fields + "\n\tvoid* call;"@ + "\n}"@ =~= fields + "\n\tvoid* call;\n}"@);
    } else if group.name@ == "List"@ {
        assert(fields + "\n\tvoid* elements;\n\tint size;\n\tint capacity;"@ + "\n}"@ =~= fields
            + "\n\tvoid* elements;\n\tint size;\n\tint capacity;\n}"@);
    } else {
        assert(fields + Seq::<char>::empty() + "\n}"@ =~= fields + "\n}"@);
    }
}

/// Each field of a group becomes one member of its C struct, in the order of the fields: a new
/// line, a tab, a pointer to the field's C type, a space, the field's name in C (prefixed with
/// `u_` when it is mangled) and a semicolon.
pub proof fn law_fields_become_pointer_members<E>(field_types: Seq<Seq<char>>, fields: Seq<Field<E>>, i: int)
    requires
        0 <= i < fields.len(),
    ensures
        field_members(field_types, fields).len() == fields.len(),
        field_members(field_types, fields)[i] == "\n\t"@ + field_types[i] + "* "@ + (if fields[i].name.spec_should_mangle() {
            "u_"@ + fields[i].name@
        } else {
            fields[i].name@
        }) + ";"@,
{
    reveal_strlit("u_");
    assert(mangled(fields[i].name@) =~= "u_"@ + fields[i].name@);
}

} // verus!
