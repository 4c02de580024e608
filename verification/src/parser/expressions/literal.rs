use vstd::prelude::*;

use crate::comptime::memory::VirtualPointer;
use crate::lexer::Span;
use crate::parser::expressions::name::Name;
use crate::parser::expressions::object::Field;
use crate::parser::expressions::parameter::Parameter;
use crate::cli::commands::package::publish::decimal;
use crate::parser::expressions::group::c_name;
use crate::text::same_text;

verus! {

/// How the fields of an object are reached.
#[derive(Debug, Clone, Copy, PartialEq, Eq, Structural)]
pub enum FieldAccessType {
    Normal,
    Either,
    Group,
}

/// A value that a literal object keeps for the compiler itself, out of reach of Cabin code.
/// Expressions are of type `E`.
pub enum InternalFieldValue<E> {
    String(String),
    Boolean(bool),
    ExpressionList(Vec<E>),
    Expression(E),
    OptionalExpression(Option<E>),
    FieldList(Vec<Field<E>>),
    NameList(Vec<Name>),
    LiteralMap(Vec<(Name, VirtualPointer)>),
    ParameterList(Vec<Parameter<E>>),
    PointerList(Vec<VirtualPointer>),
    Name(Name),
}

/// A literal object: a value fully known at compile time. Function, group and parameter
/// declarations are kept as literal objects too, with their parts in internal fields.
pub struct LiteralObject<E> {
    /// The name the object is constructed with, such as `Function` or `Group`.
    pub object_type: Name,
    /// The fields that Cabin code can reach, each with a pointer to its value.
    pub fields: Vec<(Name, VirtualPointer)>,
    /// The fields kept for the compiler, by key.
    pub internal_fields: Vec<(String, InternalFieldValue<E>)>,
    pub field_access_type: FieldAccessType,
    pub outer_scope_id: usize,
    pub inner_scope_id: Option<usize>,
    pub name: Name,
    /// Where the object is stored in virtual memory, once it is.
    pub address: Option<VirtualPointer>,
    pub span: Span,
    pub tags: Vec<E>,
}

/// Why a literal object could not be read back as a declaration.
#[derive(Debug, Clone, Copy, PartialEq, Eq, Structural)]
pub enum LiteralError {
    /// An internal field that the declaration needs is not there.
    MissingInternalField,
    /// An internal field holds a value of another kind than the declaration needs.
    WrongInternalFieldType,
    /// The object's fields are not reached as those of a group.
    NotAGroup,
}

/// The value of the first internal field with the key, if any.
pub open spec fn internal_field<E>(entries: Seq<(String, InternalFieldValue<E>)>, key: Seq<char>) -> Option<
    InternalFieldValue<E>,
>
    decreases entries.len(),
{
    if entries.len() == 0 {
        None
    } else if entries[0].0@ == key {
        Some(entries[0].1)
    } else {
        internal_field(entries.drop_first(), key)
    }
}

/// The first entry with the key is the one at `i` when none before it has the key.
pub proof fn lemma_internal_field_at<E>(entries: Seq<(String, InternalFieldValue<E>)>, key: Seq<char>, i: int)
    requires
        0 <= i < entries.len(),
        entries[i].0@ == key,
        forall|j: int| 0 <= j < i ==> #[trigger] entries[j].0@ != key,
    ensures
        internal_field(entries, key) == Some(entries[i].1),
    decreases i,
{
    if i > 0 {
        assert forall|j: int| 0 <= j < i - 1 implies #[trigger] entries.drop_first()[j].0@ != key by {
            assert(entries.drop_first()[j] == entries[j + 1]);
        }
        lemma_internal_field_at(entries.drop_first(), key, i - 1);
    }
}

/// No entry has the key.
proof fn lemma_internal_field_absent<E>(entries: Seq<(String, InternalFieldValue<E>)>, key: Seq<char>)
    requires
        forall|j: int| 0 <= j < entries.len() ==> #[trigger] entries[j].0@ != key,
    ensures
        internal_field(entries, key) is None,
    decreases entries.len(),
{
    if entries.len() > 0 {
        assert forall|j: int| 0 <= j < entries.drop_first().len() implies #[trigger] entries.drop_first()[j].0@
            != key by {
            assert(entries.drop_first()[j] == entries[j + 1]);
        }
        lemma_internal_field_absent(entries.drop_first(), key);
    }
}

/// Removing an entry with another key leaves what a key finds unchanged.
proof fn lemma_internal_field_remove<E>(
    entries: Seq<(String, InternalFieldValue<E>)>,
    i: int,
    key: Seq<char>,
)
    requires
        0 <= i < entries.len(),
        entries[i].0@ != key,
    ensures
        internal_field(entries.remove(i), key) == internal_field(entries, key),
    decreases entries.len(),
{
    if i > 0 {
        assert(entries.remove(i).drop_first() =~= entries.drop_first().remove(i - 1));
        lemma_internal_field_remove(entries.drop_first(), i - 1, key);
    } else {
        assert(entries.remove(0) =~= entries.drop_first());
    }
}

/// Takes the first internal field with the key out of the entries, and returns its value.
/// What any other key finds is left as it was.
pub fn take_internal_field<E>(entries: &mut Vec<(String, InternalFieldValue<E>)>, key: &str) -> (res: Option<
    InternalFieldValue<E>,
>)
    ensures
        res == internal_field(old(entries)@, key@),
        forall|k: Seq<char>| k != key@ ==> internal_field(final(entries)@, k) == internal_field(old(entries)@, k),
{
    let mut i: usize = 0;
    while i < entries.len()
        invariant
            i <= entries@.len(),
            entries@ == old(entries)@,
            forall|j: int| 0 <= j < i ==> #[trigger] entries@[j].0@ != key@,
        decreases entries@.len() - i,
    {
        if same_text(entries[i].0.as_str(), key) {
            proof {
                lemma_internal_field_at(entries@, key@, i as int);
                assert forall|k: Seq<char>| k != key@ implies internal_field(entries@.remove(i as int), k)
                    == internal_field(entries@, k) by {
                    lemma_internal_field_remove(entries@, i as int, k);
                }
            }
            let (_, value) = entries.remove(i);
            return Some(value);
        }
        i = i + 1;
    }
    proof {
        lemma_internal_field_absent(entries@, key@);
    }
    None
}

/// A list of parameters kept under the key: `Ok` with it when the first entry with the key
/// holds one.
pub open spec fn parameter_list_field<E>(entries: Seq<(String, InternalFieldValue<E>)>, key: Seq<char>) -> Result<
    Vec<Parameter<E>>,
    LiteralError,
> {
    match internal_field(entries, key) {
        None => Err(LiteralError::MissingInternalField),
        Some(InternalFieldValue::ParameterList(list)) => Ok(list),
        Some(_) => Err(LiteralError::WrongInternalFieldType),
    }
}

/// An optional expression kept under the key.
pub open spec fn optional_expression_field<E>(
    entries: Seq<(String, InternalFieldValue<E>)>,
    key: Seq<char>,
) -> Result<Option<E>, LiteralError> {
    match internal_field(entries, key) {
        None => Err(LiteralError::MissingInternalField),
        Some(InternalFieldValue::OptionalExpression(e)) => Ok(e),
        Some(_) => Err(LiteralError::WrongInternalFieldType),
    }
}

/// An expression kept under the key.
pub open spec fn expression_field<E>(entries: Seq<(String, InternalFieldValue<E>)>, key: Seq<char>) -> Result<
    E,
    LiteralError,
> {
    match internal_field(entries, key) {
        None => Err(LiteralError::MissingInternalField),
        Some(InternalFieldValue::Expression(e)) => Ok(e),
        Some(_) => Err(LiteralError::WrongInternalFieldType),
    }
}

/// A list of fields kept under the key.
pub open spec fn field_list_field<E>(entries: Seq<(String, InternalFieldValue<E>)>, key: Seq<char>) -> Result<
    Vec<Field<E>>,
    LiteralError,
> {
    match internal_field(entries, key) {
        None => Err(LiteralError::MissingInternalField),
        Some(InternalFieldValue::FieldList(list)) => Ok(list),
        Some(_) => Err(LiteralError::WrongInternalFieldType),
    }
}

/// The pointer of the first field with the name, if any.
pub open spec fn field_pointer(fields: Seq<(Name, VirtualPointer)>, name: Seq<char>) -> Option<VirtualPointer>
    decreases fields.len(),
{
    if fields.len() == 0 {
        None
    } else if fields[0].0@ == name {
        Some(fields[0].1)
    } else {
        field_pointer(fields.drop_first(), name)
    }
}

/// Whether `literal` is an empty object: of type `Object`, named `anonymous_object`, with no
/// fields or tags, in the scope `outer_scope_id`, at the span.
pub open spec fn is_empty_object<E>(literal: LiteralObject<E>, span: Span, outer_scope_id: usize) -> bool {
    &&& literal.object_type@ == "Object"@
    &&& literal.fields@.len() == 0
    &&& literal.internal_fields@.len() == 0
    &&& literal.field_access_type == FieldAccessType::Normal
    &&& literal.outer_scope_id == outer_scope_id
    &&& literal.inner_scope_id is None
    &&& literal.address is None
    &&& literal.span == span
    &&& literal.name@ == "anonymous_object"@
    &&& literal.tags@.len() == 0
}

impl<E> LiteralObject<E> {
    /// An object of type `Object` with no fields, named `anonymous_object`, in the scope
    /// `outer_scope_id` (that of the file being compiled).
    pub fn empty(span: Span, outer_scope_id: usize) -> (res: Self)
        ensures
            is_empty_object(res, span, outer_scope_id),
    {
        LiteralObject {
            object_type: Name::new("Object"),
            fields: Vec::new(),
            internal_fields: Vec::new(),
            field_access_type: FieldAccessType::Normal,
            outer_scope_id,
            inner_scope_id: None,
            address: None,
            span,
            name: Name::new("anonymous_object"),
            tags: Vec::new(),
        }
    }

    /// The name this object is constructed with.
    pub fn object_type(&self) -> (res: &Name)
        ensures
            *res == self.object_type,
    {
        &self.object_type
    }

    /// How the fields of this object are reached.
    pub fn field_access_type(&self) -> (res: &FieldAccessType)
        ensures
            *res == self.field_access_type,
    {
        &self.field_access_type
    }

    /// The name of this object.
    pub fn name(&self) -> (res: &Name)
        ensures
            *res == self.name,
    {
        &self.name
    }

    /// The scope this object was declared in.
    pub fn outer_scope_id(&self) -> (res: usize)
        ensures
            res == self.outer_scope_id,
    {
        self.outer_scope_id
    }

    /// The pointer to the value of the field with the name, if the object has such a field.
    pub fn get_field(&self, name: &str) -> (res: Option<VirtualPointer>)
        ensures
            res == field_pointer(self.fields@, name@),
    {
        let mut i: usize = 0;
        proof {
            assert(self.fields@.skip(0) =~= self.fields@);
        }
        while i < self.fields.len()
            invariant
                i <= self.fields@.len(),
                field_pointer(self.fields@, name@) == field_pointer(self.fields@.skip(i as int), name@),
            decreases self.fields@.len() - i,
        {
            proof {
                assert(self.fields@.skip(i as int).drop_first() =~= self.fields@.skip(i + 1));
                assert(self.fields@.skip(i as int)[0] == self.fields@[i as int]);
            }
            if same_text(self.fields[i].0.unmangled_name(), name) {
                return Some(self.fields[i].1);
            }
            i = i + 1;
        }
        proof {
            assert(self.fields@.skip(i as int).len() == 0);
        }
        None
    }

    /// The name of the C type of this object: `type_` for a plain object and `group_` for
    /// any other, then the name in C, an underscore and the object's address. The object must
    /// be stored in virtual memory.
    pub fn to_c_type(&self) -> (res: String)
        requires
            self.address is Some,
        ensures
            res@ == (if self.object_type@ == "Object"@ {
                "type_"@
            } else {
                "group_"@
            }) + c_name(self.name) + "_"@ + decimal(self.address->0.address() as nat),
    {
        let mut res = if same_text(self.object_type.unmangled_name(), "Object") {
            String::from_str("type_")
        } else {
            String::from_str("group_")
        };
        res.append(self.name.mangled_name().as_str());
        res.append("_");
        let address = self.address.unwrap().to_text();
        res.append(address.as_str());
        res
    }

    /// The pointers to the values of the fields, in the order of the fields.
    pub fn dependencies(&self) -> (res: Vec<VirtualPointer>)
        ensures
            res@ == self.fields@.map_values(|f: (Name, VirtualPointer)| f.1),
    {
        let mut res: Vec<VirtualPointer> = Vec::new();
        let mut i: usize = 0;
        while i < self.fields.len()
            invariant
                i <= self.fields@.len(),
                res@ == self.fields@.take(i as int).map_values(|f: (Name, VirtualPointer)| f.1),
            decreases self.fields@.len() - i,
        {
            res.push(self.fields[i].1);
            proof {
                assert(self.fields@.take(i + 1) =~= self.fields@.take(i as int).push(self.fields@[i as int]));
            }
            i = i + 1;
        }
        proof {
            assert(self.fields@.take(i as int) =~= self.fields@);
        }
        res
    }
}

} // verus!
