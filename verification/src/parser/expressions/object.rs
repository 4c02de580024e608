use vstd::prelude::*;

use crate::parser::expressions::name::Name;

verus! {

/// A field of an object: its name, and possibly a type and a value (expressions of type `E`).
pub struct Field<E> {
    pub name: Name,
    pub field_type: Option<E>,
    pub value: Option<E>,
}

/// The fields whose name is not `name`, in their order.
pub open spec fn fields_without<E>(fields: Seq<Field<E>>, name: Seq<char>) -> Seq<Field<E>>
    decreases fields.len(),
{
    if fields.len() == 0 {
        Seq::empty()
    } else if fields.last().name@ == name {
        fields_without(fields.drop_last(), name)
    } else {
        fields_without(fields.drop_last(), name).push(fields.last())
    }
}

/// Removing a field with the name leaves the fields without that name as they were.
proof fn lemma_remove_named<E>(fields: Seq<Field<E>>, name: Seq<char>, i: int)
    requires
        0 <= i < fields.len(),
        fields[i].name@ == name,
    ensures
        fields_without(fields.remove(i), name) == fields_without(fields, name),
    decreases fields.len(),
{
    let r = fields.remove(i);
    if i == fields.len() - 1 {
        assert(r =~= fields.drop_last());
    } else {
        assert(r.drop_last() =~= fields.drop_last().remove(i));
        assert(r.last() == fields.last());
        lemma_remove_named(fields.drop_last(), name, i);
    }
}

/// No field has the name when none of the fields does.
proof fn lemma_without_unnamed<E>(fields: Seq<Field<E>>, name: Seq<char>)
    requires
        forall|k: int| 0 <= k < fields.len() ==> #[trigger] fields[k].name@ != name,
    ensures
        fields_without(fields, name) == fields,
    decreases fields.len(),
{
    if fields.len() > 0 {
        assert forall|k: int| 0 <= k < fields.drop_last().len() implies #[trigger] fields.drop_last()[k].name@ != name by {
            assert(fields.drop_last()[k] == fields[k]);
        }
        lemma_without_unnamed(fields.drop_last(), name);
        assert(fields.drop_last().push(fields.last()) =~= fields);
    }
}

/// None of the fields left has the name.
pub proof fn lemma_without_has_none<E>(fields: Seq<Field<E>>, name: Seq<char>)
    ensures
        forall|k: int| 0 <= k < fields_without(fields, name).len() ==> #[trigger] fields_without(fields, name)[k].name@ != name,
    decreases fields.len(),
{
    if fields.len() > 0 {
        lemma_without_has_none(fields.drop_last(), name);
    }
}

/// Lists of fields in which a field can be set.
pub trait Fields<E> {
    /// Adds the field, removing every field with the same name first.
    fn add_or_overwrite_field(&mut self, field: Field<E>);
}

impl<E> Fields<E> for Vec<Field<E>> {
    fn add_or_overwrite_field(&mut self, field: Field<E>)
        ensures
            final(self)@ == fields_without(old(self)@, field.name@).push(field),
    {
        loop
            invariant
                fields_without(self@, field.name@) == fields_without(old(self)@, field.name@),
            ensures
                fields_without(self@, field.name@) == fields_without(old(self)@, field.name@),
                forall|k: int| 0 <= k < self@.len() ==> #[trigger] self@[k].name@ != field.name@,
            decreases self@.len(),
        {
            let mut index: usize = 0;
            let mut found = false;
            while index < self.len()
                invariant_except_break
                    !found,
                    index <= self@.len(),
                    forall|k: int| 0 <= k < index ==> #[trigger] self@[k].name@ != field.name@,
                ensures
                    found ==> index < self@.len() && self@[index as int].name@ == field.name@,
                    !found ==> forall|k: int| 0 <= k < self@.len() ==> #[trigger] self@[k].name@ != field.name@,
                decreases self@.len() - index,
            {
                if self[index].name.same_as(&field.name) {
                    found = true;
                    break;
                }
                index = index + 1;
            }
            if !found {
                break;
            }
            proof {
                lemma_remove_named(self@, field.name@, index as int);
            }
            let _ = self.remove(index);
        }
        proof {
            lemma_without_unnamed(self@, field.name@);
        }
        self.push(field);
    }
}

/// After a field is set, exactly one field has its name: the new one, which comes last, and the
/// other fields keep their order.
pub proof fn law_set_field_is_unique<E>(before: Seq<Field<E>>, field: Field<E>)
    ensures
        ({
            let after = fields_without(before, field.name@).push(field);
            &&& after.last() == field
            &&& forall|k: int| 0 <= k < after.len() - 1 ==> #[trigger] after[k].name@ != field.name@
        }),
{
    lemma_without_has_none(before, field.name@);
    let without = fields_without(before, field.name@);
    let after = without.push(field);
    assert forall|k: int| 0 <= k < after.len() - 1 implies #[trigger] after[k].name@ != field.name@ by {
        assert(after[k] == without[k]);
    }
}

} // verus!
