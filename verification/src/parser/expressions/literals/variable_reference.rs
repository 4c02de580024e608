use vstd::prelude::*;

use crate::parser::expressions::util::name::Name;

verus! {

/// An identifier that references a variable.
#[derive(Debug, Clone)]
pub struct VariableReference {
    /// The name of the variable being referenced.
    name: Name,
    /// The ID of the scope that the variable reference is declared in.
    referenced_scope_id: usize,
    /// The line in the source code that the variable reference is declared.
    line: usize,
    /// The column in the source code that the variable reference is declared.
    column: usize,
}

impl VariableReference {
    pub closed spec fn spec_name(&self) -> Name {
        self.name
    }

    pub closed spec fn spec_scope_id(&self) -> usize {
        self.referenced_scope_id
    }

    pub closed spec fn spec_line(&self) -> usize {
        self.line
    }

    pub closed spec fn spec_column(&self) -> usize {
        self.column
    }

    /// Creates a new variable reference at line 1, column 1.
    pub fn new(name: Name, referenced_scope_id: usize) -> (res: Self)
        ensures
            res.spec_name() == name,
            res.spec_scope_id() == referenced_scope_id,
            res.spec_line() == 1,
            res.spec_column() == 1,
    {
        Self { name, referenced_scope_id, line: 1, column: 1 }
    }

    /// Creates a new variable reference with the specified position in the source code.
    pub fn with_position(name: Name, referenced_scope_id: usize, line: usize, column: usize) -> (res: Self)
        ensures
            res.spec_name() == name,
            res.spec_scope_id() == referenced_scope_id,
            res.spec_line() == line,
            res.spec_column() == column,
    {
        Self { name, referenced_scope_id, line, column }
    }

    /// The name of the variable being referenced.
    pub fn name(&self) -> (res: &Name)
        ensures
            *res == self.spec_name(),
    {
        &self.name
    }

    /// The scope ID that this variable reference is declared in.
    pub fn scope_id(&self) -> (res: usize)
        ensures
            res == self.spec_scope_id(),
    {
        self.referenced_scope_id
    }
}

} // verus!
