use vstd::prelude::*;

use crate::compile_time::builtin::{unindent_text, unindented};

verus! {

/// The `cabin.toml` of a new project named `name`, before it is unindented.
pub open spec fn project_config_template(name: Seq<char>) -> Seq<char> {
    "\n\t\t\t\t[information]\n\t\t\t\tname = \""@ + name
        + "\"\n\t\t\t\tdescription = \"An example cabin project generated with cabin new\"\n\t\t\t\tlicense = \"All rights reserved\"\n\t\t\t\t\n\t\t\t\t[options]\n\n\t\t\t\t[libraries]\n\t\t\t\t"@
}

/// The `cabin.toml` of a new project named `name`: its information table with the name, an
/// empty options table and an empty libraries table.
pub fn new_project_config(name: &str) -> (res: String)
    ensures
        res@ == unindented(project_config_template(name@)),
{
    let mut template = String::from_str("\n\t\t\t\t[information]\n\t\t\t\tname = \"");
    template.append(name);
    template.append(
        "\"\n\t\t\t\tdescription = \"An example cabin project generated with cabin new\"\n\t\t\t\tlicense = \"All rights reserved\"\n\t\t\t\t\n\t\t\t\t[options]\n\n\t\t\t\t[libraries]\n\t\t\t\t",
    );
    unindent_text(template.as_str())
}

} // verus!
