use vstd::prelude::*;

verus! {

/// One parameter of the store: a name under the queried path, and its value.
#[derive(Clone, Debug)]
pub struct Parameter {
    pub name: String,
    pub value: String,
}

impl Parameter {
    pub fn new(name: String, value: String) -> (r: Parameter)
        ensures
            r.name == name,
            r.value == value,
    {
        Parameter { name, value }
    }
}

/// What the `env` command is asked to do: the path to read, how to turn
/// parameter names into variable names, and the command to run.
#[derive(Clone, Debug)]
pub struct EnvArgs {
    pub path: String,
    pub uppercase: bool,
    pub add_prefix: Option<String>,
    pub command: Vec<String>,
}

} // verus!
