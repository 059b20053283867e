use vstd::prelude::*;

use crate::env::Environment;

verus! {

/// A variable found in native source: its name, its declared type, the
/// byte range of its scope and the byte ranges of the places that affect it.
#[derive(Debug, PartialEq)]
pub struct ProgramVariable {
    pub name: String,
    pub var_type: String,
    pub implications: Vec<(usize, usize)>,
    pub scope: (usize, usize),
}

/// The variables of a program, each with the environment its checks run in.
#[derive(Debug, PartialEq)]
pub struct Program {
    pub checks: Vec<(ProgramVariable, Environment)>,
}

impl Program {
    /// Pairs each variable, in order, with a fresh empty environment.
    pub fn from_vars(variables: Vec<ProgramVariable>) -> (r: Program)
        ensures
            r.checks.len() == variables.len(),
            forall|i: int| 0 <= i < variables.len() ==> #[trigger] r.checks@[i].0 == variables@[i],
            forall|i: int| 0 <= i < variables.len() ==> (#[trigger] r.checks@[i]).1@.len() == 0,
    {
        let ghost vs = variables@;
        let mut rest = variables;
        let mut checks: Vec<(ProgramVariable, Environment)> = Vec::new();
        while rest.len() > 0
            invariant
                checks.len() + rest.len() == vs.len(),
                rest@ == vs.subrange(checks.len() as int, vs.len() as int),
                forall|i: int| 0 <= i < checks.len() ==> #[trigger] checks@[i].0 == vs[i],
                forall|i: int| 0 <= i < checks.len() ==> (#[trigger] checks@[i]).1@.len() == 0,
            decreases rest.len(),
        {
            let v = rest.remove(0);
            assert(v == vs[checks.len() as int]);
            checks.push((v, Environment::new()));
            assert(rest@ =~= vs.subrange(checks.len() as int, vs.len() as int));
        }
        Program { checks }
    }
}

} // verus!
