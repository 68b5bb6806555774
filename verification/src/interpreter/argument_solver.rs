//! Binding the formal arguments of a gate to actual registers.
use vstd::prelude::*;

use crate::grammar::ast::{Argument, ArgumentV};
use crate::table::{find, keys_of, lookup, names};

verus! {

/// Replaces the formal register arguments of a gate with the actual ones
/// they are bound to.
pub struct ArgumentSolver<'a>(&'a Vec<(String, Argument)>);

/// The value of a table of bindings.
pub open spec fn bindings_view(t: Seq<(String, Argument)>) -> Seq<(Seq<char>, ArgumentV)> {
    t.map_values(|e: (String, Argument)| (e.0@, e.1@))
}

/// What argument `a` stands for under `bindings`: the argument its name is
/// bound to, or the name that is not bound. A component of a register names
/// no formal argument.
pub open spec fn resolve_argument(bindings: Seq<(Seq<char>, ArgumentV)>, a: ArgumentV) -> Result<ArgumentV, Seq<char>> {
    match a {
        ArgumentV::Id(n) => match lookup(bindings, n) {
            Some(b) => Ok(b),
            None => Err(n),
        },
        ArgumentV::Item(n, _) => Err(n),
    }
}

impl<'a> ArgumentSolver<'a> {
    /// The bindings.
    pub closed spec fn bindings(&self) -> Seq<(Seq<char>, ArgumentV)> {
        bindings_view(self.0@)
    }

    /// Creates a solver for the bindings of `argument_table`.
    pub fn new(argument_table: &'a Vec<(String, Argument)>) -> (r: Self)
        ensures
            r.bindings() == bindings_view(argument_table@),
    {
        ArgumentSolver(argument_table)
    }

    /// What `arg` stands for: the actual argument bound to it, or the name
    /// that is not bound.
    pub fn try_solve(&self, arg: &Argument) -> (r: Result<Argument, String>)
        ensures
            match resolve_argument(self.bindings(), arg@) {
                Ok(b) => r matches Ok(x) && x@ == b,
                Err(n) => r matches Err(x) && x@ == n,
            },
    {
        match arg {
            Argument::Id(name) => {
                assert(names(self.bindings()) =~= keys_of(self.0@));
                match find(self.0, name) {
                    Some(i) => Ok(self.0[i].1.copy()),
                    None => Err(name.clone()),
                }
            },
            Argument::Item(name, _) => Err(name.clone()),
        }
    }

    /// The actual argument bound to formal argument `arg`, which must be a
    /// bound name.
    pub fn solve(&self, arg: &Argument) -> (r: Argument)
        requires
            resolve_argument(self.bindings(), arg@) is Ok,
        ensures
            resolve_argument(self.bindings(), arg@) == Ok::<ArgumentV, Seq<char>>(r@),
    {
        match self.try_solve(arg) {
            Ok(a) => a,
            Err(_) => arg.copy(),
        }
    }
}

} // verus!
