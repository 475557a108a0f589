//! The environment: the variables that an overlay reads.

use vstd::prelude::*;
use crate::address::same_text;

verus! {

/// One variable of the environment.
#[derive(Debug, PartialEq, Eq)]
pub struct Variable {
    /// The exact name of the variable.
    pub name: String,
    /// The text that the variable stores, or, where what it stores cannot
    /// be read as text, the reason.
    pub value: Result<String, String>,
}

/// What the environment holds under a name.
#[derive(Debug, PartialEq, Eq)]
pub enum Lookup {
    /// The variable is set to this text, which may be empty.
    Present(String),
    /// No variable of that name is set.
    Absent,
    /// The variable is set, but what it stores cannot be read as text.
    Failed(String),
}

/// The mathematical model of a [`Lookup`].
pub ghost enum Found {
    Present(Seq<char>),
    Absent,
    Failed(Seq<char>),
}

impl View for Lookup {
    type V = Found;

    open spec fn view(&self) -> Found {
        match self {
            Lookup::Present(text) => Found::Present(text@),
            Lookup::Absent => Found::Absent,
            Lookup::Failed(reason) => Found::Failed(reason@),
        }
    }
}

/// What a variable stores, as a lookup of its name gives it.
pub open spec fn stored(variable: Variable) -> Found {
    match variable.value {
        Ok(text) => Found::Present(text@),
        Err(reason) => Found::Failed(reason@),
    }
}

/// What the variables from the index `from` on hold under `name`: what the
/// first of them with that exact name stores.
pub open spec fn looked_up_from(env: Seq<Variable>, from: int, name: Seq<char>) -> Found
    decreases env.len() - from,
{
    if from < 0 || from >= env.len() {
        Found::Absent
    } else if env[from].name@ == name {
        stored(env[from])
    } else {
        looked_up_from(env, from + 1, name)
    }
}

/// What the environment holds under `name`.
pub open spec fn looked_up(env: Seq<Variable>, name: Seq<char>) -> Found {
    looked_up_from(env, 0, name)
}

/// Looks a variable up by its exact name.
pub fn lookup(env: &Vec<Variable>, name: &str) -> (found: Lookup)
    ensures
        found@ == looked_up(env@, name@),
{
    let mut i: usize = 0;
    while i < env.len()
        invariant
            i <= env.len(),
            looked_up(env@, name@) == looked_up_from(env@, i as int, name@),
        decreases env.len() - i,
    {
        if same_text(env[i].name.as_str(), name) {
            return match &env[i].value {
                Ok(text) => Lookup::Present(text.clone()),
                Err(reason) => Lookup::Failed(reason.clone()),
            };
        }
        i += 1;
    }
    Lookup::Absent
}

} // verus!
