//! Looking names up in ordered tables: the functions of a program, the parameters of a
//! function, the native functions.

use vstd::prelude::*;

use crate::ast::ProgramView;
use crate::ast::Statement;
use crate::ast::VariableDefinition;
use crate::ast::VariableDefinitionView;
use crate::native::NativeFunction;
use crate::native::NativeFunctionView;
use crate::text::same_text;
use crate::text::views;

verus! {

/// The index of the first of `names` that equals `name`, if any does.
pub open spec fn first_named(names: Seq<Seq<char>>, name: Seq<char>) -> Option<int>
    decreases names.len(),
{
    if names.len() == 0 {
        None
    } else if names[0] == name {
        Some(0)
    } else {
        match first_named(names.drop_first(), name) {
            Some(index) => Some(index + 1),
            None => None,
        }
    }
}

/// The index of the last of `names` that equals `name`, if any does.
pub open spec fn last_named(names: Seq<Seq<char>>, name: Seq<char>) -> Option<int>
    decreases names.len(),
{
    if names.len() == 0 {
        None
    } else if names.last() == name {
        Some(names.len() - 1)
    } else {
        last_named(names.drop_last(), name)
    }
}

/// `first_named` gives an index that holds the name and has none before it that does, and
/// gives nothing only where no index holds the name.
pub proof fn lemma_first_named(names: Seq<Seq<char>>, name: Seq<char>)
    ensures
        match first_named(names, name) {
            Some(index) => {
                &&& 0 <= index < names.len()
                &&& names[index] == name
                &&& forall|i: int| 0 <= i < index ==> names[i] != name
            },
            None => forall|i: int| 0 <= i < names.len() ==> names[i] != name,
        },
    decreases names.len(),
{
    if names.len() > 0 && names[0] != name {
        let rest = names.drop_first();
        lemma_first_named(rest, name);
        match first_named(rest, name) {
            Some(index) => {
                assert forall|i: int| 0 <= i < index + 1 implies names[i] != name by {
                    if i > 0 {
                        assert(rest[i - 1] == names[i]);
                    }
                }
            },
            None => {
                assert forall|i: int| 0 <= i < names.len() implies names[i] != name by {
                    if i > 0 {
                        assert(rest[i - 1] == names[i]);
                    }
                }
            },
        }
    }
}

/// `last_named` gives an index that holds the name and has none after it that does, and
/// gives nothing only where no index holds the name.
pub proof fn lemma_last_named(names: Seq<Seq<char>>, name: Seq<char>)
    ensures
        match last_named(names, name) {
            Some(index) => {
                &&& 0 <= index < names.len()
                &&& names[index] == name
                &&& forall|i: int| index < i < names.len() ==> names[i] != name
            },
            None => forall|i: int| 0 <= i < names.len() ==> names[i] != name,
        },
    decreases names.len(),
{
    if names.len() > 0 && names.last() != name {
        let rest = names.drop_last();
        lemma_last_named(rest, name);
        match last_named(rest, name) {
            Some(index) => {
                assert forall|i: int| index < i < names.len() implies names[i] != name by {
                    if i < names.len() - 1 {
                        assert(rest[i] == names[i]);
                    }
                }
            },
            None => {
                assert forall|i: int| 0 <= i < names.len() implies names[i] != name by {
                    if i < names.len() - 1 {
                        assert(rest[i] == names[i]);
                    }
                }
            },
        }
    }
}

/// An index that holds the name and has none before it that does is what `first_named` gives.
pub proof fn lemma_first_named_is(names: Seq<Seq<char>>, name: Seq<char>, index: int)
    requires
        0 <= index < names.len(),
        names[index] == name,
        forall|i: int| 0 <= i < index ==> names[i] != name,
    ensures
        first_named(names, name) == Some(index),
{
    lemma_first_named(names, name);
}

/// An index that holds the name and has none after it that does is what `last_named` gives.
pub proof fn lemma_last_named_is(names: Seq<Seq<char>>, name: Seq<char>, index: int)
    requires
        0 <= index < names.len(),
        names[index] == name,
        forall|i: int| index < i < names.len() ==> names[i] != name,
    ensures
        last_named(names, name) == Some(index),
{
    lemma_last_named(names, name);
}

/// A table without the name gives nothing.
pub proof fn lemma_not_named(names: Seq<Seq<char>>, name: Seq<char>)
    requires
        forall|i: int| 0 <= i < names.len() ==> names[i] != name,
    ensures
        first_named(names, name) is None,
        last_named(names, name) is None,
{
    lemma_first_named(names, name);
    lemma_last_named(names, name);
}

/// The names of the functions of a program, in the order of their definitions.
pub open spec fn function_names(program: ProgramView) -> Seq<Seq<char>> {
    Seq::new(program.statements.len(), |i: int| program.statements[i].prototype.name)
}

/// The names of parameter declarations, in order.
pub open spec fn parameter_names(arguments: Seq<VariableDefinitionView>) -> Seq<Seq<char>> {
    Seq::new(arguments.len(), |i: int| arguments[i].name)
}

/// The names of a table of native functions, in order.
pub open spec fn native_names(table: Seq<NativeFunctionView>) -> Seq<Seq<char>> {
    Seq::new(table.len(), |i: int| table[i].name)
}

/// The index of the last definition of the function called `name`: the one in force.
pub fn find_function(statements: &Vec<Statement>, name: &str) -> (found: Option<usize>)
    ensures
        match found {
            Some(index) => last_named(
                function_names(ProgramView { statements: views(statements@) }),
                name@,
            ) == Some(index as int),
            None => last_named(
                function_names(ProgramView { statements: views(statements@) }),
                name@,
            ) is None,
        },
{
    let ghost names = function_names(ProgramView { statements: views(statements@) });
    let mut index = statements.len();
    while index > 0
        invariant
            index <= statements.len(),
            names == function_names(ProgramView { statements: views(statements@) }),
            forall|i: int| index <= i < names.len() ==> names[i] != name@,
        decreases index,
    {
        index = index - 1;
        let Statement::FunctionDefinition(definition) = &statements[index];
        if same_text(definition.prototype.name.as_str(), name) {
            proof {
                lemma_last_named_is(names, name@, index as int);
            }
            return Some(index);
        }
    }
    proof {
        lemma_not_named(names, name@);
    }
    None
}

/// The index of the first definition of the function called `name`.
pub fn find_first_function(statements: &Vec<Statement>, name: &str) -> (found: Option<usize>)
    ensures
        match found {
            Some(index) => first_named(
                function_names(ProgramView { statements: views(statements@) }),
                name@,
            ) == Some(index as int),
            None => first_named(
                function_names(ProgramView { statements: views(statements@) }),
                name@,
            ) is None,
        },
{
    let ghost names = function_names(ProgramView { statements: views(statements@) });
    let mut index: usize = 0;
    while index < statements.len()
        invariant
            index <= statements.len(),
            names == function_names(ProgramView { statements: views(statements@) }),
            forall|i: int| 0 <= i < index ==> names[i] != name@,
        decreases statements.len() - index,
    {
        let Statement::FunctionDefinition(definition) = &statements[index];
        if same_text(definition.prototype.name.as_str(), name) {
            proof {
                lemma_first_named_is(names, name@, index as int);
            }
            return Some(index);
        }
        index = index + 1;
    }
    proof {
        lemma_not_named(names, name@);
    }
    None
}

/// The index of the first parameter called `name`.
pub fn find_parameter(arguments: &Vec<VariableDefinition>, name: &str) -> (found: Option<usize>)
    ensures
        match found {
            Some(index) => first_named(parameter_names(views(arguments@)), name@) == Some(
                index as int,
            ),
            None => first_named(parameter_names(views(arguments@)), name@) is None,
        },
{
    let ghost names = parameter_names(views(arguments@));
    let mut index: usize = 0;
    while index < arguments.len()
        invariant
            index <= arguments.len(),
            names == parameter_names(views(arguments@)),
            forall|i: int| 0 <= i < index ==> names[i] != name@,
        decreases arguments.len() - index,
    {
        if same_text(arguments[index].name.as_str(), name) {
            proof {
                lemma_first_named_is(names, name@, index as int);
            }
            return Some(index);
        }
        index = index + 1;
    }
    proof {
        lemma_not_named(names, name@);
    }
    None
}

/// The index of the last parameter called `name`.
pub fn find_last_parameter(arguments: &Vec<VariableDefinition>, name: &str) -> (found: Option<
    usize,
>)
    ensures
        match found {
            Some(index) => last_named(parameter_names(views(arguments@)), name@) == Some(
                index as int,
            ),
            None => last_named(parameter_names(views(arguments@)), name@) is None,
        },
{
    let ghost names = parameter_names(views(arguments@));
    let mut index = arguments.len();
    while index > 0
        invariant
            index <= arguments.len(),
            names == parameter_names(views(arguments@)),
            forall|i: int| index <= i < names.len() ==> names[i] != name@,
        decreases index,
    {
        index = index - 1;
        if same_text(arguments[index].name.as_str(), name) {
            proof {
                lemma_last_named_is(names, name@, index as int);
            }
            return Some(index);
        }
    }
    proof {
        lemma_not_named(names, name@);
    }
    None
}

/// The index of the first native function called `name`.
pub fn find_native(table: &Vec<NativeFunction>, name: &str) -> (found: Option<usize>)
    ensures
        match found {
            Some(index) => first_named(native_names(views(table@)), name@) == Some(index as int),
            None => first_named(native_names(views(table@)), name@) is None,
        },
{
    let ghost names = native_names(views(table@));
    let mut index: usize = 0;
    while index < table.len()
        invariant
            index <= table.len(),
            names == native_names(views(table@)),
            forall|i: int| 0 <= i < index ==> names[i] != name@,
        decreases table.len() - index,
    {
        if same_text(table[index].name.as_str(), name) {
            proof {
                lemma_first_named_is(names, name@, index as int);
            }
            return Some(index);
        }
        index = index + 1;
    }
    proof {
        lemma_not_named(names, name@);
    }
    None
}

} // verus!
