//! The native functions of the language: a fixed table of names and parameters, and what
//! each of them computes.

use vstd::prelude::*;

use crate::ast::VariableDefinition;
use crate::ast::VariableDefinitionView;
use crate::lexing::Location;
use crate::lexing::LocationView;
use crate::names::first_named;
use crate::names::native_names;
use crate::text::same_text;
use crate::text::views;

verus! {

/// Bitwise OR.
pub fn or(a: u32, b: u32) -> (result: u32)
    ensures
        result == a | b,
{
    a | b
}

/// Bitwise AND.
pub fn and(a: u32, b: u32) -> (result: u32)
    ensures
        result == a & b,
{
    a & b
}

/// Bitwise XOR.
pub fn xor(a: u32, b: u32) -> (result: u32)
    ensures
        result == a ^ b,
{
    a ^ b
}

/// Bitwise NOT: the complement over 32 bits.
pub fn not(a: u32) -> (result: u32)
    ensures
        result == !a,
{
    !a
}

/// 1 if the two values are equal, else 0.
pub fn equal(a: u32, b: u32) -> (result: u32)
    ensures
        result == if a == b { 1u32 } else { 0u32 },
{
    if a == b {
        1
    } else {
        0
    }
}

/// The sum, which must fit in 32 bits.
pub fn add(a: u32, b: u32) -> (result: u32)
    requires
        a + b <= u32::MAX,
    ensures
        result == a + b,
{
    a + b
}

/// The difference, which must not be negative.
pub fn sub(a: u32, b: u32) -> (result: u32)
    requires
        b <= a,
    ensures
        result == a - b,
{
    a - b
}

/// The product, which must fit in 32 bits.
pub fn multiply(a: u32, b: u32) -> (result: u32)
    requires
        a * b <= u32::MAX,
    ensures
        result == a * b,
{
    a * b
}

/// Writes a value to the program's output, which keeps the values in the order written.
pub fn print(a: u32, output: &mut Vec<u32>)
    ensures
        final(output)@ == old(output)@.push(a),
{
    output.push(a);
}

/// The native functions.
#[derive(Debug, Clone, Copy, PartialEq, Eq, Structural)]
pub enum Native {
    Or,
    And,
    Xor,
    Not,
    Equal,
    Add,
    Sub,
    Multiply,
    Print,
}

impl Native {
    /// The native function called `name`, if there is one.
    pub open spec fn named(name: Seq<char>) -> Option<Native> {
        if name == "or"@ {
            Some(Native::Or)
        } else if name == "and"@ {
            Some(Native::And)
        } else if name == "xor"@ {
            Some(Native::Xor)
        } else if name == "not"@ {
            Some(Native::Not)
        } else if name == "equal"@ {
            Some(Native::Equal)
        } else if name == "add"@ {
            Some(Native::Add)
        } else if name == "sub"@ {
            Some(Native::Sub)
        } else if name == "multiply"@ {
            Some(Native::Multiply)
        } else if name == "print"@ {
            Some(Native::Print)
        } else {
            None
        }
    }

    /// The number of parameters that the function takes.
    pub open spec fn arity(self) -> nat {
        match self {
            Native::Not | Native::Print => 1,
            _ => 2,
        }
    }

    /// What the function computes from its parameters, which are as many as it takes:
    /// a value, or no value for `print`. Nothing is owed where a sum or a product does not
    /// fit in 32 bits, or a difference is negative.
    pub open spec fn value(self, parameters: Seq<u32>) -> Option<Option<u32>> {
        let a = parameters[0];
        let b = parameters[1];
        match self {
            Native::Or => Some(Some(a | b)),
            Native::And => Some(Some(a & b)),
            Native::Xor => Some(Some(a ^ b)),
            Native::Not => Some(Some(!a)),
            Native::Equal => Some(Some(if a == b { 1u32 } else { 0u32 })),
            Native::Add => if a + b <= u32::MAX {
                Some(Some((a + b) as u32))
            } else {
                None
            },
            Native::Sub => if b <= a {
                Some(Some((a - b) as u32))
            } else {
                None
            },
            Native::Multiply => if a * b <= u32::MAX {
                Some(Some((a * b) as u32))
            } else {
                None
            },
            Native::Print => Some(None),
        }
    }

    /// What the function writes to the output.
    pub open spec fn written(self, parameters: Seq<u32>) -> Seq<u32> {
        match self {
            Native::Print => seq![parameters[0]],
            _ => seq![],
        }
    }

    /// The native function called `name`, if there is one.
    pub fn find(name: &str) -> (found: Option<Native>)
        ensures
            found == Native::named(name@),
    {
        if same_text(name, "or") {
            Some(Native::Or)
        } else if same_text(name, "and") {
            Some(Native::And)
        } else if same_text(name, "xor") {
            Some(Native::Xor)
        } else if same_text(name, "not") {
            Some(Native::Not)
        } else if same_text(name, "equal") {
            Some(Native::Equal)
        } else if same_text(name, "add") {
            Some(Native::Add)
        } else if same_text(name, "sub") {
            Some(Native::Sub)
        } else if same_text(name, "multiply") {
            Some(Native::Multiply)
        } else if same_text(name, "print") {
            Some(Native::Print)
        } else {
            None
        }
    }

    /// The number of parameters that the function takes.
    pub fn parameters(self) -> (count: usize)
        ensures
            count == self.arity(),
    {
        match self {
            Native::Not | Native::Print => 1,
            _ => 2,
        }
    }
}

/// A native function: its name and its parameters.
#[derive(Debug, PartialEq, Eq)]
pub struct NativeFunction {
    pub name: String,
    pub arguments: Vec<VariableDefinition>,
}

/// The mathematical value of a [`NativeFunction`].
pub struct NativeFunctionView {
    pub name: Seq<char>,
    pub arguments: Seq<VariableDefinitionView>,
}

impl View for NativeFunction {
    type V = NativeFunctionView;

    open spec fn view(&self) -> NativeFunctionView {
        NativeFunctionView { name: self.name@, arguments: views(self.arguments@) }
    }
}

/// The location of what stands in no source file: an empty path, line 0, column 0.
pub open spec fn nowhere() -> LocationView {
    LocationView { path: Seq::empty(), line: 0, column: 0 }
}

/// A parameter of a native function.
pub open spec fn native_parameter(name: Seq<char>) -> VariableDefinitionView {
    VariableDefinitionView { name, location: nowhere() }
}

/// A native function of one parameter, `a`.
pub open spec fn unary(name: Seq<char>) -> NativeFunctionView {
    NativeFunctionView { name, arguments: seq![native_parameter("a"@)] }
}

/// A native function of two parameters, `a` and `b`.
pub open spec fn binary(name: Seq<char>) -> NativeFunctionView {
    NativeFunctionView { name, arguments: seq![native_parameter("a"@), native_parameter("b"@)] }
}

/// The table of the native functions.
pub open spec fn native_functions() -> Seq<NativeFunctionView> {
    seq![
        binary("or"@),
        binary("and"@),
        binary("xor"@),
        unary("not"@),
        binary("equal"@),
        binary("add"@),
        binary("sub"@),
        binary("multiply"@),
        unary("print"@),
    ]
}

/// The number of parameters of the native function called `name`, if there is one.
pub open spec fn native_arity(name: Seq<char>) -> Option<nat> {
    match first_named(native_names(native_functions()), name) {
        Some(index) => Some(native_functions()[index].arguments.len()),
        None => None,
    }
}

/// A parameter of a native function.
fn parameter(name: &str) -> (argument: VariableDefinition)
    ensures
        argument@ == native_parameter(name@),
{
    VariableDefinition {
        name: name.to_owned(),
        location: Location { path: String::new(), line: 0, column: 0 },
    }
}

/// A native function of one parameter.
fn unary_function(name: &str) -> (function: NativeFunction)
    ensures
        function@ == unary(name@),
{
    let mut arguments: Vec<VariableDefinition> = Vec::new();
    arguments.push(parameter("a"));
    assert(views(arguments@) =~= seq![native_parameter("a"@)]);
    NativeFunction { name: name.to_owned(), arguments }
}

/// A native function of two parameters.
fn binary_function(name: &str) -> (function: NativeFunction)
    ensures
        function@ == binary(name@),
{
    let mut arguments: Vec<VariableDefinition> = Vec::new();
    arguments.push(parameter("a"));
    arguments.push(parameter("b"));
    assert(views(arguments@) =~= seq![native_parameter("a"@), native_parameter("b"@)]);
    NativeFunction { name: name.to_owned(), arguments }
}

/// The table of the native functions.
pub fn native_functions_map() -> (table: Vec<NativeFunction>)
    ensures
        views(table@) == native_functions(),
{
    let mut table: Vec<NativeFunction> = Vec::new();
    table.push(binary_function("or"));
    table.push(binary_function("and"));
    table.push(binary_function("xor"));
    table.push(unary_function("not"));
    table.push(binary_function("equal"));
    table.push(binary_function("add"));
    table.push(binary_function("sub"));
    table.push(binary_function("multiply"));
    table.push(unary_function("print"));
    assert(views(table@) =~= native_functions());
    table
}

/// The table holds each native function under its name, with as many parameters as it takes.
pub proof fn lemma_native_arity(name: Seq<char>)
    ensures
        native_arity(name) == match Native::named(name) {
            Some(native) => Some(native.arity()),
            None => None,
        },
{
    let names = native_names(native_functions());
    assert(names =~= seq![
        "or"@,
        "and"@,
        "xor"@,
        "not"@,
        "equal"@,
        "add"@,
        "sub"@,
        "multiply"@,
        "print"@,
    ]);
    crate::names::lemma_first_named(names, name);
}

} // verus!
