//! The abstract syntax tree that the parser builds and the later stages read.

use vstd::prelude::*;

use crate::lexing::Location;
use crate::lexing::LocationView;
use crate::text::views;

verus! {

/// A whole program: its top-level statements, in source order.
#[derive(Debug, PartialEq, Eq)]
pub struct AST {
    pub statements: Vec<Statement>,
}

/// A top-level statement.
#[derive(Debug, PartialEq, Eq)]
pub enum Statement {
    FunctionDefinition(FunctionDefinition),
}

/// A function: its prototype and the expression that it evaluates to. The parser locates
/// it at its name.
#[derive(Debug, PartialEq, Eq)]
pub struct FunctionDefinition {
    pub prototype: FunctionPrototype,
    pub body: Expression,
    pub location: Location,
}

/// The name and the parameters of a function. The parser locates it at the token that
/// follows the closing parenthesis.
#[derive(Debug, PartialEq, Eq)]
pub struct FunctionPrototype {
    pub name: String,
    pub arguments: Vec<VariableDefinition>,
    pub location: Location,
}

/// The declaration of a parameter. The parser locates it at the token that follows the
/// name.
#[derive(Debug, PartialEq, Eq)]
pub struct VariableDefinition {
    pub name: String,
    pub location: Location,
}

/// An expression.
#[derive(Debug, PartialEq, Eq)]
pub enum Expression {
    FunctionCall(FunctionCall),
    Branch(Branch),
    Variable(Variable),
    Literal(Literal),
    /// The absence of a value: an empty body, or an `else` that was left out.
    Empty,
}

/// The call of a function with its parameter expressions, in order. The parser locates it
/// at the name of the function.
#[derive(Debug, PartialEq, Eq)]
pub struct FunctionCall {
    pub name: String,
    pub parameters: Vec<Expression>,
    pub location: Location,
}

/// A conditional: a condition and the two expressions between which it chooses. The second
/// is empty where the source has no `else`. The parser locates it at its `if`.
#[derive(Debug, PartialEq, Eq)]
pub struct Branch {
    pub condition: Box<Expression>,
    pub then_branch: Box<Expression>,
    pub else_branch: Box<Expression>,
    pub location: Location,
}

/// A reference to a parameter of the enclosing function. The parser locates it at the
/// token that follows the name.
#[derive(Debug, PartialEq, Eq)]
pub struct Variable {
    pub name: String,
    pub location: Location,
}

/// A literal value.
#[derive(Debug, PartialEq, Eq)]
pub enum Literal {
    Number(Number),
}

/// An unsigned 32-bit number as written in the source. The parser locates it at the token
/// that follows the number.
#[derive(Debug, PartialEq, Eq)]
pub struct Number {
    pub value: u32,
    pub location: Location,
}

/// The mathematical value of an [`Expression`].
pub enum ExpressionView {
    FunctionCall { name: Seq<char>, parameters: Seq<ExpressionView>, location: LocationView },
    Branch {
        condition: Box<ExpressionView>,
        then_branch: Box<ExpressionView>,
        else_branch: Box<ExpressionView>,
        location: LocationView,
    },
    Variable { name: Seq<char>, location: LocationView },
    Literal { value: u32, location: LocationView },
    Empty,
}

/// The mathematical value of a [`VariableDefinition`].
pub struct VariableDefinitionView {
    pub name: Seq<char>,
    pub location: LocationView,
}

/// The mathematical value of a [`FunctionPrototype`].
pub struct FunctionPrototypeView {
    pub name: Seq<char>,
    pub arguments: Seq<VariableDefinitionView>,
    pub location: LocationView,
}

/// The mathematical value of a [`FunctionDefinition`], and of the [`Statement`] that holds it.
pub struct FunctionDefinitionView {
    pub prototype: FunctionPrototypeView,
    pub body: ExpressionView,
    pub location: LocationView,
}

/// The mathematical value of an [`AST`].
pub struct ProgramView {
    pub statements: Seq<FunctionDefinitionView>,
}

/// The mathematical value of an expression.
pub open spec fn expression_view(expression: Expression) -> ExpressionView
    decreases expression,
{
    match expression {
        Expression::FunctionCall(call) => ExpressionView::FunctionCall {
            name: call.name@,
            parameters: Seq::new(
                call.parameters@.len(),
                |i: int|
                    if 0 <= i < call.parameters@.len() {
                        expression_view(call.parameters@[i])
                    } else {
                        ExpressionView::Empty
                    },
            ),
            location: call.location@,
        },
        Expression::Branch(branch) => ExpressionView::Branch {
            condition: Box::new(expression_view(*branch.condition)),
            then_branch: Box::new(expression_view(*branch.then_branch)),
            else_branch: Box::new(expression_view(*branch.else_branch)),
            location: branch.location@,
        },
        Expression::Variable(variable) => ExpressionView::Variable {
            name: variable.name@,
            location: variable.location@,
        },
        Expression::Literal(Literal::Number(number)) => ExpressionView::Literal {
            value: number.value,
            location: number.location@,
        },
        Expression::Empty => ExpressionView::Empty,
    }
}

impl View for Expression {
    type V = ExpressionView;

    open spec fn view(&self) -> ExpressionView {
        expression_view(*self)
    }
}

/// The view of a call's parameters is the sequence of their views.
pub proof fn lemma_parameters_view(call: FunctionCall)
    ensures
        Expression::FunctionCall(call)@ == (ExpressionView::FunctionCall {
            name: call.name@,
            parameters: views(call.parameters@),
            location: call.location@,
        }),
{
    let built = Expression::FunctionCall(call)@;
    assert(built->FunctionCall_parameters =~= views(call.parameters@));
}

impl View for VariableDefinition {
    type V = VariableDefinitionView;

    open spec fn view(&self) -> VariableDefinitionView {
        VariableDefinitionView { name: self.name@, location: self.location@ }
    }
}

impl View for FunctionPrototype {
    type V = FunctionPrototypeView;

    open spec fn view(&self) -> FunctionPrototypeView {
        FunctionPrototypeView {
            name: self.name@,
            arguments: views(self.arguments@),
            location: self.location@,
        }
    }
}

impl View for FunctionDefinition {
    type V = FunctionDefinitionView;

    open spec fn view(&self) -> FunctionDefinitionView {
        FunctionDefinitionView {
            prototype: self.prototype@,
            body: self.body@,
            location: self.location@,
        }
    }
}

impl View for Statement {
    type V = FunctionDefinitionView;

    open spec fn view(&self) -> FunctionDefinitionView {
        match self {
            Statement::FunctionDefinition(definition) => definition@,
        }
    }
}

impl View for AST {
    type V = ProgramView;

    open spec fn view(&self) -> ProgramView {
        ProgramView { statements: views(self.statements@) }
    }
}

} // verus!
