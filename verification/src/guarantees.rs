//! What validation guarantees of interpretation: a program without reports does not fail
//! for an unknown variable, an unknown function or a wrong number of parameters.

use vstd::prelude::*;

use crate::ast::ExpressionView;
use crate::ast::ProgramView;
use crate::interpretation::evaluate;
use crate::interpretation::evaluate_call;
use crate::interpretation::evaluate_each;
use crate::interpretation::execution;
use crate::interpretation::Evaluation;
use crate::interpretation::FrameView;
use crate::interpretation::RuntimeIssue;
use crate::lexing::LocationView;
use crate::names::first_named;
use crate::names::function_names;
use crate::names::last_named;
use crate::names::lemma_first_named;
use crate::names::lemma_last_named;
use crate::names::parameter_names;
use crate::native::lemma_native_arity;
use crate::native::Native;
use crate::validation::call_reports;
use crate::validation::expression_reports;
use crate::validation::expressions_reports;
use crate::validation::functions_reports;
use crate::validation::validation;

verus! {

/// Whether validation rules an error out: an unknown variable, an unknown function or a
/// wrong number of parameters.
pub open spec fn ruled_out(issue: RuntimeIssue) -> bool {
    issue is UnboundVariable || issue is UnknownFunction || issue is ArityMismatch
}

/// Whether an evaluation did not stop for an error that validation rules out.
pub open spec fn sound<T>(evaluation: Evaluation<T>) -> bool {
    evaluation.result matches Err(error) ==> !ruled_out(error.issue)
}

/// Whether no definition of the program takes the name of a native function.
pub open spec fn natives_are_free(program: ProgramView) -> bool {
    forall|i: int|
        0 <= i < program.statements.len() ==> Native::named(
            (#[trigger] program.statements[i]).prototype.name,
        ) is None
}

/// Whether validation reports nothing on the body of any definition of the program.
pub open spec fn bodies_are_clean(program: ProgramView) -> bool {
    forall|i: int|
        0 <= i < program.statements.len() ==> expression_reports(
            program,
            (#[trigger] program.statements[i]).prototype.arguments,
            program.statements[i].body,
        ).len() == 0
}

/// Where validation reports nothing on the first `count` functions, it reports nothing on
/// the body of any of them.
proof fn lemma_clean_functions(program: ProgramView, count: nat, index: int)
    requires
        functions_reports(program, count).len() == 0,
        0 <= index < count,
    ensures
        expression_reports(
            program,
            program.statements[index].prototype.arguments,
            program.statements[index].body,
        ).len() == 0,
    decreases count,
{
    if index < count - 1 {
        lemma_clean_functions(program, (count - 1) as nat, index);
    }
}

/// Where validation reports nothing on a program, it reports nothing on the body of any
/// of its definitions.
pub proof fn lemma_clean_bodies(program: ProgramView)
    requires
        validation(program).len() == 0,
    ensures
        bodies_are_clean(program),
{
    assert forall|i: int| 0 <= i < program.statements.len() implies expression_reports(
        program,
        (#[trigger] program.statements[i]).prototype.arguments,
        program.statements[i].body,
    ).len() == 0 by {
        lemma_clean_functions(program, program.statements.len(), i);
    }
}

/// The parameters of a call that are evaluated without error give as many values as they
/// are.
pub proof fn lemma_as_many_values(
    program: ProgramView,
    frame: FrameView,
    expressions: Seq<ExpressionView>,
    depth: nat,
    name: Seq<char>,
    location: LocationView,
)
    ensures
        evaluate_each(program, frame, expressions, depth, name, location).result matches Ok(
            values,
        ) ==> values.len() == expressions.len(),
    decreases expressions.len(),
{
    if expressions.len() > 0 {
        lemma_as_many_values(program, frame, expressions.drop_last(), depth, name, location);
    }
}

/// An expression on which validation reports nothing, in a program on whose bodies it
/// reports nothing and whose definitions leave the names of the native functions free, is
/// evaluated without an error that validation rules out.
pub proof fn lemma_sound_expression(
    program: ProgramView,
    frame: FrameView,
    expression: ExpressionView,
    depth: nat,
)
    requires
        bodies_are_clean(program),
        natives_are_free(program),
        expression_reports(program, frame.arguments, expression).len() == 0,
    ensures
        sound(evaluate(program, frame, expression, depth)),
    decreases depth, expression, 0nat,
{
    match expression {
        ExpressionView::Variable { name, .. } => {
            lemma_first_named(parameter_names(frame.arguments), name);
            lemma_last_named(parameter_names(frame.arguments), name);
        },
        ExpressionView::Branch { condition, then_branch, else_branch, .. } => {
            lemma_sound_expression(program, frame, *condition, depth);
            lemma_sound_expression(program, frame, *then_branch, depth);
            lemma_sound_expression(program, frame, *else_branch, depth);
        },
        ExpressionView::FunctionCall { name, parameters, location } => {
            lemma_sound_call(program, frame, name, parameters, location, depth);
        },
        _ => {},
    }
}

/// A call on which validation reports nothing is evaluated without an error that
/// validation rules out.
pub proof fn lemma_sound_call(
    program: ProgramView,
    frame: FrameView,
    name: Seq<char>,
    parameters: Seq<ExpressionView>,
    location: LocationView,
    depth: nat,
)
    requires
        bodies_are_clean(program),
        natives_are_free(program),
        call_reports(program, name, parameters.len(), location).len() == 0,
        expressions_reports(program, frame.arguments, parameters).len() == 0,
    ensures
        sound(evaluate_call(program, frame, name, parameters, location, depth)),
    decreases depth, parameters, 2nat,
{
    lemma_sound_parameters(program, frame, parameters, depth, name, location);
    lemma_as_many_values(program, frame, parameters, depth, name, location);
    lemma_native_arity(name);
    lemma_last_named(function_names(program), name);
    let given = evaluate_each(program, frame, parameters, depth, name, location);
    if let Ok(values) = given.result {
        if Native::named(name) is None {
            if let Some(index) = last_named(function_names(program), name) {
                let function = program.statements[index];
                if depth > 0 {
                    lemma_sound_expression(
                        program,
                        FrameView { arguments: function.prototype.arguments, values },
                        function.body,
                        (depth - 1) as nat,
                    );
                }
            }
        } else {
            if let Some(index) = last_named(function_names(program), name) {
                assert(Native::named(program.statements[index].prototype.name) is None);
            }
        }
    }
}

/// Parameters on which validation reports nothing are evaluated without an error that
/// validation rules out.
pub proof fn lemma_sound_parameters(
    program: ProgramView,
    frame: FrameView,
    expressions: Seq<ExpressionView>,
    depth: nat,
    name: Seq<char>,
    location: LocationView,
)
    requires
        bodies_are_clean(program),
        natives_are_free(program),
        expressions_reports(program, frame.arguments, expressions).len() == 0,
    ensures
        sound(evaluate_each(program, frame, expressions, depth, name, location)),
    decreases depth, expressions, 1nat,
{
    if expressions.len() > 0 {
        lemma_sound_parameters(program, frame, expressions.drop_last(), depth, name, location);
        lemma_sound_expression(program, frame, expressions.last(), depth);
    }
}

/// Validation is sound. A program on which it reports nothing, and whose definitions leave
/// the names of the native functions free, does not fail for an unknown variable, an
/// unknown function or a wrong number of parameters, to whatever depth it is run.
pub proof fn theorem_validation_is_sound(program: ProgramView, depth: nat)
    requires
        validation(program).len() == 0,
        natives_are_free(program),
    ensures
        sound(execution(program, depth)),
{
    lemma_clean_bodies(program);
    lemma_first_named(function_names(program), "main"@);
    if let Some(index) = first_named(function_names(program), "main"@) {
        let main = program.statements[index];
        if main.prototype.arguments.len() == 0 {
            assert(main.prototype.arguments =~= FrameView::empty().arguments);
            lemma_sound_expression(program, FrameView::empty(), main.body, depth);
        }
    }
}

} // verus!
