//! Interpretation: a tree-walking evaluator of the abstract syntax tree.
//!
//! A call evaluates its parameters from left to right in the caller's frame, then runs the
//! native function of that name, else the body of the definition in force in a fresh frame.
//! What `print` writes is kept, in order, in the interpreter's output. Every anomaly is an
//! error value; the nesting of calls is bounded, so that evaluation always ends.

use vstd::prelude::*;

use crate::ast::lemma_parameters_view;
use crate::ast::AST;
use crate::ast::Expression;
use crate::ast::ExpressionView;
use crate::ast::FunctionCall;
use crate::ast::Literal;
use crate::ast::ProgramView;
use crate::ast::Statement;
use crate::ast::VariableDefinition;
use crate::ast::VariableDefinitionView;
use crate::lexing::Location;
use crate::lexing::LocationView;
use crate::names::find_first_function;
use crate::names::find_function;
use crate::names::find_last_parameter;
use crate::names::first_named;
use crate::names::function_names;
use crate::names::last_named;
use crate::names::lemma_first_named;
use crate::names::lemma_last_named;
use crate::names::parameter_names;
use crate::native::nowhere;
use crate::native::Native;
use crate::text::decimal;
use crate::text::push_decimal;
use crate::text::push_text;
use crate::text::surround;
use crate::text::views;

verus! {

/// What went wrong during interpretation.
#[derive(Debug, Clone, Copy, PartialEq, Eq, Structural)]
pub enum RuntimeIssue {
    /// The program defines no function called `main`.
    MissingMain,
    /// The function called `main` takes parameters.
    MainTakesParameters,
    /// A variable is no parameter of the function that reads it.
    UnboundVariable,
    /// A call names a function that is neither native nor defined.
    UnknownFunction,
    /// A call has more or fewer parameters than the function takes.
    ArityMismatch,
    /// A condition or a parameter gave no value.
    MissingValue,
    /// A sum or a product does not fit in 32 bits, or a difference is negative.
    Overflow,
    /// Calls are nested deeper than the interpreter's limit.
    DepthExceeded,
}

/// An error of interpretation: what went wrong, the name concerned and the place.
#[derive(Debug, PartialEq, Eq)]
pub struct RuntimeError {
    pub issue: RuntimeIssue,
    pub name: String,
    pub location: Location,
}

/// The mathematical value of a [`RuntimeError`].
pub struct RuntimeErrorView {
    pub issue: RuntimeIssue,
    pub name: Seq<char>,
    pub location: LocationView,
}

impl RuntimeErrorView {
    /// The message of the error.
    pub open spec fn message(self) -> Seq<char> {
        match self.issue {
            RuntimeIssue::MissingMain => "no main function"@,
            RuntimeIssue::MainTakesParameters => "function \"main\" takes parameters"@,
            RuntimeIssue::UnboundVariable => "unknown variable \""@ + self.name + "\""@,
            RuntimeIssue::UnknownFunction => "unknown function \""@ + self.name + "\""@,
            RuntimeIssue::ArityMismatch => "function \""@ + self.name
                + "\" received the wrong number of parameters"@,
            RuntimeIssue::MissingValue => "\""@ + self.name + "\" received no value"@,
            RuntimeIssue::Overflow => "the result of \""@ + self.name + "\" is out of range"@,
            RuntimeIssue::DepthExceeded => "the call of \""@ + self.name
                + "\" is nested too deep"@,
        }
    }

    /// The error as diagnostics show it: the location, a space, the message.
    pub open spec fn text(self) -> Seq<char> {
        self.location.text() + " "@ + self.message()
    }
}

impl RuntimeError {
    /// The message of the error.
    pub fn message(&self) -> (text: String)
        ensures
            text@ == self@.message(),
    {
        let name = self.name.as_str();
        match self.issue {
            RuntimeIssue::MissingMain => "no main function".to_owned(),
            RuntimeIssue::MainTakesParameters => "function \"main\" takes parameters".to_owned(),
            RuntimeIssue::UnboundVariable => surround("unknown variable \"", name, "\""),
            RuntimeIssue::UnknownFunction => surround("unknown function \"", name, "\""),
            RuntimeIssue::ArityMismatch => surround(
                "function \"",
                name,
                "\" received the wrong number of parameters",
            ),
            RuntimeIssue::MissingValue => surround("\"", name, "\" received no value"),
            RuntimeIssue::Overflow => surround("the result of \"", name, "\" is out of range"),
            RuntimeIssue::DepthExceeded => surround(
                "the call of \"",
                name,
                "\" is nested too deep",
            ),
        }
    }

    /// The error as diagnostics show it: `path:line:column message`.
    pub fn to_string(&self) -> (text: String)
        ensures
            text@ == self@.text(),
    {
        let mut text = self.location.to_string();
        push_text(&mut text, " ");
        push_text(&mut text, self.message().as_str());
        text
    }
}

impl View for RuntimeError {
    type V = RuntimeErrorView;

    open spec fn view(&self) -> RuntimeErrorView {
        RuntimeErrorView { issue: self.issue, name: self.name@, location: self.location@ }
    }
}

/// A frame: the parameters of the function that runs and the values bound to them, by
/// position.
pub struct FrameView {
    pub arguments: Seq<VariableDefinitionView>,
    pub values: Seq<u32>,
}

impl FrameView {
    /// The frame of a function without parameters.
    pub open spec fn empty() -> FrameView {
        FrameView { arguments: Seq::empty(), values: Seq::empty() }
    }

    /// The value bound to `name`: that of the last parameter of that name.
    pub open spec fn lookup(self, name: Seq<char>) -> Option<u32> {
        match last_named(parameter_names(self.arguments), name) {
            Some(index) => Some(self.values[index]),
            None => None,
        }
    }
}

/// What the interpreter tells an observer: that the evaluation of a call of a function
/// begins, or that it has ended.
pub enum CallEvent {
    Enter(Seq<char>),
    Leave(Seq<char>),
}

/// What an evaluation gives: a result or the error that stopped it, what it wrote to the
/// output until then, and the calls it began and ended until then.
pub struct Evaluation<T> {
    pub result: Result<T, RuntimeErrorView>,
    pub output: Seq<u32>,
    pub events: Seq<CallEvent>,
}

impl<T> Evaluation<T> {
    /// An evaluation that writes nothing and calls nothing.
    pub open spec fn quiet(result: Result<T, RuntimeErrorView>) -> Evaluation<T> {
        Evaluation { result, output: seq![], events: seq![] }
    }

    /// This evaluation stopped by an error: what it wrote and called stays.
    pub open spec fn stopped<U>(self, error: RuntimeErrorView) -> Evaluation<U> {
        Evaluation { result: Err(error), output: self.output, events: self.events }
    }

    /// This evaluation after an earlier one: what the earlier one wrote and called comes
    /// first.
    pub open spec fn after<U>(self, earlier: Evaluation<U>) -> Evaluation<T> {
        Evaluation {
            result: self.result,
            output: earlier.output + self.output,
            events: earlier.events + self.events,
        }
    }

    /// This evaluation as that of a call of `name`: it lies between the beginning and the
    /// end of the call, whether it failed or not.
    pub open spec fn within(self, name: Seq<char>) -> Evaluation<T> {
        Evaluation {
            result: self.result,
            output: self.output,
            events: seq![CallEvent::Enter(name)] + self.events + seq![CallEvent::Leave(name)],
        }
    }
}

/// The error of a call, of a variable or of a branch.
pub open spec fn failure(issue: RuntimeIssue, name: Seq<char>, location: LocationView)
    -> RuntimeErrorView {
    RuntimeErrorView { issue, name, location }
}

/// The value of an expression in a frame, with at most `depth` nested calls of defined
/// functions.
pub open spec fn evaluate(
    program: ProgramView,
    frame: FrameView,
    expression: ExpressionView,
    depth: nat,
) -> Evaluation<Option<u32>>
    decreases depth, expression, 0nat,
{
    match expression {
        ExpressionView::Empty => Evaluation::quiet(Ok(None)),
        ExpressionView::Literal { value, .. } => Evaluation::quiet(Ok(Some(value))),
        ExpressionView::Variable { name, location } => Evaluation::quiet(
            match frame.lookup(name) {
                Some(value) => Ok(Some(value)),
                None => Err(failure(RuntimeIssue::UnboundVariable, name, location)),
            },
        ),
        ExpressionView::Branch { condition, then_branch, else_branch, location } => {
            let tested = evaluate(program, frame, *condition, depth);
            match tested.result {
                Err(error) => tested.stopped(error),
                Ok(None) => tested.stopped(failure(RuntimeIssue::MissingValue, "if"@, location)),
                Ok(Some(value)) => if value == 1 {
                    evaluate(program, frame, *then_branch, depth).after(tested)
                } else {
                    evaluate(program, frame, *else_branch, depth).after(tested)
                },
            }
        },
        ExpressionView::FunctionCall { name, parameters, location } => evaluate_call(
            program,
            frame,
            name,
            parameters,
            location,
            depth,
        ).within(name),
    }
}

/// What a call gives between its beginning and its end: the parameters are evaluated, then
/// the native function of the name is applied to them, else the body of the definition in
/// force is evaluated in the frame that binds them.
pub open spec fn evaluate_call(
    program: ProgramView,
    frame: FrameView,
    name: Seq<char>,
    parameters: Seq<ExpressionView>,
    location: LocationView,
    depth: nat,
) -> Evaluation<Option<u32>>
    decreases depth, parameters, 2nat,
{
    let given = evaluate_each(program, frame, parameters, depth, name, location);
    match given.result {
        Err(error) => given.stopped(error),
        Ok(values) => match Native::named(name) {
            Some(native) => if values.len() != native.arity() {
                given.stopped(failure(RuntimeIssue::ArityMismatch, name, location))
            } else {
                match native.value(values) {
                    Some(value) => (Evaluation {
                        result: Ok(value),
                        output: native.written(values),
                        events: seq![],
                    }).after(given),
                    None => given.stopped(failure(RuntimeIssue::Overflow, name, location)),
                }
            },
            None => match last_named(function_names(program), name) {
                None => given.stopped(failure(RuntimeIssue::UnknownFunction, name, location)),
                Some(index) => {
                    let function = program.statements[index];
                    if function.prototype.arguments.len() != values.len() {
                        given.stopped(failure(RuntimeIssue::ArityMismatch, name, location))
                    } else if depth == 0 {
                        given.stopped(failure(RuntimeIssue::DepthExceeded, name, location))
                    } else {
                        evaluate(
                            program,
                            FrameView { arguments: function.prototype.arguments, values },
                            function.body,
                            (depth - 1) as nat,
                        ).after(given)
                    }
                },
            },
        },
    }
}

/// The values of the parameters of a call, evaluated from left to right. The first error
/// stops the evaluation; a parameter without a value is an error of the call.
pub open spec fn evaluate_each(
    program: ProgramView,
    frame: FrameView,
    expressions: Seq<ExpressionView>,
    depth: nat,
    name: Seq<char>,
    location: LocationView,
) -> Evaluation<Seq<u32>>
    decreases depth, expressions, 1nat,
{
    if expressions.len() == 0 {
        Evaluation::quiet(Ok(seq![]))
    } else {
        let before = evaluate_each(program, frame, expressions.drop_last(), depth, name, location);
        match before.result {
            Err(error) => before,
            Ok(values) => {
                let last = evaluate(program, frame, expressions.last(), depth);
                (Evaluation {
                    result: match last.result {
                        Err(error) => Err(error),
                        Ok(None) => Err(failure(RuntimeIssue::MissingValue, name, location)),
                        Ok(Some(value)) => Ok(values.push(value)),
                    },
                    output: last.output,
                    events: last.events,
                }).after(before)
            },
        }
    }
}

/// The run of a program: the body of the first function called `main`, which takes no
/// parameters, is evaluated in an empty frame.
pub open spec fn execution(program: ProgramView, depth: nat) -> Evaluation<()> {
    match first_named(function_names(program), "main"@) {
        None => Evaluation::quiet(Err(failure(RuntimeIssue::MissingMain, "main"@, nowhere()))),
        Some(index) => {
            let main = program.statements[index];
            if main.prototype.arguments.len() != 0 {
                Evaluation::quiet(
                    Err(failure(RuntimeIssue::MainTakesParameters, "main"@, main.location)),
                )
            } else {
                let run = evaluate(program, FrameView::empty(), main.body, depth);
                Evaluation {
                    result: match run.result {
                        Ok(_) => Ok(()),
                        Err(error) => Err(error),
                    },
                    output: run.output,
                    events: run.events,
                }
            }
        },
    }
}

/// Whether an exec result is the expected one.
pub open spec fn yields<T>(
    result: Result<T, RuntimeError>,
    expected: Result<T, RuntimeErrorView>,
) -> bool {
    match expected {
        Ok(value) => result == Ok::<T, RuntimeError>(value),
        Err(error) => {
            &&& result matches Err(given)
            &&& given@ == error
        },
    }
}

/// The mathematical value of the parts of a call.
pub open spec fn call_evaluation(
    program: ProgramView,
    frame: FrameView,
    call: FunctionCall,
    depth: nat,
) -> Evaluation<Option<u32>> {
    evaluate_call(program, frame, call.name@, views(call.parameters@), call.location@, depth)
}

/// An observer of the calls that the interpreter evaluates. It is told when the evaluation
/// of a call begins, before the parameters are evaluated, and when it ends, with or without
/// an error. It has no part in the evaluation.
pub trait CallObserver {
    /// The evaluation of a call of `name` begins.
    fn enter(&mut self, name: &str);

    /// The evaluation of the innermost call that began, one of `name`, has ended.
    fn leave(&mut self, name: &str);
}

/// The observer that does nothing.
#[derive(Debug, Clone, Copy, PartialEq, Eq, Default)]
pub struct Unobserved;

impl CallObserver for Unobserved {
    fn enter(&mut self, name: &str) {
    }

    fn leave(&mut self, name: &str) {
    }
}

/// The depth to which a new interpreter lets calls of defined functions nest.
pub const DEFAULT_DEPTH: usize = 200;

/// The interpreter: the output that the programs it ran have written, the depth to which
/// it lets calls of defined functions nest, and the record of what it told observers.
pub struct Interpreter {
    pub output: Vec<u32>,
    pub depth: usize,
    pub told: Ghost<Seq<CallEvent>>,
}

/// Whether an interpreter went from `before` to `after` by an evaluation that gave
/// `result`: the depth is the same, and what the evaluation wrote and what it told the
/// observer were added.
pub open spec fn performed<T>(
    before: Interpreter,
    after: Interpreter,
    result: Result<T, RuntimeError>,
    expected: Evaluation<T>,
) -> bool {
    &&& after.depth == before.depth
    &&& after.output@ == before.output@ + expected.output
    &&& after.told@ == before.told@ + expected.events
    &&& yields(result, expected.result)
}

impl Interpreter {
    /// An interpreter that has written nothing and told nothing, with the default depth.
    pub fn new() -> (interpreter: Self)
        ensures
            interpreter.output@ == Seq::<u32>::empty(),
            interpreter.depth == DEFAULT_DEPTH,
            interpreter.told@ == Seq::<CallEvent>::empty(),
    {
        Interpreter { output: Vec::new(), depth: DEFAULT_DEPTH, told: Ghost(Seq::empty()) }
    }

    /// Runs a program: evaluates the body of `main` and appends what it writes to the output.
    pub fn run(&mut self, ast: &AST) -> (result: Result<(), RuntimeError>)
        ensures
            performed(*old(self), *final(self), result, execution(ast@, old(self).depth as nat)),
    {
        let mut observer = Unobserved;
        self.run_observed(ast, &mut observer)
    }

    /// Runs a program as [`Interpreter::run`] does, and tells `observer` of each call.
    pub fn run_observed<O: CallObserver>(&mut self, ast: &AST, observer: &mut O) -> (result:
        Result<(), RuntimeError>)
        ensures
            performed(*old(self), *final(self), result, execution(ast@, old(self).depth as nat)),
    {
        let statements = &ast.statements;
        proof {
            lemma_first_named(function_names(ast@), "main"@);
            assert(self.output@ + Seq::<u32>::empty() =~= self.output@);
            assert(self.told@ + Seq::<CallEvent>::empty() =~= self.told@);
        }
        match find_first_function(statements, "main") {
            None => Err(
                RuntimeError {
                    issue: RuntimeIssue::MissingMain,
                    name: "main".to_owned(),
                    location: Location { path: String::new(), line: 0, column: 0 },
                },
            ),
            Some(index) => {
                let Statement::FunctionDefinition(main) = &statements[index];
                assert(main@ == ast@.statements[index as int]);
                if main.prototype.arguments.len() != 0 {
                    return Err(
                        RuntimeError {
                            issue: RuntimeIssue::MainTakesParameters,
                            name: "main".to_owned(),
                            location: main.location.clone(),
                        },
                    );
                }
                let arguments: Vec<VariableDefinition> = Vec::new();
                let values: Vec<u32> = Vec::new();
                assert(views(arguments@) =~= Seq::<VariableDefinitionView>::empty());
                let depth = self.depth;
                match self.interpretate(
                    &main.body,
                    &arguments,
                    &values,
                    statements,
                    depth,
                    observer,
                ) {
                    Ok(_) => Ok(()),
                    Err(error) => Err(error),
                }
            },
        }
    }

    /// Evaluates an expression in the frame that binds `values` to `arguments`.
    fn interpretate<O: CallObserver>(
        &mut self,
        expression: &Expression,
        arguments: &Vec<VariableDefinition>,
        values: &Vec<u32>,
        statements: &Vec<Statement>,
        depth: usize,
        observer: &mut O,
    ) -> (result: Result<Option<u32>, RuntimeError>)
        requires
            arguments@.len() == values@.len(),
        ensures
            performed(
                *old(self),
                *final(self),
                result,
                evaluate(
                    ProgramView { statements: views(statements@) },
                    FrameView { arguments: views(arguments@), values: values@ },
                    expression@,
                    depth as nat,
                ),
            ),
        decreases depth, expression, 1nat,
    {
        let ghost program = ProgramView { statements: views(statements@) };
        let ghost frame = FrameView { arguments: views(arguments@), values: values@ };
        proof {
            assert(self.output@ + Seq::<u32>::empty() =~= self.output@);
            assert(self.told@ + Seq::<CallEvent>::empty() =~= self.told@);
        }
        match expression {
            Expression::Empty => Ok(None),
            Expression::Literal(Literal::Number(number)) => Ok(Some(number.value)),
            Expression::Variable(variable) => {
                proof {
                    lemma_last_named(parameter_names(frame.arguments), variable.name@);
                }
                match find_last_parameter(arguments, variable.name.as_str()) {
                    Some(index) => Ok(Some(values[index])),
                    None => Err(
                        RuntimeError {
                            issue: RuntimeIssue::UnboundVariable,
                            name: variable.name.clone(),
                            location: variable.location.clone(),
                        },
                    ),
                }
            },
            Expression::Branch(branch) => {
                let ghost tested = evaluate(program, frame, (*branch.condition)@, depth as nat);
                let condition = match self.interpretate(
                    &*branch.condition,
                    arguments,
                    values,
                    statements,
                    depth,
                    observer,
                ) {
                    Ok(condition) => condition,
                    Err(error) => {
                        return Err(error);
                    },
                };
                match condition {
                    None => Err(
                        RuntimeError {
                            issue: RuntimeIssue::MissingValue,
                            name: "if".to_owned(),
                            location: branch.location.clone(),
                        },
                    ),
                    Some(value) => {
                        let chosen = if value == 1 {
                            &*branch.then_branch
                        } else {
                            &*branch.else_branch
                        };
                        let ghost selected = evaluate(program, frame, chosen@, depth as nat);
                        let result = self.interpretate(
                            chosen,
                            arguments,
                            values,
                            statements,
                            depth,
                            observer,
                        );
                        proof {
                            assert(old(self).output@ + tested.output + selected.output =~= old(
                                self,
                            ).output@ + (tested.output + selected.output));
                            assert(old(self).told@ + tested.events + selected.events =~= old(
                                self,
                            ).told@ + (tested.events + selected.events));
                        }
                        result
                    },
                }
            },
            Expression::FunctionCall(call) => {
                proof {
                    lemma_parameters_view(*call);
                }
                let ghost inner = call_evaluation(program, frame, *call, depth as nat);
                observer.enter(call.name.as_str());
                self.told = Ghost(self.told@.push(CallEvent::Enter(call.name@)));
                let result = self.call(call, arguments, values, statements, depth, observer);
                observer.leave(call.name.as_str());
                self.told = Ghost(self.told@.push(CallEvent::Leave(call.name@)));
                proof {
                    assert(self.told@ =~= old(self).told@ + (seq![CallEvent::Enter(call.name@)]
                        + inner.events + seq![CallEvent::Leave(call.name@)]));
                }
                result
            },
        }
    }

    /// Evaluates a call: its parameters from left to right, then the native function of that
    /// name, else the body of the definition in force.
    fn call<O: CallObserver>(
        &mut self,
        call: &FunctionCall,
        arguments: &Vec<VariableDefinition>,
        values: &Vec<u32>,
        statements: &Vec<Statement>,
        depth: usize,
        observer: &mut O,
    ) -> (result: Result<Option<u32>, RuntimeError>)
        requires
            arguments@.len() == values@.len(),
        ensures
            performed(
                *old(self),
                *final(self),
                result,
                call_evaluation(
                    ProgramView { statements: views(statements@) },
                    FrameView { arguments: views(arguments@), values: values@ },
                    *call,
                    depth as nat,
                ),
            ),
        decreases depth, call, 0nat,
    {
        let ghost program = ProgramView { statements: views(statements@) };
        let ghost frame = FrameView { arguments: views(arguments@), values: values@ };
        let ghost parameters = views(call.parameters@);
        let mut given: Vec<u32> = Vec::new();
        let mut index: usize = 0;
        proof {
            assert(parameters.take(0) =~= Seq::<ExpressionView>::empty());
            assert(self.output@ + Seq::<u32>::empty() =~= self.output@);
            assert(self.told@ + Seq::<CallEvent>::empty() =~= self.told@);
        }
        while index < call.parameters.len()
            invariant
                index <= call.parameters@.len(),
                arguments@.len() == values@.len(),
                program == (ProgramView { statements: views(statements@) }),
                frame == (FrameView { arguments: views(arguments@), values: values@ }),
                parameters == views(call.parameters@),
                self.depth == old(self).depth,
                ({
                    let before = evaluate_each(
                        program,
                        frame,
                        parameters.take(index as int),
                        depth as nat,
                        call.name@,
                        call.location@,
                    );
                    &&& before.result == Ok::<Seq<u32>, RuntimeErrorView>(given@)
                    &&& self.output@ == old(self).output@ + before.output
                    &&& self.told@ == old(self).told@ + before.events
                }),
            decreases call.parameters@.len() - index,
        {
            let ghost done = parameters.take(index as int);
            let ghost next = parameters.take(index + 1);
            let ghost before = evaluate_each(
                program,
                frame,
                done,
                depth as nat,
                call.name@,
                call.location@,
            );
            let ghost last = evaluate(program, frame, call.parameters@[index as int]@, depth as nat);
            proof {
                assert(next.drop_last() =~= done);
                assert(next.last() == call.parameters@[index as int]@);
                assert(parameters.take(call.parameters@.len() as int) =~= parameters);
                assert(decreases_to!(call => call.parameters@[index as int]));
            }
            let value = self.interpretate(
                &call.parameters[index],
                arguments,
                values,
                statements,
                depth,
                observer,
            );
            proof {
                assert(self.output@ =~= old(self).output@ + (before.output + last.output));
                assert(self.told@ =~= old(self).told@ + (before.events + last.events));
            }
            match value {
                Err(error) => {
                    proof {
                        lemma_stops_at_error(
                            program,
                            frame,
                            parameters,
                            depth as nat,
                            call.name@,
                            call.location@,
                            index + 1,
                        );
                    }
                    return Err(error);
                },
                Ok(None) => {
                    proof {
                        lemma_stops_at_error(
                            program,
                            frame,
                            parameters,
                            depth as nat,
                            call.name@,
                            call.location@,
                            index + 1,
                        );
                    }
                    return Err(self.fail(RuntimeIssue::MissingValue, call));
                },
                Ok(Some(value)) => {
                    given.push(value);
                },
            }
            index = index + 1;
        }
        assert(parameters.take(index as int) =~= parameters);
        let ghost evaluated = evaluate_each(
            program,
            frame,
            parameters,
            depth as nat,
            call.name@,
            call.location@,
        );
        match Native::find(call.name.as_str()) {
            Some(native) => {
                if given.len() != native.parameters() {
                    return Err(self.fail(RuntimeIssue::ArityMismatch, call));
                }
                let a = given[0];
                let b = if given.len() > 1 {
                    given[1]
                } else {
                    0
                };
                let value = match native {
                    Native::Or => Some(crate::native::or(a, b)),
                    Native::And => Some(crate::native::and(a, b)),
                    Native::Xor => Some(crate::native::xor(a, b)),
                    Native::Not => Some(crate::native::not(a)),
                    Native::Equal => Some(crate::native::equal(a, b)),
                    Native::Add => {
                        if a > u32::MAX - b {
                            return Err(self.fail(RuntimeIssue::Overflow, call));
                        }
                        Some(crate::native::add(a, b))
                    },
                    Native::Sub => {
                        if b > a {
                            return Err(self.fail(RuntimeIssue::Overflow, call));
                        }
                        Some(crate::native::sub(a, b))
                    },
                    Native::Multiply => {
                        if a.checked_mul(b).is_none() {
                            return Err(self.fail(RuntimeIssue::Overflow, call));
                        }
                        Some(crate::native::multiply(a, b))
                    },
                    Native::Print => {
                        crate::native::print(a, &mut self.output);
                        None
                    },
                };
                proof {
                    assert(self.output@ =~= old(self).output@ + (evaluated.output
                        + native.written(given@)));
                    assert(self.told@ =~= old(self).told@ + (evaluated.events
                        + Seq::<CallEvent>::empty()));
                }
                Ok(value)
            },
            None => {
                proof {
                    lemma_last_named(function_names(program), call.name@);
                }
                match find_function(statements, call.name.as_str()) {
                    None => Err(self.fail(RuntimeIssue::UnknownFunction, call)),
                    Some(found) => {
                        let Statement::FunctionDefinition(function) = &statements[found];
                        assert(function@ == program.statements[found as int]);
                        if function.prototype.arguments.len() != given.len() {
                            return Err(self.fail(RuntimeIssue::ArityMismatch, call));
                        }
                        if depth == 0 {
                            return Err(self.fail(RuntimeIssue::DepthExceeded, call));
                        }
                        let ghost called = evaluate(
                            program,
                            FrameView {
                                arguments: function@.prototype.arguments,
                                values: given@,
                            },
                            function@.body,
                            (depth - 1) as nat,
                        );
                        let result = self.interpretate(
                            &function.body,
                            &function.prototype.arguments,
                            &given,
                            statements,
                            depth - 1,
                            observer,
                        );
                        proof {
                            assert(self.output@ =~= old(self).output@ + (evaluated.output
                                + called.output));
                            assert(self.told@ =~= old(self).told@ + (evaluated.events
                                + called.events));
                        }
                        result
                    },
                }
            },
        }
    }

    /// The error for a call that cannot be made.
    fn fail(&self, issue: RuntimeIssue, call: &FunctionCall) -> (error: RuntimeError)
        ensures
            error@ == failure(issue, call.name@, call.location@),
    {
        RuntimeError { issue, name: call.name.clone(), location: call.location.clone() }
    }
}

/// Interpretation is deterministic. Two runs of programs of the same value, by interpreters
/// of the same depth, write the same output, tell an observer the same and give the same
/// result, whatever the interpreters wrote before.
pub proof fn lemma_runs_agree(
    first: AST,
    second: AST,
    before_first: Interpreter,
    after_first: Interpreter,
    first_result: Result<(), RuntimeError>,
    before_second: Interpreter,
    after_second: Interpreter,
    second_result: Result<(), RuntimeError>,
)
    requires
        first@ == second@,
        before_first.depth == before_second.depth,
        performed(
            before_first,
            after_first,
            first_result,
            execution(first@, before_first.depth as nat),
        ),
        performed(
            before_second,
            after_second,
            second_result,
            execution(second@, before_second.depth as nat),
        ),
    ensures
        exists|written: Seq<u32>, told: Seq<CallEvent>|
            {
                &&& after_first.output@ == before_first.output@ + written
                &&& after_second.output@ == before_second.output@ + written
                &&& after_first.told@ == before_first.told@ + told
                &&& after_second.told@ == before_second.told@ + told
            },
        first_result is Ok <==> second_result is Ok,
        first_result matches Err(error) ==> second_result matches Err(other) && error@
            == other@,
{
    let run = execution(first@, before_first.depth as nat);
    assert(after_first.output@ == before_first.output@ + run.output);
    assert(after_second.output@ == before_second.output@ + run.output);
    assert(after_first.told@ == before_first.told@ + run.events);
    assert(after_second.told@ == before_second.told@ + run.events);
}

/// A branch whose condition gives the value 1 is its first expression, evaluated after the
/// condition; with any other value it is its second expression.
pub proof fn lemma_branch_selects(
    program: ProgramView,
    frame: FrameView,
    condition: ExpressionView,
    then_branch: ExpressionView,
    else_branch: ExpressionView,
    location: LocationView,
    depth: nat,
    value: u32,
)
    requires
        evaluate(program, frame, condition, depth).result == Ok::<Option<u32>, RuntimeErrorView>(
            Some(value),
        ),
    ensures
        evaluate(
            program,
            frame,
            ExpressionView::Branch {
                condition: Box::new(condition),
                then_branch: Box::new(then_branch),
                else_branch: Box::new(else_branch),
                location,
            },
            depth,
        ) == evaluate(
            program,
            frame,
            if value == 1 {
                then_branch
            } else {
                else_branch
            },
            depth,
        ).after(evaluate(program, frame, condition, depth)),
{
}

/// The output as text: each value in decimal on a line of its own.
pub open spec fn output_text(output: Seq<u32>) -> Seq<char>
    decreases output.len(),
{
    if output.len() == 0 {
        seq![]
    } else {
        output_text(output.drop_last()) + decimal(output.last() as nat) + "\n"@
    }
}

/// Writes the output as text: each value in decimal on a line of its own.
pub fn render_output(output: &Vec<u32>) -> (text: String)
    ensures
        text@ == output_text(output@),
{
    let mut text = String::new();
    let mut index: usize = 0;
    assert(output@.take(0) =~= Seq::<u32>::empty());
    while index < output.len()
        invariant
            index <= output@.len(),
            text@ == output_text(output@.take(index as int)),
        decreases output@.len() - index,
    {
        proof {
            assert(output@.take(index + 1).drop_last() =~= output@.take(index as int));
        }
        push_decimal(&mut text, output[index] as u64);
        push_text(&mut text, "\n");
        index = index + 1;
    }
    assert(output@.take(index as int) =~= output@);
    text
}

/// Once a parameter has failed, the parameters after it are not evaluated: the error, the
/// output and the calls of the first `count` parameters are those of the whole list.
pub proof fn lemma_stops_at_error(
    program: ProgramView,
    frame: FrameView,
    expressions: Seq<ExpressionView>,
    depth: nat,
    name: Seq<char>,
    location: LocationView,
    count: int,
)
    requires
        0 <= count <= expressions.len(),
        evaluate_each(program, frame, expressions.take(count), depth, name, location).result
            is Err,
    ensures
        evaluate_each(program, frame, expressions, depth, name, location) == evaluate_each(
            program,
            frame,
            expressions.take(count),
            depth,
            name,
            location,
        ),
    decreases expressions.len() - count,
{
    if count == expressions.len() {
        assert(expressions.take(count) =~= expressions);
    } else {
        assert(expressions.take(count + 1).drop_last() =~= expressions.take(count));
        lemma_stops_at_error(program, frame, expressions, depth, name, location, count + 1);
    }
}

} // verus!
