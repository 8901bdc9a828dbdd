//! Static validation: an abstract syntax tree gives a list of diagnostics.
//!
//! Validation never fails and never changes the tree. Whether a report stops what follows
//! is the caller's decision.

use vstd::prelude::*;

use crate::ast::AST;
use crate::ast::Expression;
use crate::ast::ExpressionView;
use crate::ast::FunctionDefinitionView;
use crate::ast::ProgramView;
use crate::ast::Statement;
use crate::ast::VariableDefinition;
use crate::ast::VariableDefinitionView;
use crate::lexing::Location;
use crate::lexing::LocationView;
use crate::names::find_function;
use crate::names::find_native;
use crate::names::find_parameter;
use crate::names::first_named;
use crate::names::function_names;
use crate::names::last_named;
use crate::names::lemma_first_named;
use crate::names::lemma_last_named;
use crate::names::native_names;
use crate::names::parameter_names;
use crate::native::lemma_native_arity;
use crate::native::native_arity;
use crate::native::native_functions;
use crate::native::native_functions_map;
use crate::native::Native;
use crate::native::NativeFunction;
use crate::text::decimal;
use crate::text::lemma_views_add;
use crate::text::lemma_views_push;
use crate::text::push_decimal;
use crate::text::push_text;
use crate::text::same_text;
use crate::text::surround;
use crate::text::views;

verus! {

/// A diagnostic: what is wrong, and where.
#[derive(Debug, PartialEq, Eq)]
pub struct Report {
    pub issue: String,
    pub location: Location,
}

/// The mathematical value of a [`Report`].
pub struct ReportView {
    pub issue: Seq<char>,
    pub location: LocationView,
}

impl ReportView {
    /// The report as diagnostics show it: the location, a space, the message.
    pub open spec fn text(self) -> Seq<char> {
        self.location.text() + " "@ + self.issue
    }
}

impl Report {
    /// The report as diagnostics show it: `path:line:column message`.
    pub fn to_string(&self) -> (text: String)
        ensures
            text@ == self@.text(),
    {
        let mut text = self.location.to_string();
        push_text(&mut text, " ");
        push_text(&mut text, self.issue.as_str());
        text
    }
}

impl View for Report {
    type V = ReportView;

    open spec fn view(&self) -> ReportView {
        ReportView { issue: self.issue@, location: self.location@ }
    }
}

/// The message for a parameter whose name an earlier parameter of the function has.
pub open spec fn duplicate_argument_issue(function: Seq<char>, argument: Seq<char>) -> Seq<char> {
    "several \""@ + function + "\"'s arguments have the name \""@ + argument + "\""@
}

/// The message for a call with the wrong number of parameters.
pub open spec fn arity_issue(name: Seq<char>, accepted: nat, received: nat) -> Seq<char> {
    "function \""@ + name + "\" accepts "@ + decimal(accepted) + " arguments but received "@
        + decimal(received) + " parameters"@
}

/// The message for a call of a function that is neither defined nor native.
pub open spec fn unknown_function_issue(name: Seq<char>) -> Seq<char> {
    "unknown function \""@ + name + "\""@
}

/// The message for a branch without a condition.
pub open spec fn empty_condition_issue() -> Seq<char> {
    "empty branch condition"@
}

/// The message for a variable that is no parameter of the function.
pub open spec fn unknown_variable_issue(name: Seq<char>) -> Seq<char> {
    "unknown variable \""@ + name + "\""@
}

/// The message for a parameter that the body never reads.
pub open spec fn unused_variable_issue(name: Seq<char>) -> Seq<char> {
    "variable \""@ + name + "\" is never used"@
}

/// The message for a function that nothing calls.
pub open spec fn unused_function_issue(name: Seq<char>) -> Seq<char> {
    "function \""@ + name + "\" is never used"@
}

/// Whether the expression calls the function called `name`.
pub open spec fn calls(expression: ExpressionView, name: Seq<char>) -> bool
    decreases expression,
{
    match expression {
        ExpressionView::FunctionCall { name: called, parameters, .. } => called == name
            || calls_any(parameters, name),
        ExpressionView::Branch { condition, then_branch, else_branch, .. } => calls(
            *condition,
            name,
        ) || calls(*then_branch, name) || calls(*else_branch, name),
        _ => false,
    }
}

/// Whether one of the expressions calls the function called `name`.
pub open spec fn calls_any(expressions: Seq<ExpressionView>, name: Seq<char>) -> bool
    decreases expressions,
{
    if expressions.len() == 0 {
        false
    } else {
        calls_any(expressions.drop_last(), name) || calls(expressions.last(), name)
    }
}

/// Whether the expression reads the variable called `name`.
pub open spec fn reads(expression: ExpressionView, name: Seq<char>) -> bool
    decreases expression,
{
    match expression {
        ExpressionView::FunctionCall { parameters, .. } => reads_any(parameters, name),
        ExpressionView::Branch { condition, then_branch, else_branch, .. } => reads(
            *condition,
            name,
        ) || reads(*then_branch, name) || reads(*else_branch, name),
        ExpressionView::Variable { name: read, .. } => read == name,
        _ => false,
    }
}

/// Whether one of the expressions reads the variable called `name`.
pub open spec fn reads_any(expressions: Seq<ExpressionView>, name: Seq<char>) -> bool
    decreases expressions,
{
    if expressions.len() == 0 {
        false
    } else {
        reads_any(expressions.drop_last(), name) || reads(expressions.last(), name)
    }
}

/// The reports on the call of `name` with `received` parameters, apart from those on the
/// parameters themselves: the number of parameters is held against the definition in force
/// (the last one of that name), else against the native function of that name; a name that
/// is neither is unknown.
pub open spec fn call_reports(
    program: ProgramView,
    name: Seq<char>,
    received: nat,
    location: LocationView,
) -> Seq<ReportView> {
    let accepted = match last_named(function_names(program), name) {
        Some(index) => Some(program.statements[index].prototype.arguments.len()),
        None => native_arity(name),
    };
    match accepted {
        Some(accepted) => if accepted != received {
            seq![ReportView { issue: arity_issue(name, accepted, received), location }]
        } else {
            seq![]
        },
        None => seq![ReportView { issue: unknown_function_issue(name), location }],
    }
}

/// The reports on an expression that stands in a function with the given parameters, in the
/// order in which a walk from left to right meets them.
pub open spec fn expression_reports(
    program: ProgramView,
    arguments: Seq<VariableDefinitionView>,
    expression: ExpressionView,
) -> Seq<ReportView>
    decreases expression,
{
    match expression {
        ExpressionView::FunctionCall { name, parameters, location } => call_reports(
            program,
            name,
            parameters.len(),
            location,
        ) + expressions_reports(program, arguments, parameters),
        ExpressionView::Branch { condition, then_branch, else_branch, location } => (if *condition
            is Empty {
            seq![ReportView { issue: empty_condition_issue(), location }]
        } else {
            expression_reports(program, arguments, *condition)
        }) + expression_reports(program, arguments, *then_branch) + expression_reports(
            program,
            arguments,
            *else_branch,
        ),
        ExpressionView::Variable { name, location } => if first_named(
            parameter_names(arguments),
            name,
        ) is Some {
            seq![]
        } else {
            seq![ReportView { issue: unknown_variable_issue(name), location }]
        },
        _ => seq![],
    }
}

/// The reports on a list of expressions, one expression after the other.
pub open spec fn expressions_reports(
    program: ProgramView,
    arguments: Seq<VariableDefinitionView>,
    expressions: Seq<ExpressionView>,
) -> Seq<ReportView>
    decreases expressions,
{
    if expressions.len() == 0 {
        seq![]
    } else {
        expressions_reports(program, arguments, expressions.drop_last()) + expression_reports(
            program,
            arguments,
            expressions.last(),
        )
    }
}

/// Whether the parameter at `index` is the first of its name: the one that the name stands for.
pub open spec fn declares(arguments: Seq<VariableDefinitionView>, index: int) -> bool {
    first_named(parameter_names(arguments), arguments[index].name) == Some(index)
}

/// Whether the definition at `index` is the last of its name: the one in force.
pub open spec fn in_force(program: ProgramView, index: int) -> bool {
    last_named(function_names(program), program.statements[index].prototype.name) == Some(index)
}

/// The reports on the parameter at `index`, as a duplicate: one report, located at the
/// parameter, where an earlier parameter has its name.
pub open spec fn duplicate_report(function: FunctionDefinitionView, index: int) -> Seq<
    ReportView,
> {
    let arguments = function.prototype.arguments;
    if !declares(arguments, index) {
        seq![
            ReportView {
                issue: duplicate_argument_issue(function.prototype.name, arguments[index].name),
                location: arguments[index].location,
            },
        ]
    } else {
        seq![]
    }
}

/// The reports on duplicates among the first `count` parameters of a function.
pub open spec fn duplicate_reports(function: FunctionDefinitionView, count: nat) -> Seq<
    ReportView,
>
    decreases count,
{
    if count == 0 {
        seq![]
    } else {
        duplicate_reports(function, (count - 1) as nat) + duplicate_report(function, count - 1)
    }
}

/// The reports on the parameter at `index`, as unused: one report, located at the parameter,
/// where it is the first of its name and the body never reads it.
pub open spec fn unused_variable_report(function: FunctionDefinitionView, index: int) -> Seq<
    ReportView,
> {
    let arguments = function.prototype.arguments;
    if declares(arguments, index) && !reads(function.body, arguments[index].name) {
        seq![
            ReportView {
                issue: unused_variable_issue(arguments[index].name),
                location: arguments[index].location,
            },
        ]
    } else {
        seq![]
    }
}

/// The reports on unused parameters among the first `count` parameters of a function.
pub open spec fn unused_variable_reports(function: FunctionDefinitionView, count: nat) -> Seq<
    ReportView,
>
    decreases count,
{
    if count == 0 {
        seq![]
    } else {
        unused_variable_reports(function, (count - 1) as nat) + unused_variable_report(
            function,
            count - 1,
        )
    }
}

/// The reports on one function: its duplicate parameters, then what its body holds, then
/// its unused parameters.
pub open spec fn function_reports(program: ProgramView, function: FunctionDefinitionView) -> Seq<
    ReportView,
> {
    duplicate_reports(function, function.prototype.arguments.len()) + expression_reports(
        program,
        function.prototype.arguments,
        function.body,
    ) + unused_variable_reports(function, function.prototype.arguments.len())
}

/// The reports on the first `count` functions of a program.
pub open spec fn functions_reports(program: ProgramView, count: nat) -> Seq<ReportView>
    decreases count,
{
    if count == 0 {
        seq![]
    } else {
        functions_reports(program, (count - 1) as nat) + function_reports(
            program,
            program.statements[count - 1],
        )
    }
}

/// Whether the body of one of the first `count` functions of the program calls `name`.
pub open spec fn called_within(program: ProgramView, name: Seq<char>, count: nat) -> bool
    decreases count,
{
    if count == 0 {
        false
    } else {
        called_within(program, name, (count - 1) as nat) || calls(
            program.statements[count - 1].body,
            name,
        )
    }
}

/// The reports on the definition at `index`, as unused: one report, located at the
/// definition, where it is the last of its name, the name is not `main`, and no body of the
/// program calls it.
pub open spec fn unused_function_report(program: ProgramView, index: int) -> Seq<ReportView> {
    let name = program.statements[index].prototype.name;
    if in_force(program, index) && name != "main"@ && !called_within(
        program,
        name,
        program.statements.len(),
    ) {
        seq![
            ReportView {
                issue: unused_function_issue(name),
                location: program.statements[index].location,
            },
        ]
    } else {
        seq![]
    }
}

/// The reports on unused functions among the first `count` definitions of a program.
pub open spec fn unused_function_reports(program: ProgramView, count: nat) -> Seq<ReportView>
    decreases count,
{
    if count == 0 {
        seq![]
    } else {
        unused_function_reports(program, (count - 1) as nat) + unused_function_report(
            program,
            count - 1,
        )
    }
}

/// The reports on a program: those on each function, in the order of the definitions, then
/// those on functions that are never used.
pub open spec fn validation(program: ProgramView) -> Seq<ReportView> {
    functions_reports(program, program.statements.len()) + unused_function_reports(
        program,
        program.statements.len(),
    )
}

/// A parameter whose name an earlier parameter of the function has gives exactly one report,
/// located at that parameter; the first parameter of a name gives none.
pub proof fn lemma_duplicate_parameter(function: FunctionDefinitionView, first: int, second: int)
    requires
        0 <= first < second < function.prototype.arguments.len(),
        function.prototype.arguments[first].name == function.prototype.arguments[second].name,
        declares(function.prototype.arguments, first),
    ensures
        duplicate_report(function, first) == Seq::<ReportView>::empty(),
        duplicate_report(function, second) == seq![
            ReportView {
                issue: duplicate_argument_issue(
                    function.prototype.name,
                    function.prototype.arguments[second].name,
                ),
                location: function.prototype.arguments[second].location,
            },
        ],
{
}

/// A call whose number of parameters differs from that of the definition in force gives
/// exactly one report, at the call.
pub proof fn lemma_wrong_arity_of_definition(
    program: ProgramView,
    name: Seq<char>,
    received: nat,
    location: LocationView,
    index: int,
)
    requires
        last_named(function_names(program), name) == Some(index),
        program.statements[index].prototype.arguments.len() != received,
    ensures
        call_reports(program, name, received, location) == seq![
            ReportView {
                issue: arity_issue(
                    name,
                    program.statements[index].prototype.arguments.len(),
                    received,
                ),
                location,
            },
        ],
{
}

/// A call of a native function that the program does not define, with another number of
/// parameters than the native function takes, gives exactly one report, at the call.
pub proof fn lemma_wrong_arity_of_native(
    program: ProgramView,
    name: Seq<char>,
    received: nat,
    location: LocationView,
    native: Native,
)
    requires
        last_named(function_names(program), name) is None,
        Native::named(name) == Some(native),
        native.arity() != received,
    ensures
        call_reports(program, name, received, location) == seq![
            ReportView { issue: arity_issue(name, native.arity(), received), location },
        ],
{
    lemma_native_arity(name);
}

/// A call of a function that is neither defined nor native gives exactly one report, at
/// the call.
pub proof fn lemma_unknown_function(
    program: ProgramView,
    name: Seq<char>,
    received: nat,
    location: LocationView,
)
    requires
        last_named(function_names(program), name) is None,
        Native::named(name) is None,
    ensures
        call_reports(program, name, received, location) == seq![
            ReportView { issue: unknown_function_issue(name), location },
        ],
{
    lemma_native_arity(name);
}

/// A parameter that the body never reads gives exactly one report, at the first parameter
/// of its name; a later parameter of that name gives none.
pub proof fn lemma_unused_parameter(function: FunctionDefinitionView, first: int, other: int)
    requires
        0 <= first <= other < function.prototype.arguments.len(),
        function.prototype.arguments[first].name == function.prototype.arguments[other].name,
        declares(function.prototype.arguments, first),
        !reads(function.body, function.prototype.arguments[first].name),
    ensures
        unused_variable_report(function, first) == seq![
            ReportView {
                issue: unused_variable_issue(function.prototype.arguments[first].name),
                location: function.prototype.arguments[first].location,
            },
        ],
        other != first ==> unused_variable_report(function, other) == Seq::<ReportView>::empty(),
{
}

/// A function other than `main` that no body of the program calls gives exactly one report,
/// at the last definition of its name; an earlier definition of that name gives none.
pub proof fn lemma_unused_function(program: ProgramView, other: int, last: int)
    requires
        0 <= other <= last < program.statements.len(),
        program.statements[other].prototype.name == program.statements[last].prototype.name,
        in_force(program, last),
        program.statements[last].prototype.name != "main"@,
        !called_within(
            program,
            program.statements[last].prototype.name,
            program.statements.len(),
        ),
    ensures
        unused_function_report(program, last) == seq![
            ReportView {
                issue: unused_function_issue(program.statements[last].prototype.name),
                location: program.statements[last].location,
            },
        ],
        other != last ==> unused_function_report(program, other) == Seq::<ReportView>::empty(),
{
}

/// Whether `part` is the expression or stands in it.
pub open spec fn holds(expression: ExpressionView, part: ExpressionView) -> bool
    decreases expression,
{
    expression == part || match expression {
        ExpressionView::FunctionCall { parameters, .. } => holds_any(parameters, part),
        ExpressionView::Branch { condition, then_branch, else_branch, .. } => holds(
            *condition,
            part,
        ) || holds(*then_branch, part) || holds(*else_branch, part),
        _ => false,
    }
}

/// Whether `part` is one of the expressions or stands in one of them.
pub open spec fn holds_any(expressions: Seq<ExpressionView>, part: ExpressionView) -> bool
    decreases expressions,
{
    expressions.len() > 0 && (holds_any(expressions.drop_last(), part) || holds(
        expressions.last(),
        part,
    ))
}

/// The reports on an expression apart from those on its parts: on a call, on its number
/// of parameters or its unknown function; on a branch, on its missing condition; on a
/// variable, on its unknown name.
pub open spec fn own_reports(
    program: ProgramView,
    arguments: Seq<VariableDefinitionView>,
    expression: ExpressionView,
) -> Seq<ReportView> {
    match expression {
        ExpressionView::FunctionCall { name, parameters, location } => call_reports(
            program,
            name,
            parameters.len(),
            location,
        ),
        ExpressionView::Branch { condition, location, .. } => if *condition is Empty {
            seq![ReportView { issue: empty_condition_issue(), location }]
        } else {
            seq![]
        },
        ExpressionView::Variable { name, location } => if first_named(
            parameter_names(arguments),
            name,
        ) is Some {
            seq![]
        } else {
            seq![ReportView { issue: unknown_variable_issue(name), location }]
        },
        _ => seq![],
    }
}

/// What stands in one of two runs of reports stands in the two, joined.
pub proof fn lemma_stands_in_both(first: Seq<ReportView>, second: Seq<ReportView>, report: ReportView)
    requires
        first.contains(report) || second.contains(report),
    ensures
        (first + second).contains(report),
{
    if first.contains(report) {
        let position = choose|i: int| 0 <= i < first.len() && first[i] == report;
        assert((first + second)[position] == report);
    } else {
        let position = choose|i: int| 0 <= i < second.len() && second[i] == report;
        assert((first + second)[first.len() + position] == report);
    }
}

/// The reports on a part of an expression stand among the reports on the expression.
pub proof fn lemma_part_is_reported(
    program: ProgramView,
    arguments: Seq<VariableDefinitionView>,
    expression: ExpressionView,
    part: ExpressionView,
    report: ReportView,
)
    requires
        holds(expression, part),
        own_reports(program, arguments, part).contains(report),
    ensures
        expression_reports(program, arguments, expression).contains(report),
    decreases expression, 0nat,
{
    let own = own_reports(program, arguments, expression);
    match expression {
        ExpressionView::FunctionCall { parameters, .. } => {
            let inner = expressions_reports(program, arguments, parameters);
            if expression != part {
                lemma_parts_are_reported(program, arguments, parameters, part, report);
            }
            lemma_stands_in_both(own, inner, report);
        },
        ExpressionView::Branch { condition, then_branch, else_branch, .. } => {
            let first = if *condition is Empty {
                own
            } else {
                expression_reports(program, arguments, *condition)
            };
            let second = expression_reports(program, arguments, *then_branch);
            let third = expression_reports(program, arguments, *else_branch);
            if expression == part {
                assert(*condition is Empty);
            } else if holds(*condition, part) {
                if *condition is Empty {
                    assert(part == ExpressionView::Empty);
                } else {
                    lemma_part_is_reported(program, arguments, *condition, part, report);
                }
            } else if holds(*then_branch, part) {
                lemma_part_is_reported(program, arguments, *then_branch, part, report);
            } else {
                lemma_part_is_reported(program, arguments, *else_branch, part, report);
            }
            if first.contains(report) || second.contains(report) {
                lemma_stands_in_both(first, second, report);
            }
            lemma_stands_in_both(first + second, third, report);
        },
        _ => {},
    }
}

/// The reports on a part of one of some expressions stand among the reports on them all.
pub proof fn lemma_parts_are_reported(
    program: ProgramView,
    arguments: Seq<VariableDefinitionView>,
    expressions: Seq<ExpressionView>,
    part: ExpressionView,
    report: ReportView,
)
    requires
        holds_any(expressions, part),
        own_reports(program, arguments, part).contains(report),
    ensures
        expressions_reports(program, arguments, expressions).contains(report),
    decreases expressions, 1nat,
{
    let before = expressions_reports(program, arguments, expressions.drop_last());
    let last = expression_reports(program, arguments, expressions.last());
    if holds_any(expressions.drop_last(), part) {
        lemma_parts_are_reported(program, arguments, expressions.drop_last(), part, report);
    } else {
        lemma_part_is_reported(program, arguments, expressions.last(), part, report);
    }
    lemma_stands_in_both(before, last, report);
}

/// What a parameter gives as a duplicate or as unused, what the body of a definition gives,
/// and what a definition gives as unused, stands among the reports on the program.
pub proof fn lemma_reports_stand(program: ProgramView, index: int, parameter: int, report: ReportView)
    requires
        0 <= index < program.statements.len(),
        ({
            let function = program.statements[index];
            ||| unused_function_report(program, index).contains(report)
            ||| expression_reports(program, function.prototype.arguments, function.body).contains(
                report,
            )
            ||| (0 <= parameter < function.prototype.arguments.len() && (duplicate_report(
                function,
                parameter,
            ).contains(report) || unused_variable_report(function, parameter).contains(report)))
        }),
    ensures
        validation(program).contains(report),
{
    let function = program.statements[index];
    let count = program.statements.len();
    let arguments = function.prototype.arguments.len();
    lemma_part_of_functions(program, count, index);
    lemma_part_of_unused_functions(program, count, index);
    if 0 <= parameter < arguments {
        lemma_part_of_duplicates(function, arguments, parameter);
        lemma_part_of_unused_variables(function, arguments, parameter);
    }
    let own = function_reports(program, function);
    let all = functions_reports(program, count);
    let unused = unused_function_reports(program, count);
    if unused_function_report(program, index).contains(report) {
        let position = choose|i: int| 0 <= i < unused.len() && unused[i] == report;
        assert(validation(program)[all.len() + position] == report);
    } else {
        assert(own.contains(report)) by {
            let duplicates = duplicate_reports(function, arguments);
            let body = expression_reports(program, function.prototype.arguments, function.body);
            let variables = unused_variable_reports(function, arguments);
            if body.contains(report) {
                let position = choose|i: int| 0 <= i < body.len() && body[i] == report;
                assert(own[duplicates.len() + position] == report);
            } else if duplicates.contains(report) {
                let position = choose|i: int| 0 <= i < duplicates.len() && duplicates[i] == report;
                assert(own[position] == report);
            } else {
                let position = choose|i: int| 0 <= i < variables.len() && variables[i] == report;
                assert(own[duplicates.len() + body.len() + position] == report);
            }
        }
        let position = choose|i: int| 0 <= i < all.len() && all[i] == report;
        assert(validation(program)[position] == report);
    }
}

/// The reports on one of the first `count` functions are among the reports on them all.
proof fn lemma_part_of_functions(program: ProgramView, count: nat, index: int)
    requires
        0 <= index < count,
    ensures
        forall|report: ReportView| #[trigger]
            function_reports(program, program.statements[index]).contains(report)
                ==> functions_reports(program, count).contains(report),
    decreases count,
{
    let own = function_reports(program, program.statements[index]);
    let all = functions_reports(program, count);
    let earlier = functions_reports(program, (count - 1) as nat);
    if index == count - 1 {
        assert forall|report: ReportView| #[trigger] own.contains(report) implies all.contains(
            report,
        ) by {
            let position = choose|i: int| 0 <= i < own.len() && own[i] == report;
            assert(all[earlier.len() + position] == report);
        }
    } else {
        lemma_part_of_functions(program, (count - 1) as nat, index);
        assert forall|report: ReportView| #[trigger] own.contains(report) implies all.contains(
            report,
        ) by {
            let position = choose|i: int| 0 <= i < earlier.len() && earlier[i] == report;
            assert(all[position] == report);
        }
    }
}

/// What one of the first `count` definitions gives as unused is among what they all give.
proof fn lemma_part_of_unused_functions(program: ProgramView, count: nat, index: int)
    requires
        0 <= index < count,
    ensures
        forall|report: ReportView| #[trigger]
            unused_function_report(program, index).contains(report) ==> unused_function_reports(
                program,
                count,
            ).contains(report),
    decreases count,
{
    let own = unused_function_report(program, index);
    let all = unused_function_reports(program, count);
    let earlier = unused_function_reports(program, (count - 1) as nat);
    if index == count - 1 {
        assert forall|report: ReportView| #[trigger] own.contains(report) implies all.contains(
            report,
        ) by {
            let position = choose|i: int| 0 <= i < own.len() && own[i] == report;
            assert(all[earlier.len() + position] == report);
        }
    } else {
        lemma_part_of_unused_functions(program, (count - 1) as nat, index);
        assert forall|report: ReportView| #[trigger] own.contains(report) implies all.contains(
            report,
        ) by {
            let position = choose|i: int| 0 <= i < earlier.len() && earlier[i] == report;
            assert(all[position] == report);
        }
    }
}

/// What one of the first `count` parameters gives as a duplicate is among what they all give.
proof fn lemma_part_of_duplicates(function: FunctionDefinitionView, count: nat, index: int)
    requires
        0 <= index < count,
    ensures
        forall|report: ReportView| #[trigger]
            duplicate_report(function, index).contains(report) ==> duplicate_reports(
                function,
                count,
            ).contains(report),
    decreases count,
{
    let own = duplicate_report(function, index);
    let all = duplicate_reports(function, count);
    let earlier = duplicate_reports(function, (count - 1) as nat);
    if index == count - 1 {
        assert forall|report: ReportView| #[trigger] own.contains(report) implies all.contains(
            report,
        ) by {
            let position = choose|i: int| 0 <= i < own.len() && own[i] == report;
            assert(all[earlier.len() + position] == report);
        }
    } else {
        lemma_part_of_duplicates(function, (count - 1) as nat, index);
        assert forall|report: ReportView| #[trigger] own.contains(report) implies all.contains(
            report,
        ) by {
            let position = choose|i: int| 0 <= i < earlier.len() && earlier[i] == report;
            assert(all[position] == report);
        }
    }
}

/// What one of the first `count` parameters gives as unused is among what they all give.
proof fn lemma_part_of_unused_variables(function: FunctionDefinitionView, count: nat, index: int)
    requires
        0 <= index < count,
    ensures
        forall|report: ReportView| #[trigger]
            unused_variable_report(function, index).contains(report) ==> unused_variable_reports(
                function,
                count,
            ).contains(report),
    decreases count,
{
    let own = unused_variable_report(function, index);
    let all = unused_variable_reports(function, count);
    let earlier = unused_variable_reports(function, (count - 1) as nat);
    if index == count - 1 {
        assert forall|report: ReportView| #[trigger] own.contains(report) implies all.contains(
            report,
        ) by {
            let position = choose|i: int| 0 <= i < own.len() && own[i] == report;
            assert(all[earlier.len() + position] == report);
        }
    } else {
        lemma_part_of_unused_variables(function, (count - 1) as nat, index);
        assert forall|report: ReportView| #[trigger] own.contains(report) implies all.contains(
            report,
        ) by {
            let position = choose|i: int| 0 <= i < earlier.len() && earlier[i] == report;
            assert(all[position] == report);
        }
    }
}

/// The message for a parameter whose name an earlier parameter of the function has.
fn duplicate_argument_message(function: &str, argument: &str) -> (issue: String)
    ensures
        issue@ == duplicate_argument_issue(function@, argument@),
{
    let mut issue = "several \"".to_owned();
    push_text(&mut issue, function);
    push_text(&mut issue, "\"'s arguments have the name \"");
    push_text(&mut issue, argument);
    push_text(&mut issue, "\"");
    issue
}

/// The message for a call with the wrong number of parameters.
fn arity_message(name: &str, accepted: usize, received: usize) -> (issue: String)
    ensures
        issue@ == arity_issue(name@, accepted as nat, received as nat),
{
    let mut issue = "function \"".to_owned();
    push_text(&mut issue, name);
    push_text(&mut issue, "\" accepts ");
    push_decimal(&mut issue, accepted as u64);
    push_text(&mut issue, " arguments but received ");
    push_decimal(&mut issue, received as u64);
    push_text(&mut issue, " parameters");
    issue
}

/// The reports on an expression. A call marks in `called` the definition in force of the
/// function it names, and a variable marks in `used` the parameter it reads.
fn validate_expression(
    statements: &Vec<Statement>,
    natives: &Vec<NativeFunction>,
    arguments: &Vec<VariableDefinition>,
    called: &mut Vec<bool>,
    used: &mut Vec<bool>,
    expression: &Expression,
) -> (reports: Vec<Report>)
    requires
        views(natives@) == native_functions(),
        old(called)@.len() == statements@.len(),
        old(used)@.len() == arguments@.len(),
    ensures
        views(reports@) == expression_reports(
            ProgramView { statements: views(statements@) },
            views(arguments@),
            expression@,
        ),
        final(called)@.len() == old(called)@.len(),
        final(used)@.len() == old(used)@.len(),
        forall|i: int|
            0 <= i < statements@.len() ==> #[trigger] final(called)@[i] == (old(called)@[i] || (
            in_force(ProgramView { statements: views(statements@) }, i) && calls(
                expression@,
                statements@[i]@.prototype.name,
            ))),
        forall|i: int|
            0 <= i < arguments@.len() ==> #[trigger] final(used)@[i] == (old(used)@[i] || (
            declares(views(arguments@), i) && reads(expression@, arguments@[i]@.name))),
    decreases expression,
{
    let ghost program = ProgramView { statements: views(statements@) };
    let ghost parameters = views(arguments@);
    match expression {
        Expression::FunctionCall(call) => {
            proof {
                crate::ast::lemma_parameters_view(*call);
                lemma_last_named(function_names(program), call.name@);
                lemma_first_named(native_names(native_functions()), call.name@);
            }
            let mut reports: Vec<Report> = Vec::new();
            let received = call.parameters.len();
            let accepted = match find_function(statements, call.name.as_str()) {
                Some(index) => {
                    called.set(index, true);
                    let Statement::FunctionDefinition(definition) = &statements[index];
                    Some(definition.prototype.arguments.len())
                },
                None => match find_native(natives, call.name.as_str()) {
                    Some(index) => Some(natives[index].arguments.len()),
                    None => None,
                },
            };
            match accepted {
                Some(accepted) => {
                    if accepted != received {
                        reports.push(
                            Report {
                                issue: arity_message(call.name.as_str(), accepted, received),
                                location: call.location.clone(),
                            },
                        );
                    }
                },
                None => {
                    reports.push(
                        Report {
                            issue: surround("unknown function \"", call.name.as_str(), "\""),
                            location: call.location.clone(),
                        },
                    );
                },
            }
            let ghost own = call_reports(program, call.name@, received as nat, call.location@);
            assert(views(reports@) =~= own);
            assert(views(call.parameters@).take(0) =~= Seq::<ExpressionView>::empty());
            assert(views(reports@) =~= own + expressions_reports(
                program,
                parameters,
                views(call.parameters@).take(0),
            ));
            let mut index: usize = 0;
            while index < call.parameters.len()
                invariant
                    index <= call.parameters@.len(),
                    program == (ProgramView { statements: views(statements@) }),
                    parameters == views(arguments@),
                    views(natives@) == native_functions(),
                    called@.len() == statements@.len(),
                    used@.len() == arguments@.len(),
                    called@.len() == old(called)@.len(),
                    used@.len() == old(used)@.len(),
                    *expression == Expression::FunctionCall(*call),
                    views(reports@) == own + expressions_reports(
                        program,
                        parameters,
                        views(call.parameters@).take(index as int),
                    ),
                    forall|i: int|
                        0 <= i < statements@.len() ==> #[trigger] called@[i] == (old(called)@[i]
                            || (in_force(program, i) && (call.name@
                            == statements@[i]@.prototype.name || calls_any(
                            views(call.parameters@).take(index as int),
                            statements@[i]@.prototype.name,
                        )))),
                    forall|i: int|
                        0 <= i < arguments@.len() ==> #[trigger] used@[i] == (old(used)@[i] || (
                        declares(parameters, i) && reads_any(
                            views(call.parameters@).take(index as int),
                            arguments@[i]@.name,
                        ))),
                decreases call.parameters@.len() - index,
            {
                let ghost done = views(call.parameters@).take(index as int);
                let ghost next = views(call.parameters@).take(index + 1);
                proof {
                    broadcast use vstd::std_specs::vec::axiom_vec_index_decreases;

                    assert(decreases_to!(*expression => expression->FunctionCall_0));
                }
                let mut inner = validate_expression(
                    statements,
                    natives,
                    arguments,
                    called,
                    used,
                    &call.parameters[index],
                );
                proof {
                    assert(next.drop_last() =~= done);
                    assert(next.last() == call.parameters@[index as int]@);
                    lemma_views_add(reports@, inner@);
                }
                reports.append(&mut inner);
                index = index + 1;
            }
            assert(views(call.parameters@).take(index as int) =~= views(call.parameters@));
            proof {
                crate::ast::lemma_parameters_view(*call);
                assert(expression@ == (ExpressionView::FunctionCall {
                    name: call.name@,
                    parameters: views(call.parameters@),
                    location: call.location@,
                }));
                assert forall|name: Seq<char>| #[trigger]
                    calls(expression@, name) == (call.name@ == name || calls_any(
                        views(call.parameters@),
                        name,
                    )) by {}
                assert forall|name: Seq<char>| #[trigger]
                    reads(expression@, name) == reads_any(views(call.parameters@), name) by {}
            }
            reports
        },
        Expression::Branch(branch) => {
            let mut reports: Vec<Report> = Vec::new();
            match &*branch.condition {
                Expression::Empty => {
                    reports.push(
                        Report {
                            issue: "empty branch condition".to_owned(),
                            location: branch.location.clone(),
                        },
                    );
                    assert(views(reports@) =~= seq![
                        ReportView {
                            issue: empty_condition_issue(),
                            location: branch.location@,
                        },
                    ]);
                    assert forall|name: Seq<char>|
                        !(#[trigger] calls((*branch.condition)@, name)) && !(#[trigger] reads(
                            (*branch.condition)@,
                            name,
                        )) by {}
                },
                condition => {
                    reports = validate_expression(
                        statements,
                        natives,
                        arguments,
                        called,
                        used,
                        condition,
                    );
                },
            }
            let mut inner = validate_expression(
                statements,
                natives,
                arguments,
                called,
                used,
                &*branch.then_branch,
            );
            proof {
                lemma_views_add(reports@, inner@);
            }
            reports.append(&mut inner);
            let mut inner = validate_expression(
                statements,
                natives,
                arguments,
                called,
                used,
                &*branch.else_branch,
            );
            proof {
                lemma_views_add(reports@, inner@);
            }
            reports.append(&mut inner);
            proof {
                let condition = (*branch.condition)@;
                let then_branch = (*branch.then_branch)@;
                let else_branch = (*branch.else_branch)@;
                assert forall|name: Seq<char>| #[trigger]
                    calls(expression@, name) == (calls(condition, name) || calls(
                        then_branch,
                        name,
                    ) || calls(else_branch, name)) by {}
                assert forall|name: Seq<char>| #[trigger]
                    reads(expression@, name) == (reads(condition, name) || reads(
                        then_branch,
                        name,
                    ) || reads(else_branch, name)) by {}
            }
            reports
        },
        Expression::Variable(variable) => {
            proof {
                lemma_first_named(parameter_names(parameters), variable.name@);
            }
            let mut reports: Vec<Report> = Vec::new();
            match find_parameter(arguments, variable.name.as_str()) {
                Some(index) => {
                    used.set(index, true);
                    assert(views(reports@) =~= Seq::<ReportView>::empty());
                },
                None => {
                    reports.push(
                        Report {
                            issue: surround(
                                "unknown variable \"",
                                variable.name.as_str(),
                                "\"",
                            ),
                            location: variable.location.clone(),
                        },
                    );
                    assert(views(reports@) =~= seq![
                        ReportView {
                            issue: unknown_variable_issue(variable.name@),
                            location: variable.location@,
                        },
                    ]);
                },
            }
            reports
        },
        _ => {
            let reports: Vec<Report> = Vec::new();
            assert(views(reports@) =~= Seq::<ReportView>::empty());
            reports
        },
    }
}

/// A list of `count` flags, none of them set.
fn cleared(count: usize) -> (flags: Vec<bool>)
    ensures
        flags@.len() == count,
        forall|i: int| 0 <= i < count ==> !(#[trigger] flags@[i]),
{
    let mut flags: Vec<bool> = Vec::new();
    while flags.len() < count
        invariant
            flags@.len() <= count,
            forall|i: int| 0 <= i < flags@.len() ==> !(#[trigger] flags@[i]),
        decreases count - flags@.len(),
    {
        flags.push(false);
    }
    flags
}

/// Validates a program: reports duplicate parameters, calls with the wrong number of
/// parameters, unknown functions and variables, branches without a condition, and
/// parameters and functions that are never used.
pub fn validate(ast: &AST) -> (reports: Vec<Report>)
    ensures
        views(reports@) == validation(ast@),
{
    let ghost program = ast@;
    let natives = native_functions_map();
    let statements = &ast.statements;
    let mut called = cleared(statements.len());
    let mut reports: Vec<Report> = Vec::new();
    assert(views(reports@) =~= functions_reports(program, 0));
    let mut index: usize = 0;
    while index < statements.len()
        invariant
            index <= statements@.len(),
            statements == &ast.statements,
            program == ast@,
            views(natives@) == native_functions(),
            called@.len() == statements@.len(),
            views(reports@) == functions_reports(program, index as nat),
            forall|i: int|
                0 <= i < statements@.len() ==> #[trigger] called@[i] == (in_force(program, i)
                    && called_within(program, statements@[i]@.prototype.name, index as nat)),
        decreases statements@.len() - index,
    {
        let Statement::FunctionDefinition(definition) = &statements[index];
        let arguments = &definition.prototype.arguments;
        let ghost function = definition@;
        let ghost before = views(reports@);
        assert(function == program.statements[index as int]);

        let mut position: usize = 0;
        assert(views(reports@) =~= before + duplicate_reports(function, 0));
        while position < arguments.len()
            invariant
                position <= arguments@.len(),
                function == definition@,
                arguments == &definition.prototype.arguments,
                views(reports@) == before + duplicate_reports(function, position as nat),
            decreases arguments@.len() - position,
        {
            let argument = &arguments[position];
            let ghost read = views(reports@);
            assert(function.prototype.arguments[position as int] == argument@);
            let first = find_parameter(arguments, argument.name.as_str());
            let declared = match first {
                Some(first) => first == position,
                None => false,
            };
            if !declared {
                let report = Report {
                    issue: duplicate_argument_message(
                        definition.prototype.name.as_str(),
                        argument.name.as_str(),
                    ),
                    location: argument.location.clone(),
                };
                proof {
                    lemma_views_push(reports@, report);
                }
                reports.push(report);
            }
            assert(views(reports@) =~= read + duplicate_report(function, position as int));
            assert(views(reports@) =~= before + duplicate_reports(
                function,
                (position + 1) as nat,
            ));
            position = position + 1;
        }

        let mut used = cleared(arguments.len());
        let mut inner = validate_expression(
            statements,
            &natives,
            arguments,
            &mut called,
            &mut used,
            &definition.body,
        );
        proof {
            lemma_views_add(reports@, inner@);
        }
        reports.append(&mut inner);

        let ghost walked = views(reports@);
        let mut position: usize = 0;
        assert(views(reports@) =~= walked + unused_variable_reports(function, 0));
        while position < arguments.len()
            invariant
                position <= arguments@.len(),
                function == definition@,
                arguments == &definition.prototype.arguments,
                used@.len() == arguments@.len(),
                forall|i: int|
                    0 <= i < arguments@.len() ==> #[trigger] used@[i] == (declares(
                        views(arguments@),
                        i,
                    ) && reads(definition.body@, arguments@[i]@.name)),
                views(reports@) == walked + unused_variable_reports(function, position as nat),
            decreases arguments@.len() - position,
        {
            let argument = &arguments[position];
            let ghost read = views(reports@);
            assert(function.prototype.arguments[position as int] == argument@);
            let first = find_parameter(arguments, argument.name.as_str());
            let declared = match first {
                Some(first) => first == position,
                None => false,
            };
            if declared && !used[position] {
                let report = Report {
                    issue: surround(
                        "variable \"",
                        argument.name.as_str(),
                        "\" is never used",
                    ),
                    location: argument.location.clone(),
                };
                proof {
                    lemma_views_push(reports@, report);
                }
                reports.push(report);
            }
            assert(views(reports@) =~= read + unused_variable_report(function, position as int));
            assert(views(reports@) =~= walked + unused_variable_reports(
                function,
                (position + 1) as nat,
            ));
            position = position + 1;
        }
        assert(views(reports@) =~= functions_reports(program, (index + 1) as nat));
        index = index + 1;
    }

    let ghost checked = views(reports@);
    let mut index: usize = 0;
    assert(views(reports@) =~= checked + unused_function_reports(program, 0));
    while index < statements.len()
        invariant
            index <= statements@.len(),
            statements == &ast.statements,
            program == ast@,
            called@.len() == statements@.len(),
            forall|i: int|
                0 <= i < statements@.len() ==> #[trigger] called@[i] == (in_force(program, i)
                    && called_within(
                    program,
                    statements@[i]@.prototype.name,
                    statements@.len() as nat,
                )),
            views(reports@) == checked + unused_function_reports(program, index as nat),
        decreases statements@.len() - index,
    {
        let Statement::FunctionDefinition(definition) = &statements[index];
        let ghost read = views(reports@);
        assert(definition@ == program.statements[index as int]);
        let last = find_function(statements, definition.prototype.name.as_str());
        let effective = match last {
            Some(last) => last == index,
            None => false,
        };
        if effective && !same_text(definition.prototype.name.as_str(), "main") && !called[index] {
            let report = Report {
                issue: surround(
                    "function \"",
                    definition.prototype.name.as_str(),
                    "\" is never used",
                ),
                location: definition.location.clone(),
            };
            proof {
                lemma_views_push(reports@, report);
            }
            reports.push(report);
        }
        assert(views(reports@) =~= read + unused_function_report(program, index as int));
        assert(views(reports@) =~= checked + unused_function_reports(
            program,
            (index + 1) as nat,
        ));
        index = index + 1;
    }
    reports
}

} // verus!
