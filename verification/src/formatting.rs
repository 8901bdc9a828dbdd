//! Formatting: an abstract syntax tree written back as source text.

use vstd::prelude::*;
use vstd::std_specs::iter::IteratorSpec;

use crate::ast::lemma_parameters_view;
use crate::ast::AST;
use crate::ast::Branch;
use crate::ast::Expression;
use crate::ast::ExpressionView;
use crate::ast::FunctionCall;
use crate::ast::FunctionDefinition;
use crate::ast::FunctionDefinitionView;
use crate::ast::FunctionPrototype;
use crate::ast::FunctionPrototypeView;
use crate::ast::Literal;
use crate::ast::ProgramView;
use crate::ast::Statement;
use crate::ast::Variable;
use crate::ast::VariableDefinition;
use crate::ast::VariableDefinitionView;
use crate::names::parameter_names;
use crate::text::decimal;
use crate::text::joined;
use crate::text::push_decimal;
use crate::text::push_text;
use crate::text::views;

verus! {

/// What indentation makes of the character at `index` of a text: a line feed that is not
/// the last character is followed by a tab, and one that is the last character is dropped;
/// a carriage return before a line feed is dropped; any other character stays.
pub open spec fn indented_piece(text: Seq<char>, index: int) -> Seq<char> {
    if text[index] == '\n' {
        if index + 1 < text.len() {
            seq!['\n', '\t']
        } else {
            seq![]
        }
    } else if text[index] == '\r' && index + 1 < text.len() && text[index + 1] == '\n' {
        seq![]
    } else {
        seq![text[index]]
    }
}

/// What indentation makes of the first `count` characters of a text.
pub open spec fn indented_pieces(text: Seq<char>, count: nat) -> Seq<char>
    decreases count,
{
    if count == 0 {
        seq![]
    } else {
        indented_pieces(text, (count - 1) as nat) + indented_piece(text, count - 1)
    }
}

/// A text with each of its lines after a tab. Lines end at a line feed, or at a carriage
/// return and a line feed; the lines of the result are joined by line feeds.
pub open spec fn indented(text: Seq<char>) -> Seq<char> {
    if text.len() == 0 {
        seq![]
    } else {
        seq!['\t'] + indented_pieces(text, text.len())
    }
}

/// What indentation makes of the first characters of a text is what it makes of them in
/// a longer text, as far as the character that follows them is the same.
pub proof fn lemma_indented_pieces_extend(text: Seq<char>, longer: Seq<char>, count: nat)
    requires
        count < text.len() <= longer.len(),
        forall|i: int| 0 <= i < text.len() ==> text[i] == longer[i],
    ensures
        indented_pieces(text, count) == indented_pieces(longer, count),
    decreases count,
{
    if count > 0 {
        lemma_indented_pieces_extend(text, longer, (count - 1) as nat);
    }
}

/// Writes a text with each of its lines after a tab.
pub fn indent(text: &str) -> (result: String)
    ensures
        result@ == indented(text@),
{
    broadcast use vstd::string::group_string_axioms;

    let mut chars = text.chars();
    let mut result = String::new();
    let mut held: Option<char> = None;
    let ghost mut done: Seq<char> = Seq::empty();
    loop
        invariant
            text@ == done + chars.remaining(),
            chars.obeys_prophetic_iter_laws(),
            chars.decrease() is Some,
            held is None <==> done.len() == 0,
            held matches Some(c) ==> c == done.last(),
            done.len() == 0 ==> result@ == Seq::<char>::empty(),
            done.len() > 0 ==> result@ == seq!['\t'] + indented_pieces(
                done,
                (done.len() - 1) as nat,
            ),
        decreases chars.decrease()->0,
    {
        let next = chars.next();
        match held {
            None => {
                match next {
                    None => {
                        assert(text@ =~= done);
                        return result;
                    },
                    Some(c) => {
                        proof {
                            assert(text@ =~= done.push(c) + chars.remaining());
                            done = done.push(c);
                        }
                        result.push('\t');
                        assert(result@ =~= seq!['\t'] + indented_pieces(done, 0));
                        held = Some(c);
                    },
                }
            },
            Some(previous) => {
                let ghost before = done;
                let ghost written = result@;
                match next {
                    None => {
                        assert(text@ =~= done);
                        if previous != '\n' {
                            result.push(previous);
                        }
                        assert(result@ =~= written + indented_piece(done, done.len() - 1));
                        return result;
                    },
                    Some(c) => {
                        proof {
                            assert(text@ =~= done.push(c) + chars.remaining());
                            done = done.push(c);
                            lemma_indented_pieces_extend(
                                before,
                                done,
                                (before.len() - 1) as nat,
                            );
                        }
                        if previous == '\n' {
                            result.push('\n');
                            result.push('\t');
                            assert(result@ =~= written + seq!['\n', '\t']);
                        } else if previous == '\r' && c == '\n' {
                            assert(result@ =~= written + Seq::<char>::empty());
                        } else {
                            result.push(previous);
                        }
                        assert(result@ =~= written + indented_piece(done, before.len() - 1));
                        held = Some(c);
                    },
                }
            },
        }
    }
}

/// The texts of a list of expressions, in order.
pub open spec fn expressions_texts(expressions: Seq<ExpressionView>) -> Seq<Seq<char>>
    decreases expressions,
{
    if expressions.len() == 0 {
        seq![]
    } else {
        expressions_texts(expressions.drop_last()).push(expression_text(expressions.last()))
    }
}

/// The text of a block: a text between braces, indented, on lines of its own.
pub open spec fn block_text(text: Seq<char>) -> Seq<char> {
    " {\n"@ + indented(text) + "\n}"@
}

/// The text of an expression: a literal in decimal; a variable by its name; a call as its
/// name and, in parentheses, its parameters separated by a comma and a space; a branch as
/// `if`, the condition, the block of the first expression and, unless the second is empty,
/// `else` and its block; nothing for the empty expression.
pub open spec fn expression_text(expression: ExpressionView) -> Seq<char>
    decreases expression,
{
    match expression {
        ExpressionView::Literal { value, .. } => decimal(value as nat),
        ExpressionView::Variable { name, .. } => name,
        ExpressionView::FunctionCall { name, parameters, .. } => name + "("@ + joined(
            expressions_texts(parameters),
            ", "@,
        ) + ")"@,
        ExpressionView::Branch { condition, then_branch, else_branch, .. } => "if "@
            + expression_text(*condition) + block_text(expression_text(*then_branch)) + (if *else_branch
            is Empty {
            seq![]
        } else {
            " else"@ + block_text(expression_text(*else_branch))
        }),
        ExpressionView::Empty => seq![],
    }
}

/// The text of a prototype: the name and, in parentheses, the parameters separated by a
/// comma and a space.
pub open spec fn prototype_text(prototype: FunctionPrototypeView) -> Seq<char> {
    prototype.name + "("@ + joined(parameter_names(prototype.arguments), ", "@) + ")"@
}

/// The text of a definition: the prototype, then the block of the body.
pub open spec fn definition_text(definition: FunctionDefinitionView) -> Seq<char> {
    prototype_text(definition.prototype) + block_text(expression_text(definition.body))
}

/// The texts of the definitions of a program, in order.
pub open spec fn definition_texts(program: ProgramView) -> Seq<Seq<char>> {
    Seq::new(program.statements.len(), |i: int| definition_text(program.statements[i]))
}

/// The text of a program: its definitions, with an empty line between each two of them.
pub open spec fn program_text(program: ProgramView) -> Seq<char> {
    joined(definition_texts(program), "\n\n"@)
}

/// What can be written as source text.
pub trait Formattable {
    /// The source text.
    spec fn text(&self) -> Seq<char>;

    /// Writes the source text.
    fn format(&self) -> (text: String)
        ensures
            text@ == self.text(),
    ;
}

/// Appends the block of a text.
fn push_block(text: &mut String, body: &str)
    ensures
        final(text)@ == old(text)@ + block_text(body@),
{
    push_text(text, " {\n");
    push_text(text, indent(body).as_str());
    push_text(text, "\n}");
    assert(text@ =~= old(text)@ + block_text(body@));
}

/// Writes an expression.
fn format_expression(expression: &Expression) -> (text: String)
    ensures
        text@ == expression_text(expression@),
    decreases expression, 1nat,
{
    match expression {
        Expression::Literal(Literal::Number(number)) => {
            let mut text = String::new();
            push_decimal(&mut text, number.value as u64);
            assert(text@ =~= decimal(number.value as nat));
            text
        },
        Expression::Variable(variable) => variable.name.clone(),
        Expression::Branch(branch) => format_branch(branch),
        Expression::FunctionCall(call) => {
            proof {
                lemma_parameters_view(*call);
            }
            format_call(call)
        },
        Expression::Empty => String::new(),
    }
}

/// The text of a call with the given name and parameters.
pub open spec fn call_text(call: FunctionCall) -> Seq<char> {
    call.name@ + "("@ + joined(expressions_texts(views(call.parameters@)), ", "@) + ")"@
}

/// The text of a branch with the given parts.
pub open spec fn branch_text(branch: Branch) -> Seq<char> {
    "if "@ + expression_text((*branch.condition)@) + block_text(
        expression_text((*branch.then_branch)@),
    ) + (if (*branch.else_branch)@ is Empty {
        seq![]
    } else {
        " else"@ + block_text(expression_text((*branch.else_branch)@))
    })
}

/// Writes a call.
fn format_call(call: &FunctionCall) -> (text: String)
    ensures
        text@ == call_text(*call),
    decreases call, 0nat,
{
    let mut text = call.name.clone();
    push_text(&mut text, "(");
    let ghost head = text@;
    let ghost parameters = views(call.parameters@);
    let mut index: usize = 0;
    assert(parameters.take(0) =~= Seq::<ExpressionView>::empty());
    assert(text@ =~= head + joined(expressions_texts(parameters.take(0)), ", "@));
    while index < call.parameters.len()
        invariant
            index <= call.parameters@.len(),
            parameters == views(call.parameters@),
            text@ == head + joined(expressions_texts(parameters.take(index as int)), ", "@),
            expressions_texts(parameters.take(index as int)).len() == index,
        decreases call.parameters@.len() - index,
    {
        let ghost before = parameters.take(index as int);
        let ghost after = parameters.take(index + 1);
        proof {
            assert(after.drop_last() =~= before);
            assert(after.last() == call.parameters@[index as int]@);
            assert(expressions_texts(after).drop_last() =~= expressions_texts(before));
            assert(decreases_to!(call => call.parameters@[index as int]));
        }
        if index > 0 {
            push_text(&mut text, ", ");
        }
        push_text(&mut text, format_expression(&call.parameters[index]).as_str());
        assert(text@ =~= head + joined(expressions_texts(after), ", "@));
        index = index + 1;
    }
    assert(parameters.take(index as int) =~= parameters);
    push_text(&mut text, ")");
    text
}

/// Writes a branch.
fn format_branch(branch: &Branch) -> (text: String)
    ensures
        text@ == branch_text(*branch),
        text@ == expression_text(Expression::Branch(*branch)@),
    decreases branch, 0nat,
{
    let mut text = "if ".to_owned();
    push_text(&mut text, format_expression(&*branch.condition).as_str());
    push_block(&mut text, format_expression(&*branch.then_branch).as_str());
    match &*branch.else_branch {
        Expression::Empty => {
            assert((*branch.else_branch)@ is Empty);
            assert(text@ =~= branch_text(*branch));
        },
        other => {
            assert(!((*branch.else_branch)@ is Empty));
            push_text(&mut text, " else");
            push_block(&mut text, format_expression(other).as_str());
            assert(text@ =~= branch_text(*branch));
        },
    }
    text
}

impl Formattable for Expression {
    open spec fn text(&self) -> Seq<char> {
        expression_text(self@)
    }

    fn format(&self) -> (text: String) {
        format_expression(self)
    }
}

impl Formattable for Literal {
    open spec fn text(&self) -> Seq<char> {
        match self {
            Literal::Number(number) => decimal(number.value as nat),
        }
    }

    fn format(&self) -> (text: String) {
        match self {
            Literal::Number(number) => {
                let mut text = String::new();
                push_decimal(&mut text, number.value as u64);
                assert(text@ =~= decimal(number.value as nat));
                text
            },
        }
    }
}

impl Formattable for Variable {
    open spec fn text(&self) -> Seq<char> {
        self.name@
    }

    fn format(&self) -> (text: String) {
        self.name.clone()
    }
}

impl Formattable for FunctionCall {
    open spec fn text(&self) -> Seq<char> {
        call_text(*self)
    }

    fn format(&self) -> (text: String) {
        format_call(self)
    }
}

impl Formattable for Branch {
    open spec fn text(&self) -> Seq<char> {
        branch_text(*self)
    }

    fn format(&self) -> (text: String) {
        format_branch(self)
    }
}

impl Formattable for VariableDefinition {
    open spec fn text(&self) -> Seq<char> {
        self.name@
    }

    fn format(&self) -> (text: String) {
        self.name.clone()
    }
}

impl Formattable for FunctionPrototype {
    open spec fn text(&self) -> Seq<char> {
        prototype_text(self@)
    }

    fn format(&self) -> (text: String) {
        let mut text = self.name.clone();
        push_text(&mut text, "(");
        let ghost head = text@;
        let ghost names = parameter_names(self@.arguments);
        let mut index: usize = 0;
        assert(names.take(0) =~= Seq::<Seq<char>>::empty());
        assert(text@ =~= head + joined(names.take(0), ", "@));
        while index < self.arguments.len()
            invariant
                index <= self.arguments@.len(),
                names == parameter_names(self@.arguments),
                text@ == head + joined(names.take(index as int), ", "@),
            decreases self.arguments@.len() - index,
        {
            let ghost before = names.take(index as int);
            let ghost after = names.take(index + 1);
            if index > 0 {
                push_text(&mut text, ", ");
            }
            push_text(&mut text, self.arguments[index].format().as_str());
            proof {
                assert(after.drop_last() =~= before);
                assert(after.last() == self.arguments@[index as int]@.name);
                assert(text@ =~= head + joined(after, ", "@));
            }
            index = index + 1;
        }
        assert(names.take(index as int) =~= names);
        push_text(&mut text, ")");
        text
    }
}

impl Formattable for FunctionDefinition {
    open spec fn text(&self) -> Seq<char> {
        definition_text(self@)
    }

    fn format(&self) -> (text: String) {
        let mut text = self.prototype.format();
        push_block(&mut text, self.body.format().as_str());
        text
    }
}

impl Formattable for Statement {
    open spec fn text(&self) -> Seq<char> {
        definition_text(self@)
    }

    fn format(&self) -> (text: String) {
        match self {
            Statement::FunctionDefinition(definition) => definition.format(),
        }
    }
}

impl Formattable for AST {
    open spec fn text(&self) -> Seq<char> {
        program_text(self@)
    }

    fn format(&self) -> (text: String) {
        let mut text = String::new();
        let ghost texts = definition_texts(self@);
        let mut index: usize = 0;
        assert(texts.take(0) =~= Seq::<Seq<char>>::empty());
        assert(text@ =~= joined(texts.take(0), "\n\n"@));
        while index < self.statements.len()
            invariant
                index <= self.statements@.len(),
                texts == definition_texts(self@),
                text@ == joined(texts.take(index as int), "\n\n"@),
            decreases self.statements@.len() - index,
        {
            let ghost before = texts.take(index as int);
            let ghost after = texts.take(index + 1);
            if index > 0 {
                push_text(&mut text, "\n\n");
            }
            push_text(&mut text, self.statements[index].format().as_str());
            proof {
                assert(after.drop_last() =~= before);
                assert(after.last() == definition_text(self.statements@[index as int]@));
                assert(text@ =~= joined(after, "\n\n"@));
            }
            index = index + 1;
        }
        assert(texts.take(index as int) =~= texts);
        text
    }
}

} // verus!
