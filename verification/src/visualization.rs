//! Visualizations of a program: the graph of its function calls.

use vstd::prelude::*;

use crate::ast::lemma_parameters_view;
use crate::ast::AST;
use crate::ast::Expression;
use crate::ast::ExpressionView;
use crate::ast::ProgramView;
use crate::ast::Statement;
use crate::graph::Digraph;
use crate::graph::DigraphView;
use crate::graph::Edge;
use crate::graph::EdgeView;
use crate::graph::Node;
use crate::graph::NodeView;
use crate::text::lemma_views_push;
use crate::text::views;

verus! {

/// The calls in an expression that stands in the function `parent`, as edges from `parent`
/// to the function called: a call comes before the calls in its parameters, and the
/// parameters, like the parts of a branch, come from left to right.
pub open spec fn call_edges(expression: ExpressionView, parent: Seq<char>) -> Seq<EdgeView>
    decreases expression,
{
    match expression {
        ExpressionView::FunctionCall { name, parameters, .. } => seq![
            EdgeView { source: parent, destination: name },
        ] + calls_edges(parameters, parent),
        ExpressionView::Branch { condition, then_branch, else_branch, .. } => call_edges(
            *condition,
            parent,
        ) + call_edges(*then_branch, parent) + call_edges(*else_branch, parent),
        _ => seq![],
    }
}

/// The calls in a list of expressions, one expression after the other.
pub open spec fn calls_edges(expressions: Seq<ExpressionView>, parent: Seq<char>) -> Seq<
    EdgeView,
>
    decreases expressions,
{
    if expressions.len() == 0 {
        seq![]
    } else {
        calls_edges(expressions.drop_last(), parent) + call_edges(expressions.last(), parent)
    }
}

/// The nodes of the first `count` functions of a program: one node for each definition,
/// with the function's name as id and as label.
pub open spec fn function_nodes(program: ProgramView, count: nat) -> Seq<NodeView> {
    Seq::new(
        count,
        |i: int|
            NodeView {
                id: program.statements[i].prototype.name,
                label: program.statements[i].prototype.name,
            },
    )
}

/// The edges of the first `count` functions of a program, one function after the other.
pub open spec fn function_edges(program: ProgramView, count: nat) -> Seq<EdgeView>
    decreases count,
{
    if count == 0 {
        seq![]
    } else {
        function_edges(program, (count - 1) as nat) + call_edges(
            program.statements[count - 1].body,
            program.statements[count - 1].prototype.name,
        )
    }
}

/// The graph of the function calls of a program, with `path` as title: a node for each
/// definition and an edge for each call.
pub fn function_calls_graph(path: &str, ast: &AST) -> (graph: Digraph)
    ensures
        graph@ == (DigraphView {
            title: path@,
            nodes: function_nodes(ast@, ast@.statements.len()),
            edges: function_edges(ast@, ast@.statements.len()),
        }),
{
    let mut graph = Digraph::new(path);
    let mut index: usize = 0;
    assert(views(graph.nodes@) =~= function_nodes(ast@, 0));
    assert(views(graph.edges@) =~= function_edges(ast@, 0));
    while index < ast.statements.len()
        invariant
            index <= ast.statements@.len(),
            graph.title@ == path@,
            views(graph.nodes@) == function_nodes(ast@, index as nat),
            views(graph.edges@) == function_edges(ast@, index as nat),
        decreases ast.statements@.len() - index,
    {
        let Statement::FunctionDefinition(function) = &ast.statements[index];
        assert(function@ == ast@.statements[index as int]);
        let node = Node { id: function.prototype.name.clone(), label: function.prototype.name.clone() };
        proof {
            lemma_views_push(graph.nodes@, node);
            assert(function_nodes(ast@, index as nat).push(node@) =~= function_nodes(
                ast@,
                (index + 1) as nat,
            ));
        }
        graph.nodes.push(node);
        function_calls_extract_from_expression(
            &function.body,
            function.prototype.name.as_str(),
            &mut graph,
        );
        index = index + 1;
    }
    graph
}

/// Adds to the graph the edges of the calls in an expression of the function `parent`.
fn function_calls_extract_from_expression(
    expression: &Expression,
    parent_function: &str,
    graph: &mut Digraph,
)
    ensures
        final(graph).title == old(graph).title,
        final(graph).nodes == old(graph).nodes,
        views(final(graph).edges@) == views(old(graph).edges@) + call_edges(
            expression@,
            parent_function@,
        ),
    decreases expression,
{
    match expression {
        Expression::FunctionCall(call) => {
            proof {
                lemma_parameters_view(*call);
            }
            let edge = Edge { source: parent_function.to_owned(), destination: call.name.clone() };
            proof {
                lemma_views_push(graph.edges@, edge);
            }
            graph.edges.push(edge);
            let ghost own = views(graph.edges@);
            let ghost parameters = views(call.parameters@);
            let mut index: usize = 0;
            assert(parameters.take(0) =~= Seq::<ExpressionView>::empty());
            assert(own + calls_edges(parameters.take(0), parent_function@) =~= own);
            while index < call.parameters.len()
                invariant
                    index <= call.parameters@.len(),
                    *expression == Expression::FunctionCall(*call),
                    parameters == views(call.parameters@),
                    graph.title == old(graph).title,
                    graph.nodes == old(graph).nodes,
                    views(graph.edges@) == own + calls_edges(
                        parameters.take(index as int),
                        parent_function@,
                    ),
                decreases call.parameters@.len() - index,
            {
                proof {
                    assert(parameters.take(index + 1).drop_last() =~= parameters.take(
                        index as int,
                    ));
                    assert(decreases_to!(*expression => expression->FunctionCall_0));
                }
                function_calls_extract_from_expression(
                    &call.parameters[index],
                    parent_function,
                    graph,
                );
                index = index + 1;
            }
            assert(parameters.take(index as int) =~= parameters);
            assert(views(graph.edges@) =~= views(old(graph).edges@) + call_edges(
                expression@,
                parent_function@,
            ));
        },
        Expression::Branch(branch) => {
            function_calls_extract_from_expression(&*branch.condition, parent_function, graph);
            function_calls_extract_from_expression(&*branch.then_branch, parent_function, graph);
            function_calls_extract_from_expression(&*branch.else_branch, parent_function, graph);
            assert(views(graph.edges@) =~= views(old(graph).edges@) + call_edges(
                expression@,
                parent_function@,
            ));
        },
        _ => {
            assert(views(graph.edges@) =~= views(old(graph).edges@) + call_edges(
                expression@,
                parent_function@,
            ));
        },
    }
}

} // verus!
