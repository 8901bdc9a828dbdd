use idem::graph::Digraph;
use idem::graph::Edge;
use idem::graph::Node;
use idem::lexing::Lexer;
use idem::parsing::Parser;
use idem::visualization::function_calls_graph;

fn node(id: &str) -> Node {
    Node { id: id.to_string(), label: id.to_string() }
}

fn edge(source: &str, destination: &str) -> Edge {
    Edge { source: source.to_string(), destination: destination.to_string() }
}

#[test]
fn a_new_graph_is_empty() {
    let graph = Digraph::new("title");
    assert_eq!(graph.title, "title");
    assert_eq!(graph.nodes, vec![]);
    assert_eq!(graph.edges, vec![]);
    assert_eq!(graph.to_string(), "digraph \"title\" {\n\n\n}");
}

#[test]
fn a_node_is_written_with_its_label() {
    assert_eq!(
        Node { id: "a".to_string(), label: "b c".to_string() }.to_string(),
        "a [label=\"b c\"];"
    );
}

#[test]
fn an_edge_is_written_as_an_arrow() {
    assert_eq!(edge("a", "b").to_string(), "a -> b;");
}

#[test]
fn a_graph_is_written_in_dot() {
    let mut graph = Digraph::new("g");
    graph.nodes.push(node("a"));
    graph.nodes.push(node("b"));
    graph.edges.push(edge("a", "b"));
    graph.edges.push(edge("b", "a"));
    graph.edges.push(edge("a", "a"));
    assert_eq!(
        graph.to_string(),
        "digraph \"g\" {\n\ta [label=\"a\"];\n\tb [label=\"b\"];\n\ta -> b;\n\tb -> a;\n\ta -> a;\n}"
    );
    let mut single = Digraph::new("s");
    single.nodes.push(node("n"));
    assert_eq!(single.to_string(), "digraph \"s\" {\n\tn [label=\"n\"];\n\n}");
}

#[test]
fn the_graph_of_calls_has_a_node_for_each_definition_and_an_edge_for_each_call() {
    let tokens = Lexer::new("a.id").tokenize(
        "f(a){ if g(a) { h(f(1), 2) } else { print(a) } } g(a){ a } main(){ f(g(3)) }".chars(),
    );
    let mut parser = Parser::new(&tokens);
    let ast = parser.parse().unwrap();
    let graph = function_calls_graph("a.id", &ast);
    assert_eq!(graph.title, "a.id");
    assert_eq!(graph.nodes, vec![node("f"), node("g"), node("main")]);
    assert_eq!(
        graph.edges,
        vec![
            edge("f", "g"),
            edge("f", "h"),
            edge("f", "f"),
            edge("f", "print"),
            edge("main", "f"),
            edge("main", "g"),
        ]
    );
}

#[test]
fn the_graph_of_an_empty_program_is_empty() {
    let tokens = Lexer::new("a.id").tokenize("".chars());
    let mut parser = Parser::new(&tokens);
    let ast = parser.parse().unwrap();
    assert_eq!(function_calls_graph("p", &ast), Digraph::new("p"));
}
